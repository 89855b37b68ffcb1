use python_package_manager::{
    decode_manifest, delete_package, install_from_requirements, install_packages, list_packages,
    load_packages, save_packages, update_package, PackageRegistry,
};

#[test]
fn test_load_empty_packages() {
    let packages = load_packages(Some("{}"));
    assert_eq!(packages, PackageRegistry::new());
}

#[test]
fn test_load_packages() {
    let mut expected_packages = PackageRegistry::new();
    expected_packages.insert("pandas".to_string(), "1.0.0".to_string());
    let packages = load_packages(Some(r#"{"packages":{"pandas":"1.0.0"}}"#));
    assert_eq!(packages, expected_packages);
}

#[test]
fn test_save_packages() {
    let mut packages: PackageRegistry = PackageRegistry::new();
    packages.insert("pandas".to_string(), "1.0.0".to_string());
    let data = save_packages(&packages);
    assert_eq!(data, r#"{
  "packages": {
    "pandas": "1.0.0"
  }
}"#);
}

#[test]
fn test_install_packages() {
    let file = save_packages(&PackageRegistry::new());
    let mut packages = load_packages(Some(&file));
    let package_list = vec!["pandas".to_string(), "numpy".to_string(), "scipy".to_string()];
    install_packages(&package_list, &[true, true, true], &mut packages);
    let file = save_packages(&packages);
    let updated_packages = load_packages(Some(&file));

    for package in &package_list {
        assert_eq!(updated_packages.get(package).unwrap(), "latest");
    }
}

#[test]
fn test_delete_package() {
    let mut packages = PackageRegistry::new();
    packages.insert("pandas".to_string(), "1.0.0".to_string());
    let _file = save_packages(&packages);

    delete_package("pandas", true, &mut packages);
    let file = save_packages(&packages);
    let updated_packages = load_packages(Some(&file));
    assert!(updated_packages.get("pandas").is_none());
}

#[test]
fn test_update_package() {
    let mut packages = PackageRegistry::new();
    packages.insert("pandas".to_string(), "1.0.0".to_string());
    let _file = save_packages(&packages);

    update_package("pandas", "2.0.0", true, &mut packages);
    let file = save_packages(&packages);
    let updated_packages = load_packages(Some(&file));
    assert_eq!(updated_packages.get("pandas").unwrap(), "2.0.0");
}

#[test]
fn test_list_packages() {
    let mut packages = PackageRegistry::new();
    packages.insert("pandas".to_string(), "1.0.0".to_string());
    let _file = save_packages(&packages);
    let lines = list_packages(&packages);
    assert_eq!(lines, vec!["pandas: 1.0.0".to_string()]);
}

#[test]
fn test_install_from_requirements() {
    let mut initial_packages = PackageRegistry::new();
    initial_packages.insert("pandas".to_string(), "1.0.0".to_string());
    initial_packages.insert("numpy".to_string(), "1.19.5".to_string());
    let file = save_packages(&initial_packages);

    let requirements = decode_manifest(&file).unwrap();
    let mut packages = PackageRegistry::new();
    install_from_requirements(&requirements, &[true, true], &mut packages);

    let file = save_packages(&packages);
    let updated_packages = load_packages(Some(&file));

    assert_eq!(updated_packages.get("pandas").unwrap(), "1.0.0");
    assert_eq!(updated_packages.get("numpy").unwrap(), "1.19.5");
}
