use python_package_manager::{
    decode_manifest, delete_package, install_command, install_from_requirements,
    install_packages, list_packages, load_packages, pinned_install_command, requirements_path,
    save_packages, uninstall_command, update_package, PackageRegistry,
};

fn registry(entries: &[(&str, &str)]) -> PackageRegistry {
    let mut r = PackageRegistry::new();
    for (k, v) in entries {
        r.insert(k.to_string(), v.to_string());
    }
    r
}

#[test]
fn missing_manifest_loads_empty() {
    assert_eq!(load_packages(None), PackageRegistry::new());
}

#[test]
fn empty_manifest_loads_empty() {
    assert_eq!(load_packages(Some("")), PackageRegistry::new());
}

#[test]
fn malformed_manifests_load_empty() {
    for text in [
        "not json",
        "{\"packages\": ",
        "[]",
        "{\"packages\": [\"pandas\"]}",
        "{\"packages\": {\"pandas\": 1}}",
        "{\"other\": {}}",
        "{\"packages\": {}} trailing",
    ] {
        assert_eq!(load_packages(Some(text)), PackageRegistry::new(), "{}", text);
        assert!(decode_manifest(text).is_none(), "{}", text);
    }
}

#[test]
fn manifest_members_besides_packages_are_ignored() {
    let r = load_packages(Some(r#"{"name": 3, "packages": {"numpy": "1.19.5"}, "z": [1, {}]}"#));
    assert_eq!(r, registry(&[("numpy", "1.19.5")]));
}

#[test]
fn save_then_load_round_trips() {
    let cases = vec![
        registry(&[]),
        registry(&[("pandas", "1.0.0")]),
        registry(&[("scipy", "latest"), ("numpy", "1.19.5"), ("pandas", "2.0.0")]),
        registry(&[("we\"ird\\name", "tab\there"), ("ünï", "line\nbreak")]),
    ];
    for r in cases {
        let text = save_packages(&r);
        assert_eq!(load_packages(Some(&text)), r);
    }
}

#[test]
fn save_of_empty_registry() {
    assert_eq!(save_packages(&PackageRegistry::new()), "{\n  \"packages\": {}\n}");
}

#[test]
fn save_sorts_by_name_and_escapes() {
    let r = registry(&[("scipy", "latest"), ("a\"b", "1.0")]);
    assert_eq!(
        save_packages(&r),
        "{\n  \"packages\": {\n    \"a\\\"b\": \"1.0\",\n    \"scipy\": \"latest\"\n  }\n}"
    );
}

#[test]
fn install_records_latest_on_success() {
    let mut r = PackageRegistry::new();
    let report = install_packages(&["pandas".to_string()], &[true], &mut r);
    assert_eq!(r, registry(&[("pandas", "latest")]));
    assert_eq!(report, vec!["Package pandas installed successfully".to_string()]);
}

#[test]
fn install_goes_on_after_a_failure() {
    let mut r = registry(&[("numpy", "1.19.5")]);
    let names = vec!["numpy".to_string(), "pandas".to_string(), "scipy".to_string()];
    let report = install_packages(&names, &[false, true, false], &mut r);
    assert_eq!(r, registry(&[("numpy", "1.19.5"), ("pandas", "latest")]));
    assert_eq!(
        report,
        vec![
            "Failed to install package numpy".to_string(),
            "Package pandas installed successfully".to_string(),
            "Failed to install package scipy".to_string(),
        ]
    );
}

#[test]
fn update_replaces_version_on_success() {
    let mut r = registry(&[("pandas", "1.0.0")]);
    let line = update_package("pandas", "2.0.0", true, &mut r);
    assert_eq!(r, registry(&[("pandas", "2.0.0")]));
    assert_eq!(line, "Package pandas updated successfully to version 2.0.0");
}

#[test]
fn update_of_a_new_name_adds_it() {
    let mut r = PackageRegistry::new();
    update_package("numpy", "1.19.5", true, &mut r);
    assert_eq!(r, registry(&[("numpy", "1.19.5")]));
}

#[test]
fn failures_leave_the_registry_unchanged() {
    let before = registry(&[("pandas", "1.0.0")]);
    let mut r = registry(&[("pandas", "1.0.0")]);
    assert_eq!(update_package("pandas", "2.0.0", false, &mut r), "Failed to update package pandas");
    assert_eq!(delete_package("pandas", false, &mut r), "Failed to delete package pandas");
    install_packages(&["pandas".to_string()], &[false], &mut r);
    let req = registry(&[("pandas", "3.0.0")]);
    install_from_requirements(&req, &[false], &mut r);
    assert_eq!(r, before);
}

#[test]
fn delete_removes_the_name() {
    let mut r = registry(&[("pandas", "1.0.0"), ("numpy", "1.19.5")]);
    let line = delete_package("pandas", true, &mut r);
    assert_eq!(r, registry(&[("numpy", "1.19.5")]));
    assert_eq!(line, "Package pandas deleted successfully");
}

#[test]
fn delete_of_an_absent_name_changes_nothing() {
    let mut r = registry(&[("numpy", "1.19.5")]);
    delete_package("pandas", true, &mut r);
    assert_eq!(r, registry(&[("numpy", "1.19.5")]));
}

#[test]
fn requirements_keep_their_versions() {
    let req = decode_manifest(r#"{"packages":{"pandas":"1.0.0","numpy":"1.19.5"}}"#).unwrap();
    let mut r = PackageRegistry::new();
    let report = install_from_requirements(&req, &[true, true], &mut r);
    assert_eq!(r, registry(&[("pandas", "1.0.0"), ("numpy", "1.19.5")]));
    assert_eq!(
        report,
        vec![
            "Package numpy installed successfully".to_string(),
            "Package pandas installed successfully".to_string(),
        ]
    );
}

#[test]
fn list_of_empty_registry_is_empty() {
    assert!(list_packages(&PackageRegistry::new()).is_empty());
}

#[test]
fn list_has_one_line_per_entry() {
    let r = registry(&[("pandas", "1.0.0"), ("numpy", "latest")]);
    assert_eq!(
        list_packages(&r),
        vec!["numpy: latest".to_string(), "pandas: 1.0.0".to_string()]
    );
}

#[test]
fn installer_commands() {
    assert_eq!(install_command("pandas"), "pip install pandas");
    assert_eq!(pinned_install_command("pandas", "2.0.0"), "pip install pandas==2.0.0");
    assert_eq!(uninstall_command("pandas"), "pip uninstall -y pandas");
}

#[test]
fn requirements_argument() {
    assert_eq!(requirements_path(&["-r=reqs.json".to_string()]), Some("reqs.json".to_string()));
    assert_eq!(requirements_path(&["-r=".to_string()]), Some(String::new()));
    assert_eq!(requirements_path(&["pandas".to_string()]), None);
    assert_eq!(requirements_path(&["-r".to_string()]), None);
    assert_eq!(requirements_path(&["-r=a".to_string(), "b".to_string()]), None);
    assert_eq!(requirements_path(&[]), None);
}

#[test]
fn get_and_keys_order() {
    let r = registry(&[("b", "2"), ("a", "1"), ("c", "3"), ("a", "4")]);
    assert_eq!(r.get("a").unwrap(), "4");
    assert!(r.get("d").is_none());
    let names: Vec<String> = r.pairs().into_iter().map(|p| p.0).collect();
    assert_eq!(names, vec!["a".to_string(), "b".to_string(), "c".to_string()]);
}
