use vstd::prelude::*;

use crate::registry::{map_of, pair_view, PackageRegistry};

verus! {

/// The installer command that installs the newest release of `name`.
pub open spec fn install_command_text(name: Seq<char>) -> Seq<char> {
    "pip install "@ + name
}

/// The installer command that installs `version` of `name`.
pub open spec fn pinned_install_command_text(name: Seq<char>, version: Seq<char>) -> Seq<char> {
    "pip install "@ + name + "=="@ + version
}

/// The installer command that removes `name` without asking.
pub open spec fn uninstall_command_text(name: Seq<char>) -> Seq<char> {
    "pip uninstall -y "@ + name
}

/// The version recorded for a package installed without a version.
pub open spec fn latest() -> Seq<char> {
    "latest"@
}

/// Each name paired with the version recorded for a bare install.
pub open spec fn latest_entries(names: Seq<Seq<char>>) -> Seq<(Seq<char>, Seq<char>)> {
    names.map_values(|n: Seq<char>| (n, latest()))
}

/// The registry after the installs of `entries`, in order, where `ok[i]`
/// tells whether the installer succeeded on `entries[i]`: each success
/// records its entry, each failure leaves the registry as it was.
pub open spec fn apply_installs(
    m: Map<Seq<char>, Seq<char>>,
    entries: Seq<(Seq<char>, Seq<char>)>,
    ok: Seq<bool>,
) -> Map<Seq<char>, Seq<char>>
    decreases entries.len(),
{
    if entries.len() == 0 {
        m
    } else {
        let prev = apply_installs(m, entries.drop_last(), ok.drop_last());
        if ok.last() {
            prev.insert(entries.last().0, entries.last().1)
        } else {
            prev
        }
    }
}

/// The report line of an install.
pub open spec fn install_message(name: Seq<char>, ok: bool) -> Seq<char> {
    if ok {
        "Package "@ + name + " installed successfully"@
    } else {
        "Failed to install package "@ + name
    }
}

/// The report line of a removal.
pub open spec fn delete_message(name: Seq<char>, ok: bool) -> Seq<char> {
    if ok {
        "Package "@ + name + " deleted successfully"@
    } else {
        "Failed to delete package "@ + name
    }
}

/// The report line of an update.
pub open spec fn update_message(name: Seq<char>, version: Seq<char>, ok: bool) -> Seq<char> {
    if ok {
        "Package "@ + name + " updated successfully to version "@ + version
    } else {
        "Failed to update package "@ + name
    }
}

/// The line that lists one entry.
pub open spec fn list_line(e: (Seq<char>, Seq<char>)) -> Seq<char> {
    e.0 + ": "@ + e.1
}

/// The concatenation of two strings.
fn concat(a: &str, b: &str) -> (r: String)
    ensures
        r@ == a@ + b@,
{
    let mut r = a.to_string();
    r.append(b);
    r
}

/// The command line for a bare install of `name`.
pub fn install_command(name: &str) -> (r: String)
    ensures
        r@ == install_command_text(name@),
{
    concat("pip install ", name)
}

/// The command line for the install of `version` of `name`.
pub fn pinned_install_command(name: &str, version: &str) -> (r: String)
    ensures
        r@ == pinned_install_command_text(name@, version@),
{
    let mut r = concat("pip install ", name);
    r.append("==");
    r.append(version);
    r
}

/// The command line that removes `name`.
pub fn uninstall_command(name: &str) -> (r: String)
    ensures
        r@ == uninstall_command_text(name@),
{
    concat("pip uninstall -y ", name)
}

/// The report line of one install.
fn install_report(name: &str, ok: bool) -> (r: String)
    ensures
        r@ == install_message(name@, ok),
{
    if ok {
        let mut r = concat("Package ", name);
        r.append(" installed successfully");
        r
    } else {
        concat("Failed to install package ", name)
    }
}

/// Records the outcome of one install: `version` for `name` on success,
/// nothing on failure.
fn record_install(name: &String, version: &String, ok: bool, packages: &mut PackageRegistry) -> (r:
    String)
    ensures
        final(packages)@ == (if ok {
            old(packages)@.insert(name@, version@)
        } else {
            old(packages)@
        }),
        r@ == install_message(name@, ok),
{
    if ok {
        packages.insert(name.clone(), version.clone());
    }
    install_report(name.as_str(), ok)
}

/// Records bare installs of `package_names`, where `succeeded[i]` is whether
/// the installer's run of `install_command(package_names[i])` exited with
/// success. Returns one report line per name.
pub fn install_packages(package_names: &[String], succeeded: &[bool], packages: &mut PackageRegistry) -> (report: Vec<String>)
    requires
        package_names.len() == succeeded.len(),
    ensures
        final(packages)@ == apply_installs(
            old(packages)@,
            latest_entries(package_names@.map_values(|s: String| s@)),
            succeeded@,
        ),
        report.len() == package_names.len(),
        forall|i: int|
            0 <= i < report.len() ==> #[trigger] report@[i]@ == install_message(
                package_names@[i]@,
                succeeded@[i],
            ),
{
    let ghost names = package_names@.map_values(|s: String| s@);
    let ghost m0 = packages@;
    let latest_version = "latest".to_string();
    let mut report: Vec<String> = Vec::new();
    let mut i: usize = 0;
    while i < package_names.len()
        invariant
            i <= package_names.len(),
            package_names.len() == succeeded.len(),
            names == package_names@.map_values(|s: String| s@),
            latest_version@ == latest(),
            packages@ == apply_installs(
                m0,
                latest_entries(names).take(i as int),
                succeeded@.take(i as int),
            ),
            report.len() == i,
            forall|j: int|
                0 <= j < i ==> #[trigger] report@[j]@ == install_message(
                    package_names@[j]@,
                    succeeded@[j],
                ),
        decreases package_names.len() - i,
    {
        let line = record_install(&package_names[i], &latest_version, succeeded[i], packages);
        report.push(line);
        proof {
            let es = latest_entries(names);
            assert(es.take(i + 1).drop_last() =~= es.take(i as int));
            assert(succeeded@.take(i + 1).drop_last() =~= succeeded@.take(i as int));
            assert(es.take(i + 1).last() == es[i as int]);
        }
        i = i + 1;
    }
    proof {
        assert(latest_entries(names).take(i as int) =~= latest_entries(names));
        assert(succeeded@.take(i as int) =~= succeeded@);
    }
    report
}

/// Records the pinned installs of every entry of `requirements`, in
/// increasing order of name, where `succeeded[i]` is whether the installer's
/// run of `pinned_install_command` on the `i`-th entry exited with success.
/// Returns one report line per entry.
pub fn install_from_requirements(
    requirements: &PackageRegistry,
    succeeded: &[bool],
    packages: &mut PackageRegistry,
) -> (report: Vec<String>)
    requires
        succeeded.len() == requirements.entries().len(),
    ensures
        final(packages)@ == apply_installs(old(packages)@, requirements.entries(), succeeded@),
        report.len() == succeeded.len(),
        forall|i: int|
            0 <= i < report.len() ==> #[trigger] report@[i]@ == install_message(
                requirements.entries()[i].0,
                succeeded@[i],
            ),
        (forall|i: int| 0 <= i < succeeded.len() ==> succeeded@[i]) ==> final(packages)@
            == old(packages)@.union_prefer_right(requirements@),
{
    let pairs = requirements.pairs();
    let ghost es = requirements.entries();
    let ghost m0 = packages@;
    let mut report: Vec<String> = Vec::new();
    let mut i: usize = 0;
    while i < pairs.len()
        invariant
            i <= pairs.len(),
            pairs.len() == succeeded.len(),
            es == pairs@.map_values(|p: (String, String)| pair_view(p)),
            packages@ == apply_installs(m0, es.take(i as int), succeeded@.take(i as int)),
            report.len() == i,
            forall|j: int|
                0 <= j < i ==> #[trigger] report@[j]@ == install_message(es[j].0, succeeded@[j]),
        decreases pairs.len() - i,
    {
        let line = record_install(&pairs[i].0, &pairs[i].1, succeeded[i], packages);
        report.push(line);
        proof {
            assert(es.take(i + 1).drop_last() =~= es.take(i as int));
            assert(succeeded@.take(i + 1).drop_last() =~= succeeded@.take(i as int));
            assert(es.take(i + 1).last() == es[i as int]);
        }
        i = i + 1;
    }
    proof {
        assert(es.take(i as int) =~= es);
        assert(succeeded@.take(i as int) =~= succeeded@);
        if forall|i: int| 0 <= i < succeeded.len() ==> succeeded@[i] {
            lemma_all_installed(m0, es, succeeded@);
        }
    }
    report
}

/// Records the removal of `name`, where `succeeded` is whether the
/// installer's run of `uninstall_command(name)` exited with success.
pub fn delete_package(name: &str, succeeded: bool, packages: &mut PackageRegistry) -> (report: String)
    ensures
        final(packages)@ == (if succeeded {
            old(packages)@.remove(name@)
        } else {
            old(packages)@
        }),
        !old(packages)@.dom().contains(name@) ==> final(packages)@ == old(packages)@,
        report@ == delete_message(name@, succeeded),
{
    if succeeded {
        packages.remove(name);
        assert(!old(packages)@.dom().contains(name@) ==> old(packages)@.remove(name@) =~= old(
            packages,
        )@);
        let mut r = concat("Package ", name);
        r.append(" deleted successfully");
        r
    } else {
        concat("Failed to delete package ", name)
    }
}

/// Records the pinned install of `version` of `name`, where `succeeded` is
/// whether the installer's run of `pinned_install_command(name, version)`
/// exited with success.
pub fn update_package(name: &str, version: &str, succeeded: bool, packages: &mut PackageRegistry) -> (report: String)
    ensures
        final(packages)@ == (if succeeded {
            old(packages)@.insert(name@, version@)
        } else {
            old(packages)@
        }),
        report@ == update_message(name@, version@, succeeded),
{
    if succeeded {
        packages.insert(name.to_string(), version.to_string());
        let mut r = concat("Package ", name);
        r.append(" updated successfully to version ");
        r.append(version);
        r
    } else {
        concat("Failed to update package ", name)
    }
}

/// One line `name: version` per entry, in increasing order of name.
pub fn list_packages(packages: &PackageRegistry) -> (lines: Vec<String>)
    ensures
        lines.len() == packages.entries().len(),
        lines.len() == packages@.len(),
        forall|i: int|
            0 <= i < lines.len() ==> #[trigger] lines@[i]@ == list_line(packages.entries()[i]),
        forall|k: Seq<char>| #[trigger]
            packages@.dom().contains(k) == crate::registry::lists_key(packages.entries(), k),
        crate::registry::keys_sorted(packages.entries()),
{
    let pairs = packages.pairs();
    let mut lines: Vec<String> = Vec::new();
    let mut i: usize = 0;
    while i < pairs.len()
        invariant
            i <= pairs.len(),
            packages.entries() == pairs@.map_values(|p: (String, String)| pair_view(p)),
            lines.len() == i,
            forall|j: int|
                0 <= j < i ==> #[trigger] lines@[j]@ == list_line(packages.entries()[j]),
        decreases pairs.len() - i,
    {
        let mut line = concat(pairs[i].0.as_str(), ": ");
        line.append(pairs[i].1.as_str());
        lines.push(line);
        i = i + 1;
    }
    lines
}

/// With every install a success, the registry ends with every entry that
/// was asked for, over what it held.
pub proof fn lemma_all_installed(
    m: Map<Seq<char>, Seq<char>>,
    entries: Seq<(Seq<char>, Seq<char>)>,
    ok: Seq<bool>,
)
    requires
        ok.len() == entries.len(),
        forall|i: int| 0 <= i < ok.len() ==> ok[i],
    ensures
        apply_installs(m, entries, ok) == m.union_prefer_right(map_of(entries)),
    decreases entries.len(),
{
    if entries.len() == 0 {
        assert(m.union_prefer_right(map_of(entries)) =~= m);
    } else {
        lemma_all_installed(m, entries.drop_last(), ok.drop_last());
        assert(ok.last() == ok[ok.len() - 1]);
        assert(apply_installs(m, entries, ok) =~= m.union_prefer_right(map_of(entries)));
    }
}

/// Whatever else happens, a key whose every install failed keeps what it had
/// before: its presence and its version.
pub proof fn lemma_failed_installs_keep_entry(
    m: Map<Seq<char>, Seq<char>>,
    entries: Seq<(Seq<char>, Seq<char>)>,
    ok: Seq<bool>,
    k: Seq<char>,
)
    requires
        ok.len() == entries.len(),
        forall|i: int| 0 <= i < entries.len() && #[trigger] entries[i].0 == k ==> !ok[i],
    ensures
        apply_installs(m, entries, ok).dom().contains(k) == m.dom().contains(k),
        m.dom().contains(k) ==> apply_installs(m, entries, ok)[k] == m[k],
    decreases entries.len(),
{
    if entries.len() > 0 {
        let t = entries.drop_last();
        assert forall|i: int| 0 <= i < t.len() && #[trigger] t[i].0 == k implies !ok.drop_last()[i] by {
            assert(entries[i].0 == k);
        }
        lemma_failed_installs_keep_entry(m, t, ok.drop_last(), k);
        if entries.last().0 == k {
            assert(entries[entries.len() - 1].0 == k);
        }
    }
}

} // verus!
