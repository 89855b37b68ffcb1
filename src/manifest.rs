use vstd::prelude::*;

use crate::key_order::compare_keys;
use crate::registry::{map_of, pair_view, PackageRegistry};

verus! {

/// What serde_json writes for a string: the JSON string literal, quoted and
/// escaped.
pub uninterp spec fn json_quoted(s: Seq<char>) -> Seq<char>;

/// What serde_json reads from a text holding one JSON object: each member's
/// name with the JSON text of its value, in increasing order of name.
pub uninterp spec fn json_object_members(text: Seq<char>) -> Option<Seq<(Seq<char>, Seq<char>)>>;

/// What serde_json reads from a text holding one JSON object whose values are
/// all strings: each member's name with its string, in increasing order of name.
pub uninterp spec fn json_string_object(text: Seq<char>) -> Option<Seq<(Seq<char>, Seq<char>)>>;

/// Relies on `serde_json::to_string` on a `str`, which cannot fail for a
/// string: the result is the JSON literal for `s`.
#[verifier::external_body]
fn quote_json(s: &str) -> (r: String)
    ensures
        r@ == json_quoted(s@),
{
    serde_json::to_string(s).unwrap()
}

/// Relies on `serde_json::from_str` into a `BTreeMap<String, &RawValue>`: it
/// succeeds when `text` is one JSON object (never on an empty text), and each
/// value is handed back as its JSON text.
#[verifier::external_body]
fn object_members(text: &str) -> (r: Option<Vec<(String, String)>>)
    ensures
        r is None <==> json_object_members(text@) is None,
        r matches Some(v) ==> json_object_members(text@) == Some(
            v@.map_values(|p: (String, String)| pair_view(p)),
        ),
        text@.len() == 0 ==> r is None,
{
    serde_json::from_str::<std::collections::BTreeMap<String, &serde_json::value::RawValue>>(text)
        .ok()
        .map(|m| m.into_iter().map(|(k, v)| (k, v.get().to_string())).collect())
}

/// Relies on `serde_json::from_str` into a `BTreeMap<String, String>`: it
/// succeeds when `text` is one JSON object whose values are all strings.
#[verifier::external_body]
fn string_object(text: &str) -> (r: Option<Vec<(String, String)>>)
    ensures
        r is None <==> json_string_object(text@) is None,
        r matches Some(v) ==> json_string_object(text@) == Some(
            v@.map_values(|p: (String, String)| pair_view(p)),
        ),
{
    serde_json::from_str::<std::collections::BTreeMap<String, String>>(text).ok().map(
        |m| m.into_iter().collect(),
    )
}

/// The value of the last member named `key`.
pub open spec fn member_value(members: Seq<(Seq<char>, Seq<char>)>, key: Seq<char>) -> Option<
    Seq<char>,
>
    decreases members.len(),
{
    if members.len() == 0 {
        None
    } else if members.last().0 == key {
        Some(members.last().1)
    } else {
        member_value(members.drop_last(), key)
    }
}

/// The entries that a manifest text holds: its top level is a JSON object
/// whose `packages` member is an object from package names to version strings.
pub open spec fn manifest_entries(text: Seq<char>) -> Option<Seq<(Seq<char>, Seq<char>)>> {
    match json_object_members(text) {
        Some(members) => match member_value(members, "packages"@) {
            Some(raw) => json_string_object(raw),
            None => None,
        },
        None => None,
    }
}

/// The line of the manifest that records one entry.
pub open spec fn entry_line(e: (Seq<char>, Seq<char>)) -> Seq<char> {
    "    "@ + json_quoted(e.0) + ": "@ + json_quoted(e.1)
}

/// The entry lines, joined by a comma and a line break.
pub open spec fn entry_lines(s: Seq<(Seq<char>, Seq<char>)>) -> Seq<char>
    decreases s.len(),
{
    if s.len() == 0 {
        Seq::empty()
    } else if s.len() == 1 {
        entry_line(s[0])
    } else {
        entry_lines(s.drop_last()) + ",\n"@ + entry_line(s.last())
    }
}

/// The manifest text for the given entries: a JSON object with the single
/// member `packages`, indented by two spaces a level.
pub open spec fn manifest_text(s: Seq<(Seq<char>, Seq<char>)>) -> Seq<char> {
    if s.len() == 0 {
        "{\n  \"packages\": {}\n}"@
    } else {
        "{\n  \"packages\": {\n"@ + entry_lines(s) + "\n  }\n}"@
    }
}

/// Reads a manifest text; `None` when it does not have the manifest's shape.
pub fn decode_manifest(text: &str) -> (r: Option<PackageRegistry>)
    ensures
        r is Some <==> manifest_entries(text@) is Some,
        r matches Some(reg) ==> reg@ == map_of(manifest_entries(text@)->0),
        text@.len() == 0 ==> r is None,
{
    let members = match object_members(text) {
        Some(m) => m,
        None => return None,
    };
    let ghost ms = members@.map_values(|p: (String, String)| pair_view(p));
    let mut i: usize = members.len();
    assert(ms.take(i as int) =~= ms);
    while i > 0
        invariant
            i <= members.len(),
            ms == members@.map_values(|p: (String, String)| pair_view(p)),
            member_value(ms, "packages"@) == member_value(ms.take(i as int), "packages"@),
        ensures
            i <= members.len(),
            member_value(ms, "packages"@) == member_value(ms.take(i as int), "packages"@),
            i > 0 ==> ms[i - 1].0 == "packages"@,
        decreases i,
    {
        let ghost pre = ms.take(i as int);
        assert(pre.drop_last() =~= ms.take(i - 1));
        assert(pre.last() == ms[i - 1]);
        if let core::cmp::Ordering::Equal = compare_keys(members[i - 1].0.as_str(), "packages") {
            break;
        }
        i = i - 1;
    }
    if i == 0 {
        assert(ms.take(0) =~= Seq::<(Seq<char>, Seq<char>)>::empty());
        return None;
    }
    assert(ms.take(i as int).last() == ms[i - 1]);
    let entries = match string_object(members[i - 1].1.as_str()) {
        Some(e) => e,
        None => return None,
    };
    let ghost es = entries@.map_values(|p: (String, String)| pair_view(p));
    let mut reg = PackageRegistry::new();
    let mut j: usize = 0;
    while j < entries.len()
        invariant
            j <= entries.len(),
            es == entries@.map_values(|p: (String, String)| pair_view(p)),
            reg@ == map_of(es.take(j as int)),
        decreases entries.len() - j,
    {
        assert(es.take(j + 1).drop_last() =~= es.take(j as int));
        reg.insert(entries[j].0.clone(), entries[j].1.clone());
        j = j + 1;
    }
    assert(es.take(j as int) =~= es);
    Some(reg)
}

/// The registry that the manifest's contents give, if it could be read: an
/// absent, empty or malformed manifest gives an empty registry.
pub open spec fn loaded_view(contents: Option<Seq<char>>) -> Map<Seq<char>, Seq<char>> {
    match contents {
        Some(text) => match manifest_entries(text) {
            Some(e) => map_of(e),
            None => Map::empty(),
        },
        None => Map::empty(),
    }
}

/// Loads the registry from the manifest's contents (`None` when the file
/// could not be read). This never fails: what cannot be read as a manifest
/// counts as no manifest.
pub fn load_packages(contents: Option<&str>) -> (r: PackageRegistry)
    ensures
        r@ == loaded_view(
            match contents {
                Some(t) => Some(t@),
                None => None,
            },
        ),
        contents is None ==> r@ == Map::<Seq<char>, Seq<char>>::empty(),
        contents matches Some(t) && t@.len() == 0 ==> r@ == Map::<Seq<char>, Seq<char>>::empty(),
{
    match contents {
        Some(text) => match decode_manifest(text) {
            Some(reg) => reg,
            None => PackageRegistry::new(),
        },
        None => PackageRegistry::new(),
    }
}

/// The manifest text for a registry, entries in increasing order of name.
pub fn save_packages(packages: &PackageRegistry) -> (r: String)
    ensures
        r@ == manifest_text(packages.entries()),
{
    let pairs = packages.pairs();
    let ghost s = packages.entries();
    if pairs.len() == 0 {
        return "{\n  \"packages\": {}\n}".to_string();
    }
    let mut body = String::new();
    let mut i: usize = 0;
    while i < pairs.len()
        invariant
            i <= pairs.len(),
            s == pairs@.map_values(|p: (String, String)| pair_view(p)),
            body@ == entry_lines(s.take(i as int)),
        decreases pairs.len() - i,
    {
        let ghost prev = body@;
        if i > 0 {
            body.append(",\n");
        }
        body.append("    ");
        let name = quote_json(pairs[i].0.as_str());
        body.append(name.as_str());
        body.append(": ");
        let version = quote_json(pairs[i].1.as_str());
        body.append(version.as_str());
        proof {
            let t = s.take(i + 1);
            assert(t.drop_last() =~= s.take(i as int));
            assert(t.last() == s[i as int]);
            if i == 0 {
                assert(body@ =~= entry_line(s[0]));
            } else {
                assert(body@ =~= prev + ",\n"@ + entry_line(s[i as int]));
            }
        }
        i = i + 1;
    }
    assert(s.take(i as int) =~= s);
    let mut out = "{\n  \"packages\": {\n".to_string();
    out.append(body.as_str());
    out.append("\n  }\n}");
    out
}

} // verus!
