use vstd::prelude::*;

use crate::key_order::{compare_keys, key_lt, lemma_key_lt_irreflexive, lemma_key_lt_transitive};

verus! {

/// Keys that are listed in strictly increasing order, hence without repeats.
pub open spec fn keys_sorted(s: Seq<(Seq<char>, Seq<char>)>) -> bool {
    forall|i: int, j: int| 0 <= i < j < s.len() ==> key_lt(#[trigger] s[i].0, #[trigger] s[j].0)
}

/// Whether some entry of `s` has the key `k`.
pub open spec fn lists_key(s: Seq<(Seq<char>, Seq<char>)>, k: Seq<char>) -> bool {
    exists|i: int| 0 <= i < s.len() && #[trigger] s[i].0 == k
}

/// The mapping that a list of entries denotes; a later entry for a key
/// overrides an earlier one.
pub open spec fn map_of(s: Seq<(Seq<char>, Seq<char>)>) -> Map<Seq<char>, Seq<char>>
    decreases s.len(),
{
    if s.len() == 0 {
        Map::empty()
    } else {
        map_of(s.drop_last()).insert(s.last().0, s.last().1)
    }
}

/// The view of a pair of strings.
pub open spec fn pair_view(p: (String, String)) -> (Seq<char>, Seq<char>) {
    (p.0@, p.1@)
}

/// The managed packages: each package name with its version specifier
/// ("latest", or a version that was asked for).
#[derive(Debug, PartialEq, Eq)]
pub struct PackageRegistry {
    packages: Vec<(String, String)>,
}

impl PackageRegistry {
    #[verifier::type_invariant]
    spec fn well_formed(self) -> bool {
        keys_sorted(self.packages@.map_values(|p: (String, String)| pair_view(p)))
    }

    /// The entries, in increasing order of name.
    pub closed spec fn entries(self) -> Seq<(Seq<char>, Seq<char>)> {
        self.packages@.map_values(|p: (String, String)| pair_view(p))
    }

    /// An empty registry.
    pub fn new() -> (r: Self)
        ensures
            r@ == Map::<Seq<char>, Seq<char>>::empty(),
            r.entries().len() == 0,
    {
        let r = PackageRegistry { packages: Vec::new() };
        assert(r.entries() =~= Seq::<(Seq<char>, Seq<char>)>::empty());
        r
    }

    /// Records `version` for `name`, in place of what it had.
    pub fn insert(&mut self, name: String, version: String)
        ensures
            final(self)@ == old(self)@.insert(name@, version@),
    {
        proof {
            use_type_invariant(&*self);
        }
        let mut packages: Vec<(String, String)> = Vec::new();
        std::mem::swap(&mut packages, &mut self.packages);
        let ghost s = packages@.map_values(|p: (String, String)| pair_view(p));
        let n = packages.len();
        let mut i: usize = 0;
        while i < n
            invariant
                n == packages.len(),
                i <= n,
                s == packages@.map_values(|p: (String, String)| pair_view(p)),
                keys_sorted(s),
                forall|j: int| 0 <= j < i ==> key_lt(#[trigger] s[j].0, name@),
            ensures
                i <= n,
                forall|j: int| 0 <= j < i ==> key_lt(#[trigger] s[j].0, name@),
                i < n ==> !key_lt(s[i as int].0, name@),
            decreases n - i,
        {
            if let core::cmp::Ordering::Less = compare_keys(packages[i].0.as_str(), name.as_str()) {
                i = i + 1;
            } else {
                break;
            }
        }
        let found = i < n && match compare_keys(packages[i].0.as_str(), name.as_str()) {
            core::cmp::Ordering::Equal => true,
            _ => false,
        };
        let ghost entry = (name@, version@);
        let ghost t = if found {
            s.update(i as int, entry)
        } else {
            s.insert(i as int, entry)
        };
        if found {
            packages.set(i, (name, version));
        } else {
            packages.insert(i, (name, version));
        }
        proof {
            assert(packages@.map_values(|p: (String, String)| pair_view(p)) =~= t);
            lemma_sorted_put(s, i as int, entry, found);
        }
        self.packages = packages;
    }

    /// Drops `name` and its version; a name that is not recorded is no error.
    pub fn remove(&mut self, name: &str)
        ensures
            final(self)@ == old(self)@.remove(name@),
    {
        proof {
            use_type_invariant(&*self);
        }
        let mut packages: Vec<(String, String)> = Vec::new();
        std::mem::swap(&mut packages, &mut self.packages);
        let ghost s = packages@.map_values(|p: (String, String)| pair_view(p));
        let n = packages.len();
        let mut i: usize = 0;
        while i < n
            invariant
                n == packages.len(),
                i <= n,
                s == packages@.map_values(|p: (String, String)| pair_view(p)),
                forall|j: int| 0 <= j < i ==> #[trigger] s[j].0 != name@,
            ensures
                i <= n,
                forall|j: int| 0 <= j < i ==> #[trigger] s[j].0 != name@,
                i < n ==> s[i as int].0 == name@,
            decreases n - i,
        {
            if let core::cmp::Ordering::Equal = compare_keys(packages[i].0.as_str(), name) {
                break;
            }
            i = i + 1;
        }
        proof {
            lemma_sorted_view(s);
        }
        if i < n {
            packages.remove(i);
            proof {
                assert(packages@.map_values(|p: (String, String)| pair_view(p)) =~= s.remove(
                    i as int,
                ));
                lemma_sorted_take(s, i as int);
            }
        } else {
            proof {
                assert(!map_of(s).dom().contains(name@));
                assert(map_of(s).remove(name@) =~= map_of(s));
            }
        }
        self.packages = packages;
    }

    /// The entries, in increasing order of name, and the mapping they denote.
    pub fn pairs(&self) -> (r: Vec<(String, String)>)
        ensures
            r@.map_values(|p: (String, String)| pair_view(p)) == self.entries(),
            keys_sorted(self.entries()),
            self@.dom().finite(),
            self@.len() == self.entries().len(),
            forall|k: Seq<char>| #[trigger]
                self@.dom().contains(k) == lists_key(self.entries(), k),
            forall|i: int|
                0 <= i < self.entries().len() ==> #[trigger] self@[self.entries()[i].0]
                    == self.entries()[i].1,
    {
        proof {
            use_type_invariant(self);
            lemma_sorted_view(self.entries());
        }
        let n = self.packages.len();
        let mut r: Vec<(String, String)> = Vec::new();
        let mut i: usize = 0;
        while i < n
            invariant
                n == self.packages.len(),
                i <= n,
                r.len() == i,
                n == self.entries().len(),
                forall|j: int| 0 <= j < i ==> #[trigger] pair_view(r@[j]) == self.entries()[j],
            decreases n - i,
        {
            let name = self.packages[i].0.clone();
            let version = self.packages[i].1.clone();
            r.push((name, version));
            i = i + 1;
        }
        assert(r@.map_values(|p: (String, String)| pair_view(p)) =~= self.entries());
        r
    }

    /// The version recorded for `name`, if any.
    pub fn get(&self, name: &str) -> (r: Option<&String>)
        ensures
            r.is_some() == self@.dom().contains(name@),
            r matches Some(v) ==> v@ == self@[name@],
    {
        proof {
            use_type_invariant(self);
            lemma_sorted_view(self.entries());
        }
        let n = self.packages.len();
        let mut i: usize = 0;
        while i < n
            invariant
                n == self.packages.len(),
                n == self.entries().len(),
                forall|k: Seq<char>| #[trigger]
                    self@.dom().contains(k) == lists_key(self.entries(), k),
                forall|j: int| 0 <= j < i ==> #[trigger] self.entries()[j].0 != name@,
            decreases n - i,
        {
            if let core::cmp::Ordering::Equal = compare_keys(self.packages[i].0.as_str(), name) {
                assert(self.entries()[i as int].0 == name@);
                proof {
                    use_type_invariant(self);
                    lemma_sorted_view(self.entries());
                }
                return Some(&self.packages[i].1);
            }
            assert(self.entries()[i as int].0 == self.packages@[i as int].0@);
            i = i + 1;
        }
        None
    }
}

impl View for PackageRegistry {
    type V = Map<Seq<char>, Seq<char>>;

    open spec fn view(&self) -> Map<Seq<char>, Seq<char>> {
        map_of(self.entries())
    }
}

/// Putting an entry at its place in sorted entries keeps them sorted, and
/// the denoted mapping gains that entry.
proof fn lemma_sorted_put(s: Seq<(Seq<char>, Seq<char>)>, i: int, e: (Seq<char>, Seq<char>), replace: bool)
    requires
        keys_sorted(s),
        0 <= i <= s.len(),
        forall|j: int| 0 <= j < i ==> key_lt(#[trigger] s[j].0, e.0),
        replace ==> i < s.len() && s[i].0 == e.0,
        !replace && i < s.len() ==> key_lt(e.0, s[i].0),
    ensures
        keys_sorted(if replace { s.update(i, e) } else { s.insert(i, e) }),
        map_of(if replace { s.update(i, e) } else { s.insert(i, e) }) == map_of(s).insert(e.0, e.1),
{
    let t = if replace { s.update(i, e) } else { s.insert(i, e) };
    assert forall|a: int, b: int| 0 <= a < b < t.len() implies key_lt(
        #[trigger] t[a].0,
        #[trigger] t[b].0,
    ) by {
        if !replace && b > i && a < i {
            assert(t[a] == s[a] && t[b] == s[b - 1]);
        } else if !replace && a == i && b > i + 1 {
            lemma_key_lt_transitive(e.0, s[i].0, s[b - 1].0);
        } else if !replace && a > i {
            assert(t[a] == s[a - 1] && t[b] == s[b - 1]);
        }
    }
    lemma_sorted_view(s);
    lemma_sorted_view(t);
    let m = map_of(s).insert(e.0, e.1);
    assert forall|k: Seq<char>| #[trigger] map_of(t).dom().contains(k) == m.dom().contains(k) by {
        if k == e.0 {
            assert(t[i].0 == k);
        } else if lists_key(s, k) {
            let j = choose|j: int| 0 <= j < s.len() && #[trigger] s[j].0 == k;
            if replace || j < i {
                assert(t[j].0 == k);
            } else {
                assert(t[j + 1].0 == k);
            }
        } else if lists_key(t, k) {
            let j = choose|j: int| 0 <= j < t.len() && #[trigger] t[j].0 == k;
            if replace || j < i {
                assert(s[j].0 == k);
            } else {
                assert(s[j - 1].0 == k);
            }
        }
    }
    assert forall|k: Seq<char>| #[trigger] map_of(t).dom().contains(k) implies map_of(t)[k] == m[k] by {
        if k == e.0 {
            assert(t[i].0 == k);
        } else {
            let j = choose|j: int| 0 <= j < t.len() && #[trigger] t[j].0 == k;
            if replace || j < i {
                assert(s[j] == t[j]);
            } else {
                assert(s[j - 1] == t[j]);
            }
        }
    }
    assert(map_of(t) =~= m);
}

/// Taking an entry out of sorted entries keeps them sorted, and the denoted
/// mapping loses that entry's key.
proof fn lemma_sorted_take(s: Seq<(Seq<char>, Seq<char>)>, i: int)
    requires
        keys_sorted(s),
        0 <= i < s.len(),
    ensures
        keys_sorted(s.remove(i)),
        map_of(s.remove(i)) == map_of(s).remove(s[i].0),
{
    let t = s.remove(i);
    let k0 = s[i].0;
    assert forall|a: int, b: int| 0 <= a < b < t.len() implies key_lt(
        #[trigger] t[a].0,
        #[trigger] t[b].0,
    ) by {
        if a < i && b >= i {
            assert(t[a] == s[a] && t[b] == s[b + 1]);
        } else if a >= i {
            assert(t[a] == s[a + 1] && t[b] == s[b + 1]);
        }
    }
    lemma_sorted_view(s);
    lemma_sorted_view(t);
    let m = map_of(s).remove(k0);
    assert forall|k: Seq<char>| #[trigger] map_of(t).dom().contains(k) == m.dom().contains(k) by {
        if lists_key(t, k) {
            let j = choose|j: int| 0 <= j < t.len() && #[trigger] t[j].0 == k;
            lemma_key_lt_irreflexive(k0);
            if j < i {
                assert(s[j].0 == k);
                assert(key_lt(s[j].0, k0));
            } else {
                assert(s[j + 1].0 == k);
                assert(key_lt(k0, s[j + 1].0));
            }
        }
        if k != k0 && lists_key(s, k) {
            let j = choose|j: int| 0 <= j < s.len() && #[trigger] s[j].0 == k;
            if j < i {
                assert(t[j].0 == k);
            } else {
                assert(t[j - 1].0 == k);
            }
        }
    }
    assert forall|k: Seq<char>| #[trigger] map_of(t).dom().contains(k) implies map_of(t)[k] == m[k] by {
        let j = choose|j: int| 0 <= j < t.len() && #[trigger] t[j].0 == k;
        if j < i {
            assert(s[j] == t[j]);
        } else {
            assert(s[j + 1] == t[j]);
        }
    }
    assert(map_of(t) =~= m);
}

/// Over sorted entries, the denoted mapping holds exactly the listed keys,
/// each with its listed version.
proof fn lemma_sorted_view(s: Seq<(Seq<char>, Seq<char>)>)
    requires
        keys_sorted(s),
    ensures
        forall|k: Seq<char>| #[trigger] map_of(s).dom().contains(k) == lists_key(s, k),
        forall|i: int| 0 <= i < s.len() ==> #[trigger] map_of(s)[s[i].0] == s[i].1,
        map_of(s).dom().finite(),
        map_of(s).len() == s.len(),
    decreases s.len(),
{
    if s.len() > 0 {
        let t = s.drop_last();
        assert(keys_sorted(t)) by {
            assert forall|i: int, j: int| 0 <= i < j < t.len() implies key_lt(
                #[trigger] t[i].0,
                #[trigger] t[j].0,
            ) by {
                assert(t[i] == s[i] && t[j] == s[j]);
            }
        }
        lemma_sorted_view(t);
        let last = s.last();
        assert(map_of(s) == map_of(t).insert(last.0, last.1));
        if map_of(t).dom().contains(last.0) {
            let j = choose|j: int| 0 <= j < t.len() && #[trigger] t[j].0 == last.0;
            assert(key_lt(s[j].0, s[s.len() - 1].0));
            lemma_key_lt_irreflexive(last.0);
        }
        assert forall|k: Seq<char>| #[trigger] map_of(s).dom().contains(k) == lists_key(s, k) by {
            if k == last.0 {
                assert(s[s.len() - 1].0 == k);
            } else if lists_key(t, k) {
                let i = choose|i: int| 0 <= i < t.len() && #[trigger] t[i].0 == k;
                assert(s[i].0 == k);
            } else if lists_key(s, k) {
                let i = choose|i: int| 0 <= i < s.len() && #[trigger] s[i].0 == k;
                assert(t[i].0 == k);
            }
        }
        assert forall|i: int| 0 <= i < s.len() implies #[trigger] map_of(s)[s[i].0] == s[i].1 by {
            if i < s.len() - 1 {
                assert(key_lt(s[i].0, s[s.len() - 1].0));
                lemma_key_lt_irreflexive(s[i].0);
                assert(t[i] == s[i]);
            }
        }
    }
}

} // verus!
