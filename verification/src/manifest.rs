//! The manifest of a repository: which stored entry (a path inside the
//! repository) stands for which system path, kept in key order.

use vstd::prelude::*;
use crate::keys;
use crate::keys::{compare_keys, KeyOrder};

verus! {

/// One manifest line as plain values: (stored key, system path).
pub type EntryView = (Seq<char>, Seq<char>);

/// Keys strictly increase along the listing (so no key occurs twice).
pub open spec fn sorted_keys(s: Seq<EntryView>) -> bool {
    forall|i: int, j: int| 0 <= i < j < s.len() ==> keys::key_lt(#[trigger] s[i].0, #[trigger] s[j].0)
}

/// No key occurs twice.
pub open spec fn distinct_keys(s: Seq<EntryView>) -> bool {
    forall|i: int, j: int| 0 <= i < s.len() && 0 <= j < s.len() && i != j ==> #[trigger] s[i].0 != #[trigger] s[j].0
}

/// The system path of the first entry whose key is `k`.
pub open spec fn lookup(s: Seq<EntryView>, k: Seq<char>) -> Option<Seq<char>>
    decreases s.len(),
{
    if s.len() == 0 {
        None
    } else if s[0].0 == k {
        Some(s[0].1)
    } else {
        lookup(s.drop_first(), k)
    }
}

/// The key of the first entry (in listing order) whose system path is `t`.
pub open spec fn first_key_with_target(s: Seq<EntryView>, t: Seq<char>) -> Option<Seq<char>>
    decreases s.len(),
{
    if s.len() == 0 {
        None
    } else if s[0].1 == t {
        Some(s[0].0)
    } else {
        first_key_with_target(s.drop_first(), t)
    }
}

/// The listing read as a map from stored key to system path.
pub open spec fn map_of(s: Seq<EntryView>) -> Map<Seq<char>, Seq<char>> {
    Map::new(|k: Seq<char>| lookup(s, k) is Some, |k: Seq<char>| lookup(s, k)->0)
}

/// The map that inserting the pairs one after the other gives (a later pair wins).
pub open spec fn map_of_pairs(p: Seq<EntryView>) -> Map<Seq<char>, Seq<char>>
    decreases p.len(),
{
    if p.len() == 0 {
        Map::empty()
    } else {
        map_of_pairs(p.drop_last()).insert(p.last().0, p.last().1)
    }
}

pub proof fn lemma_sorted_distinct(s: Seq<EntryView>)
    requires
        sorted_keys(s),
    ensures
        distinct_keys(s),
{
    assert forall|i: int, j: int| 0 <= i < s.len() && 0 <= j < s.len() && i != j implies #[trigger] s[i].0
        != #[trigger] s[j].0 by {
        if i < j {
            keys::lemma_key_lt_irreflexive(s[i].0);
        } else {
            keys::lemma_key_lt_irreflexive(s[j].0);
        }
    }
}

/// `lookup` finds nothing exactly when no entry has the key.
pub proof fn lemma_lookup_none(s: Seq<EntryView>, k: Seq<char>)
    ensures
        lookup(s, k) is None <==> (forall|i: int| 0 <= i < s.len() ==> #[trigger] s[i].0 != k),
    decreases s.len(),
{
    if s.len() > 0 {
        lemma_lookup_none(s.drop_first(), k);
        if lookup(s, k) is None {
            assert forall|i: int| 0 <= i < s.len() implies #[trigger] s[i].0 != k by {
                if i > 0 {
                    assert(s.drop_first()[i - 1] == s[i]);
                }
            }
        } else if s[0].0 != k {
            let i = choose|i: int| 0 <= i < s.drop_first().len() && #[trigger] s.drop_first()[i].0 == k;
            assert(s[i + 1].0 == k);
        }
    }
}

/// `lookup` gives the system path of the first entry with the key.
pub proof fn lemma_lookup_first(s: Seq<EntryView>, k: Seq<char>, i: int)
    requires
        0 <= i < s.len(),
        s[i].0 == k,
        forall|j: int| 0 <= j < i ==> #[trigger] s[j].0 != k,
    ensures
        lookup(s, k) == Some(s[i].1),
    decreases s.len(),
{
    if i > 0 {
        assert forall|j: int| 0 <= j < i - 1 implies #[trigger] s.drop_first()[j].0 != k by {
            assert(s.drop_first()[j] == s[j + 1]);
        }
        lemma_lookup_first(s.drop_first(), k, i - 1);
    }
}

/// With distinct keys, `lookup` of an entry's key gives that entry's system path.
pub proof fn lemma_lookup_index(s: Seq<EntryView>, i: int)
    requires
        distinct_keys(s),
        0 <= i < s.len(),
    ensures
        lookup(s, s[i].0) == Some(s[i].1),
{
    assert forall|j: int| 0 <= j < i implies #[trigger] s[j].0 != s[i].0 by {}
    lemma_lookup_first(s, s[i].0, i);
}

/// With distinct keys, `lookup(s, k) == Some(v)` exactly when `(k, v)` is an entry.
pub proof fn lemma_lookup_some(s: Seq<EntryView>, k: Seq<char>)
    requires
        distinct_keys(s),
    ensures
        lookup(s, k) is Some ==> exists|i: int| 0 <= i < s.len() && #[trigger] s[i].0 == k && lookup(s, k) == Some(s[i].1),
{
    lemma_lookup_none(s, k);
    if lookup(s, k) is Some {
        let i = choose|i: int| 0 <= i < s.len() && #[trigger] s[i].0 == k;
        lemma_lookup_index(s, i);
    }
}

/// Where some entry has system path `t`, `first_key_with_target` finds a key
/// whose system path is `t`.
pub proof fn lemma_first_key_with_target_found(s: Seq<EntryView>, t: Seq<char>, i: int)
    requires
        distinct_keys(s),
        0 <= i < s.len(),
        s[i].1 == t,
    ensures
        first_key_with_target(s, t) matches Some(k) && lookup(s, k) == Some(t),
    decreases s.len(),
{
    if s[0].1 == t {
        lemma_lookup_index(s, 0);
    } else {
        let tl = s.drop_first();
        assert(distinct_keys(tl)) by {
            assert forall|a: int, b: int| 0 <= a < tl.len() && 0 <= b < tl.len() && a != b implies #[trigger] tl[a].0
                != #[trigger] tl[b].0 by {
                assert(tl[a] == s[a + 1] && tl[b] == s[b + 1]);
            }
        }
        assert(tl[i - 1] == s[i]);
        lemma_first_key_with_target_found(tl, t, i - 1);
        let k = first_key_with_target(tl, t)->0;
        lemma_lookup_none(tl, k);
        let j = choose|j: int| 0 <= j < tl.len() && #[trigger] tl[j].0 == k;
        assert(tl[j] == s[j + 1]);
        lemma_lookup_index(tl, j);
        lemma_lookup_index(s, j + 1);
    }
}

/// The listing of a map in key order is unique: two sorted listings with
/// the same map are the same listing.
pub proof fn lemma_sorted_listing_unique(a: Seq<EntryView>, b: Seq<EntryView>)
    requires
        sorted_keys(a),
        sorted_keys(b),
        map_of(a) == map_of(b),
    ensures
        a == b,
    decreases a.len() + b.len(),
{
    lemma_sorted_distinct(a);
    lemma_sorted_distinct(b);
    if a.len() == 0 || b.len() == 0 {
        if a.len() > 0 {
            lemma_lookup_index(a, 0);
            assert(map_of(a).contains_key(a[0].0));
            lemma_lookup_none(b, a[0].0);
        }
        if b.len() > 0 {
            lemma_lookup_index(b, 0);
            assert(map_of(b).contains_key(b[0].0));
            lemma_lookup_none(a, b[0].0);
        }
        assert(a =~= b);
    } else {
        // The first keys agree: each is the least key of the same map.
        lemma_lookup_index(a, 0);
        lemma_lookup_index(b, 0);
        assert(map_of(a).contains_key(a[0].0));
        assert(map_of(b).contains_key(b[0].0));
        lemma_lookup_some(b, a[0].0);
        lemma_lookup_some(a, b[0].0);
        let ja = choose|i: int| 0 <= i < b.len() && #[trigger] b[i].0 == a[0].0 && lookup(b, a[0].0) == Some(b[i].1);
        let jb = choose|i: int| 0 <= i < a.len() && #[trigger] a[i].0 == b[0].0 && lookup(a, b[0].0) == Some(a[i].1);
        if ja > 0 {
            assert(keys::key_lt(b[0].0, b[ja].0));
        }
        if jb > 0 {
            assert(keys::key_lt(a[0].0, a[jb].0));
        }
        keys::lemma_key_lt_asymmetric(a[0].0, b[0].0);
        keys::lemma_key_lt_irreflexive(a[0].0);
        keys::lemma_key_lt_irreflexive(b[0].0);
        assert(a[0].0 == b[0].0);
        assert(map_of(a)[a[0].0] == a[0].1);
        assert(map_of(b)[b[0].0] == b[0].1);
        assert(a[0] == b[0]);
        let ta = a.drop_first();
        let tb = b.drop_first();
        assert(sorted_keys(ta)) by {
            assert forall|i: int, j: int| 0 <= i < j < ta.len() implies keys::key_lt(#[trigger] ta[i].0, #[trigger] ta[j].0) by {
                assert(ta[i] == a[i + 1] && ta[j] == a[j + 1]);
            }
        }
        assert(sorted_keys(tb)) by {
            assert forall|i: int, j: int| 0 <= i < j < tb.len() implies keys::key_lt(#[trigger] tb[i].0, #[trigger] tb[j].0) by {
                assert(tb[i] == b[i + 1] && tb[j] == b[j + 1]);
            }
        }
        lemma_sorted_distinct(ta);
        lemma_sorted_distinct(tb);
        assert(map_of(ta) =~= map_of(tb)) by {
            assert forall|k: Seq<char>| #[trigger] lookup(ta, k) == lookup(tb, k) by {
                if k == a[0].0 {
                    assert forall|i: int| 0 <= i < ta.len() implies #[trigger] ta[i].0 != k by {
                        assert(ta[i] == a[i + 1]);
                    }
                    assert forall|i: int| 0 <= i < tb.len() implies #[trigger] tb[i].0 != k by {
                        assert(tb[i] == b[i + 1]);
                    }
                    lemma_lookup_none(ta, k);
                    lemma_lookup_none(tb, k);
                    assert(lookup(ta, k) is None);
                    assert(lookup(tb, k) is None);
                } else {
                    assert(lookup(a, k) == lookup(ta, k));
                    assert(lookup(b, k) == lookup(tb, k));
                    assert(map_of(a).contains_key(k) == map_of(b).contains_key(k));
                    assert(map_of(a).contains_key(k) <==> lookup(a, k) is Some);
                    assert(map_of(b).contains_key(k) <==> lookup(b, k) is Some);
                    if lookup(a, k) is Some {
                        assert(map_of(a)[k] == map_of(b)[k]);
                        assert(map_of(a)[k] == lookup(a, k)->0);
                        assert(map_of(b)[k] == lookup(b, k)->0);
                        assert(lookup(b, k) is Some);
                        assert(lookup(ta, k) == lookup(tb, k));
                    } else {
                        assert(lookup(b, k) is None);
                    }
                }
            }
        }
        lemma_sorted_listing_unique(ta, tb);
        assert(a =~= seq![a[0]] + ta);
        assert(b =~= seq![b[0]] + tb);
    }
}

/// A manifest: an optional command that opens the repository, and the
/// stored entries, each a stored key with the system path it belongs to.
pub struct Manifest {
    open_cmd: Option<String>,
    maps: Vec<(String, String)>,
}

impl Manifest {
    /// The entries as plain values, in the order they are kept.
    pub closed spec fn entries(&self) -> Seq<EntryView> {
        self.maps@.map_values(|e: (String, String)| (e.0@, e.1@))
    }

    /// The command that opens the repository, if the manifest sets one.
    pub closed spec fn command(&self) -> Option<Seq<char>> {
        match self.open_cmd {
            Some(c) => Some(c@),
            None => None,
        }
    }

    /// The entries as a map from stored key to system path.
    pub open spec fn map(&self) -> Map<Seq<char>, Seq<char>> {
        map_of(self.entries())
    }

    /// Well-formed: the keys are kept in increasing order, so each occurs once.
    pub open spec fn wf(&self) -> bool {
        sorted_keys(self.entries())
    }

    /// A manifest with no open command and no entries.
    pub fn new() -> (m: Manifest)
        ensures
            m.wf(),
            m.command() is None,
            m.entries() == Seq::<EntryView>::empty(),
            m.map() == Map::<Seq<char>, Seq<char>>::empty(),
    {
        let m = Manifest { open_cmd: None, maps: Vec::new() };
        assert(m.entries() =~= Seq::<EntryView>::empty());
        assert(m.map() =~= Map::<Seq<char>, Seq<char>>::empty());
        m
    }

    /// A manifest with the given open command and the given pairs of
    /// (stored key, system path), inserted in turn (a later pair wins).
    pub fn from_parts(open_cmd: Option<String>, pairs: Vec<(String, String)>) -> (m: Manifest)
        ensures
            m.wf(),
            m.command() == match open_cmd {
                Some(c) => Some(c@),
                None => None::<Seq<char>>,
            },
            m.map() == map_of_pairs(pairs@.map_values(|e: (String, String)| (e.0@, e.1@))),
    {
        let ghost pv = pairs@.map_values(|e: (String, String)| (e.0@, e.1@));
        let mut m = Manifest::new();
        m.open_cmd = open_cmd;
        let mut i: usize = 0;
        while i < pairs.len()
            invariant
                pv == pairs@.map_values(|e: (String, String)| (e.0@, e.1@)),
                i <= pairs@.len(),
                m.wf(),
                m.command() == match open_cmd {
                    Some(c) => Some(c@),
                    None => None::<Seq<char>>,
                },
                m.map() == map_of_pairs(pv.take(i as int)),
            decreases pairs@.len() - i,
        {
            let k = pairs[i].0.clone();
            let t = pairs[i].1.clone();
            m.insert(k, t);
            proof {
                assert(pv.take(i + 1).drop_last() =~= pv.take(i as int));
            }
            i = i + 1;
        }
        proof {
            assert(pv.take(i as int) =~= pv);
        }
        m
    }

    /// The command that opens the repository, if the manifest sets one.
    pub fn open_cmd(&self) -> (c: Option<String>)
        ensures
            match c {
                Some(s) => self.command() == Some(s@),
                None => self.command() is None,
            },
    {
        match &self.open_cmd {
            Some(s) => Some(s.clone()),
            None => None,
        }
    }

    /// The number of entries.
    pub fn len(&self) -> (n: usize)
        ensures
            n == self.entries().len(),
    {
        self.maps.len()
    }

    /// The stored key of the entry at position `i` of the listing.
    pub fn key_at(&self, i: usize) -> (k: &String)
        requires
            i < self.entries().len(),
        ensures
            k@ == self.entries()[i as int].0,
    {
        &self.maps[i].0
    }

    /// The system path of the entry at position `i` of the listing.
    pub fn target_at(&self, i: usize) -> (t: &String)
        requires
            i < self.entries().len(),
        ensures
            t@ == self.entries()[i as int].1,
    {
        &self.maps[i].1
    }

    /// The entries, in key order, as pairs of (stored key, system path).
    pub fn to_pairs(&self) -> (v: Vec<(String, String)>)
        ensures
            v@.map_values(|e: (String, String)| (e.0@, e.1@)) == self.entries(),
    {
        let mut v: Vec<(String, String)> = Vec::new();
        let mut i: usize = 0;
        while i < self.maps.len()
            invariant
                i <= self.maps@.len(),
                v@.len() == i,
                forall|j: int| 0 <= j < i ==> (#[trigger] v@[j]).0@ == self.maps@[j].0@ && v@[j].1@
                    == self.maps@[j].1@,
            decreases self.maps@.len() - i,
        {
            let k = self.maps[i].0.clone();
            let t = self.maps[i].1.clone();
            v.push((k, t));
            i = i + 1;
        }
        assert(v@.map_values(|e: (String, String)| (e.0@, e.1@)) =~= self.entries());
        v
    }

    /// Whether an entry has the stored key `k`.
    pub fn contains_key(&self, k: &str) -> (b: bool)
        requires
            self.wf(),
        ensures
            b == self.map().contains_key(k@),
    {
        let ghost s = self.entries();
        let mut i: usize = 0;
        while i < self.maps.len()
            invariant
                s == self.entries(),
                i <= self.maps@.len(),
                forall|j: int| 0 <= j < i ==> #[trigger] s[j].0 != k@,
            decreases self.maps@.len() - i,
        {
            if compare_keys(self.maps[i].0.as_str(), k) == KeyOrder::Equal {
                proof {
                    lemma_lookup_first(s, k@, i as int);
                }
                return true;
            }
            i = i + 1;
        }
        proof {
            lemma_lookup_none(s, k@);
        }
        false
    }

    /// The key of the first entry, in key order, whose system path is `target`.
    pub fn find_key_by_target(&self, target: &str) -> (r: Option<String>)
        ensures
            match r {
                Some(k) => first_key_with_target(self.entries(), target@) == Some(k@),
                None => first_key_with_target(self.entries(), target@) is None,
            },
    {
        let ghost s = self.entries();
        let mut i: usize = 0;
        proof {
            assert(s.skip(0) =~= s);
        }
        while i < self.maps.len()
            invariant
                s == self.entries(),
                i <= self.maps@.len(),
                first_key_with_target(s, target@) == first_key_with_target(s.skip(i as int), target@),
            decreases self.maps@.len() - i,
        {
            proof {
                assert(s.skip(i as int).drop_first() =~= s.skip(i + 1));
            }
            if compare_keys(self.maps[i].1.as_str(), target) == KeyOrder::Equal {
                return Some(self.maps[i].0.clone());
            }
            i = i + 1;
        }
        None
    }

    /// Records that `key` stands for `target`, in place of any earlier entry
    /// with that key.
    pub fn insert(&mut self, key: String, target: String)
        requires
            old(self).wf(),
        ensures
            final(self).wf(),
            final(self).command() == old(self).command(),
            final(self).map() == old(self).map().insert(key@, target@),
    {
        let ghost s = self.entries();
        proof {
            lemma_sorted_distinct(s);
        }
        let mut i: usize = 0;
        while i < self.maps.len() && compare_keys(self.maps[i].0.as_str(), key.as_str()) == KeyOrder::Less
            invariant
                s == self.entries(),
                sorted_keys(s),
                i <= self.maps@.len(),
                forall|j: int| 0 <= j < i ==> keys::key_lt(#[trigger] s[j].0, key@),
            decreases self.maps@.len() - i,
        {
            i = i + 1;
        }
        let ghost kv: EntryView = (key@, target@);
        let found = i < self.maps.len() && compare_keys(self.maps[i].0.as_str(), key.as_str()) == KeyOrder::Equal;
        if found {
            self.maps.remove(i);
        }
        self.maps.insert(i, (key, target));
        let ghost n = self.entries();
        proof {
            if found {
                assert(n =~= s.update(i as int, kv));
            } else {
                assert(n =~= s.insert(i as int, kv));
                if i < s.len() {
                    keys::lemma_key_lt_total(s[i as int].0, key@);
                }
            }
            assert(sorted_keys(n)) by {
                assert forall|a: int, b: int| 0 <= a < b < n.len() implies keys::key_lt(#[trigger] n[a].0, #[trigger] n[b].0) by {
                    if found {
                        if a == i {
                            assert(keys::key_lt(s[a].0, s[b].0));
                        } else if b == i {
                            assert(keys::key_lt(s[a].0, s[b].0));
                        }
                    } else {
                        if a < i && b == i {
                        } else if a < i && b > i {
                            assert(n[b] == s[b - 1]);
                            if b - 1 > a {
                                assert(keys::key_lt(s[a].0, s[b - 1].0));
                            }
                        } else if a == i {
                            assert(n[b] == s[b - 1]);
                            if b - 1 > i {
                                keys::lemma_key_lt_transitive(key@, s[i as int].0, s[b - 1].0);
                            }
                        } else if a < i && b < i {
                            assert(n[a] == s[a] && n[b] == s[b]);
                        } else {
                            assert(n[a] == s[a - 1] && n[b] == s[b - 1]);
                        }
                    }
                }
            }
            lemma_sorted_distinct(n);
            assert(map_of(n) =~= map_of(s).insert(key@, target@)) by {
                assert forall|k: Seq<char>| #[trigger] lookup(n, k) == (if k == key@ { Some(target@) } else { lookup(s, k) }) by {
                    if k == key@ {
                        lemma_lookup_index(n, i as int);
                    } else {
                        lemma_lookup_none(s, k);
                        lemma_lookup_none(n, k);
                        if lookup(s, k) is Some {
                            let j = choose|j: int| 0 <= j < s.len() && #[trigger] s[j].0 == k;
                            lemma_lookup_index(s, j);
                            if found {
                                assert(n[j] == s[j]);
                                lemma_lookup_index(n, j);
                            } else if j < i {
                                assert(n[j] == s[j]);
                                lemma_lookup_index(n, j);
                            } else {
                                assert(n[j + 1] == s[j]);
                                lemma_lookup_index(n, j + 1);
                            }
                        } else {
                            assert forall|j: int| 0 <= j < n.len() implies #[trigger] n[j].0 != k by {
                                if found {
                                    if j != i {
                                        assert(n[j] == s[j]);
                                    }
                                } else if j < i {
                                    assert(n[j] == s[j]);
                                } else if j > i {
                                    assert(n[j] == s[j - 1]);
                                }
                            }
                        }
                    }
                }
            }
        }
    }

    /// Takes out the entry with key `key`, giving back its system path.
    pub fn remove(&mut self, key: &str) -> (r: Option<String>)
        requires
            old(self).wf(),
        ensures
            final(self).wf(),
            final(self).command() == old(self).command(),
            final(self).map() == old(self).map().remove(key@),
            match r {
                Some(t) => old(self).map().contains_key(key@) && old(self).map()[key@] == t@,
                None => !old(self).map().contains_key(key@),
            },
    {
        let ghost s = self.entries();
        proof {
            lemma_sorted_distinct(s);
        }
        let mut i: usize = 0;
        while i < self.maps.len()
            invariant
                s == self.entries(),
                s == old(self).entries(),
                self.command() == old(self).command(),
                sorted_keys(s),
                distinct_keys(s),
                i <= self.maps@.len(),
                forall|j: int| 0 <= j < i ==> #[trigger] s[j].0 != key@,
            decreases self.maps@.len() - i,
        {
            if compare_keys(self.maps[i].0.as_str(), key) == KeyOrder::Equal {
                let (_, t) = self.maps.remove(i);
                let ghost n = self.entries();
                proof {
                    assert(n =~= s.remove(i as int));
                    lemma_lookup_index(s, i as int);
                    assert(sorted_keys(n)) by {
                        assert forall|a: int, b: int| 0 <= a < b < n.len() implies keys::key_lt(#[trigger] n[a].0, #[trigger] n[b].0) by {
                            let a2 = if a < i { a } else { a + 1 };
                            let b2 = if b < i { b } else { b + 1 };
                            assert(n[a] == s[a2] && n[b] == s[b2]);
                        }
                    }
                    lemma_sorted_distinct(n);
                    assert(map_of(n) =~= map_of(s).remove(key@)) by {
                        assert forall|k: Seq<char>| #[trigger] lookup(n, k) == (if k == key@ { None } else { lookup(s, k) }) by {
                            lemma_lookup_none(n, k);
                            lemma_lookup_none(s, k);
                            if k == key@ {
                                assert forall|j: int| 0 <= j < n.len() implies #[trigger] n[j].0 != k by {
                                    let j2 = if j < i { j } else { j + 1 };
                                    assert(n[j] == s[j2]);
                                }
                            } else if lookup(s, k) is Some {
                                let j = choose|j: int| 0 <= j < s.len() && #[trigger] s[j].0 == k;
                                lemma_lookup_index(s, j);
                                if j < i {
                                    assert(n[j] == s[j]);
                                    lemma_lookup_index(n, j);
                                } else {
                                    assert(n[j - 1] == s[j]);
                                    lemma_lookup_index(n, j - 1);
                                }
                            } else {
                                assert forall|j: int| 0 <= j < n.len() implies #[trigger] n[j].0 != k by {
                                    let j2 = if j < i { j } else { j + 1 };
                                    assert(n[j] == s[j2]);
                                }
                            }
                        }
                    }
                }
                return Some(t);
            }
            i = i + 1;
        }
        proof {
            lemma_lookup_none(s, key@);
            assert(map_of(s).remove(key@) =~= map_of(s));
        }
        None
    }
}

} // verus!
