//! The blob store: exact-key get and put, and a prefix scan, over string
//! keys and values.  That is the only query surface the repository may
//! assume; it matches what an object store offers.

use vstd::prelude::*;
use crate::text::{str_eq, str_has_prefix};

verus! {

/// Whether `p` is a prefix of `k`.
pub open spec fn has_prefix(k: Seq<char>, p: Seq<char>) -> bool {
    p.len() <= k.len() && k.take(p.len() as int) == p
}

/// What a prefix scan must return: exactly the matching entries, each
/// once, with their stored values, in no promised order.
pub open spec fn scan_exact(
    m: Map<Seq<char>, Seq<char>>,
    p: Seq<char>,
    r: Seq<(String, String)>,
) -> bool {
    &&& forall|i: int|
        0 <= i < r.len() ==> has_prefix(#[trigger] r[i].0@, p) && m.contains_key(r[i].0@)
            && r[i].1@ == m[r[i].0@]
    &&& forall|i: int, j: int| 0 <= i < j < r.len() ==> r[i].0@ != r[j].0@
    &&& forall|k: Seq<char>|
        #[trigger] m.contains_key(k) && has_prefix(k, p) ==> exists|i: int|
            0 <= i < r.len() && #[trigger] r[i].0@ == k
}

/// A key-value blob store.  Its abstract content is a map from keys to
/// values; `get` and `put` are exact-key, `scan_prefix` enumerates a key
/// range.  The in-memory store below implements it; a deployment may put
/// an object store behind the same surface.
pub trait BlobStore: Sized {
    /// The implementation's own well-formedness; constructors establish
    /// it and `put` preserves it.
    spec fn inv(&self) -> bool;

    /// The stored content.
    spec fn store_view(&self) -> Map<Seq<char>, Seq<char>>;

    /// The value under `key`, if any.
    fn get(&self, key: &str) -> (r: Option<String>)
        requires
            self.inv(),
        ensures
            match r {
                Some(v) => self.store_view().contains_key(key@) && v@ == self.store_view()[key@],
                None => !self.store_view().contains_key(key@),
            },
    ;

    /// Store `value` under `key`, replacing what was there.
    fn put(&mut self, key: String, value: String)
        requires
            old(self).inv(),
        ensures
            final(self).inv(),
            final(self).store_view() == old(self).store_view().insert(key@, value@),
    ;

    /// Every entry whose key starts with `prefix`.
    fn scan_prefix(&self, prefix: &str) -> (r: Vec<(String, String)>)
        requires
            self.inv(),
        ensures
            scan_exact(self.store_view(), prefix@, r@),
    ;
}

/// The content spelled by a list of entries; a later entry overrides an
/// earlier one with the same key.
pub open spec fn entries_map(s: Seq<(String, String)>) -> Map<Seq<char>, Seq<char>>
    decreases s.len(),
{
    if s.len() == 0 {
        Map::empty()
    } else {
        entries_map(s.drop_last()).insert(s.last().0@, s.last().1@)
    }
}

/// Pairwise distinct keys.
pub open spec fn unique_keys(s: Seq<(String, String)>) -> bool {
    forall|i: int, j: int| 0 <= i < j < s.len() ==> s[i].0@ != s[j].0@
}

proof fn lemma_entries_map_index(s: Seq<(String, String)>, i: int)
    requires
        unique_keys(s),
        0 <= i < s.len(),
    ensures
        entries_map(s).contains_key(s[i].0@),
        entries_map(s)[s[i].0@] == s[i].1@,
    decreases s.len(),
{
    if i == s.len() - 1 {
    } else {
        assert(s.drop_last()[i] == s[i]);
        lemma_entries_map_index(s.drop_last(), i);
        assert(s[i].0@ != s.last().0@);
    }
}

proof fn lemma_entries_map_dom(s: Seq<(String, String)>, k: Seq<char>)
    requires
        forall|i: int| 0 <= i < s.len() ==> (#[trigger] s[i].0)@ != k,
    ensures
        !entries_map(s).contains_key(k),
    decreases s.len(),
{
    if s.len() > 0 {
        assert(forall|i: int| 0 <= i < s.len() - 1 ==> #[trigger] s.drop_last()[i] == s[i]);
        lemma_entries_map_dom(s.drop_last(), k);
        assert(s.last().0@ != k);
    }
}

proof fn lemma_entries_map_update(s: Seq<(String, String)>, i: int, e: (String, String))
    requires
        unique_keys(s),
        0 <= i < s.len(),
        s[i].0@ == e.0@,
    ensures
        entries_map(s.update(i, e)) == entries_map(s).insert(e.0@, e.1@),
    decreases s.len(),
{
    let su = s.update(i, e);
    if i == s.len() - 1 {
        assert(su.drop_last() =~= s.drop_last());
        assert(su.last() == e);
        assert(entries_map(su) =~= entries_map(s).insert(e.0@, e.1@));
    } else {
        assert(su.drop_last() =~= s.drop_last().update(i, e));
        assert(su.last() == s.last());
        assert(s.drop_last()[i] == s[i]);
        lemma_entries_map_update(s.drop_last(), i, e);
        assert(s.last().0@ != e.0@);
        assert(entries_map(su) =~= entries_map(s).insert(e.0@, e.1@));
    }
}

/// Find the entry holding `key`, if any.
fn find_key(entries: &Vec<(String, String)>, key: &str) -> (r: Option<usize>)
    ensures
        match r {
            Some(i) => i < entries@.len() && entries@[i as int].0@ == key@,
            None => forall|j: int| 0 <= j < entries@.len() ==> (#[trigger] entries@[j].0)@ != key@,
        },
{
    let n = entries.len();
    let mut i: usize = 0;
    loop
        invariant
            i <= n,
            n == entries@.len(),
            forall|j: int| 0 <= j < i ==> (#[trigger] entries@[j].0)@ != key@,
        decreases n - i,
    {
        if i >= n {
            return None;
        }
        if str_eq(entries[i].0.as_str(), key) {
            return Some(i);
        }
        i = i + 1;
    }
}

/// The in-memory blob store: a vector of entries with pairwise distinct
/// keys.
pub struct MemStore {
    entries: Vec<(String, String)>,
}

impl MemStore {
    /// A fresh, empty store.
    pub fn new() -> (r: MemStore)
        ensures
            r.inv(),
            r.store_view() == Map::<Seq<char>, Seq<char>>::empty(),
    {
        MemStore { entries: Vec::new() }
    }
}

impl BlobStore for MemStore {
    closed spec fn inv(&self) -> bool {
        unique_keys(self.entries@)
    }

    closed spec fn store_view(&self) -> Map<Seq<char>, Seq<char>> {
        entries_map(self.entries@)
    }

    fn get(&self, key: &str) -> (r: Option<String>) {
        match find_key(&self.entries, key) {
            Some(i) => {
                let v = self.entries[i].1.clone();
                proof {
                    lemma_entries_map_index(self.entries@, i as int);
                }
                Some(v)
            },
            None => {
                proof {
                    lemma_entries_map_dom(self.entries@, key@);
                }
                None
            },
        }
    }

    fn put(&mut self, key: String, value: String) {
        match find_key(&self.entries, key.as_str()) {
            Some(i) => {
                proof {
                    lemma_entries_map_update(self.entries@, i as int, (key, value));
                }
                self.entries.set(i, (key, value));
            },
            None => {
                proof {
                    lemma_entries_map_dom(self.entries@, key@);
                }
                self.entries.push((key, value));
                proof {
                    assert(self.entries@.drop_last() =~= old(self).entries@);
                }
            },
        }
    }

    fn scan_prefix(&self, prefix: &str) -> (r: Vec<(String, String)>) {
        let n = self.entries.len();
        let mut out: Vec<(String, String)> = Vec::new();
        let mut i: usize = 0;
        while i < n
            invariant
                i <= n,
                n == self.entries@.len(),
                unique_keys(self.entries@),
                forall|x: int|
                    0 <= x < out@.len() ==> exists|j: int|
                        0 <= j < i && #[trigger] out@[x] == self.entries@[j] && has_prefix(
                            out@[x].0@,
                            prefix@,
                        ),
                forall|j: int|
                    0 <= j < i && has_prefix((#[trigger] self.entries@[j]).0@, prefix@)
                        ==> exists|x: int| 0 <= x < out@.len() && out@[x] == self.entries@[j],
                forall|x: int, y: int| 0 <= x < y < out@.len() ==> out@[x].0@ != out@[y].0@,
            decreases n - i,
        {
            if str_has_prefix(self.entries[i].0.as_str(), prefix) {
                let k = self.entries[i].0.clone();
                let v = self.entries[i].1.clone();
                let ghost prev = out@;
                proof {
                    assert((k, v) == self.entries@[i as int]);
                    assert forall|x: int| 0 <= x < out@.len() implies out@[x].0@
                        != self.entries@[i as int].0@ by {
                        let j = choose|j: int|
                            0 <= j < i && #[trigger] out@[x] == self.entries@[j] && has_prefix(
                                out@[x].0@,
                                prefix@,
                            );
                        assert(self.entries@[j].0@ != self.entries@[i as int].0@);
                    }
                }
                out.push((k, v));
                proof {
                    assert forall|j: int|
                        0 <= j < i + 1 && has_prefix(
                            (#[trigger] self.entries@[j]).0@,
                            prefix@,
                        ) implies exists|x: int|
                        0 <= x < out@.len() && out@[x] == self.entries@[j] by {
                        if j < i {
                            let x = choose|x: int|
                                0 <= x < prev.len() && prev[x] == self.entries@[j];
                            assert(out@[x] == self.entries@[j]);
                        } else {
                            assert(out@[out@.len() - 1] == self.entries@[i as int]);
                        }
                    }
                }
            } else {
                proof {
                    assert forall|j: int|
                        0 <= j < i + 1 && has_prefix(
                            (#[trigger] self.entries@[j]).0@,
                            prefix@,
                        ) implies exists|x: int|
                        0 <= x < out@.len() && out@[x] == self.entries@[j] by {
                        assert(j < i);
                        let x = choose|x: int|
                            0 <= x < out@.len() && out@[x] == self.entries@[j];
                    }
                }
            }
            i = i + 1;
        }
        proof {
            let m = entries_map(self.entries@);
            let se = self.entries@;
            assert forall|x: int|
                0 <= x < out@.len() implies has_prefix(#[trigger] out@[x].0@, prefix@)
                && m.contains_key(out@[x].0@) && out@[x].1@ == m[out@[x].0@] by {
                let j = choose|j: int|
                    0 <= j < i && #[trigger] out@[x] == se[j] && has_prefix(out@[x].0@, prefix@);
                lemma_entries_map_index(se, j);
            }
            assert forall|k: Seq<char>|
                #[trigger] m.contains_key(k) && has_prefix(k, prefix@) implies exists|x: int|
                0 <= x < out@.len() && #[trigger] out@[x].0@ == k by {
                if forall|j: int| 0 <= j < se.len() ==> (#[trigger] se[j].0)@ != k {
                    lemma_entries_map_dom(se, k);
                    assert(false);
                }
                let j = choose|j: int| 0 <= j < se.len() && (#[trigger] se[j].0)@ == k;
                assert(has_prefix(se[j].0@, prefix@));
                let x = choose|x: int| 0 <= x < out@.len() && out@[x] == se[j];
                assert(out@[x].0@ == k);
            }
            assert(scan_exact(m, prefix@, out@));
        }
        out
    }
}

} // verus!
