//! Memoization of resolution results.
//!
//! The cache maps `(icon name, theme hint)` to the resolved path, or to a
//! confirmed miss (`None`), so a repeated request never walks the theme
//! graph or touches the filesystem again. Entries are never evicted or
//! invalidated during a process's lifetime. It is backed by an association
//! list with pairwise-distinct keys; the icon sets of installed
//! applications are small enough that no more is needed.

use vstd::prelude::*;
use vstd::string::*;

use crate::text::str_eq;

verus! {

/// One memoized resolution: its key pair and the stored outcome.
pub struct CacheEntry {
    pub name: String,
    pub hint: String,
    pub value: Option<String>,
}

/// The key of an entry, as a pair of character sequences.
pub open spec fn entry_key(e: CacheEntry) -> (Seq<char>, Seq<char>) {
    (e.name@, e.hint@)
}

/// The stored outcome of an entry.
pub open spec fn entry_val(e: CacheEntry) -> Option<Seq<char>> {
    e.value.deep_view()
}

/// The mapping an entry sequence represents; later entries win.
pub open spec fn entries_map(s: Seq<CacheEntry>) -> Map<
    (Seq<char>, Seq<char>),
    Option<Seq<char>>,
>
    decreases s.len(),
{
    if s.len() == 0 {
        Map::empty()
    } else {
        entries_map(s.drop_last()).insert(entry_key(s.last()), entry_val(s.last()))
    }
}

/// No two entries share a key.
pub open spec fn distinct_keys(s: Seq<CacheEntry>) -> bool {
    forall|i: int, j: int|
        0 <= i < j < s.len() ==> entry_key(#[trigger] s[i]) != entry_key(#[trigger] s[j])
}

proof fn lemma_map_at(s: Seq<CacheEntry>, i: int)
    requires
        distinct_keys(s),
        0 <= i < s.len(),
    ensures
        entries_map(s).contains_key(entry_key(s[i])),
        entries_map(s)[entry_key(s[i])] == entry_val(s[i]),
    decreases s.len(),
{
    if i < s.len() - 1 {
        lemma_map_at(s.drop_last(), i);
        assert(entry_key(s[i]) != entry_key(s.last()));
    }
}

proof fn lemma_map_absent(s: Seq<CacheEntry>, k: (Seq<char>, Seq<char>))
    requires
        forall|i: int| 0 <= i < s.len() ==> entry_key(#[trigger] s[i]) != k,
    ensures
        !entries_map(s).contains_key(k),
    decreases s.len(),
{
    if s.len() > 0 {
        lemma_map_absent(s.drop_last(), k);
    }
}

proof fn lemma_map_update(s: Seq<CacheEntry>, i: int, e: CacheEntry)
    requires
        distinct_keys(s),
        0 <= i < s.len(),
        entry_key(e) == entry_key(s[i]),
    ensures
        entries_map(s.update(i, e)) == entries_map(s).insert(entry_key(e), entry_val(e)),
    decreases s.len(),
{
    let t = s.update(i, e);
    if i == s.len() - 1 {
        assert(t.drop_last() =~= s.drop_last());
        assert(t.last() == e);
        assert(entries_map(s.drop_last()).insert(entry_key(e), entry_val(e)) =~= entries_map(
            s.drop_last(),
        ).insert(entry_key(s.last()), entry_val(s.last())).insert(entry_key(e), entry_val(e)));
    } else {
        assert(t.drop_last() =~= s.drop_last().update(i, e));
        assert(t.last() == s.last());
        lemma_map_update(s.drop_last(), i, e);
        assert(entry_key(e) != entry_key(s.last()));
        assert(entries_map(s.drop_last()).insert(entry_key(e), entry_val(e)).insert(
            entry_key(s.last()),
            entry_val(s.last()),
        ) =~= entries_map(s.drop_last()).insert(entry_key(s.last()), entry_val(s.last())).insert(
            entry_key(e),
            entry_val(e),
        ));
    }
}

/// Memoizes `(icon name, theme hint) -> resolved path or confirmed miss`.
pub struct ResolutionCache {
    entries: Vec<CacheEntry>,
}

impl View for ResolutionCache {
    type V = Map<(Seq<char>, Seq<char>), Option<Seq<char>>>;

    closed spec fn view(&self) -> Self::V {
        entries_map(self.entries@)
    }
}

impl ResolutionCache {
    /// Well-formed: no key occurs twice.
    pub closed spec fn wf(&self) -> bool {
        distinct_keys(self.entries@)
    }

    /// An empty cache.
    pub fn new() -> (c: ResolutionCache)
        ensures
            c.wf(),
            c@ == Map::<(Seq<char>, Seq<char>), Option<Seq<char>>>::empty(),
    {
        let c = ResolutionCache { entries: Vec::new() };
        proof {
            assert(c.entries@ =~= Seq::<CacheEntry>::empty());
        }
        c
    }

    /// The stored outcome for the key, if the key was ever stored: `None`
    /// for an unknown key, `Some(outcome)` for a known one, where the
    /// outcome itself may be a confirmed miss. The filesystem is never
    /// touched.
    pub fn get(&self, name: &str, hint: &str) -> (r: Option<Option<String>>)
        requires
            self.wf(),
        ensures
            match r {
                Option::Some(v) => self@.contains_key((name@, hint@)) && v.deep_view() == self@[(
                    name@,
                    hint@,
                )],
                Option::None => !self@.contains_key((name@, hint@)),
            },
    {
        let ghost k = (name@, hint@);
        let mut i: usize = 0;
        while i < self.entries.len()
            invariant
                self.wf(),
                k == (name@, hint@),
                i <= self.entries@.len(),
                forall|j: int| 0 <= j < i ==> entry_key(#[trigger] self.entries@[j]) != k,
            decreases self.entries@.len() - i,
        {
            let e = &self.entries[i];
            if str_eq(e.name.as_str(), name) && str_eq(e.hint.as_str(), hint) {
                proof {
                    lemma_map_at(self.entries@, i as int);
                }
                let v = match &e.value {
                    Option::Some(p) => Option::Some(p.clone()),
                    Option::None => Option::None,
                };
                return Option::Some(v);
            }
            i += 1;
        }
        proof {
            lemma_map_absent(self.entries@, k);
        }
        Option::None
    }

    /// Stores an outcome, replacing any earlier one under the same key.
    pub fn put(&mut self, name: String, hint: String, value: Option<String>)
        requires
            old(self).wf(),
        ensures
            final(self).wf(),
            final(self)@ == old(self)@.insert((name@, hint@), value.deep_view()),
    {
        let ghost k = (name@, hint@);
        let ghost s0 = self.entries@;
        let mut i: usize = 0;
        while i < self.entries.len()
            invariant
                self.wf(),
                self.entries@ == s0,
                s0 == old(self).entries@,
                k == (name@, hint@),
                i <= self.entries@.len(),
                forall|j: int| 0 <= j < i ==> entry_key(#[trigger] self.entries@[j]) != k,
            decreases self.entries@.len() - i,
        {
            let hit = str_eq(self.entries[i].name.as_str(), name.as_str()) && str_eq(
                self.entries[i].hint.as_str(),
                hint.as_str(),
            );
            if hit {
                let e = CacheEntry { name, hint, value };
                proof {
                    assert(entry_key(e) == k);
                    assert(entry_val(e) == value.deep_view());
                    lemma_map_update(s0, i as int, e);
                    assert(entries_map(s0.update(i as int, e)) == entries_map(s0).insert(
                        k,
                        value.deep_view(),
                    ));
                }
                self.entries.set(i, e);
                proof {
                    assert(self.entries@ == s0.update(i as int, e));
                }
                proof {
                    assert forall|a: int, b: int|
                        0 <= a < b < self.entries@.len() implies entry_key(
                        #[trigger] self.entries@[a],
                    ) != entry_key(#[trigger] self.entries@[b]) by {
                        assert(entry_key(s0[a]) != entry_key(s0[b]));
                    }
                }
                return ;
            }
            i += 1;
        }
        let e = CacheEntry { name, hint, value };
        self.entries.push(e);
        proof {
            assert(self.entries@.drop_last() =~= s0);
            assert(self.entries@.last() == e);
        }
    }
}

} // verus!
