//! The pending-attribution store: a map from source id to the trigger text
//! that is waiting for its completion event.
//!
//! It is stored as a vector of entries with pairwise-distinct keys and is
//! specified through its abstract `Map<u64, Seq<char>>` view, so that the
//! discard semantics of the pipeline can be stated exactly.

use vstd::prelude::*;

verus! {

/// The map represented by a sequence of key/value entries; later entries
/// win, though with distinct keys no overwrite ever happens.
pub open spec fn entries_to_map(s: Seq<(u64, String)>) -> Map<u64, Seq<char>>
    decreases s.len(),
{
    if s.len() == 0 {
        Map::empty()
    } else {
        entries_to_map(s.drop_last()).insert(s.last().0, s.last().1@)
    }
}

/// Some entry of `s` carries the key `k`.
pub open spec fn entries_have_key(s: Seq<(u64, String)>, k: u64) -> bool {
    exists|i: int| 0 <= i < s.len() && s[i].0 == k
}

/// The keys of `s` are pairwise distinct.
pub open spec fn entries_distinct(s: Seq<(u64, String)>) -> bool {
    forall|i: int, j: int| 0 <= i < j < s.len() ==> s[i].0 != s[j].0
}

/// The domain of the represented map is exactly the set of keys occurring
/// in the entries.
proof fn lemma_entries_dom(s: Seq<(u64, String)>, k: u64)
    ensures
        entries_to_map(s).dom().contains(k) == entries_have_key(s, k),
    decreases s.len(),
{
    if s.len() == 0 {
    } else {
        lemma_entries_dom(s.drop_last(), k);
        if s.last().0 == k {
            assert(s[s.len() - 1].0 == k);
        } else {
            assert(entries_have_key(s, k) == entries_have_key(s.drop_last(), k)) by {
                if entries_have_key(s, k) {
                    let i = choose|i: int| 0 <= i < s.len() && s[i].0 == k;
                    assert(s.drop_last()[i] == s[i]);
                }
                if entries_have_key(s.drop_last(), k) {
                    let i = choose|i: int| 0 <= i < s.len() - 1 && s.drop_last()[i].0 == k;
                    assert(s[i].0 == k);
                }
            }
        }
    }
}

/// With distinct keys, the value stored for the key of entry `i` is the
/// value of entry `i`.
proof fn lemma_entries_value(s: Seq<(u64, String)>, i: int)
    requires
        entries_distinct(s),
        0 <= i < s.len(),
    ensures
        entries_to_map(s)[s[i].0] == s[i].1@,
    decreases s.len(),
{
    if i == s.len() - 1 {
    } else {
        assert(s.drop_last()[i] == s[i]);
        assert(entries_distinct(s.drop_last())) by {
            assert(forall|a: int, b: int|
                0 <= a < b < s.len() - 1 ==> s.drop_last()[a] == s[a] && s.drop_last()[b] == s[b]);
        }
        lemma_entries_value(s.drop_last(), i);
        assert(s.last().0 != s[i].0);
    }
}

/// With distinct keys, the represented map has exactly one element per
/// entry.
proof fn lemma_entries_card(s: Seq<(u64, String)>)
    requires
        entries_distinct(s),
    ensures
        entries_to_map(s).dom().finite(),
        entries_to_map(s).dom().len() == s.len(),
    decreases s.len(),
{
    if s.len() == 0 {
        assert(entries_to_map(s).dom() =~= Set::<u64>::empty());
    } else {
        assert(entries_distinct(s.drop_last())) by {
            assert(forall|a: int, b: int|
                0 <= a < b < s.len() - 1 ==> s.drop_last()[a] == s[a] && s.drop_last()[b] == s[b]);
        }
        lemma_entries_card(s.drop_last());
        lemma_entries_dom(s.drop_last(), s.last().0);
        assert(!entries_have_key(s.drop_last(), s.last().0)) by {
            if entries_have_key(s.drop_last(), s.last().0) {
                let i = choose|i: int|
                    0 <= i < s.len() - 1 && s.drop_last()[i].0 == s.last().0;
                assert(s[i].0 == s[s.len() - 1].0);
            }
        }
    }
}

/// Map from source id to pending trigger text.
pub struct PendingMap {
    entries: Vec<(u64, String)>,
}

impl PendingMap {
    /// Structural invariant: keys are pairwise distinct.
    pub closed spec fn wf(&self) -> bool {
        entries_distinct(self.entries@)
    }

    /// Number of entries held.
    pub closed spec fn count(&self) -> nat {
        self.entries@.len()
    }

    /// The abstract map.
    pub closed spec fn view(&self) -> Map<u64, Seq<char>> {
        entries_to_map(self.entries@)
    }

    /// The number of entries equals the size of the abstract map.
    pub proof fn lemma_count_is_dom_len(&self)
        requires
            self.wf(),
        ensures
            self@.dom().finite(),
            self@.dom().len() == self.count(),
    {
        lemma_entries_card(self.entries@);
    }

    /// An empty pending map.
    pub fn new() -> (r: Self)
        ensures
            r.wf(),
            r@ == Map::<u64, Seq<char>>::empty(),
            r.count() == 0,
    {
        PendingMap { entries: Vec::new() }
    }

    /// Index of the entry with key `k`, if any.
    fn find_index(&self, k: u64) -> (r: Option<usize>)
        ensures
            match r {
                Some(i) => i < self.entries@.len() && self.entries@[i as int].0 == k,
                None => !entries_have_key(self.entries@, k),
            },
    {
        let n = self.entries.len();
        let mut i: usize = 0;
        while i < n
            invariant
                0 <= i <= n,
                n == self.entries@.len(),
                forall|j: int| 0 <= j < i ==> self.entries@[j].0 != k,
            decreases n - i,
        {
            if self.entries[i].0 == k {
                return Some(i);
            }
            i += 1;
        }
        None
    }

    /// Number of entries held.
    pub fn len(&self) -> (r: usize)
        ensures
            r == self.count(),
    {
        self.entries.len()
    }

    /// Drop every entry.
    pub fn clear(&mut self)
        ensures
            final(self).wf(),
            final(self)@ == Map::<u64, Seq<char>>::empty(),
            final(self).count() == 0,
    {
        self.entries.clear();
    }

    /// Insert `t` under `k`, overwriting an existing entry for `k`.
    pub fn insert(&mut self, k: u64, t: String)
        requires
            old(self).wf(),
        ensures
            final(self).wf(),
            final(self)@ == old(self)@.insert(k, t@),
            final(self).count() == old(self).count()
                + (if old(self)@.dom().contains(k) { 0int } else { 1int }),
    {
        let ghost olds = self.entries@;
        match self.find_index(k) {
            Some(i) => {
                self.entries[i] = (k, t);
                proof {
                    let news = self.entries@;
                    assert(entries_distinct(news)) by {
                        assert(forall|a: int| 0 <= a < news.len() ==> news[a].0 == olds[a].0);
                    }
                    lemma_entries_dom(olds, k);
                    assert(entries_to_map(news) =~= entries_to_map(olds).insert(k, t@)) by {
                        assert forall|k2: u64|
                            entries_to_map(news).dom().contains(k2)
                                == entries_to_map(olds).insert(k, t@).dom().contains(k2) by {
                            lemma_entries_dom(news, k2);
                            lemma_entries_dom(olds, k2);
                            if k2 != k {
                                assert(entries_have_key(news, k2) == entries_have_key(olds, k2))
                                    by {
                                    if entries_have_key(news, k2) {
                                        let a = choose|a: int|
                                            0 <= a < news.len() && news[a].0 == k2;
                                        assert(olds[a].0 == k2);
                                    }
                                    if entries_have_key(olds, k2) {
                                        let a = choose|a: int|
                                            0 <= a < olds.len() && olds[a].0 == k2;
                                        assert(news[a].0 == k2);
                                    }
                                }
                            } else {
                                assert(news[i as int].0 == k);
                            }
                        }
                        assert forall|k2: u64|
                            entries_to_map(news).dom().contains(k2) implies entries_to_map(news)[k2]
                            == entries_to_map(olds).insert(k, t@)[k2] by {
                            lemma_entries_dom(news, k2);
                            if k2 == k {
                                lemma_entries_value(news, i as int);
                            } else {
                                let a = choose|a: int| 0 <= a < news.len() && news[a].0 == k2;
                                assert(a != i);
                                assert(olds[a] == news[a]);
                                lemma_entries_value(news, a);
                                lemma_entries_value(olds, a);
                            }
                        }
                    }
                }
            },
            None => {
                self.entries.push((k, t));
                proof {
                    assert(self.entries@.drop_last() =~= olds);
                    assert(entries_distinct(self.entries@)) by {
                        assert(forall|a: int|
                            0 <= a < olds.len() ==> self.entries@[a] == olds[a]);
                    }
                    lemma_entries_dom(olds, k);
                }
            },
        }
    }

    /// Remove the entry for `k`, returning its trigger text if present.
    pub fn remove(&mut self, k: u64) -> (r: Option<String>)
        requires
            old(self).wf(),
        ensures
            final(self).wf(),
            final(self)@ == old(self)@.remove(k),
            match r {
                Some(t) => old(self)@.dom().contains(k) && t@ == old(self)@[k]
                    && final(self).count() == old(self).count() - 1,
                None => !old(self)@.dom().contains(k)
                    && final(self).count() == old(self).count(),
            },
    {
        let ghost olds = self.entries@;
        match self.find_index(k) {
            Some(i) => {
                let entry = self.entries.remove(i);
                proof {
                    let news = self.entries@;
                    assert(news =~= olds.subrange(0, i as int)
                        + olds.subrange(i + 1, olds.len() as int));
                    assert(forall|a: int| 0 <= a < i ==> news[a] == olds[a]);
                    assert(forall|a: int|
                        i <= a < news.len() ==> news[a] == olds[a + 1]);
                    assert(entries_distinct(news));
                    lemma_entries_dom(olds, k);
                    lemma_entries_value(olds, i as int);
                    assert(entries_to_map(news) =~= entries_to_map(olds).remove(k)) by {
                        assert forall|k2: u64|
                            entries_to_map(news).dom().contains(k2)
                                == entries_to_map(olds).remove(k).dom().contains(k2) by {
                            lemma_entries_dom(news, k2);
                            lemma_entries_dom(olds, k2);
                            if k2 == k {
                                if entries_have_key(news, k) {
                                    let a = choose|a: int|
                                        0 <= a < news.len() && news[a].0 == k;
                                    if a < i {
                                        assert(olds[a].0 == k);
                                    } else {
                                        assert(olds[a + 1].0 == k);
                                    }
                                }
                            } else {
                                if entries_have_key(news, k2) {
                                    let a = choose|a: int|
                                        0 <= a < news.len() && news[a].0 == k2;
                                    if a < i {
                                        assert(olds[a].0 == k2);
                                    } else {
                                        assert(olds[a + 1].0 == k2);
                                    }
                                }
                                if entries_have_key(olds, k2) {
                                    let a = choose|a: int|
                                        0 <= a < olds.len() && olds[a].0 == k2;
                                    assert(a != i);
                                    if a < i {
                                        assert(news[a].0 == k2);
                                    } else {
                                        assert(news[a - 1].0 == k2);
                                    }
                                }
                            }
                        }
                        assert forall|k2: u64|
                            entries_to_map(news).dom().contains(k2) implies entries_to_map(news)[k2]
                            == entries_to_map(olds).remove(k)[k2] by {
                            lemma_entries_dom(news, k2);
                            let a = choose|a: int| 0 <= a < news.len() && news[a].0 == k2;
                            lemma_entries_value(news, a);
                            if a < i {
                                lemma_entries_value(olds, a);
                            } else {
                                lemma_entries_value(olds, a + 1);
                            }
                        }
                    }
                }
                Some(entry.1)
            },
            None => {
                proof {
                    lemma_entries_dom(olds, k);
                    assert(entries_to_map(olds).remove(k) =~= entries_to_map(olds));
                }
                None
            },
        }
    }

    /// Keep only the entries whose key is outside `[start, end)`; used for
    /// the ranged discard events.
    pub fn retain_outside(&mut self, start: u64, end: u64)
        requires
            old(self).wf(),
        ensures
            final(self).wf(),
            final(self)@ == Map::<u64, Seq<char>>::new(
                |k: u64| old(self)@.dom().contains(k) && (k < start || k >= end),
                |k: u64| old(self)@[k],
            ),
    {
        let ghost olds = self.entries@;
        let n = self.entries.len();
        let mut kept: Vec<(u64, String)> = Vec::new();
        let ghost mut srcs: Seq<int> = Seq::empty();
        let mut i: usize = 0;
        while i < n
            invariant
                0 <= i <= n,
                n == olds.len(),
                self.entries@ == olds,
                entries_distinct(olds),
                entries_distinct(kept@),
                srcs.len() == kept@.len(),
                forall|a: int| #![trigger srcs[a]] 0 <= a < srcs.len()
                    ==> 0 <= srcs[a] < i && olds[srcs[a]] == kept@[a]
                        && (kept@[a].0 < start || kept@[a].0 >= end),
                forall|b: int| 0 <= b < i && (olds[b].0 < start || olds[b].0 >= end)
                    ==> entries_have_key(kept@, #[trigger] olds[b].0),
            decreases n - i,
        {
            let key = self.entries[i].0;
            if key < start || key >= end {
                let ghost oldk = kept@;
                let entry = (self.entries[i].0, self.entries[i].1.clone());
                proof {
                    assert(entry.1@ == olds[i as int].1@);
                    assert(entry == olds[i as int]) by {
                        assert(entry.0 == olds[i as int].0);
                    }
                }
                kept.push(entry);
                proof {
                    srcs = srcs.push(i as int);
                    assert(kept@ =~= oldk.push(olds[i as int]));
                    assert(forall|a: int| 0 <= a < oldk.len() ==> kept@[a] == oldk[a]);
                    assert(kept@[kept@.len() - 1] == olds[i as int]);
                    assert forall|a: int, b: int|
                        0 <= a < b < kept@.len() implies kept@[a].0 != kept@[b].0 by {
                        if b == kept@.len() - 1 {
                            assert(olds[srcs[a]].0 == kept@[a].0);
                            assert(srcs[a] < i);
                        }
                    }
                    assert forall|b: int|
                        0 <= b < i + 1 && (olds[b].0 < start || olds[b].0 >= end)
                            implies entries_have_key(kept@, #[trigger] olds[b].0) by {
                        if b == i as int {
                            assert(kept@[kept@.len() - 1].0 == olds[b].0);
                        } else {
                            let a = choose|a: int| 0 <= a < oldk.len() && oldk[a].0 == olds[b].0;
                            assert(kept@[a].0 == olds[b].0);
                        }
                    }
                }
            } else {
                proof {
                    assert forall|b: int|
                        0 <= b < i + 1 && (olds[b].0 < start || olds[b].0 >= end)
                            implies entries_have_key(kept@, #[trigger] olds[b].0) by {
                        assert(b != i as int);
                    }
                }
            }
            i += 1;
        }
        self.entries = kept;
        proof {
            let news = self.entries@;
            let target = Map::<u64, Seq<char>>::new(
                |k: u64| entries_to_map(olds).dom().contains(k) && (k < start || k >= end),
                |k: u64| entries_to_map(olds)[k],
            );
            assert(entries_to_map(news) =~= target) by {
                assert forall|k2: u64|
                    entries_to_map(news).dom().contains(k2) == target.dom().contains(k2) by {
                    lemma_entries_dom(news, k2);
                    lemma_entries_dom(olds, k2);
                    if entries_have_key(news, k2) {
                        let a = choose|a: int| 0 <= a < news.len() && news[a].0 == k2;
                        assert(olds[srcs[a]].0 == k2);
                    }
                    if entries_have_key(olds, k2) && (k2 < start || k2 >= end) {
                        let b = choose|b: int| 0 <= b < olds.len() && olds[b].0 == k2;
                    }
                }
                assert forall|k2: u64|
                    entries_to_map(news).dom().contains(k2) implies entries_to_map(news)[k2]
                    == target[k2] by {
                    lemma_entries_dom(news, k2);
                    let a = choose|a: int| 0 <= a < news.len() && news[a].0 == k2;
                    lemma_entries_value(news, a);
                    let b = srcs[a];
                    assert(olds[b] == news[a]);
                    lemma_entries_value(olds, b);
                    assert(target.dom().contains(k2));
                    assert(target[k2] == entries_to_map(olds)[k2]);
                    assert(entries_to_map(olds)[k2] == olds[b].1@);
                    assert(entries_to_map(news)[k2] == news[a].1@);
                }
            }
        }
    }

    /// Keep only the entries whose key is at least `m`; used for the
    /// discard-previous events.
    pub fn retain_at_least(&mut self, m: u64)
        requires
            old(self).wf(),
        ensures
            final(self).wf(),
            final(self)@ == Map::<u64, Seq<char>>::new(
                |k: u64| old(self)@.dom().contains(k) && k >= m,
                |k: u64| old(self)@[k],
            ),
    {
        self.retain_outside(0, m);
        proof {
            assert(self@ =~= Map::<u64, Seq<char>>::new(
                |k: u64| old(self)@.dom().contains(k) && k >= m,
                |k: u64| old(self)@[k],
            ));
        }
    }
}

} // verus!
