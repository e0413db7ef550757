//! A mapping from tag keys to values, with unique keys kept in ascending
//! lexicographic order, as a tag block requires.
//!
//! The map is stored as a vector of entries sorted strictly by key; its
//! mathematical view is a `Map` from key characters to the deep view of the
//! stored value.

use vstd::prelude::*;

use crate::metadata::MetaVal;
use crate::text::{
    compare_keys, lemma_lex_lt_irreflexive, lemma_lex_lt_transitive, lex_lt, KeyOrder,
};

verus! {

/// The mapping that a sequence of entries denotes: later entries win.
pub open spec fn entries_as_map<V: DeepView>(s: Seq<(String, V)>) -> Map<
    Seq<char>,
    <V as DeepView>::V,
>
    decreases s.len(),
{
    if s.len() == 0 {
        Map::empty()
    } else {
        entries_as_map(s.drop_last()).insert(s.last().0@, s.last().1.deep_view())
    }
}

/// Entry keys in strictly ascending lexicographic order.
pub open spec fn entries_sorted<V>(s: Seq<(String, V)>) -> bool {
    forall|i: int, j: int| 0 <= i < j < s.len() ==> lex_lt(s[i].0@, s[j].0@)
}

/// Some entry of `s` has key `k`.
pub open spec fn entries_has_key<V>(s: Seq<(String, V)>, k: Seq<char>) -> bool {
    exists|i: int| 0 <= i < s.len() && s[i].0@ == k
}

proof fn lemma_sorted_unique<V>(s: Seq<(String, V)>)
    requires
        entries_sorted(s),
    ensures
        forall|i: int, j: int|
            0 <= i < s.len() && 0 <= j < s.len() && i != j ==> s[i].0@ != s[j].0@,
{
    assert forall|i: int, j: int|
        0 <= i < s.len() && 0 <= j < s.len() && i != j implies s[i].0@ != s[j].0@ by {
        lemma_lex_lt_irreflexive(s[i].0@);
    }
}

proof fn lemma_entries_as_map_contains<V: DeepView>(s: Seq<(String, V)>)
    ensures
        forall|k: Seq<char>|
            #[trigger] entries_as_map(s).contains_key(k) <==> entries_has_key(s, k),
    decreases s.len(),
{
    if s.len() > 0 {
        lemma_entries_as_map_contains(s.drop_last());
        assert forall|k: Seq<char>|
            #[trigger] entries_as_map(s).contains_key(k) <==> entries_has_key(s, k) by {
            if entries_as_map(s).contains_key(k) {
                if k == s.last().0@ {
                    assert(s[s.len() - 1].0@ == k);
                } else {
                    assert(entries_as_map(s.drop_last()).contains_key(k));
                    assert(entries_has_key(s.drop_last(), k));
                    let i = choose|i: int|
                        0 <= i < s.drop_last().len() && s.drop_last()[i].0@ == k;
                    assert(s.drop_last()[i] == s[i]);
                    assert(s[i].0@ == k);
                }
            }
            if entries_has_key(s, k) {
                let i = choose|i: int| 0 <= i < s.len() && s[i].0@ == k;
                if i < s.len() - 1 {
                    assert(s.drop_last()[i] == s[i]);
                    assert(entries_has_key(s.drop_last(), k));
                    assert(entries_as_map(s.drop_last()).contains_key(k));
                }
            }
        }
    }
}

proof fn lemma_entries_as_map_index<V: DeepView>(s: Seq<(String, V)>, i: int)
    requires
        0 <= i < s.len(),
        forall|j: int| i < j < s.len() ==> s[j].0@ != s[i].0@,
    ensures
        entries_as_map(s).contains_key(s[i].0@),
        entries_as_map(s)[s[i].0@] == s[i].1.deep_view(),
    decreases s.len(),
{
    if i < s.len() - 1 {
        lemma_entries_as_map_index(s.drop_last(), i);
        assert(s.drop_last()[i] == s[i]);
    }
}

proof fn lemma_entries_as_map_insert<V: DeepView>(s: Seq<(String, V)>, pos: int, e: (String, V))
    requires
        0 <= pos <= s.len(),
        forall|j: int| 0 <= j < s.len() ==> s[j].0@ != e.0@,
    ensures
        entries_as_map(s.insert(pos, e)) == entries_as_map(s).insert(e.0@, e.1.deep_view()),
    decreases s.len(),
{
    let t = s.insert(pos, e);
    if pos == s.len() {
        assert(t.drop_last() =~= s);
        assert(t.last() == e);
    } else {
        assert(t.drop_last() =~= s.drop_last().insert(pos, e));
        assert(t.last() == s.last());
        lemma_entries_as_map_insert(s.drop_last(), pos, e);
        assert(s[s.len() - 1].0@ != e.0@);
        assert(entries_as_map(t) =~= entries_as_map(s).insert(e.0@, e.1.deep_view()));
    }
}

proof fn lemma_entries_as_map_update<V: DeepView>(s: Seq<(String, V)>, i: int, e: (String, V))
    requires
        0 <= i < s.len(),
        e.0@ == s[i].0@,
        forall|j: int| 0 <= j < s.len() && j != i ==> s[j].0@ != s[i].0@,
    ensures
        entries_as_map(s.update(i, e)) == entries_as_map(s).insert(e.0@, e.1.deep_view()),
    decreases s.len(),
{
    let t = s.update(i, e);
    if i == s.len() - 1 {
        assert(t.drop_last() =~= s.drop_last());
        assert(t.last() == e);
        assert(entries_as_map(t) =~= entries_as_map(s).insert(e.0@, e.1.deep_view()));
    } else {
        assert(t.drop_last() =~= s.drop_last().update(i, e));
        assert(t.last() == s.last());
        lemma_entries_as_map_update(s.drop_last(), i, e);
        assert(s[s.len() - 1].0@ != e.0@);
        assert(entries_as_map(t) =~= entries_as_map(s).insert(e.0@, e.1.deep_view()));
    }
}

/// Two entry sequences with the same keys and deep-equal values in the same
/// order denote the same mapping, even when their value types differ.
pub proof fn lemma_entries_as_map_congruent<V1: DeepView, V2: DeepView<V = <V1 as DeepView>::V>>(
    s1: Seq<(String, V1)>,
    s2: Seq<(String, V2)>,
)
    requires
        s1.len() == s2.len(),
        forall|i: int|
            0 <= i < s1.len() ==> (#[trigger] s1[i]).0@ == s2[i].0@ && s1[i].1.deep_view()
                == s2[i].1.deep_view(),
    ensures
        entries_as_map(s1) == entries_as_map(s2),
    decreases s1.len(),
{
    if s1.len() > 0 {
        lemma_entries_as_map_congruent(s1.drop_last(), s2.drop_last());
        assert(s1[s1.len() - 1].0@ == s2[s2.len() - 1].0@);
        assert(entries_as_map(s1) =~= entries_as_map(s2));
    }
}

/// A tag block: a mapping from keys to values, keys unique and iterated in
/// ascending lexicographic order.
#[derive(Debug, Clone)]
pub struct TagMap<V> {
    entries: Vec<(String, V)>,
}

impl<V: DeepView> TagMap<V> {
    /// Well-formedness: the entry keys are strictly sorted, hence unique.
    pub closed spec fn wf(self) -> bool {
        entries_sorted(self.entries@)
    }

    /// The mapping this block denotes, over the deep views of its values.
    pub closed spec fn as_map(self) -> Map<Seq<char>, <V as DeepView>::V> {
        entries_as_map(self.entries@)
    }

    /// The number of entries.
    pub closed spec fn spec_len(self) -> nat {
        self.entries@.len()
    }

    /// The key of the entry at position `i`.
    pub closed spec fn spec_key(self, i: int) -> Seq<char> {
        self.entries@[i].0@
    }

    /// The value of the entry at position `i`.
    pub closed spec fn spec_val(self, i: int) -> V {
        self.entries@[i].1
    }

    /// The whole entry sequence.
    pub closed spec fn entries_seq(self) -> Seq<(String, V)> {
        self.entries@
    }

    /// Relates the abstract accessors to the entry sequence.
    pub proof fn lemma_entries_seq(self)
        ensures
            self.as_map() == entries_as_map(self.entries_seq()),
            self.spec_len() == self.entries_seq().len(),
            forall|i: int|
                0 <= i < self.spec_len() ==> (#[trigger] self.entries_seq()[i]).0@
                    == self.spec_key(i) && self.entries_seq()[i].1 == self.spec_val(i),
            self.wf() == entries_sorted(self.entries_seq()),
    {
    }

    /// Relates the entry sequence of a well-formed block to its map view:
    /// every entry is in the map, every map key comes from an entry, and the
    /// entries are strictly ordered.
    pub proof fn lemma_view_facts(self)
        requires
            self.wf(),
        ensures
            forall|i: int|
                0 <= i < self.spec_len() ==> self.as_map().contains_key(
                    #[trigger] self.spec_key(i),
                ) && self.as_map()[self.spec_key(i)] == self.spec_val(i).deep_view(),
            forall|k: Seq<char>|
                #[trigger] self.as_map().contains_key(k) ==> exists|i: int|
                    0 <= i < self.spec_len() && self.spec_key(i) == k,
            forall|i: int, j: int|
                0 <= i < j < self.spec_len() ==> lex_lt(
                    #[trigger] self.spec_key(i),
                    #[trigger] self.spec_key(j),
                ),
    {
        lemma_sorted_unique(self.entries@);
        lemma_entries_as_map_contains(self.entries@);
        assert forall|i: int|
            0 <= i < self.spec_len() implies self.as_map().contains_key(
            #[trigger] self.spec_key(i),
        ) && self.as_map()[self.spec_key(i)] == self.spec_val(i).deep_view() by {
            lemma_entries_as_map_index(self.entries@, i);
        }
        assert forall|k: Seq<char>|
            #[trigger] self.as_map().contains_key(k) implies exists|i: int|
            0 <= i < self.spec_len() && self.spec_key(i) == k by {
            let i = choose|i: int| 0 <= i < self.entries@.len() && self.entries@[i].0@ == k;
            assert(self.spec_key(i) == k);
        }
    }

    /// An empty block.
    pub fn new() -> (r: Self)
        ensures
            r.wf(),
            r.as_map() == Map::<Seq<char>, <V as DeepView>::V>::empty(),
            r.spec_len() == 0,
    {
        TagMap { entries: Vec::new() }
    }

    /// The number of entries.
    pub fn len(&self) -> (n: usize)
        ensures
            n == self.spec_len(),
    {
        self.entries.len()
    }

    /// The key at position `i`.
    pub fn key_at(&self, i: usize) -> (k: &String)
        requires
            i < self.spec_len(),
        ensures
            k@ == self.spec_key(i as int),
    {
        &self.entries[i].0
    }

    /// The value at position `i`.
    pub fn val_at(&self, i: usize) -> (v: &V)
        requires
            i < self.spec_len(),
        ensures
            *v == self.spec_val(i as int),
    {
        &self.entries[i].1
    }

    /// Looks one key up.
    pub fn get(&self, key: &str) -> (r: Option<&V>)
        requires
            self.wf(),
        ensures
            match r {
                Some(v) => self.as_map().contains_key(key@) && v.deep_view()
                    == self.as_map()[key@],
                None => !self.as_map().contains_key(key@),
            },
    {
        let n = self.entries.len();
        let mut i: usize = 0;
        while i < n
            invariant
                i <= n,
                n == self.entries@.len(),
                entries_sorted(self.entries@),
                forall|j: int| 0 <= j < i ==> self.entries@[j].0@ != key@,
            decreases n - i,
        {
            match compare_keys(key, self.entries[i].0.as_str()) {
                KeyOrder::Same => {
                    proof {
                        lemma_sorted_unique(self.entries@);
                        lemma_entries_as_map_index(self.entries@, i as int);
                    }
                    return Some(&self.entries[i].1);
                },
                KeyOrder::Before => {
                    proof {
                        lemma_lex_lt_irreflexive(key@);
                    }
                },
                KeyOrder::After => {
                    proof {
                        lemma_lex_lt_irreflexive(key@);
                    }
                },
            }
            i += 1;
        }
        proof {
            lemma_entries_as_map_contains(self.entries@);
        }
        None
    }

    /// Binds `key` to `val`, replacing any previous binding, and keeps the
    /// entries sorted.
    pub fn set(&mut self, key: String, val: V)
        requires
            old(self).wf(),
        ensures
            final(self).wf(),
            final(self).as_map() == old(self).as_map().insert(key@, val.deep_view()),
    {
        let ghost s0 = self.entries@;
        let n = self.entries.len();
        let mut i: usize = 0;
        while i < n
            invariant
                i <= n,
                n == self.entries@.len(),
                self.entries@ == s0,
                s0 == old(self).entries@,
                entries_sorted(s0),
                forall|j: int| 0 <= j < i ==> lex_lt(s0[j].0@, key@),
            decreases n - i,
        {
            match compare_keys(key.as_str(), self.entries[i].0.as_str()) {
                KeyOrder::Before => {
                    proof {
                        assert forall|j: int| 0 <= j < s0.len() implies s0[j].0@ != key@ by {
                            lemma_lex_lt_irreflexive(key@);
                            if j > i {
                                lemma_lex_lt_transitive(key@, s0[i as int].0@, s0[j].0@);
                            }
                        }
                        lemma_entries_as_map_insert(s0, i as int, (key, val));
                    }
                    self.entries.insert(i, (key, val));
                    proof {
                        let t = self.entries@;
                        assert forall|p: int, q: int|
                            0 <= p < q < t.len() implies lex_lt(t[p].0@, t[q].0@) by {
                            if p < i && q == i {
                            } else if p == i && q > i {
                                if q > i + 1 {
                                    lemma_lex_lt_transitive(
                                        key@,
                                        s0[i as int].0@,
                                        s0[q - 1].0@,
                                    );
                                }
                            } else if p < i && q > i {
                                if q > i + 1 {
                                    lemma_lex_lt_transitive(
                                        s0[p].0@,
                                        s0[i as int].0@,
                                        s0[q - 1].0@,
                                    );
                                }
                            }
                        }
                    }
                    return ;
                },
                KeyOrder::Same => {
                    proof {
                        lemma_sorted_unique(s0);
                        lemma_entries_as_map_update(s0, i as int, (key, val));
                    }
                    self.entries.remove(i);
                    self.entries.insert(i, (key, val));
                    proof {
                        assert(self.entries@ =~= s0.update(i as int, (key, val)));
                        let t = self.entries@;
                        assert forall|p: int, q: int|
                            0 <= p < q < t.len() implies lex_lt(t[p].0@, t[q].0@) by {
                            assert(t[p].0@ == s0[p].0@);
                            assert(t[q].0@ == s0[q].0@);
                        }
                    }
                    return ;
                },
                KeyOrder::After => {},
            }
            i += 1;
        }
        proof {
            assert forall|j: int| 0 <= j < s0.len() implies s0[j].0@ != key@ by {
                lemma_lex_lt_irreflexive(key@);
            }
            lemma_entries_as_map_insert(s0, s0.len() as int, (key, val));
            assert(s0.insert(s0.len() as int, (key, val)) =~= s0.push((key, val)));
        }
        self.entries.push((key, val));
        proof {
            let t = self.entries@;
            assert(t =~= s0.push((key, val)));
        }
    }

    /// Folds every binding of `other` into `self`; on a key collision the
    /// binding of `other` wins.
    pub fn union_prefer_right(&mut self, other: TagMap<V>)
        requires
            old(self).wf(),
        ensures
            final(self).wf(),
            final(self).as_map() == old(self).as_map().union_prefer_right(other.as_map()),
    {
        let TagMap { entries: mut rest } = other;
        let ghost all = rest@;
        let ghost mut done: Seq<(String, V)> = Seq::empty();
        while rest.len() > 0
            invariant
                done + rest@ == all,
                self.wf(),
                self.as_map() == old(self).as_map().union_prefer_right(entries_as_map(done)),
            decreases rest.len(),
        {
            let ghost done0 = done;
            let ghost rest0 = rest@;
            let e = rest.remove(0);
            let ghost ge = e;
            let (k, v) = e;
            self.set(k, v);
            proof {
                done = done.push(ge);
                assert(done.drop_last() =~= done0);
                assert(done + rest@ =~= all);
                let m0 = old(self).as_map();
                let md = entries_as_map(done0);
                assert(m0.union_prefer_right(md.insert(ge.0@, ge.1.deep_view()))
                    =~= m0.union_prefer_right(md).insert(ge.0@, ge.1.deep_view()));
            }
        }
        proof {
            assert(done =~= all);
        }
    }
}

impl TagMap<MetaVal> {
    /// An owned copy of this block: same keys, and values carrying the same
    /// strings.
    pub fn duplicate(&self) -> (r: TagMap<MetaVal>)
        ensures
            r.spec_len() == self.spec_len(),
            forall|i: int|
                0 <= i < self.spec_len() ==> #[trigger] r.spec_key(i) == self.spec_key(i)
                    && r.spec_val(i).deep_view() == self.spec_val(i).deep_view(),
            r.as_map() == self.as_map(),
            r.wf() <==> self.wf(),
    {
        let n = self.entries.len();
        let mut copy: Vec<(String, MetaVal)> = Vec::new();
        let mut i: usize = 0;
        while i < n
            invariant
                i <= n,
                n == self.entries@.len(),
                copy@.len() == i,
                forall|j: int|
                    0 <= j < i ==> (#[trigger] copy@[j]).0@ == self.entries@[j].0@
                        && copy@[j].1.deep_view() == self.entries@[j].1.deep_view(),
            decreases n - i,
        {
            let k = self.entries[i].0.clone();
            let v = self.entries[i].1.duplicate();
            copy.push((k, v));
            i += 1;
        }
        let r = TagMap { entries: copy };
        proof {
            lemma_entries_as_map_congruent(r.entries@, self.entries@);
            if entries_sorted(self.entries@) {
                assert forall|p: int, q: int|
                    0 <= p < q < r.entries@.len() implies lex_lt(
                    r.entries@[p].0@,
                    r.entries@[q].0@,
                ) by {
                    assert(r.entries@[p].0@ == self.entries@[p].0@);
                    assert(r.entries@[q].0@ == self.entries@[q].0@);
                }
            }
            if entries_sorted(r.entries@) {
                assert forall|p: int, q: int|
                    0 <= p < q < self.entries@.len() implies lex_lt(
                    self.entries@[p].0@,
                    self.entries@[q].0@,
                ) by {
                    assert(r.entries@[p].0@ == self.entries@[p].0@);
                    assert(r.entries@[q].0@ == self.entries@[q].0@);
                }
            }
        }
        r
    }
}

/// A block of track metadata: a mapping from lowercase keys to values.
pub type MetaBlock = TagMap<MetaVal>;

} // verus!
