//! The serialized block model: on the wire a tag block maps each key to
//! either a bare string or a list of strings, while in memory every value is
//! an ordered list.  Converting to the wire form collapses one-element lists
//! to bare strings; converting from it expands bare strings to one-element
//! lists.

use vstd::prelude::*;

use crate::tagmap::{entries_as_map, lemma_entries_as_map_congruent, TagMap};

verus! {

/// A tag block in memory: every value is a list of strings.
pub type Block = TagMap<Vec<String>>;

/// A value as it appears in the serialized form of a block: either a bare
/// string or a list of strings.
#[derive(Debug, Clone)]
pub enum BlockReprVal {
    One(String),
    Many(Vec<String>),
}

impl DeepView for BlockReprVal {
    type V = Seq<Seq<char>>;

    open spec fn deep_view(&self) -> Seq<Seq<char>> {
        match self {
            BlockReprVal::One(s) => seq![s@],
            BlockReprVal::Many(vs) => vs.deep_view(),
        }
    }
}

impl BlockReprVal {
    /// Expands a serialized value into the list of strings it denotes.
    pub fn into_many(self) -> (r: Vec<String>)
        ensures
            r.deep_view() == self.deep_view(),
    {
        match self {
            BlockReprVal::One(s) => {
                let mut r = Vec::new();
                r.push(s);
                proof {
                    assert(r.deep_view() =~= seq![s@]);
                }
                r
            },
            BlockReprVal::Many(vs) => vs,
        }
    }
}

/// Holds when `r` is the collapsed wire form of the value list `l`: the bare
/// variant exactly for one-element lists.
pub open spec fn repr_is_collapse_of(r: BlockReprVal, l: Seq<Seq<char>>) -> bool {
    match r {
        BlockReprVal::One(s) => l.len() == 1 && s@ == l[0],
        BlockReprVal::Many(vs) => l.len() != 1 && vs.deep_view() == l,
    }
}

/// Collapses an owned list of values into its wire form.
pub fn collapse_block_values(vals: Vec<String>) -> (r: BlockReprVal)
    ensures
        repr_is_collapse_of(r, vals.deep_view()),
        r.deep_view() == vals.deep_view(),
{
    let ghost orig = vals.deep_view();
    let mut vals = vals;
    if vals.len() == 1 {
        match vals.pop() {
            Some(v) => {
                proof {
                    assert(BlockReprVal::One(v).deep_view() =~= orig);
                }
                BlockReprVal::One(v)
            },
            None => {
                proof {
                    assert(false);
                }
                BlockReprVal::Many(vals)
            },
        }
    } else {
        BlockReprVal::Many(vals)
    }
}

/// The serialized form of one block: keys with wire values, in key order.
pub type BlockRepr = Vec<(String, BlockReprVal)>;

/// The serialized form of a list of blocks.
pub type BlockListRepr = Vec<BlockRepr>;

/// A tag block wrapped for conversion to and from its serialized form.
#[derive(Debug, Clone)]
pub struct BlockWrapper(pub Block);

impl BlockWrapper {
    /// Builds a block from its serialized form, expanding every value.
    /// On a repeated key the later entry wins.
    pub fn from_repr(repr: BlockRepr) -> (r: BlockWrapper)
        ensures
            r.0.wf(),
            r.0.as_map() == entries_as_map(repr@),
    {
        let ghost all = repr@;
        let mut rest = repr;
        let mut b: Block = TagMap::new();
        let ghost mut done: Seq<(String, BlockReprVal)> = Seq::empty();
        while rest.len() > 0
            invariant
                done + rest@ == all,
                b.wf(),
                b.as_map() == entries_as_map(done),
            decreases rest.len(),
        {
            let ghost done0 = done;
            let e = rest.remove(0);
            let ghost ge = e;
            let (k, v) = e;
            let vals = v.into_many();
            b.set(k, vals);
            proof {
                done = done.push(ge);
                assert(done.drop_last() =~= done0);
                assert(done + rest@ =~= all);
            }
        }
        proof {
            assert(done =~= all);
        }
        BlockWrapper(b)
    }

    /// Serializes a block, collapsing every one-element value to its bare
    /// form, in key order.
    pub fn into_repr(self) -> (r: BlockRepr)
        requires
            self.0.wf(),
        ensures
            r@.len() == self.0.spec_len(),
            forall|i: int|
                0 <= i < r@.len() ==> (#[trigger] r@[i]).0@ == self.0.spec_key(i)
                    && repr_is_collapse_of(r@[i].1, self.0.spec_val(i).deep_view()),
    {
        let n = self.0.len();
        let mut r: BlockRepr = Vec::new();
        let mut i: usize = 0;
        while i < n
            invariant
                i <= n,
                n == self.0.spec_len(),
                self.0.wf(),
                r@.len() == i,
                forall|j: int|
                    0 <= j < i ==> (#[trigger] r@[j]).0@ == self.0.spec_key(j)
                        && repr_is_collapse_of(r@[j].1, self.0.spec_val(j).deep_view()),
            decreases n - i,
        {
            let k = self.0.key_at(i).clone();
            let vs = self.0.val_at(i);
            let m = vs.len();
            let mut owned: Vec<String> = Vec::new();
            let mut j: usize = 0;
            while j < m
                invariant
                    j <= m,
                    m == vs@.len(),
                    owned@.len() == j,
                    forall|p: int| 0 <= p < j ==> owned@[p] == vs@[p],
                decreases m - j,
            {
                owned.push(vs[j].clone());
                j += 1;
            }
            proof {
                assert(owned.deep_view() =~= vs.deep_view());
            }
            let rv = collapse_block_values(owned);
            r.push((k, rv));
            i += 1;
        }
        r
    }
}

/// Saving a block reproduces the mapping it was loaded from: the serialized
/// form produced by `into_repr` denotes exactly the block's own mapping, so
/// a load followed by a save preserves the object modulo the one-element
/// collapse.
pub proof fn lemma_block_round_trip(b: BlockWrapper, repr: BlockRepr)
    requires
        b.0.wf(),
        repr@.len() == b.0.spec_len(),
        forall|i: int|
            0 <= i < repr@.len() ==> (#[trigger] repr@[i]).0@ == b.0.spec_key(i)
                && repr_is_collapse_of(repr@[i].1, b.0.spec_val(i).deep_view()),
    ensures
        entries_as_map(repr@) == b.0.as_map(),
{
    b.0.lemma_entries_seq();
    let s = b.0.entries_seq();
    assert forall|i: int|
        0 <= i < repr@.len() implies (#[trigger] repr@[i]).0@ == s[i].0@ && repr@[i].1.deep_view()
        == s[i].1.deep_view() by {
        assert(repr_is_collapse_of(repr@[i].1, b.0.spec_val(i).deep_view()));
    }
    lemma_entries_as_map_congruent(repr@, s);
}

/// A list of tag blocks wrapped for conversion to and from its serialized
/// form: one block per track, in track order.
#[derive(Debug, Clone)]
pub struct BlockListWrapper(pub Vec<Block>);

impl BlockListWrapper {
    /// Builds a block list from its serialized form, expanding every value.
    pub fn from_repr(repr: BlockListRepr) -> (r: BlockListWrapper)
        ensures
            r.0@.len() == repr@.len(),
            forall|i: int|
                0 <= i < repr@.len() ==> (#[trigger] r.0@[i]).wf() && r.0@[i].as_map()
                    == entries_as_map(repr@[i]@),
    {
        let ghost all = repr@;
        let mut rest = repr;
        let mut out: Vec<Block> = Vec::new();
        while rest.len() > 0
            invariant
                out@.len() + rest@.len() == all.len(),
                forall|i: int| 0 <= i < rest@.len() ==> rest@[i] == all[out@.len() + i],
                forall|i: int|
                    0 <= i < out@.len() ==> (#[trigger] out@[i]).wf() && out@[i].as_map()
                        == entries_as_map(all[i]@),
            decreases rest.len(),
        {
            let ghost rest0 = rest@;
            let br = rest.remove(0);
            let bw = BlockWrapper::from_repr(br);
            out.push(bw.0);
        }
        BlockListWrapper(out)
    }

    /// Serializes a block list, collapsing every one-element value.
    pub fn into_repr(self) -> (r: BlockListRepr)
        requires
            forall|i: int| 0 <= i < self.0@.len() ==> (#[trigger] self.0@[i]).wf(),
        ensures
            r@.len() == self.0@.len(),
            forall|i: int, j: int|
                0 <= i < r@.len() && 0 <= j < r@[i]@.len() ==> (#[trigger] r@[i]@[j]).0@
                    == self.0@[i].spec_key(j) && repr_is_collapse_of(
                    r@[i]@[j].1,
                    self.0@[i].spec_val(j).deep_view(),
                ),
            forall|i: int| 0 <= i < r@.len() ==> (#[trigger] r@[i]@).len() == self.0@[i].spec_len(),
    {
        let ghost all = self.0@;
        let mut rest = self.0;
        let mut out: BlockListRepr = Vec::new();
        while rest.len() > 0
            invariant
                out@.len() + rest@.len() == all.len(),
                forall|i: int| 0 <= i < rest@.len() ==> rest@[i] == all[out@.len() + i],
                forall|i: int| 0 <= i < all.len() ==> (#[trigger] all[i]).wf(),
                forall|i: int, j: int|
                    0 <= i < out@.len() && 0 <= j < out@[i]@.len() ==> (#[trigger] out@[i]@[j]).0@
                        == all[i].spec_key(j) && repr_is_collapse_of(
                        out@[i]@[j].1,
                        all[i].spec_val(j).deep_view(),
                    ),
                forall|i: int|
                    0 <= i < out@.len() ==> (#[trigger] out@[i]@).len() == all[i].spec_len(),
            decreases rest.len(),
        {
            let b = rest.remove(0);
            let br = BlockWrapper(b).into_repr();
            out.push(br);
        }
        out
    }
}

} // verus!
