//! The metadata value model: a tag field is either a bare string or an
//! ordered list of strings, and a length-one list always collapses to the
//! bare form when values are normalized for serialization.

use vstd::prelude::*;

use crate::tagmap::MetaBlock;
use crate::text::spec_join;

verus! {

/// Represents a metadata value. Metadata values can be either a bare string,
/// or a list of strings.
#[derive(Debug, Clone)]
pub enum MetaVal {
    One(String),
    Many(Vec<String>),
}

impl DeepView for MetaVal {
    type V = Seq<Seq<char>>;

    open spec fn deep_view(&self) -> Seq<Seq<char>> {
        match self {
            MetaVal::One(s) => seq![s@],
            MetaVal::Many(vs) => vs.deep_view(),
        }
    }
}

/// Relies on core::slice::from_ref: the returned slice has length one and
/// contains exactly the referenced value.
pub assume_specification<T>[ core::slice::from_ref ](v: &T) -> (r: &[T])
    ensures
        r@.len() == 1,
        r@[0] == *v,
;

impl MetaVal {
    /// A value is normalized when the list variant is not used for a single
    /// value: a one-element list is represented by the bare variant instead.
    pub open spec fn is_normalized(self) -> bool {
        match self {
            MetaVal::One(_) => true,
            MetaVal::Many(vs) => vs@.len() != 1,
        }
    }

    /// A read-only ordered view of the carried values, without copying.
    pub fn as_slice(&self) -> (r: &[String])
        ensures
            r.deep_view() == self.deep_view(),
    {
        let r = match self {
            MetaVal::One(v) => core::slice::from_ref(v),
            MetaVal::Many(vs) => vs.as_slice(),
        };
        proof {
            assert(r.deep_view() =~= self.deep_view());
        }
        r
    }

    /// Consumes the value into an owned ordered list of strings.
    pub fn into_vec(self) -> (r: Vec<String>)
        ensures
            r.deep_view() == self.deep_view(),
    {
        match self {
            MetaVal::One(v) => {
                let mut r = Vec::new();
                r.push(v);
                proof {
                    assert(r.deep_view() =~= seq![v@]);
                }
                r
            },
            MetaVal::Many(vs) => vs,
        }
    }

    /// An owned copy of this value, carrying the same strings in the same
    /// variant.
    pub fn duplicate(&self) -> (r: MetaVal)
        ensures
            r.deep_view() == self.deep_view(),
            r is One <==> self is One,
    {
        match self {
            MetaVal::One(s) => MetaVal::One(s.clone()),
            MetaVal::Many(vs) => {
                let n = vs.len();
                let mut copy: Vec<String> = Vec::new();
                let mut i: usize = 0;
                while i < n
                    invariant
                        i <= n,
                        n == vs@.len(),
                        copy@.len() == i,
                        forall|j: int| 0 <= j < i ==> copy@[j] == vs@[j],
                    decreases n - i,
                {
                    copy.push(vs[i].clone());
                    i += 1;
                }
                proof {
                    assert(copy.deep_view() =~= vs.deep_view());
                }
                MetaVal::Many(copy)
            },
        }
    }

    /// Renders a value for display: a bare string verbatim, a list as its
    /// elements joined with a comma and a space.
    pub fn to_display_string(&self) -> (r: String)
        ensures
            r@ == spec_join(self.deep_view()),
    {
        match self {
            MetaVal::One(v) => v.clone(),
            MetaVal::Many(vs) => {
                let mut out = String::new();
                let mut i: usize = 0;
                let n = vs.len();
                while i < n
                    invariant
                        i <= n,
                        n == vs@.len(),
                        out@ == spec_join(vs.deep_view().subrange(0, i as int)),
                    decreases n - i,
                {
                    if i > 0 {
                        proof {
                            reveal_strlit(", ");
                        }
                        out.append(", ");
                    }
                    out.append(vs[i].as_str());
                    proof {
                        let pre1 = vs.deep_view().subrange(0, (i + 1) as int);
                        assert(pre1.drop_last() =~= vs.deep_view().subrange(0, i as int));
                        assert(pre1.last() == vs@[i as int]@);
                        assert(out@ =~= spec_join(pre1));
                    }
                    i += 1;
                }
                proof {
                    assert(vs.deep_view().subrange(0, n as int) =~= vs.deep_view());
                }
                out
            },
        }
    }
}

/// Holds when `r` is the collapsed (serialized) form of the value sequence
/// `l`: a one-element sequence becomes the bare variant, anything else stays
/// the list variant.
pub open spec fn is_collapse_of(r: MetaVal, l: Seq<Seq<char>>) -> bool {
    match r {
        MetaVal::One(s) => l.len() == 1 && s@ == l[0],
        MetaVal::Many(vs) => l.len() != 1 && vs.deep_view() == l,
    }
}

/// Collapses an owned list of values into a normalized `MetaVal`.
pub fn collapse_values(vals: Vec<String>) -> (r: MetaVal)
    ensures
        is_collapse_of(r, vals.deep_view()),
        r.deep_view() == vals.deep_view(),
        r.is_normalized(),
{
    let ghost orig = vals.deep_view();
    let mut vals = vals;
    if vals.len() == 1 {
        match vals.pop() {
            Some(v) => {
                proof {
                    assert(MetaVal::One(v).deep_view() =~= orig);
                }
                MetaVal::One(v)
            },
            None => {
                proof {
                    assert(false);
                }
                MetaVal::Many(vals)
            },
        }
    } else {
        MetaVal::Many(vals)
    }
}

/// The values that serializing a `MetaVal` writes out are exactly the values
/// it carries, so collapsing a value's expansion and collapsing the value
/// itself agree: they have the same variant and carry the same strings.
/// In particular a one-element list and its bare equivalent serialize
/// identically.
pub proof fn lemma_collapse_expand(v: MetaVal, collapsed_of_expansion: MetaVal, collapsed: MetaVal)
    requires
        is_collapse_of(collapsed_of_expansion, v.deep_view()),
        is_collapse_of(collapsed, v.deep_view()),
    ensures
        collapsed_of_expansion is One <==> collapsed is One,
        collapsed_of_expansion.deep_view() == collapsed.deep_view(),
{
    assert(collapsed_of_expansion.deep_view() =~= collapsed.deep_view());
}

/// The combined representation of an album's metadata: one block about the
/// album itself, and one block per contained track, in track order.
#[derive(Debug, Clone)]
pub struct Metadata {
    pub album: MetaBlock,
    pub tracks: Vec<MetaBlock>,
}

impl Metadata {
    /// Every contained block is well formed.
    pub open spec fn wf(self) -> bool {
        &&& self.album.wf()
        &&& forall|i: int| 0 <= i < self.tracks@.len() ==> (#[trigger] self.tracks@[i]).wf()
    }
}

} // verus!
