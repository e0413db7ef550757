//! Metadata merging: combining the album-level block with one track's block
//! under the track-wins collision policy, computing the two positional
//! fields, and the deny list of fields skipped when preexisting tags are
//! captured.

use vstd::prelude::*;

use crate::metadata::{collapse_values, MetaVal};
use crate::tagmap::{MetaBlock, TagMap};
use crate::text::{compare_keys, has_prefix, ascii_lowercase, dec_string, spec_dec, spec_lower, KeyOrder};

verus! {

/// What happens when the album block and a track block supply the same key.
/// Track-level values always win; this is a deliberate last-write-wins
/// policy, not a conflict error.
#[derive(Debug, Clone)]
pub enum CollisionPolicy {
    TrackWins,
}

/// The global configuration of the merge component: which fields are
/// stripped from captured preexisting tags, and how key collisions between
/// the album and track blocks are resolved.
#[derive(Debug, Clone)]
pub struct MergeConfig {
    pub skipped_keys: Vec<String>,
    pub skipped_prefixes: Vec<String>,
    pub collision_policy: CollisionPolicy,
}

impl MergeConfig {
    /// A key is skipped when it is one of the configured keys or starts with
    /// one of the configured prefixes.
    pub open spec fn spec_is_skipped(self, key: Seq<char>) -> bool {
        ||| exists|i: int|
            0 <= i < self.skipped_keys@.len() && (#[trigger] self.skipped_keys@[i])@ == key
        ||| exists|i: int|
            0 <= i < self.skipped_prefixes@.len() && (#[trigger] self.skipped_prefixes@[i])@.is_prefix_of(
                key,
            )
    }

    /// Decides whether a captured key is dropped before preexisting tags are
    /// rendered.
    pub fn is_skipped(&self, key: &str) -> (r: bool)
        ensures
            r == self.spec_is_skipped(key@),
    {
        let n = self.skipped_keys.len();
        let mut i: usize = 0;
        while i < n
            invariant
                i <= n,
                n == self.skipped_keys@.len(),
                forall|j: int| 0 <= j < i ==> (#[trigger] self.skipped_keys@[j])@ != key@,
            decreases n - i,
        {
            match compare_keys(key, self.skipped_keys[i].as_str()) {
                KeyOrder::Same => {
                    return true;
                },
                KeyOrder::Before => {
                    proof {
                        crate::text::lemma_lex_lt_irreflexive(key@);
                    }
                },
                KeyOrder::After => {
                    proof {
                        crate::text::lemma_lex_lt_irreflexive(key@);
                    }
                },
            }
            i += 1;
        }
        let m = self.skipped_prefixes.len();
        let mut i: usize = 0;
        while i < m
            invariant
                i <= m,
                m == self.skipped_prefixes@.len(),
                forall|j: int| 0 <= j < i ==> !(#[trigger] self.skipped_prefixes@[j])@.is_prefix_of(key@),
                forall|j: int|
                    0 <= j < self.skipped_keys@.len() ==> (#[trigger] self.skipped_keys@[j])@
                        != key@,
            decreases m - i,
        {
            if has_prefix(key, self.skipped_prefixes[i].as_str()) {
                return true;
            }
            i += 1;
        }
        false
    }
}

/// Whether a key belongs to the default deny list: the positional fields,
/// the album-derived or ephemeral fields, and every replaygain field.
pub open spec fn spec_default_skipped(key: Seq<char>) -> bool {
    ||| key == "album"@
    ||| key == "albumartist"@
    ||| key == "comment"@
    ||| key == "copyright"@
    ||| key == "date"@
    ||| key == "description"@
    ||| key == "discnumber"@
    ||| key == "disctotal"@
    ||| key == "encoder"@
    ||| key == "genre"@
    ||| key == "totaltracks"@
    ||| key == "tracknumber"@
    ||| key == "tracktotal"@
    ||| "replaygain_"@.is_prefix_of(key)
}

/// The default merge configuration: the standard deny list, and track-wins
/// collision handling.
pub fn default_merge_config() -> (r: MergeConfig)
    ensures
        forall|k: Seq<char>| #[trigger] r.spec_is_skipped(k) <==> spec_default_skipped(k),
        r.collision_policy is TrackWins,
{
    let mut keys: Vec<String> = Vec::new();
    keys.push(String::from_str("album"));
    keys.push(String::from_str("albumartist"));
    keys.push(String::from_str("comment"));
    keys.push(String::from_str("copyright"));
    keys.push(String::from_str("date"));
    keys.push(String::from_str("description"));
    keys.push(String::from_str("discnumber"));
    keys.push(String::from_str("disctotal"));
    keys.push(String::from_str("encoder"));
    keys.push(String::from_str("genre"));
    keys.push(String::from_str("totaltracks"));
    keys.push(String::from_str("tracknumber"));
    keys.push(String::from_str("tracktotal"));
    let mut prefixes: Vec<String> = Vec::new();
    prefixes.push(String::from_str("replaygain_"));
    let r = MergeConfig {
        skipped_keys: keys,
        skipped_prefixes: prefixes,
        collision_policy: CollisionPolicy::TrackWins,
    };
    proof {
        assert forall|k: Seq<char>| #[trigger] r.spec_is_skipped(k) <==> spec_default_skipped(
            k,
        ) by {
            if spec_default_skipped(k) {
                if k == "album"@ {
                    assert(r.skipped_keys@[0]@ == k);
                } else if k == "albumartist"@ {
                    assert(r.skipped_keys@[1]@ == k);
                } else if k == "comment"@ {
                    assert(r.skipped_keys@[2]@ == k);
                } else if k == "copyright"@ {
                    assert(r.skipped_keys@[3]@ == k);
                } else if k == "date"@ {
                    assert(r.skipped_keys@[4]@ == k);
                } else if k == "description"@ {
                    assert(r.skipped_keys@[5]@ == k);
                } else if k == "discnumber"@ {
                    assert(r.skipped_keys@[6]@ == k);
                } else if k == "disctotal"@ {
                    assert(r.skipped_keys@[7]@ == k);
                } else if k == "encoder"@ {
                    assert(r.skipped_keys@[8]@ == k);
                } else if k == "genre"@ {
                    assert(r.skipped_keys@[9]@ == k);
                } else if k == "totaltracks"@ {
                    assert(r.skipped_keys@[10]@ == k);
                } else if k == "tracknumber"@ {
                    assert(r.skipped_keys@[11]@ == k);
                } else if k == "tracktotal"@ {
                    assert(r.skipped_keys@[12]@ == k);
                } else {
                    assert(r.skipped_prefixes@[0]@.is_prefix_of(k));
                }
            }
        }
    }
    r
}

/// Merges the album block and one track's block, then writes the two
/// computed positional fields.  A key present in both blocks takes the
/// track's value; `tracknumber` and `totaltracks` are always the computed
/// index and total, whatever either input block supplied for those keys.
pub fn merged_tags(
    config: &MergeConfig,
    album: MetaBlock,
    track: MetaBlock,
    track_index: usize,
    total_tracks: usize,
) -> (r: MetaBlock)
    requires
        album.wf(),
        track.wf(),
    ensures
        r.wf(),
        r.as_map() == album.as_map().union_prefer_right(track.as_map()).insert(
            "tracknumber"@,
            seq![spec_dec(track_index as int)],
        ).insert("totaltracks"@, seq![spec_dec(total_tracks as int)]),
{
    match config.collision_policy {
        CollisionPolicy::TrackWins => {
            let mut merged = album;
            merged.union_prefer_right(track);
            merged.set(String::from_str("tracknumber"), MetaVal::One(dec_string(track_index)));
            merged.set(String::from_str("totaltracks"), MetaVal::One(dec_string(total_tracks)));
            merged
        },
    }
}

/// Merge precedence, spelled out pointwise over the merged mapping: the two
/// positional keys always hold the computed values; any other key present in
/// the track block takes the track's value; a key present only in the album
/// block keeps the album's value; and no other keys appear.
pub proof fn lemma_merge_precedence(
    album: Map<Seq<char>, Seq<Seq<char>>>,
    track: Map<Seq<char>, Seq<Seq<char>>>,
    track_index: int,
    total_tracks: int,
)
    ensures
        ({
            let m = album.union_prefer_right(track).insert(
                "tracknumber"@,
                seq![spec_dec(track_index)],
            ).insert("totaltracks"@, seq![spec_dec(total_tracks)]);
            &&& m["tracknumber"@] == seq![spec_dec(track_index)]
            &&& m["totaltracks"@] == seq![spec_dec(total_tracks)]
            &&& forall|k: Seq<char>|
                k != "tracknumber"@ && k != "totaltracks"@ && track.contains_key(k)
                    ==> #[trigger] m[k] == track[k]
            &&& forall|k: Seq<char>|
                k != "tracknumber"@ && k != "totaltracks"@ && !track.contains_key(k)
                    && album.contains_key(k) ==> #[trigger] m[k] == album[k]
            &&& forall|k: Seq<char>|
                #[trigger] m.contains_key(k) <==> (k == "tracknumber"@ || k == "totaltracks"@
                    || track.contains_key(k) || album.contains_key(k))
        }),
{
    reveal_strlit("tracknumber");
    reveal_strlit("totaltracks");
    assert("tracknumber"@[1] == 'r');
    assert("totaltracks"@[1] == 'o');
}

/// The mapping that capturing preexisting tags produces: keys lowercased,
/// skipped keys dropped, later occurrences of a key winning.
pub open spec fn existing_block_map(
    config: MergeConfig,
    pairs: Seq<(String, Vec<String>)>,
) -> Map<Seq<char>, Seq<Seq<char>>>
    decreases pairs.len(),
{
    if pairs.len() == 0 {
        Map::empty()
    } else {
        let m = existing_block_map(config, pairs.drop_last());
        let k = spec_lower(pairs.last().0@);
        if config.spec_is_skipped(k) {
            m
        } else {
            m.insert(k, pairs.last().1.deep_view())
        }
    }
}

/// Builds the captured block of one file's preexisting tags: each key is
/// lowercased, keys on the deny list are dropped, and each kept value list
/// is collapsed to the normalized metadata value.
pub fn build_existing_block(config: &MergeConfig, pairs: Vec<(String, Vec<String>)>) -> (r:
    MetaBlock)
    ensures
        r.wf(),
        r.as_map() == existing_block_map(*config, pairs@),
{
    let ghost all = pairs@;
    let mut rest = pairs;
    let mut out: MetaBlock = TagMap::new();
    let ghost mut done: Seq<(String, Vec<String>)> = Seq::empty();
    while rest.len() > 0
        invariant
            done + rest@ == all,
            out.wf(),
            out.as_map() == existing_block_map(*config, done),
        decreases rest.len(),
    {
        let ghost done0 = done;
        let e = rest.remove(0);
        let ghost ge = e;
        let (raw_key, vals) = e;
        let key = ascii_lowercase(raw_key.as_str());
        if !config.is_skipped(key.as_str()) {
            let val = collapse_values(vals);
            out.set(key, val);
        }
        proof {
            done = done.push(ge);
            assert(done.drop_last() =~= done0);
            assert(done + rest@ =~= all);
        }
    }
    proof {
        assert(done =~= all);
    }
    out
}

} // verus!
