//! Planning the processing of a whole album: pairing each discovered track
//! with its metadata block, merging the album and track blocks with the
//! computed positional fields, and generating each track's staged file name.
//! The surrounding application carries a plan out by rewriting the file's
//! tag store and renaming the file into the staging directory.

use vstd::prelude::*;

use crate::discovery::Track;
use crate::error::Error;
use crate::helpers::{generate_output_file_name, spec_output_file_name};
use crate::merge::{merged_tags, MergeConfig};
use crate::metadata::Metadata;
use crate::tagmap::MetaBlock;
use crate::text::{dec_string, path_extension, spec_dec, spec_join, spec_path_extension};

verus! {

/// Everything the application needs to finish one track: the tags to write
/// into the file at `source_path`, and the staged file name to move it to.
#[derive(Debug, Clone)]
pub struct TrackPlan {
    pub track_index: usize,
    pub source_path: String,
    pub tags: MetaBlock,
    pub file_name: String,
}

/// The plan `p` is correct for track `t`: the tags are the album block and
/// the track's block merged track-wins, with the computed positional fields,
/// and the staged name is built from the track number, the display artist
/// and title, and the source file's extension.
pub open spec fn spec_plan_matches(
    p: TrackPlan,
    t: Track,
    album: Map<Seq<char>, Seq<Seq<char>>>,
    block: Map<Seq<char>, Seq<Seq<char>>>,
    total: int,
    width: int,
) -> bool {
    &&& p.track_index == t.index
    &&& p.source_path@ == t.path@
    &&& p.tags.wf()
    &&& p.tags.as_map() == album.union_prefer_right(block).insert(
        "tracknumber"@,
        seq![spec_dec(t.index as int)],
    ).insert("totaltracks"@, seq![spec_dec(total)])
    &&& p.file_name@ == spec_output_file_name(
        t.index as int,
        width,
        spec_join(block["artist"@]),
        spec_join(block["title"@]),
        spec_path_extension(t.path@)->Some_0,
    )
}

/// Plans the processing of every track: checks that the track list and the
/// track metadata block list have the same length, and produces one plan per
/// track, in order.  Each track block must hold an `artist` and a `title`
/// field, which name the file; the whole batch fails before any plan is
/// handed out otherwise.
pub fn plan_tracks(config: &MergeConfig, tracks: Vec<Track>, metadata: Metadata) -> (r: Result<
    Vec<TrackPlan>,
    Error,
>)
    requires
        metadata.wf(),
        forall|i: int|
            0 <= i < tracks@.len() ==> spec_path_extension(
                (#[trigger] tracks@[i]).path@,
            ) is Some,
    ensures
        match r {
            Ok(plans) => {
                &&& tracks@.len() == metadata.tracks@.len()
                &&& plans@.len() == tracks@.len()
                &&& forall|i: int|
                    0 <= i < plans@.len() ==> spec_plan_matches(
                        #[trigger] plans@[i],
                        tracks@[i],
                        metadata.album.as_map(),
                        metadata.tracks@[i].as_map(),
                        tracks@.len() as int,
                        spec_dec(tracks@.len() as int).len() as int,
                    )
                &&& forall|i: int|
                    0 <= i < tracks@.len() ==> (#[trigger] metadata.tracks@[i].as_map())
                        .contains_key("artist"@) && metadata.tracks@[i].as_map().contains_key(
                        "title"@,
                    )
            },
            Err(e) => match e {
                Error::CountMismatch { tracks: t, blocks: b } => t == tracks@.len() && b
                    == metadata.tracks@.len() && tracks@.len() != metadata.tracks@.len(),
                Error::AmbiguousField { key } => tracks@.len() == metadata.tracks@.len() && (key@
                    == "artist"@ || key@ == "title"@) && exists|i: int|
                    0 <= i < metadata.tracks@.len() && !(#[trigger] metadata.tracks@[i].as_map())
                        .contains_key(key@),
                _ => false,
            },
        },
{
    let total = tracks.len();
    if total != metadata.tracks.len() {
        return Err(
            Error::CountMismatch { tracks: total, blocks: metadata.tracks.len() },
        );
    }
    let width = dec_string(total).as_str().unicode_len();
    let Metadata { album, tracks: blocks } = metadata;
    let ghost all_tracks = tracks@;
    let ghost all_blocks = blocks@;
    let mut rest_tracks = tracks;
    let mut rest_blocks = blocks;
    let mut plans: Vec<TrackPlan> = Vec::new();
    let mut i: usize = 0;
    while i < total
        invariant
            i <= total,
            total == all_tracks.len(),
            total == all_blocks.len(),
            width == spec_dec(total as int).len(),
            album.wf(),
            album == metadata.album,
            all_tracks == tracks@,
            all_blocks == metadata.tracks@,
            rest_tracks@.len() == total - i,
            rest_blocks@.len() == total - i,
            forall|j: int| 0 <= j < rest_tracks@.len() ==> #[trigger] rest_tracks@[j] == all_tracks[i + j],
            forall|j: int| 0 <= j < rest_blocks@.len() ==> #[trigger] rest_blocks@[j] == all_blocks[i + j],
            forall|j: int| 0 <= j < all_blocks.len() ==> (#[trigger] all_blocks[j]).wf(),
            forall|j: int|
                0 <= j < all_tracks.len() ==> spec_path_extension(
                    (#[trigger] all_tracks[j]).path@,
                ) is Some,
            plans@.len() == i,
            forall|j: int|
                0 <= j < i ==> spec_plan_matches(
                    #[trigger] plans@[j],
                    all_tracks[j],
                    album.as_map(),
                    all_blocks[j].as_map(),
                    total as int,
                    width as int,
                ),
            forall|j: int|
                0 <= j < i ==> (#[trigger] all_blocks[j].as_map()).contains_key("artist"@)
                    && all_blocks[j].as_map().contains_key("title"@),
        decreases total - i,
    {
        let track = rest_tracks.remove(0);
        let block = rest_blocks.remove(0);
        let display_artist = match block.get("artist") {
            Some(v) => v.to_display_string(),
            None => {
                return Err(Error::AmbiguousField { key: String::from_str("artist") });
            },
        };
        let display_title = match block.get("title") {
            Some(v) => v.to_display_string(),
            None => {
                return Err(Error::AmbiguousField { key: String::from_str("title") });
            },
        };
        let ext = match path_extension(track.path.as_str()) {
            Some(e) => e,
            None => {
                proof {
                    assert(false);
                }
                String::new()
            },
        };
        let file_name = generate_output_file_name(
            track.index,
            width,
            display_artist.as_str(),
            display_title.as_str(),
            ext.as_str(),
        );
        let tags = merged_tags(config, album.duplicate(), block, track.index, total);
        let plan = TrackPlan {
            track_index: track.index,
            source_path: track.path,
            tags,
            file_name,
        };
        plans.push(plan);
        i += 1;
    }
    Ok(plans)
}

} // verus!
