//! Small shared helpers: pulling the single value of a field, generating the
//! staged output file name of a processed track, and the argument list for
//! the external normalization tool.

use vstd::prelude::*;

use crate::error::Error;
use crate::text::{spec_padded_dec, spec_sanitize, padded_dec_string, strip_path_separators};

verus! {

/// Pulls the single element of a field's value list.  Fails when there are
/// zero elements or more than one, naming the field.
pub fn expect_one<'a, T>(items: &'a [T], key: &str) -> (r: Result<&'a T, Error>)
    ensures
        match r {
            Ok(v) => items@.len() == 1 && *v == items@[0],
            Err(e) => items@.len() != 1 && (e matches Error::AmbiguousField { key: k } && k@
                == key@),
        },
{
    if items.len() == 1 {
        Ok(&items[0])
    } else {
        Err(Error::AmbiguousField { key: key.to_owned() })
    }
}

/// The staged name of a finished track: the zero-padded track number, the
/// display artist and the display title, then the source file's extension,
/// with any path-separator characters removed.
pub open spec fn spec_output_file_name(
    track_num: int,
    track_padding: int,
    artist: Seq<char>,
    title: Seq<char>,
    ext: Seq<char>,
) -> Seq<char> {
    spec_sanitize(
        spec_padded_dec(track_num, track_padding) + seq!['.', ' '] + artist + seq![' ', '-', ' ']
            + title + seq!['.'] + ext,
    )
}

/// Generates an output filename for a track once it is finished processing.
pub fn generate_output_file_name(
    track_num: usize,
    track_padding: usize,
    display_artist: &str,
    display_title: &str,
    ext: &str,
) -> (r: String)
    ensures
        r@ == spec_output_file_name(
            track_num as int,
            track_padding as int,
            display_artist@,
            display_title@,
            ext@,
        ),
{
    proof {
        reveal_strlit(". ");
        reveal_strlit(" - ");
        reveal_strlit(".");
    }
    let mut s = padded_dec_string(track_num, track_padding);
    s.append(". ");
    s.append(display_artist);
    s.append(" - ");
    s.append(display_title);
    s.append(".");
    s.append(ext);
    proof {
        assert(s@ =~= spec_padded_dec(track_num as int, track_padding as int) + seq!['.', ' ']
            + display_artist@ + seq![' ', '-', ' '] + display_title@ + seq!['.'] + ext@);
    }
    strip_path_separators(s.as_str())
}

/// The argument list of one invocation of the external
/// loudness-normalization tool: the replaygain mode flag, the
/// integrated-loudness reference target flag, the output directory flag with
/// its value, and the staging directory as the positional source.
pub fn normalizer_args(output_dir: &str, staging_dir: &str) -> (r: Vec<String>)
    ensures
        r@.len() == 5,
        r@[0]@ == "--replaygain"@,
        r@[1]@ == "-irt"@,
        r@[2]@ == "--output"@,
        r@[3]@ == output_dir@,
        r@[4]@ == staging_dir@,
{
    let mut r: Vec<String> = Vec::new();
    r.push(String::from_str("--replaygain"));
    r.push(String::from_str("-irt"));
    r.push(String::from_str("--output"));
    r.push(output_dir.to_owned());
    r.push(staging_dir.to_owned());
    r
}

} // verus!
