//! Track discovery validation: every input file must carry exactly one
//! `tracknumber` value, that value must parse as a positive integer, and the
//! numbers taken together must form exactly the contiguous range `{1..N}`.

use vstd::prelude::*;

use crate::error::Error;

verus! {

/// Identifies one input file: a filesystem path and its 1-based track index.
#[derive(Debug, Clone)]
pub struct Track {
    pub index: usize,
    pub path: String,
}

/// An ASCII decimal digit.
pub open spec fn is_digit_char(c: char) -> bool {
    48 <= c as u32 <= 57
}

/// The numeric value of one digit character.
pub open spec fn digit_val(c: char) -> int {
    c as u32 - 48
}

/// The value of a digit sequence read in base ten.
pub open spec fn digits_val(s: Seq<char>) -> int
    decreases s.len(),
{
    if s.len() == 0 {
        0
    } else {
        digits_val(s.drop_last()) * 10 + digit_val(s.last())
    }
}

/// A nonempty run of digits.
pub open spec fn valid_number_body(s: Seq<char>) -> bool {
    s.len() > 0 && forall|i: int| 0 <= i < s.len() ==> is_digit_char(#[trigger] s[i])
}

/// The digit part of a number: an optional leading plus sign is skipped.
pub open spec fn spec_number_digits(s: Seq<char>) -> Seq<char> {
    if s.len() > 0 && s[0] == '+' {
        s.drop_first()
    } else {
        s
    }
}

/// Whether `s` parses as an unsigned machine integer: an optional plus sign,
/// then one or more digits, with a value that fits.
pub open spec fn parses_as_number(s: Seq<char>) -> bool {
    valid_number_body(spec_number_digits(s)) && digits_val(spec_number_digits(s)) <= usize::MAX
}

proof fn lemma_digits_val_nonneg(s: Seq<char>)
    requires
        forall|i: int| 0 <= i < s.len() ==> is_digit_char(#[trigger] s[i]),
    ensures
        digits_val(s) >= 0,
    decreases s.len(),
{
    if s.len() > 0 {
        lemma_digits_val_nonneg(s.drop_last());
    }
}

proof fn lemma_digits_val_prefix(s: Seq<char>, k: int)
    requires
        0 <= k <= s.len(),
        forall|i: int| 0 <= i < s.len() ==> is_digit_char(#[trigger] s[i]),
    ensures
        digits_val(s) >= digits_val(s.subrange(0, k)),
    decreases s.len() - k,
{
    if k < s.len() {
        let t = s.subrange(0, k + 1);
        assert(t.drop_last() =~= s.subrange(0, k));
        lemma_digits_val_nonneg(s.subrange(0, k));
        lemma_digits_val_prefix(s, k + 1);
    } else {
        assert(s.subrange(0, k) =~= s);
    }
}

/// Parses a `tracknumber` value as an unsigned machine integer, accepting
/// an optional leading plus sign, and failing on anything else.  A zero is
/// rejected later, by the range check over the whole set of numbers.
pub fn parse_track_number(s: &str) -> (r: Result<usize, Error>)
    ensures
        match r {
            Ok(n) => parses_as_number(s@) && n == digits_val(spec_number_digits(s@)),
            Err(e) => !parses_as_number(s@) && (e matches Error::InvalidTrackNumber { raw }
                && raw@ == s@),
        },
{
    let len = s.unicode_len();
    let start: usize = if len > 0 && s.get_char(0) == '+' {
        1
    } else {
        0
    };
    let ghost body = spec_number_digits(s@);
    proof {
        assert(body =~= s@.subrange(start as int, len as int));
    }
    if len == start {
        return Err(Error::InvalidTrackNumber { raw: s.to_owned() });
    }
    let mut n: usize = 0;
    let mut i: usize = start;
    while i < len
        invariant
            start <= i <= len,
            len == s@.len(),
            start == 1 ==> s@.len() > 0 && s@[0] == '+',
            start == 0 ==> !(s@.len() > 0 && s@[0] == '+'),
            body == spec_number_digits(s@),
            body =~= s@.subrange(start as int, len as int),
            forall|j: int| start <= j < i ==> is_digit_char(#[trigger] s@[j]),
            n == digits_val(s@.subrange(start as int, i as int)),
        decreases len - i,
    {
        let c = s.get_char(i);
        let cu = c as u32;
        if cu < 48 || cu > 57 {
            proof {
                assert(body[i - start] == s@[i as int]);
                assert(!valid_number_body(body));
            }
            return Err(Error::InvalidTrackNumber { raw: s.to_owned() });
        }
        let d = (cu - 48) as usize;
        if n > usize::MAX / 10 || (n == usize::MAX / 10 && d > usize::MAX % 10) {
            proof {
                let pre = s@.subrange(start as int, (i + 1) as int);
                assert(pre.drop_last() =~= s@.subrange(start as int, i as int));
                assert(digits_val(pre) == n * 10 + d);
                assert(n * 10 + d > usize::MAX) by (nonlinear_arith)
                    requires
                        n > usize::MAX / 10 || (n == usize::MAX / 10 && d > usize::MAX % 10),
                        d < 10,
                        usize::MAX == usize::MAX / 10 * 10 + usize::MAX % 10,
                ;
                if valid_number_body(body) {
                    assert(pre =~= body.subrange(0, (i + 1 - start) as int));
                    assert(forall|j: int|
                        0 <= j < body.len() ==> is_digit_char(#[trigger] body[j]));
                    lemma_digits_val_prefix(body, (i + 1 - start) as int);
                }
            }
            return Err(Error::InvalidTrackNumber { raw: s.to_owned() });
        }
        proof {
            let pre = s@.subrange(start as int, (i + 1) as int);
            assert(pre.drop_last() =~= s@.subrange(start as int, i as int));
            assert(n * 10 + d <= usize::MAX) by (nonlinear_arith)
                requires
                    n <= usize::MAX / 10,
                    d < 10,
                    !(n > usize::MAX / 10 || (n == usize::MAX / 10 && d > usize::MAX % 10)),
                    usize::MAX == usize::MAX / 10 * 10 + usize::MAX % 10,
            ;
        }
        n = n * 10 + d;
        i += 1;
    }
    proof {
        assert(s@.subrange(start as int, len as int) =~= body);
    }
    Ok(n)
}

/// Some position of `nums` holds the number `k`.
pub open spec fn has_track_number(nums: Seq<usize>, k: int) -> bool {
    exists|i: int| 0 <= i < nums.len() && #[trigger] nums[i] == k
}

/// The discovered numbers are each in range and together cover the whole
/// range `{1..N}`, where `N` is how many there are.
pub open spec fn track_numbers_complete(nums: Seq<usize>) -> bool {
    &&& forall|i: int| 0 <= i < nums.len() ==> 1 <= #[trigger] nums[i] <= nums.len()
    &&& forall|k: int| 1 <= k <= nums.len() ==> #[trigger] has_track_number(nums, k)
}

/// Checks that the discovered track numbers are exactly `{1, ..., N}`:
/// any duplicate, any number out of range, and any uncovered number are each
/// fatal.
pub fn validate_track_numbers(nums: &Vec<usize>) -> (r: Result<(), Error>)
    ensures
        match r {
            Ok(()) => nums@.no_duplicates() && track_numbers_complete(nums@),
            Err(e) => e is TrackNumberMismatch && !(nums@.no_duplicates()
                && track_numbers_complete(nums@)),
        },
{
    let n = nums.len();
    let mut seen: Vec<bool> = Vec::new();
    let mut p: usize = 0;
    while p < n
        invariant
            seen@.len() == p <= n,
            forall|k: int| 0 <= k < p ==> !(#[trigger] seen@[k]),
        decreases n - p,
    {
        seen.push(false);
        p += 1;
    }
    let mut i: usize = 0;
    while i < n
        invariant
            i <= n,
            n == nums@.len(),
            seen@.len() == n,
            forall|k: int|
                0 <= k < n ==> ((#[trigger] seen@[k]) <==> exists|j: int|
                    0 <= j < i && nums@[j] == k + 1),
            forall|j: int| 0 <= j < i ==> 1 <= #[trigger] nums@[j] <= n,
            forall|j1: int, j2: int| 0 <= j1 < j2 < i ==> nums@[j1] != nums@[j2],
        decreases n - i,
    {
        let v = nums[i];
        if v < 1 || v > n {
            return Err(Error::TrackNumberMismatch);
        }
        if seen[v - 1] {
            proof {
                let j = choose|j: int| 0 <= j < i && nums@[j] == v - 1 + 1;
                assert(nums@[j] == nums@[i as int]);
            }
            return Err(Error::TrackNumberMismatch);
        }
        seen.set(v - 1, true);
        proof {
            assert forall|k: int|
                0 <= k < n implies ((#[trigger] seen@[k]) <==> exists|j: int|
                0 <= j < i + 1 && nums@[j] == k + 1) by {
                if k == v - 1 {
                    assert(nums@[i as int] == k + 1);
                } else {
                    if seen@[k] {
                        let j = choose|j: int| 0 <= j < i && nums@[j] == k + 1;
                        assert(0 <= j < i + 1 && nums@[j] == k + 1);
                    }
                    if exists|j: int| 0 <= j < i + 1 && nums@[j] == k + 1 {
                        let j = choose|j: int| 0 <= j < i + 1 && nums@[j] == k + 1;
                        assert(j < i);
                    }
                }
            }
        }
        i += 1;
    }
    let mut k: usize = 0;
    while k < n
        invariant
            k <= n,
            n == nums@.len(),
            seen@.len() == n,
            forall|q: int|
                0 <= q < n ==> ((#[trigger] seen@[q]) <==> exists|j: int|
                    0 <= j < n && nums@[j] == q + 1),
            forall|q: int| 0 <= q < k ==> #[trigger] seen@[q],
            nums@.no_duplicates(),
            forall|j: int| 0 <= j < n ==> 1 <= #[trigger] nums@[j] <= n,
        decreases n - k,
    {
        if !seen[k] {
            proof {
                assert(!has_track_number(nums@, k + 1));
            }
            return Err(Error::TrackNumberMismatch);
        }
        k += 1;
    }
    proof {
        assert forall|q: int| 1 <= q <= nums@.len() implies #[trigger] has_track_number(
            nums@,
            q,
        ) by {
            assert(seen@[q - 1]);
        }
    }
    Ok(())
}

/// The numbers of `nums`, as a set of integers.
pub open spec fn nums_as_ints(nums: Seq<usize>) -> Seq<int> {
    nums.map_values(|v: usize| v as int)
}

/// The contiguous range `{1, ..., n}` of track numbers.
pub open spec fn spec_track_range(n: int) -> Set<int> {
    Set::new(|k: int| 1 <= k <= n)
}

/// Discovery's validation succeeds exactly when the set of parsed track
/// numbers equals the range `{1, ..., N}`: a duplicate (which shrinks the
/// set) and a gap are each rejected, and nothing else is.
pub proof fn lemma_track_numbers_exact_range(nums: Seq<usize>)
    ensures
        (nums.no_duplicates() && track_numbers_complete(nums)) <==> nums_as_ints(nums).to_set()
            == spec_track_range(nums.len() as int),
{
    let m = nums_as_ints(nums);
    let n = nums.len() as int;
    if nums.no_duplicates() && track_numbers_complete(nums) {
        assert forall|k: int| #[trigger] m.to_set().contains(k) implies spec_track_range(
            n,
        ).contains(k) by {
            let i = choose|i: int| 0 <= i < m.len() && m[i] == k;
            assert(1 <= nums[i] <= nums.len());
        }
        assert forall|k: int| #[trigger] spec_track_range(n).contains(k) implies m.to_set()
            .contains(k) by {
            assert(has_track_number(nums, k));
            let i = choose|i: int| 0 <= i < nums.len() && nums[i] == k;
            assert(m[i] == k);
        }
        assert(m.to_set() =~= spec_track_range(n));
    }
    if m.to_set() == spec_track_range(n) {
        assert forall|i: int| 0 <= i < nums.len() implies 1 <= #[trigger] nums[i]
            <= nums.len() by {
            assert(m[i] == nums[i] as int);
            assert(m.to_set().contains(m[i]));
        }
        assert forall|k: int| 1 <= k <= n implies #[trigger] has_track_number(nums, k) by {
            assert(m.to_set().contains(k));
            let i = choose|i: int| 0 <= i < m.len() && m[i] == k;
            assert(nums[i] == k);
        }
        assert(spec_track_range(n) =~= vstd::set_lib::set_int_range(1, n + 1));
        vstd::set_lib::lemma_int_range(1, n + 1);
        if n > 0 {
            assert(m.to_set().len() == n);
            m.lemma_no_dup_set_cardinality();
        }
        assert forall|i: int, j: int|
            0 <= i < nums.len() && 0 <= j < nums.len() && i != j implies nums[i]
            != nums[j] by {
            assert(m[i] == nums[i] as int);
            assert(m[j] == nums[j] as int);
        }
    }
}

/// Whether one discovered file carries a usable track number: exactly one
/// value, and that value parses.
pub open spec fn spec_file_ok(f: (String, Vec<String>)) -> bool {
    f.1@.len() == 1 && parses_as_number(f.1[0]@)
}

/// The track number a discovered file declares.
pub open spec fn spec_file_num(f: (String, Vec<String>)) -> int {
    digits_val(spec_number_digits(f.1[0]@))
}

/// The declared numbers of a whole file listing.
pub open spec fn spec_file_nums(files: Seq<(String, Vec<String>)>) -> Seq<usize> {
    Seq::new(files.len(), |i: int| spec_file_num(files[i]) as usize)
}

/// The track `t` at position `k` of the result takes its path from some
/// input file that declared track number `k + 1`.
pub open spec fn track_matches_file(files: Seq<(String, Vec<String>)>, t: Track, k: int) -> bool {
    exists|j: int|
        0 <= j < files.len() && spec_file_num(#[trigger] files[j]) == k + 1 && t.path@
            == files[j].0@
}

/// Validates a directory listing and produces the ordered track list.
///
/// Each input pair is one file: its path and the values of its `tracknumber`
/// field.  The field must hold exactly one value, the value must parse as a
/// positive integer, and the numbers together must be exactly `{1, ..., N}`.
/// On success the tracks come back sorted by index, each carrying the path
/// of the file that declared its number.
pub fn discover_tracks(files: Vec<(String, Vec<String>)>) -> (r: Result<Vec<Track>, Error>)
    ensures
        match r {
            Ok(ts) => {
                &&& forall|i: int| 0 <= i < files@.len() ==> spec_file_ok(#[trigger] files@[i])
                &&& spec_file_nums(files@).no_duplicates()
                &&& track_numbers_complete(spec_file_nums(files@))
                &&& ts@.len() == files@.len()
                &&& forall|k: int| 0 <= k < ts@.len() ==> (#[trigger] ts@[k]).index == k + 1
                &&& forall|k: int|
                    0 <= k < ts@.len() ==> track_matches_file(files@, #[trigger] ts@[k], k)
            },
            Err(e) => match e {
                Error::AmbiguousField { key } => key@ == "tracknumber"@ && exists|i: int|
                    (#[trigger] files@[i].1@).len() != 1 && 0 <= i < files@.len(),
                Error::InvalidTrackNumber { raw: _ } => exists|i: int|
                    0 <= i < files@.len() && !spec_file_ok(#[trigger] files@[i]),
                Error::TrackNumberMismatch => (forall|i: int|
                    0 <= i < files@.len() ==> spec_file_ok(#[trigger] files@[i]))
                    && !(spec_file_nums(files@).no_duplicates() && track_numbers_complete(
                    spec_file_nums(files@),
                )),
                _ => false,
            },
        },
{
    let n = files.len();
    let mut nums: Vec<usize> = Vec::new();
    let mut i: usize = 0;
    while i < n
        invariant
            i <= n,
            n == files@.len(),
            nums@.len() == i,
            forall|j: int| 0 <= j < i ==> spec_file_ok(#[trigger] files@[j]),
            forall|j: int| 0 <= j < i ==> #[trigger] nums@[j] == spec_file_num(files@[j]),
        decreases n - i,
    {
        let vals = &files[i].1;
        let value = match crate::helpers::expect_one(vals.as_slice(), "tracknumber") {
            Ok(v) => v,
            Err(e) => {
                return Err(e);
            },
        };
        match parse_track_number(value.as_str()) {
            Ok(v) => {
                nums.push(v);
            },
            Err(e) => {
                return Err(e);
            },
        }
        i += 1;
    }
    proof {
        assert(nums@ =~= spec_file_nums(files@));
    }
    match validate_track_numbers(&nums) {
        Ok(()) => {},
        Err(e) => {
            return Err(e);
        },
    }
    let ghost all = files@;
    let mut slots: Vec<Option<Track>> = Vec::new();
    let mut p: usize = 0;
    while p < n
        invariant
            slots@.len() == p <= n,
            forall|k: int| 0 <= k < p ==> (#[trigger] slots@[k]) is None,
        decreases n - p,
    {
        slots.push(None);
        p += 1;
    }
    let mut rest = files;
    let mut i: usize = 0;
    while i < n
        invariant
            i <= n,
            n == all.len(),
            n == nums@.len(),
            rest@.len() == n - i,
            forall|j: int| 0 <= j < rest@.len() ==> #[trigger] rest@[j] == all[i + j],
            forall|j: int| 0 <= j < n ==> #[trigger] nums@[j] == spec_file_num(all[j]),
            forall|j: int| 0 <= j < n ==> 1 <= #[trigger] nums@[j] <= n,
            forall|j1: int, j2: int| 0 <= j1 < j2 < n ==> nums@[j1] != nums@[j2],
            slots@.len() == n,
            forall|k: int|
                0 <= k < n ==> match #[trigger] slots@[k] {
                    Some(t) => t.index == k + 1 && exists|j: int|
                        0 <= j < i && #[trigger] nums@[j] == k + 1 && t.path@ == all[j].0@,
                    None => !(exists|j: int| 0 <= j < i && #[trigger] nums@[j] == k + 1),
                },
        decreases n - i,
    {
        let f = rest.remove(0);
        let num = nums[i];
        let ghost slots0 = slots@;
        slots.set(num - 1, Some(Track { index: num, path: f.0 }));
        proof {
            assert forall|k: int|
                0 <= k < n implies match #[trigger] slots@[k] {
                Some(t) => t.index == k + 1 && exists|j: int|
                    0 <= j < i + 1 && #[trigger] nums@[j] == k + 1 && t.path@ == all[j].0@,
                None => !(exists|j: int| 0 <= j < i + 1 && #[trigger] nums@[j] == k + 1),
            } by {
                if k == num - 1 {
                    assert(nums@[i as int] == k + 1);
                    assert(all[i as int].0@ == slots@[k]->Some_0.path@);
                } else {
                    match slots0[k] {
                        Some(t) => {
                            let j = choose|j: int|
                                0 <= j < i && #[trigger] nums@[j] == k + 1 && t.path@
                                    == all[j].0@;
                            assert(0 <= j < i + 1 && nums@[j] == k + 1 && t.path@ == all[j].0@);
                        },
                        None => {
                            if exists|j: int| 0 <= j < i + 1 && #[trigger] nums@[j] == k + 1 {
                                let j = choose|j: int|
                                    0 <= j < i + 1 && #[trigger] nums@[j] == k + 1;
                                assert(j < i);
                            }
                        },
                    }
                }
            }
        }
        i += 1;
    }
    let mut out: Vec<Track> = Vec::new();
    let mut k: usize = 0;
    while k < n
        invariant
            k <= n,
            n == all.len(),
            n == nums@.len(),
            slots@.len() == n - k,
            out@.len() == k,
            forall|q: int|
                0 <= q < slots@.len() ==> match #[trigger] slots@[q] {
                    Some(t) => t.index == k + q + 1 && exists|j: int|
                        0 <= j < n && #[trigger] nums@[j] == k + q + 1 && t.path@ == all[j].0@,
                    None => !(exists|j: int| 0 <= j < n && #[trigger] nums@[j] == k + q + 1),
                },
            forall|k2: int| 1 <= k2 <= n ==> #[trigger] has_track_number(nums@, k2),
            forall|j: int| 0 <= j < n ==> #[trigger] nums@[j] == spec_file_num(all[j]),
            forall|q: int| 0 <= q < k ==> (#[trigger] out@[q]).index == q + 1,
            forall|q: int| 0 <= q < k ==> track_matches_file(all, #[trigger] out@[q], q),
        decreases n - k,
    {
        match slots.remove(0) {
            Some(t) => {
                let ghost gt = t;
                out.push(t);
                proof {
                    let j = choose|j: int|
                        0 <= j < n && #[trigger] nums@[j] == k + 1 && gt.path@ == all[j].0@;
                    assert(spec_file_num(all[j]) == k + 1);
                    assert(track_matches_file(all, gt, k as int));
                }
            },
            None => {
                proof {
                    assert(has_track_number(nums@, k + 1));
                    let j = choose|j: int| 0 <= j < nums@.len() && nums@[j] == k + 1;
                    assert(false);
                }
                return Err(Error::TrackNumberMismatch);
            },
        }
        k += 1;
    }
    Ok(out)
}

} // verus!
