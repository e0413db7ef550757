//! Verified text utilities: lexicographic key ordering, decimal rendering,
//! zero-padding, path-separator stripping, ASCII lowercasing, and joining.
//!
//! Tag keys are ordered lexicographically by character code, which for UTF-8
//! encoded strings agrees with the byte order that the underlying platform
//! uses for string keys.

use vstd::prelude::*;

verus! {

/// Strict lexicographic order on character sequences: `a` comes before `b`
/// when `a` is a proper prefix of `b`, or when the first differing character
/// of `a` has the smaller code.
pub open spec fn lex_lt(a: Seq<char>, b: Seq<char>) -> bool
    decreases a.len(),
{
    if b.len() == 0 {
        false
    } else if a.len() == 0 {
        true
    } else if a[0] != b[0] {
        (a[0] as u32) < (b[0] as u32)
    } else {
        lex_lt(a.drop_first(), b.drop_first())
    }
}

/// No sequence comes before itself.
pub proof fn lemma_lex_lt_irreflexive(a: Seq<char>)
    ensures
        !lex_lt(a, a),
    decreases a.len(),
{
    if a.len() > 0 {
        lemma_lex_lt_irreflexive(a.drop_first());
    }
}

/// Lexicographic order is transitive.
pub proof fn lemma_lex_lt_transitive(a: Seq<char>, b: Seq<char>, c: Seq<char>)
    requires
        lex_lt(a, b),
        lex_lt(b, c),
    ensures
        lex_lt(a, c),
    decreases a.len() + b.len() + c.len(),
{
    if a.len() > 0 && b.len() > 0 && c.len() > 0 {
        if a[0] == b[0] && b[0] == c[0] {
            lemma_lex_lt_transitive(a.drop_first(), b.drop_first(), c.drop_first());
        }
    }
}

/// If `a` and `b` agree on their first `i` characters, the comparison is
/// decided at position `i`: by the characters there, or by one sequence
/// ending first.
pub proof fn lemma_lex_lt_common_prefix(a: Seq<char>, b: Seq<char>, i: int)
    requires
        0 <= i <= a.len(),
        i <= b.len(),
        forall|j: int| 0 <= j < i ==> a[j] == b[j],
    ensures
        (i < a.len() && i < b.len() && (a[i] as u32) < (b[i] as u32)) ==> lex_lt(a, b),
        (i == a.len() && i < b.len()) ==> lex_lt(a, b),
    decreases i,
{
    if i > 0 {
        lemma_lex_lt_common_prefix(a.drop_first(), b.drop_first(), i - 1);
    }
}

/// The three-way outcome of comparing two tag keys.
pub enum KeyOrder {
    Before,
    Same,
    After,
}

/// Compares two strings in the lexicographic order of `lex_lt`.
pub fn compare_keys(a: &str, b: &str) -> (o: KeyOrder)
    ensures
        match o {
            KeyOrder::Before => lex_lt(a@, b@),
            KeyOrder::Same => a@ == b@,
            KeyOrder::After => lex_lt(b@, a@),
        },
{
    let alen = a.unicode_len();
    let blen = b.unicode_len();
    let mut i: usize = 0;
    while i < alen && i < blen
        invariant
            alen == a@.len(),
            blen == b@.len(),
            i <= alen,
            i <= blen,
            forall|j: int| 0 <= j < i ==> a@[j] == b@[j],
        decreases alen - i,
    {
        let ca = a.get_char(i);
        let cb = b.get_char(i);
        if ca != cb {
            if (ca as u32) < (cb as u32) {
                proof {
                    lemma_lex_lt_common_prefix(a@, b@, i as int);
                }
                return KeyOrder::Before;
            } else {
                proof {
                    lemma_lex_lt_common_prefix(b@, a@, i as int);
                }
                return KeyOrder::After;
            }
        }
        i += 1;
    }
    if alen < blen {
        proof {
            lemma_lex_lt_common_prefix(a@, b@, i as int);
        }
        KeyOrder::Before
    } else if blen < alen {
        proof {
            lemma_lex_lt_common_prefix(b@, a@, i as int);
        }
        KeyOrder::After
    } else {
        proof {
            assert(a@ =~= b@);
        }
        KeyOrder::Same
    }
}

/// The character for one decimal digit.
pub open spec fn dec_digit(d: int) -> char {
    if d == 0 {
        '0'
    } else if d == 1 {
        '1'
    } else if d == 2 {
        '2'
    } else if d == 3 {
        '3'
    } else if d == 4 {
        '4'
    } else if d == 5 {
        '5'
    } else if d == 6 {
        '6'
    } else if d == 7 {
        '7'
    } else if d == 8 {
        '8'
    } else {
        '9'
    }
}

/// The decimal rendering of a nonnegative integer, most significant digit
/// first, with no leading zeros (except for the number zero itself).
pub open spec fn spec_dec(n: int) -> Seq<char>
    recommends
        n >= 0,
    decreases n,
{
    if n < 10 {
        seq![dec_digit(n)]
    } else {
        spec_dec(n / 10).push(dec_digit(n % 10))
    }
}

fn digit_str(d: usize) -> (r: &'static str)
    requires
        d < 10,
    ensures
        r@ == seq![dec_digit(d as int)],
{
    proof {
        reveal_strlit("0");
        reveal_strlit("1");
        reveal_strlit("2");
        reveal_strlit("3");
        reveal_strlit("4");
        reveal_strlit("5");
        reveal_strlit("6");
        reveal_strlit("7");
        reveal_strlit("8");
        reveal_strlit("9");
    }
    let r = match d {
        0 => "0",
        1 => "1",
        2 => "2",
        3 => "3",
        4 => "4",
        5 => "5",
        6 => "6",
        7 => "7",
        8 => "8",
        _ => "9",
    };
    proof {
        assert(r@ =~= seq![dec_digit(d as int)]);
    }
    r
}

/// Renders a number in decimal.
pub fn dec_string(n: usize) -> (r: String)
    ensures
        r@ == spec_dec(n as int),
    decreases n,
{
    if n < 10 {
        let s = digit_str(n);
        String::from_str(s)
    } else {
        let mut s = dec_string(n / 10);
        let d = digit_str(n % 10);
        s.append(d);
        proof {
            assert(s@ =~= spec_dec(n as int));
        }
        s
    }
}

/// `k` copies of one character (none when `k` is not positive).
pub open spec fn char_repeat(c: char, k: int) -> Seq<char> {
    if k <= 0 {
        Seq::empty()
    } else {
        Seq::new(k as nat, |i: int| c)
    }
}

/// The decimal rendering of `n`, left-padded with zeros to at least `width`
/// characters.
pub open spec fn spec_padded_dec(n: int, width: int) -> Seq<char> {
    char_repeat('0', width - spec_dec(n).len()) + spec_dec(n)
}

/// Renders a number in decimal, zero-padded to at least `width` characters.
pub fn padded_dec_string(n: usize, width: usize) -> (r: String)
    ensures
        r@ == spec_padded_dec(n as int, width as int),
{
    let digits = dec_string(n);
    let len = digits.as_str().unicode_len();
    let pad: usize = if width > len {
        width - len
    } else {
        0
    };
    let mut out = String::new();
    let mut k: usize = 0;
    while k < pad
        invariant
            k <= pad,
            out@ =~= char_repeat('0', k as int),
        decreases pad - k,
    {
        proof {
            reveal_strlit("0");
        }
        out.append("0");
        proof {
            assert(out@ =~= char_repeat('0', (k + 1) as int));
        }
        k += 1;
    }
    out.append(digits.as_str());
    proof {
        assert(out@ =~= spec_padded_dec(n as int, width as int));
    }
    out
}

/// `s` with every path-separator character removed.
pub open spec fn spec_sanitize(s: Seq<char>) -> Seq<char>
    decreases s.len(),
{
    if s.len() == 0 {
        Seq::empty()
    } else if s.last() == '/' {
        spec_sanitize(s.drop_last())
    } else {
        spec_sanitize(s.drop_last()).push(s.last())
    }
}

/// Removes every path-separator character from a string, so that the result
/// is always a single path segment.
pub fn strip_path_separators(s: &str) -> (r: String)
    ensures
        r@ == spec_sanitize(s@),
{
    let len = s.unicode_len();
    let mut out = String::new();
    let mut i: usize = 0;
    while i < len
        invariant
            i <= len,
            len == s@.len(),
            out@ == spec_sanitize(s@.subrange(0, i as int)),
        decreases len - i,
    {
        let c = s.get_char(i);
        if c != '/' {
            let piece = s.substring_char(i, i + 1);
            out.append(piece);
        }
        proof {
            let pre = s@.subrange(0, (i + 1) as int);
            assert(pre.drop_last() =~= s@.subrange(0, i as int));
            assert(pre.last() == s@[i as int]);
            assert(out@ =~= spec_sanitize(s@.subrange(0, (i + 1) as int)));
        }
        i += 1;
    }
    proof {
        assert(s@.subrange(0, len as int) =~= s@);
    }
    out
}

/// ASCII lowercasing of one character: `A` through `Z` map to their
/// lowercase counterparts, every other character is unchanged.
pub open spec fn lower_char(c: char) -> char {
    if c == 'A' {
        'a'
    } else if c == 'B' {
        'b'
    } else if c == 'C' {
        'c'
    } else if c == 'D' {
        'd'
    } else if c == 'E' {
        'e'
    } else if c == 'F' {
        'f'
    } else if c == 'G' {
        'g'
    } else if c == 'H' {
        'h'
    } else if c == 'I' {
        'i'
    } else if c == 'J' {
        'j'
    } else if c == 'K' {
        'k'
    } else if c == 'L' {
        'l'
    } else if c == 'M' {
        'm'
    } else if c == 'N' {
        'n'
    } else if c == 'O' {
        'o'
    } else if c == 'P' {
        'p'
    } else if c == 'Q' {
        'q'
    } else if c == 'R' {
        'r'
    } else if c == 'S' {
        's'
    } else if c == 'T' {
        't'
    } else if c == 'U' {
        'u'
    } else if c == 'V' {
        'v'
    } else if c == 'W' {
        'w'
    } else if c == 'X' {
        'x'
    } else if c == 'Y' {
        'y'
    } else if c == 'Z' {
        'z'
    } else {
        c
    }
}

/// ASCII lowercasing of a whole sequence, character by character.
pub open spec fn spec_lower(s: Seq<char>) -> Seq<char> {
    s.map_values(|c: char| lower_char(c))
}

/// Lowercases the ASCII letters of a string; other characters are unchanged.
pub fn ascii_lowercase(s: &str) -> (r: String)
    ensures
        r@ == spec_lower(s@),
{
    let len = s.unicode_len();
    let mut out = String::new();
    let mut i: usize = 0;
    while i < len
        invariant
            i <= len,
            len == s@.len(),
            out@ == spec_lower(s@.subrange(0, i as int)),
        decreases len - i,
    {
        proof {
            reveal_strlit("a");
            reveal_strlit("b");
            reveal_strlit("c");
            reveal_strlit("d");
            reveal_strlit("e");
            reveal_strlit("f");
            reveal_strlit("g");
            reveal_strlit("h");
            reveal_strlit("i");
            reveal_strlit("j");
            reveal_strlit("k");
            reveal_strlit("l");
            reveal_strlit("m");
            reveal_strlit("n");
            reveal_strlit("o");
            reveal_strlit("p");
            reveal_strlit("q");
            reveal_strlit("r");
            reveal_strlit("s");
            reveal_strlit("t");
            reveal_strlit("u");
            reveal_strlit("v");
            reveal_strlit("w");
            reveal_strlit("x");
            reveal_strlit("y");
            reveal_strlit("z");
        }
        let c = s.get_char(i);
        match c {
            'A' => out.append("a"),
            'B' => out.append("b"),
            'C' => out.append("c"),
            'D' => out.append("d"),
            'E' => out.append("e"),
            'F' => out.append("f"),
            'G' => out.append("g"),
            'H' => out.append("h"),
            'I' => out.append("i"),
            'J' => out.append("j"),
            'K' => out.append("k"),
            'L' => out.append("l"),
            'M' => out.append("m"),
            'N' => out.append("n"),
            'O' => out.append("o"),
            'P' => out.append("p"),
            'Q' => out.append("q"),
            'R' => out.append("r"),
            'S' => out.append("s"),
            'T' => out.append("t"),
            'U' => out.append("u"),
            'V' => out.append("v"),
            'W' => out.append("w"),
            'X' => out.append("x"),
            'Y' => out.append("y"),
            'Z' => out.append("z"),
            _ => {
                let piece = s.substring_char(i, i + 1);
                out.append(piece);
            },
        }
        proof {
            let pre0 = s@.subrange(0, i as int);
            let pre1 = s@.subrange(0, (i + 1) as int);
            assert(pre1.drop_last() =~= pre0);
            assert(pre1.last() == s@[i as int]);
            assert(spec_lower(pre1) =~= spec_lower(pre0).push(lower_char(s@[i as int])));
            assert(out@ =~= spec_lower(pre1));
        }
        i += 1;
    }
    proof {
        assert(s@.subrange(0, len as int) =~= s@);
    }
    out
}

/// Whether `prefix` is a prefix of `s`.
pub fn has_prefix(s: &str, prefix: &str) -> (r: bool)
    ensures
        r == prefix@.is_prefix_of(s@),
{
    let plen = prefix.unicode_len();
    let slen = s.unicode_len();
    if plen > slen {
        return false;
    }
    let mut i: usize = 0;
    while i < plen
        invariant
            i <= plen,
            plen == prefix@.len(),
            slen == s@.len(),
            plen <= slen,
            forall|j: int| 0 <= j < i ==> prefix@[j] == s@[j],
        decreases plen - i,
    {
        if prefix.get_char(i) != s.get_char(i) {
            return false;
        }
        i += 1;
    }
    proof {
        assert(prefix@ =~= s@.subrange(0, prefix@.len() as int));
    }
    true
}

/// The part of `p` after the last occurrence of `c`: the whole of `p` when
/// `c` does not occur, empty when `p` ends with `c`.
pub open spec fn spec_after_last(p: Seq<char>, c: char) -> Seq<char>
    decreases p.len(),
{
    if p.len() == 0 {
        Seq::empty()
    } else if p.last() == c {
        Seq::empty()
    } else {
        spec_after_last(p.drop_last(), c).push(p.last())
    }
}

proof fn lemma_after_last_subrange(p: Seq<char>, c: char, start: int)
    requires
        0 <= start <= p.len(),
        forall|j: int| start <= j < p.len() ==> p[j] != c,
        start > 0 ==> p[start - 1] == c,
    ensures
        spec_after_last(p, c) =~= p.subrange(start, p.len() as int),
    decreases p.len(),
{
    if start == p.len() {
    } else {
        assert(p.last() != c);
        lemma_after_last_subrange(p.drop_last(), c, start);
        assert(p.drop_last().subrange(start, p.drop_last().len() as int) =~= p.subrange(
            start,
            p.len() - 1,
        ));
        assert(spec_after_last(p, c) =~= p.subrange(start, p.len() as int));
    }
}

/// The file name of a path: the part after the last path separator.
pub open spec fn spec_file_name(p: Seq<char>) -> Seq<char> {
    spec_after_last(p, '/')
}

/// The extension of a path: the part of the file name after its last dot,
/// where a dot at the very start of the file name does not count (a hidden
/// file has no extension), and a file name without a dot has none.
pub open spec fn spec_path_extension(p: Seq<char>) -> Option<Seq<char>> {
    let name = spec_file_name(p);
    if exists|i: int| 1 <= i < name.len() && name[i] == '.' {
        Some(spec_after_last(name, '.'))
    } else {
        None
    }
}

/// Extracts the extension of a path, if its file name has one.
pub fn path_extension(path: &str) -> (r: Option<String>)
    ensures
        match r {
            Some(e) => spec_path_extension(path@) == Some(e@),
            None => spec_path_extension(path@) is None,
        },
{
    let len = path.unicode_len();
    let mut start: usize = 0;
    let mut i: usize = 0;
    while i < len
        invariant
            i <= len,
            len == path@.len(),
            start <= i,
            start > 0 ==> path@[start - 1] == '/',
            forall|j: int| start <= j < i ==> path@[j] != '/',
        decreases len - i,
    {
        if path.get_char(i) == '/' {
            start = i + 1;
        }
        i += 1;
    }
    proof {
        lemma_after_last_subrange(path@, '/', start as int);
    }
    let ghost name = spec_file_name(path@);
    proof {
        assert(name =~= path@.subrange(start as int, len as int));
    }
    let mut dot: usize = 0;
    let mut found = false;
    let mut i: usize = start;
    while i < len
        invariant
            start <= i <= len,
            len == path@.len(),
            name =~= path@.subrange(start as int, len as int),
            found ==> start < dot < len && path@[dot as int] == '.' && forall|j: int|
                dot < j < i ==> path@[j] != '.',
            !found ==> forall|j: int| start < j < i ==> path@[j] != '.',
        decreases len - i,
    {
        if i > start && path.get_char(i) == '.' {
            dot = i;
            found = true;
        }
        i += 1;
    }
    if found {
        let ext = path.substring_char(dot + 1, len).to_owned();
        proof {
            assert(name[dot - start] == '.');
            assert(exists|k: int| 1 <= k < name.len() && name[k] == '.');
            assert forall|j: int| (dot + 1 - start) <= j < name.len() implies name[j] != '.' by {
                assert(name[j] == path@[start + j]);
            }
            lemma_after_last_subrange(name, '.', dot + 1 - start);
            assert(spec_after_last(name, '.') =~= ext@);
        }
        Some(ext)
    } else {
        proof {
            if exists|k: int| 1 <= k < name.len() && name[k] == '.' {
                let k = choose|k: int| 1 <= k < name.len() && name[k] == '.';
                assert(path@[start + k] == '.');
            }
        }
        None
    }
}

/// The elements of `vals` joined with a comma and a space.
pub open spec fn spec_join(vals: Seq<Seq<char>>) -> Seq<char>
    decreases vals.len(),
{
    if vals.len() == 0 {
        Seq::empty()
    } else if vals.len() == 1 {
        vals[0]
    } else {
        spec_join(vals.drop_last()) + seq![',', ' '] + vals.last()
    }
}

} // verus!
