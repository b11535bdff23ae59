//! Character-level text helpers with exact specifications: whitespace,
//! trimming, splitting, searching, prefix/suffix tests and decimal numbers.
//!
//! Text is handled as sequences of `char`s; a `&str` is read with
//! [`chars_of`] and a `String` is built back with [`string_of`].

use vstd::prelude::*;
use vstd::std_specs::iter::IteratorSpec;
use vstd::utf8::{decode_utf8, valid_utf8};

verus! {

broadcast use vstd::string::group_string_axioms;

/// `char::is_whitespace`: the Unicode `White_Space` property.
pub open spec fn is_ws(c: char) -> bool {
    let u = c as u32;
    ||| 0x09 <= u <= 0x0d
    ||| u == 0x20
    ||| u == 0x85
    ||| u == 0xa0
    ||| u == 0x1680
    ||| 0x2000 <= u <= 0x200a
    ||| u == 0x2028
    ||| u == 0x2029
    ||| u == 0x202f
    ||| u == 0x205f
    ||| u == 0x3000
}

/// Executable whitespace test, equal to [`is_ws`].
pub fn char_is_ws(c: char) -> (b: bool)
    ensures
        b == is_ws(c),
{
    let u: u32 = c as u32;
    (0x09 <= u && u <= 0x0d) || u == 0x20 || u == 0x85 || u == 0xa0 || u == 0x1680 || (0x2000
        <= u && u <= 0x200a) || u == 0x2028 || u == 0x2029 || u == 0x202f || u == 0x205f || u
        == 0x3000
}

/// Appends one `char` to a `String` (std's `String::push`).
#[verifier::external_body]
pub(crate) fn push_char(s: &mut String, c: char)
    ensures
        final(s)@ == old(s)@.push(c),
{
    s.push(c)
}

/// The characters of a string slice, in order.
pub fn chars_of(s: &str) -> (v: Vec<char>)
    ensures
        v@ == s@,
{
    let mut out: Vec<char> = Vec::new();
    for c in it: s.chars()
        invariant
            it.seq() == s@,
            out@ == s@.take(it.index() as int),
    {
        out.push(c);
        assert(out@ =~= s@.take(it.index() as int + 1));
    }
    assert(out@ =~= s@);
    out
}

/// A `String` holding exactly the given characters.
pub fn string_of(cs: &[char]) -> (s: String)
    ensures
        s@ == cs@,
{
    let mut s = String::new();
    let mut i: usize = 0;
    while i < cs.len()
        invariant
            i <= cs@.len(),
            s@ == cs@.subrange(0, i as int),
        decreases cs@.len() - i,
    {
        push_char(&mut s, cs[i]);
        assert(s@ =~= cs@.subrange(0, i + 1));
        i = i + 1;
    }
    assert(s@ =~= cs@);
    s
}

/// Index just past the whitespace run that starts at `i`.
pub open spec fn skip_ws(cs: Seq<char>, i: int) -> int
    decreases cs.len() - i,
{
    if 0 <= i < cs.len() && is_ws(cs[i]) {
        skip_ws(cs, i + 1)
    } else {
        i
    }
}

/// Index of the start of the whitespace run that ends at `j` (not below `lo`).
pub open spec fn back_ws(cs: Seq<char>, lo: int, j: int) -> int
    decreases j - lo,
{
    if lo < j && j <= cs.len() && is_ws(cs[j - 1]) {
        back_ws(cs, lo, j - 1)
    } else {
        j
    }
}

/// `str::trim`: the text without leading and trailing whitespace.
pub open spec fn trim(cs: Seq<char>) -> Seq<char> {
    let a = skip_ws(cs, 0);
    cs.subrange(a, back_ws(cs, a, cs.len() as int))
}

proof fn lemma_skip_ws_bounds(cs: Seq<char>, i: int)
    requires
        0 <= i <= cs.len(),
    ensures
        i <= skip_ws(cs, i) <= cs.len(),
    decreases cs.len() - i,
{
    if i < cs.len() && is_ws(cs[i]) {
        lemma_skip_ws_bounds(cs, i + 1);
    }
}

proof fn lemma_back_ws_bounds(cs: Seq<char>, lo: int, j: int)
    requires
        0 <= lo <= j <= cs.len(),
    ensures
        lo <= back_ws(cs, lo, j) <= j,
    decreases j - lo,
{
    if lo < j && is_ws(cs[j - 1]) {
        lemma_back_ws_bounds(cs, lo, j - 1);
    }
}

/// `str::trim` on a character sequence.
pub fn trim_chars(cs: &[char]) -> (t: Vec<char>)
    ensures
        t@ == trim(cs@),
{
    let n = cs.len();
    let mut a: usize = 0;
    while a < n && char_is_ws(cs[a])
        invariant
            a <= n == cs@.len(),
            skip_ws(cs@, a as int) == skip_ws(cs@, 0),
        decreases n - a,
    {
        a = a + 1;
    }
    let mut b: usize = n;
    while b > a && char_is_ws(cs[b - 1])
        invariant
            a <= b <= n == cs@.len(),
            skip_ws(cs@, 0) == a,
            back_ws(cs@, a as int, b as int) == back_ws(cs@, a as int, n as int),
        decreases b - a,
    {
        b = b - 1;
    }
    let mut t: Vec<char> = Vec::new();
    let mut k: usize = a;
    while k < b
        invariant
            a <= k <= b <= n == cs@.len(),
            t@ == cs@.subrange(a as int, k as int),
        decreases b - k,
    {
        t.push(cs[k]);
        assert(t@ =~= cs@.subrange(a as int, k + 1));
        k = k + 1;
    }
    t
}

/// Equality of two character sequences.
pub fn chars_eq(a: &[char], b: &[char]) -> (r: bool)
    ensures
        r == (a@ == b@),
{
    if a.len() != b.len() {
        return false;
    }
    let mut i: usize = 0;
    while i < a.len()
        invariant
            a@.len() == b@.len(),
            i <= a@.len(),
            a@.subrange(0, i as int) == b@.subrange(0, i as int),
        decreases a@.len() - i,
    {
        if a[i] != b[i] {
            assert(a@[i as int] != b@[i as int]);
            return false;
        }
        assert(a@.subrange(0, i + 1) =~= a@.subrange(0, i as int).push(a@[i as int]));
        assert(b@.subrange(0, i + 1) =~= b@.subrange(0, i as int).push(b@[i as int]));
        i = i + 1;
    }
    assert(a@ =~= a@.subrange(0, i as int));
    assert(b@ =~= b@.subrange(0, i as int));
    true
}

/// Equality of two string slices.
pub fn str_eq(a: &str, b: &str) -> (r: bool)
    ensures
        r == (a@ == b@),
{
    let ca = chars_of(a);
    let cb = chars_of(b);
    chars_eq(ca.as_slice(), cb.as_slice())
}

/// Index of the first `c` at or after `i`, or -1.
pub open spec fn find_from(cs: Seq<char>, c: char, i: int) -> int
    decreases cs.len() - i,
{
    if i < 0 || i >= cs.len() {
        -1
    } else if cs[i] == c {
        i
    } else {
        find_from(cs, c, i + 1)
    }
}

/// Index of the first `c` in `cs`, or -1 when there is none.
pub open spec fn find(cs: Seq<char>, c: char) -> int {
    find_from(cs, c, 0)
}

/// Facts about [`find_from`].
pub proof fn lemma_find_from(cs: Seq<char>, c: char, i: int)
    requires
        0 <= i <= cs.len(),
    ensures
        find_from(cs, c, i) == -1 || (i <= find_from(cs, c, i) < cs.len() && cs[find_from(cs, c, i)] == c),
        forall|k: int| i <= k < cs.len() && (find_from(cs, c, i) == -1 || k < find_from(cs, c, i)) ==> cs[k] != c,
    decreases cs.len() - i,
{
    if i < cs.len() && cs[i] != c {
        lemma_find_from(cs, c, i + 1);
    }
}

/// Executable [`find`].
pub fn find_char(cs: &[char], c: char) -> (r: Option<usize>)
    ensures
        match r {
            Some(k) => find(cs@, c) == k as int,
            None => find(cs@, c) == -1,
        },
{
    let mut i: usize = 0;
    while i < cs.len()
        invariant
            i <= cs@.len(),
            find_from(cs@, c, i as int) == find(cs@, c),
        decreases cs@.len() - i,
    {
        if cs[i] == c {
            return Some(i);
        }
        i = i + 1;
    }
    None
}

/// The characters from `lo` up to `hi`.
pub fn slice_chars(cs: &[char], lo: usize, hi: usize) -> (t: Vec<char>)
    requires
        lo <= hi <= cs@.len(),
    ensures
        t@ == cs@.subrange(lo as int, hi as int),
{
    let mut t: Vec<char> = Vec::new();
    let mut k: usize = lo;
    while k < hi
        invariant
            lo <= k <= hi <= cs@.len(),
            t@ == cs@.subrange(lo as int, k as int),
        decreases hi - k,
    {
        t.push(cs[k]);
        assert(t@ =~= cs@.subrange(lo as int, k + 1));
        k = k + 1;
    }
    t
}

/// `str::split_once(c)`: the text before and after the first `c`.
pub open spec fn split_once(cs: Seq<char>, c: char) -> Option<(Seq<char>, Seq<char>)> {
    let k = find(cs, c);
    if k < 0 {
        None
    } else {
        Some((cs.take(k), cs.skip(k + 1)))
    }
}

/// Executable [`split_once`].
pub fn split_once_chars(cs: &[char], c: char) -> (r: Option<(Vec<char>, Vec<char>)>)
    ensures
        match r {
            Some((a, b)) => split_once(cs@, c) == Some((a@, b@)),
            None => split_once(cs@, c) is None,
        },
{
    proof {
        lemma_find_from(cs@, c, 0);
    }
    match find_char(cs, c) {
        Some(k) => {
            let n = cs.len();
            assert(k < n);
            let a = slice_chars(cs, 0, k);
            let b = slice_chars(cs, k + 1, n);
            assert(a@ =~= cs@.take(k as int));
            assert(b@ =~= cs@.skip(k + 1));
            Some((a, b))
        },
        None => None,
    }
}

/// Pieces of `cs` between occurrences of `sep`, scanning from `i` with the
/// current piece starting at `start` (`str::split` with a `char` pattern).
pub open spec fn split_from(cs: Seq<char>, sep: char, start: int, i: int) -> Seq<Seq<char>>
    decreases cs.len() - i,
{
    if i < 0 || i >= cs.len() {
        seq![cs.subrange(start, cs.len() as int)]
    } else if cs[i] == sep {
        seq![cs.subrange(start, i)] + split_from(cs, sep, i + 1, i + 1)
    } else {
        split_from(cs, sep, start, i + 1)
    }
}

/// `str::split(sep)`: the pieces between separators, including empty ones.
pub open spec fn split(cs: Seq<char>, sep: char) -> Seq<Seq<char>> {
    split_from(cs, sep, 0, 0)
}

/// View of a vector of character vectors.
pub open spec fn views(v: Seq<Vec<char>>) -> Seq<Seq<char>> {
    v.map_values(|x: Vec<char>| x@)
}

/// Executable [`split`].
pub fn split_chars(cs: &[char], sep: char) -> (r: Vec<Vec<char>>)
    ensures
        views(r@) == split(cs@, sep),
{
    let mut out: Vec<Vec<char>> = Vec::new();
    let mut start: usize = 0;
    let mut i: usize = 0;
    while i < cs.len()
        invariant
            start <= i <= cs@.len(),
            views(out@) + split_from(cs@, sep, start as int, i as int) == split(cs@, sep),
        decreases cs@.len() - i,
    {
        if cs[i] == sep {
            let piece = slice_chars(cs, start, i);
            let ghost before = views(out@);
            out.push(piece);
            assert(views(out@) =~= before.push(piece@));
            assert(views(out@) + split_from(cs@, sep, (i + 1) as int, (i + 1) as int) =~= before
                + split_from(cs@, sep, start as int, i as int));
            start = i + 1;
        }
        i = i + 1;
    }
    let piece = slice_chars(cs, start, cs.len());
    let ghost before = views(out@);
    out.push(piece);
    assert(views(out@) =~= before.push(piece@));
    assert(views(out@) =~= before + split_from(cs@, sep, start as int, i as int));
    out
}

/// `str::starts_with` for a character-sequence prefix.
pub open spec fn starts_with(cs: Seq<char>, p: Seq<char>) -> bool {
    p.len() <= cs.len() && cs.take(p.len() as int) == p
}

/// `str::ends_with` for a character-sequence suffix.
pub open spec fn ends_with(cs: Seq<char>, p: Seq<char>) -> bool {
    p.len() <= cs.len() && cs.skip(cs.len() - p.len()) == p
}

/// `str::contains` for a character-sequence needle.
pub open spec fn contains(cs: Seq<char>, p: Seq<char>) -> bool {
    exists|i: int| 0 <= i <= cs.len() - p.len() && #[trigger] cs.subrange(i, i + p.len()) == p
}

/// Whether `p` occurs in `cs` at position `at`.
pub fn occurs_at(cs: &[char], p: &[char], at: usize) -> (r: bool)
    requires
        at + p@.len() <= cs@.len(),
    ensures
        r == (cs@.subrange(at as int, at + p@.len()) == p@),
{
    let n = cs.len();
    let mut k: usize = 0;
    while k < p.len()
        invariant
            n == cs@.len(),
            at + p@.len() <= cs@.len(),
            k <= p@.len(),
            cs@.subrange(at as int, at + k) == p@.subrange(0, k as int),
        decreases p@.len() - k,
    {
        assert(at + k < cs@.len());
        if cs[at + k] != p[k] {
            assert(cs@.subrange(at as int, at + p@.len())[k as int] != p@[k as int]);
            return false;
        }
        assert(cs@.subrange(at as int, at + k + 1) =~= cs@.subrange(at as int, at + k).push(
            cs@[at + k],
        ));
        assert(p@.subrange(0, k + 1) =~= p@.subrange(0, k as int).push(p@[k as int]));
        k = k + 1;
    }
    assert(p@.subrange(0, k as int) =~= p@);
    true
}

/// Executable [`starts_with`].
pub fn starts_with_chars(cs: &[char], p: &[char]) -> (r: bool)
    ensures
        r == starts_with(cs@, p@),
{
    if p.len() > cs.len() {
        return false;
    }
    let r = occurs_at(cs, p, 0);
    assert(cs@.take(p@.len() as int) =~= cs@.subrange(0, p@.len() as int));
    r
}

/// Executable [`ends_with`].
pub fn ends_with_chars(cs: &[char], p: &[char]) -> (r: bool)
    ensures
        r == ends_with(cs@, p@),
{
    if p.len() > cs.len() {
        return false;
    }
    let at = cs.len() - p.len();
    let r = occurs_at(cs, p, at);
    assert(cs@.skip(at as int) =~= cs@.subrange(at as int, at + p@.len()));
    r
}

/// Executable [`contains`].
pub fn contains_chars(cs: &[char], p: &[char]) -> (r: bool)
    ensures
        r == contains(cs@, p@),
{
    if p.len() > cs.len() {
        return false;
    }
    let last = cs.len() - p.len();
    let mut i: usize = 0;
    loop
        invariant
            last == cs@.len() - p@.len(),
            i <= last,
            forall|j: int| 0 <= j < i ==> #[trigger] cs@.subrange(j, j + p@.len()) != p@,
        decreases last - i,
    {
        if occurs_at(cs, p, i) {
            return true;
        }
        if i == last {
            return false;
        }
        i = i + 1;
    }
}

/// Index just before the run of trailing `c`s that ends at `j`.
pub open spec fn back_while(cs: Seq<char>, c: char, j: int) -> int
    decreases j,
{
    if 0 < j && j <= cs.len() && cs[j - 1] == c {
        back_while(cs, c, j - 1)
    } else {
        j
    }
}

/// `str::trim_end_matches(c)`: the text without its trailing `c`s.
pub open spec fn trim_end_matches(cs: Seq<char>, c: char) -> Seq<char> {
    cs.take(back_while(cs, c, cs.len() as int))
}

proof fn lemma_back_while_bounds(cs: Seq<char>, c: char, j: int)
    requires
        0 <= j <= cs.len(),
    ensures
        0 <= back_while(cs, c, j) <= j,
    decreases j,
{
    if 0 < j && cs[j - 1] == c {
        lemma_back_while_bounds(cs, c, j - 1);
    }
}

/// Executable [`trim_end_matches`].
pub fn trim_end_matches_chars(cs: &[char], c: char) -> (t: Vec<char>)
    ensures
        t@ == trim_end_matches(cs@, c),
{
    let mut j: usize = cs.len();
    while j > 0 && cs[j - 1] == c
        invariant
            j <= cs@.len(),
            back_while(cs@, c, j as int) == back_while(cs@, c, cs@.len() as int),
        decreases j,
    {
        j = j - 1;
    }
    let t = slice_chars(cs, 0, j);
    assert(t@ =~= cs@.take(j as int));
    t
}

/// Whether `c` is an ASCII decimal digit.
pub open spec fn is_digit(c: char) -> bool {
    '0' <= c <= '9'
}

/// Whether every character is a decimal digit.
pub open spec fn all_digits(ds: Seq<char>) -> bool {
    forall|i: int| 0 <= i < ds.len() ==> is_digit(#[trigger] ds[i])
}

/// The text after an optional leading `+`.
pub open spec fn unsigned_digits(cs: Seq<char>) -> Seq<char> {
    if cs.len() > 0 && cs[0] == '+' {
        cs.drop_first()
    } else {
        cs
    }
}

/// Numeric value of a non-empty run of decimal digits.
pub open spec fn digits_value(ds: Seq<char>) -> nat
    decreases ds.len(),
{
    if ds.len() == 0 {
        0
    } else {
        digits_value(ds.drop_last()) * 10 + ((ds.last() as u32 - '0' as u32) as nat)
    }
}

/// `usize::from_str`: an optional `+`, then one or more decimal digits whose
/// value fits a `usize`.
pub open spec fn parse_usize(cs: Seq<char>) -> Option<usize> {
    let ds = unsigned_digits(cs);
    if ds.len() > 0 && all_digits(ds) && digits_value(ds) <= usize::MAX {
        Some(digits_value(ds) as usize)
    } else {
        None
    }
}

proof fn lemma_digits_value_mono(ds: Seq<char>, k: int)
    requires
        0 <= k <= ds.len(),
        forall|i: int| 0 <= i < ds.len() ==> is_digit(#[trigger] ds[i]),
    ensures
        digits_value(ds.take(k)) <= digits_value(ds),
    decreases ds.len() - k,
{
    if k < ds.len() {
        lemma_digits_value_mono(ds, k + 1);
        assert(ds.take(k + 1).drop_last() =~= ds.take(k));
    } else {
        assert(ds.take(k) =~= ds);
    }
}

/// Executable [`parse_usize`].
pub fn parse_usize_chars(cs: &[char]) -> (r: Option<usize>)
    ensures
        r == parse_usize(cs@),
{
    let mut i: usize = 0;
    if cs.len() > 0 && cs[0] == '+' {
        i = 1;
    }
    let ghost ds = unsigned_digits(cs@);
    assert(ds =~= cs@.skip(i as int));
    if i >= cs.len() {
        assert(ds.len() == 0);
        return None;
    }
    let mut v: usize = 0;
    let start = i;
    while i < cs.len()
        invariant
            start <= i <= cs@.len(),
            start < cs@.len(),
            ds =~= cs@.skip(start as int),
            ds == unsigned_digits(cs@),
            forall|j: int| 0 <= j < i - start ==> is_digit(#[trigger] ds[j]),
            v as nat == digits_value(ds.take(i - start)),
        decreases cs@.len() - i,
    {
        let c = cs[i];
        if !('0' <= c && c <= '9') {
            assert(!is_digit(ds[i - start]));
            assert(!all_digits(ds));
            return None;
        }
        assert(ds.take(i - start + 1).drop_last() =~= ds.take(i - start));
        let d: usize = (c as u32 - '0' as u32) as usize;
        match v.checked_mul(10) {
            Some(m) => match m.checked_add(d) {
                Some(n) => {
                    v = n;
                },
                None => {
                    proof {
                        if all_digits(ds) {
                            lemma_digits_value_mono(ds, i - start + 1);
                        }
                    }
                    return None;
                },
            },
            None => {
                proof {
                    if all_digits(ds) {
                        lemma_digits_value_mono(ds, i - start + 1);
                    }
                }
                return None;
            },
        }
        i = i + 1;
    }
    assert(ds.take(i - start) =~= ds);
    Some(v)
}

/// Appends the characters of `s` to `out`.
pub fn push_str_chars(out: &mut Vec<char>, s: &str)
    ensures
        final(out)@ == old(out)@ + s@,
{
    let cs = chars_of(s);
    let mut i: usize = 0;
    while i < cs.len()
        invariant
            i <= cs@.len(),
            cs@ == s@,
            out@ == old(out)@ + cs@.take(i as int),
        decreases cs@.len() - i,
    {
        out.push(cs[i]);
        assert(out@ =~= old(out)@ + cs@.take(i + 1));
        i = i + 1;
    }
    assert(cs@.take(i as int) =~= cs@);
}

/// Appends `cs` to `out`.
pub fn push_chars(out: &mut Vec<char>, cs: &[char])
    ensures
        final(out)@ == old(out)@ + cs@,
{
    let mut i: usize = 0;
    while i < cs.len()
        invariant
            i <= cs@.len(),
            out@ == old(out)@ + cs@.take(i as int),
        decreases cs@.len() - i,
    {
        out.push(cs[i]);
        assert(out@ =~= old(out)@ + cs@.take(i + 1));
        i = i + 1;
    }
    assert(cs@.take(i as int) =~= cs@);
}

/// An owned `String` with the contents of a string slice.
pub fn owned(s: &str) -> (r: String)
    ensures
        r@ == s@,
{
    String::from_str(s)
}

/// What `String::from_utf8_lossy` makes of a byte sequence: its UTF-8
/// decoding, with each invalid sequence replaced by U+FFFD.
pub uninterp spec fn utf8_lossy(bytes: Seq<u8>) -> Seq<char>;

/// `String::from_utf8_lossy`. Its result is named [`utf8_lossy`]; for valid
/// UTF-8 it is the plain decoding. What an invalid sequence is replaced by is
/// left to the name.
#[verifier::external_body]
pub(crate) fn lossy_string(bytes: &[u8]) -> (s: String)
    ensures
        s@ == utf8_lossy(bytes@),
        valid_utf8(bytes@) ==> s@ == decode_utf8(bytes@),
{
    String::from_utf8_lossy(bytes).into_owned()
}

/// The characters of [`lossy_string`].
pub fn lossy_chars(bytes: &[u8]) -> (v: Vec<char>)
    ensures
        v@ == utf8_lossy(bytes@),
{
    let s = lossy_string(bytes);
    chars_of(s.as_str())
}

/// The ASCII digit for a value below ten.
pub open spec fn digit_char(d: nat) -> char {
    ((d + 48) as u32) as char
}

/// Decimal representation of a natural number (no leading zeros).
pub open spec fn decimal(n: nat) -> Seq<char>
    decreases n,
{
    if n < 10 {
        seq![digit_char(n)]
    } else {
        decimal(n / 10).push(digit_char(n % 10))
    }
}

/// Decimal representation of an integer, with a leading `-` when negative
/// (the `Display` of Rust's integer types).
pub open spec fn decimal_int(n: int) -> Seq<char> {
    if n < 0 {
        seq!['-'] + decimal((-n) as nat)
    } else {
        decimal(n as nat)
    }
}

fn digit(d: u64) -> (c: char)
    requires
        d < 10,
    ensures
        c == digit_char(d as nat),
{
    let c: char = match d {
        0 => '0',
        1 => '1',
        2 => '2',
        3 => '3',
        4 => '4',
        5 => '5',
        6 => '6',
        7 => '7',
        8 => '8',
        _ => '9',
    };
    c
}

/// Appends the decimal representation of `n`.
pub fn push_decimal(out: &mut Vec<char>, n: u64)
    ensures
        final(out)@ == old(out)@ + decimal(n as nat),
    decreases n,
{
    if n < 10 {
        out.push(digit(n));
        assert(decimal(n as nat) =~= seq![digit_char(n as nat)]);
    } else {
        push_decimal(out, n / 10);
        out.push(digit(n % 10));
        assert(final(out)@ =~= old(out)@ + decimal(n as nat)) by {
            assert(decimal(n as nat) == decimal((n / 10) as nat).push(digit_char((n % 10) as nat)));
        }
    }
}

/// Appends the decimal representation of a signed integer.
pub fn push_decimal_i64(out: &mut Vec<char>, n: i64)
    ensures
        final(out)@ == old(out)@ + decimal_int(n as int),
{
    if n < 0 {
        out.push('-');
        let m: u64 = if n == i64::MIN {
            9223372036854775808u64
        } else {
            (-n) as u64
        };
        push_decimal(out, m);
        assert(final(out)@ =~= old(out)@ + decimal_int(n as int));
    } else {
        push_decimal(out, n as u64);
    }
}


/// Lexicographic order of character sequences by code point (the order of
/// `String`s, whose UTF-8 bytes compare the same way).
pub open spec fn lex_lt(a: Seq<char>, b: Seq<char>) -> bool
    decreases a.len(),
{
    if a.len() == 0 {
        b.len() > 0
    } else if b.len() == 0 {
        false
    } else if a[0] != b[0] {
        (a[0] as u32) < (b[0] as u32)
    } else {
        lex_lt(a.drop_first(), b.drop_first())
    }
}

pub proof fn lemma_lex_trans(a: Seq<char>, b: Seq<char>, c: Seq<char>)
    requires
        lex_lt(a, b),
        lex_lt(b, c),
    ensures
        lex_lt(a, c),
    decreases a.len(),
{
    if a.len() > 0 && b.len() > 0 && c.len() > 0 && a[0] == b[0] && b[0] == c[0] {
        lemma_lex_trans(a.drop_first(), b.drop_first(), c.drop_first());
    }
}

/// Executable [`lex_lt`].
pub fn lex_less(a: &[char], b: &[char]) -> (r: bool)
    ensures
        r == lex_lt(a@, b@),
{
    let mut i: usize = 0;
    assert(a@.skip(0) =~= a@ && b@.skip(0) =~= b@);
    assert(a@.take(0) =~= b@.take(0));
    while i < a.len() && i < b.len()
        invariant
            i <= a@.len(),
            i <= b@.len(),
            a@.take(i as int) == b@.take(i as int),
            lex_lt(a@, b@) == lex_lt(a@.skip(i as int), b@.skip(i as int)),
        decreases a@.len() - i,
    {
        let x = a[i];
        let y = b[i];
        assert(a@.skip(i as int)[0] == x && b@.skip(i as int)[0] == y);
        if x != y {
            return (x as u32) < (y as u32);
        }
        assert(a@.skip(i as int).drop_first() =~= a@.skip(i + 1));
        assert(b@.skip(i as int).drop_first() =~= b@.skip(i + 1));
        assert(a@.take(i + 1) =~= a@.take(i as int).push(x));
        assert(b@.take(i + 1) =~= b@.take(i as int).push(y));
        i = i + 1;
    }
    i < b.len()
}

/// `lex_lt` is irreflexive.
pub proof fn lemma_lex_irrefl(a: Seq<char>)
    ensures
        !lex_lt(a, a),
    decreases a.len(),
{
    if a.len() > 0 {
        lemma_lex_irrefl(a.drop_first());
    }
}


/// `lex_lt` is total on distinct sequences.
pub proof fn lemma_lex_total(a: Seq<char>, b: Seq<char>)
    requires
        a != b,
    ensures
        lex_lt(a, b) || lex_lt(b, a),
    decreases a.len(),
{
    if a.len() > 0 && b.len() > 0 && a[0] == b[0] {
        assert(a.drop_first() != b.drop_first()) by {
            if a.drop_first() == b.drop_first() {
                assert(a =~= seq![a[0]] + a.drop_first());
                assert(b =~= seq![b[0]] + b.drop_first());
            }
        }
        lemma_lex_total(a.drop_first(), b.drop_first());
    } else if a.len() == 0 && b.len() == 0 {
        assert(a =~= b);
    } else if a.len() > 0 && b.len() > 0 {
        vstd::utf8::char_u32_cast(a[0], a[0] as u32);
        vstd::utf8::char_u32_cast(b[0], b[0] as u32);
    }
}

/// `lex_lt` is asymmetric.
pub proof fn lemma_lex_asym(a: Seq<char>, b: Seq<char>)
    requires
        lex_lt(a, b),
    ensures
        !lex_lt(b, a),
    decreases a.len(),
{
    if a.len() > 0 && b.len() > 0 && a[0] == b[0] {
        lemma_lex_asym(a.drop_first(), b.drop_first());
    }
}

} // verus!
