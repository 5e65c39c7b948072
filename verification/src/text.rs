//! Byte-level text utilities shared by the format detector, the
//! decoders and the query engine: whitespace trimming over the UTF-8
//! encodings of the Unicode whitespace characters, prefix and
//! substring tests, and decimal parsing.

use vstd::prelude::*;

verus! {

/// ASCII whitespace: space, tab, line feed, vertical tab, form feed,
/// carriage return.
pub open spec fn is_space(b: u8) -> bool {
    b == 32 || (9 <= b && b <= 13)
}

/// Copies `data[lo..hi]` into a fresh vector.
pub fn sub_vec(data: &[u8], lo: usize, hi: usize) -> (v: Vec<u8>)
    requires
        lo <= hi <= data@.len(),
    ensures
        v@ == data@.subrange(lo as int, hi as int),
{
    let mut v: Vec<u8> = Vec::new();
    let mut i: usize = lo;
    while i < hi
        invariant
            lo <= i <= hi <= data@.len(),
            v@ == data@.subrange(lo as int, i as int),
        decreases hi - i,
    {
        v.push(data[i]);
        proof {
            assert(v@ =~= data@.subrange(lo as int, i + 1 as int));
        }
        i = i + 1;
    }
    v
}

/// Length of the whitespace character encoded at the head of `s`: one
/// ASCII whitespace byte, or the two- or three-byte UTF-8 encoding of
/// one of the other Unicode whitespace characters (NEL, NBSP, ogham
/// space, the en-quad..hair-space run, the line and paragraph
/// separators, narrow and medium spaces, and the ideographic space);
/// `0` when `s` does not start with whitespace.
pub open spec fn ws_head(s: Seq<u8>) -> int {
    if s.len() >= 1 && is_space(s[0]) {
        1
    } else if s.len() >= 2 && s[0] == 0xC2 && (s[1] == 0x85 || s[1] == 0xA0) {
        2
    } else if s.len() >= 3 && s[0] == 0xE1 && s[1] == 0x9A && s[2] == 0x80 {
        3
    } else if s.len() >= 3 && s[0] == 0xE2 && s[1] == 0x80 && ((0x80 <= s[2] && s[2] <= 0x8A)
        || s[2] == 0xA8 || s[2] == 0xA9 || s[2] == 0xAF) {
        3
    } else if s.len() >= 3 && s[0] == 0xE2 && s[1] == 0x81 && s[2] == 0x9F {
        3
    } else if s.len() >= 3 && s[0] == 0xE3 && s[1] == 0x80 && s[2] == 0x80 {
        3
    } else {
        0
    }
}

/// Length of the whitespace character encoded at the tail of `s`, by
/// the same table as `ws_head`; `0` when `s` does not end with
/// whitespace.
pub open spec fn ws_tail(s: Seq<u8>) -> int {
    let n = s.len() as int;
    if n >= 1 && is_space(s[n - 1]) {
        1
    } else if n >= 2 && s[n - 2] == 0xC2 && (s[n - 1] == 0x85 || s[n - 1] == 0xA0) {
        2
    } else if n >= 3 && s[n - 3] == 0xE1 && s[n - 2] == 0x9A && s[n - 1] == 0x80 {
        3
    } else if n >= 3 && s[n - 3] == 0xE2 && s[n - 2] == 0x80 && ((0x80 <= s[n - 1] && s[n - 1]
        <= 0x8A) || s[n - 1] == 0xA8 || s[n - 1] == 0xA9 || s[n - 1] == 0xAF) {
        3
    } else if n >= 3 && s[n - 3] == 0xE2 && s[n - 2] == 0x81 && s[n - 1] == 0x9F {
        3
    } else if n >= 3 && s[n - 3] == 0xE3 && s[n - 2] == 0x80 && s[n - 1] == 0x80 {
        3
    } else {
        0
    }
}

pub proof fn lemma_ws_head_bounds(s: Seq<u8>)
    ensures
        0 <= ws_head(s) <= s.len(),
{
}

pub proof fn lemma_ws_tail_bounds(s: Seq<u8>)
    ensures
        0 <= ws_tail(s) <= s.len(),
{
}

/// Index of the first byte at or after `i` once the leading run of
/// whitespace characters is skipped.
pub open spec fn skip_ws(s: Seq<u8>, i: int) -> int
    decreases s.len() - i,
    when 0 <= i <= s.len()
    via skip_ws_decreases
{
    let w = ws_head(s.subrange(i, s.len() as int));
    if i >= s.len() || w == 0 {
        i
    } else {
        skip_ws(s, i + w)
    }
}

#[via_fn]
proof fn skip_ws_decreases(s: Seq<u8>, i: int) {
    lemma_ws_head_bounds(s.subrange(i, s.len() as int));
}

pub proof fn lemma_skip_ws_bounds(s: Seq<u8>, i: int)
    requires
        0 <= i <= s.len(),
    ensures
        i <= skip_ws(s, i) <= s.len(),
    decreases s.len() - i,
{
    let w = ws_head(s.subrange(i, s.len() as int));
    lemma_ws_head_bounds(s.subrange(i, s.len() as int));
    if i < s.len() && w != 0 {
        lemma_skip_ws_bounds(s, i + w);
    }
}

/// Length of `s` once the trailing run of whitespace characters is
/// dropped.
pub open spec fn trim_end_len(s: Seq<u8>) -> int
    decreases s.len(),
    when true
    via trim_end_len_decreases
{
    let w = ws_tail(s);
    if w == 0 {
        s.len() as int
    } else {
        trim_end_len(s.subrange(0, s.len() - w))
    }
}

#[via_fn]
proof fn trim_end_len_decreases(s: Seq<u8>) {
    lemma_ws_tail_bounds(s);
}

pub proof fn lemma_trim_end_len_bounds(s: Seq<u8>)
    ensures
        0 <= trim_end_len(s) <= s.len(),
    decreases s.len(),
{
    let w = ws_tail(s);
    lemma_ws_tail_bounds(s);
    if w != 0 {
        lemma_trim_end_len_bounds(s.subrange(0, s.len() - w));
    }
}

/// `s` with leading and trailing whitespace characters removed.
pub open spec fn trimmed(s: Seq<u8>) -> Seq<u8> {
    let t = s.subrange(skip_ws(s, 0), s.len() as int);
    t.subrange(0, trim_end_len(t))
}

/// Executable counterpart of `ws_head` at offset `i`.
fn ws_head_at(s: &[u8], i: usize) -> (w: usize)
    requires
        i <= s@.len(),
    ensures
        w == ws_head(s@.subrange(i as int, s@.len() as int)),
        i + w <= s@.len(),
{
    let n = s.len();
    let ghost t = s@.subrange(i as int, s@.len() as int);
    proof {
        assert(forall|k: int| 0 <= k < t.len() ==> t[k] == s@[i + k]);
    }
    if i < n {
        let b0 = s[i];
        if b0 == 32 || (9 <= b0 && b0 <= 13) {
            return 1;
        }
        if n - i >= 2 && b0 == 0xC2 {
            let b1 = s[i + 1];
            if b1 == 0x85 || b1 == 0xA0 {
                return 2;
            }
        }
        if n - i >= 3 {
            let b1 = s[i + 1];
            let b2 = s[i + 2];
            if b0 == 0xE1 && b1 == 0x9A && b2 == 0x80 {
                return 3;
            }
            if b0 == 0xE2 && b1 == 0x80 && ((0x80 <= b2 && b2 <= 0x8A) || b2 == 0xA8 || b2 == 0xA9
                || b2 == 0xAF) {
                return 3;
            }
            if b0 == 0xE2 && b1 == 0x81 && b2 == 0x9F {
                return 3;
            }
            if b0 == 0xE3 && b1 == 0x80 && b2 == 0x80 {
                return 3;
            }
        }
    }
    0
}

/// Executable counterpart of `ws_tail` over the window `s[lo..hi]`.
fn ws_tail_at(s: &[u8], lo: usize, hi: usize) -> (w: usize)
    requires
        lo <= hi <= s@.len(),
    ensures
        w == ws_tail(s@.subrange(lo as int, hi as int)),
        w <= hi - lo,
{
    let ghost t = s@.subrange(lo as int, hi as int);
    proof {
        assert(forall|k: int| 0 <= k < t.len() ==> t[k] == s@[lo + k]);
    }
    let m = hi - lo;
    if m >= 1 {
        let b0 = s[hi - 1];
        if b0 == 32 || (9 <= b0 && b0 <= 13) {
            return 1;
        }
        if m >= 2 {
            let b1 = s[hi - 2];
            if b1 == 0xC2 && (b0 == 0x85 || b0 == 0xA0) {
                return 2;
            }
            if m >= 3 {
                let b2 = s[hi - 3];
                if b2 == 0xE1 && b1 == 0x9A && b0 == 0x80 {
                    return 3;
                }
                if b2 == 0xE2 && b1 == 0x80 && ((0x80 <= b0 && b0 <= 0x8A) || b0 == 0xA8 || b0
                    == 0xA9 || b0 == 0xAF) {
                    return 3;
                }
                if b2 == 0xE2 && b1 == 0x81 && b0 == 0x9F {
                    return 3;
                }
                if b2 == 0xE3 && b1 == 0x80 && b0 == 0x80 {
                    return 3;
                }
            }
        }
    }
    0
}

/// Length of `s[lo..hi]` once trailing whitespace characters are
/// dropped.
fn trim_end_window(s: &[u8], lo: usize, hi: usize) -> (m: usize)
    requires
        lo <= hi <= s@.len(),
    ensures
        m == trim_end_len(s@.subrange(lo as int, hi as int)),
        m <= hi - lo,
{
    let ghost whole = s@.subrange(lo as int, hi as int);
    let mut h: usize = hi;
    loop
        invariant_except_break
            lo <= h <= hi <= s@.len(),
            whole == s@.subrange(lo as int, hi as int),
            trim_end_len(whole) == trim_end_len(s@.subrange(lo as int, h as int)),
        ensures
            lo <= h <= hi,
            trim_end_len(whole) == h - lo,
        decreases h,
    {
        let w = ws_tail_at(s, lo, h);
        if w == 0 {
            proof {
                assert(trim_end_len(s@.subrange(lo as int, h as int)) == h - lo);
            }
            break ;
        }
        proof {
            let cur = s@.subrange(lo as int, h as int);
            assert(cur.subrange(0, cur.len() - ws_tail(cur)) =~= s@.subrange(
                lo as int,
                h - w,
            ));
        }
        h = h - w;
    }
    h - lo
}

/// Length of `s[..hi]` once trailing whitespace characters are
/// dropped.
pub fn trim_end_idx(s: &[u8], hi: usize) -> (m: usize)
    requires
        hi <= s@.len(),
    ensures
        m == trim_end_len(s@.subrange(0, hi as int)),
        m <= hi,
{
    trim_end_window(s, 0, hi)
}

/// Trims whitespace characters from both ends of `data`.
pub fn trim_slice(data: &[u8]) -> (t: Vec<u8>)
    ensures
        t@ == trimmed(data@),
{
    let n = data.len();
    let mut lo: usize = 0;
    loop
        invariant_except_break
            0 <= lo <= n,
            n == data@.len(),
            skip_ws(data@, 0) == skip_ws(data@, lo as int),
        ensures
            0 <= lo <= n,
            n == data@.len(),
            skip_ws(data@, 0) == lo as int,
        decreases n - lo,
    {
        let w = ws_head_at(data, lo);
        if w == 0 {
            proof {
                assert(skip_ws(data@, lo as int) == lo as int);
            }
            break ;
        }
        lo = lo + w;
    }
    let hi = lo + trim_end_window(data, lo, n);
    proof {
        let t1 = data@.subrange(lo as int, n as int);
        assert(t1 =~= data@.subrange(lo as int, data@.len() as int));
        lemma_trim_end_len_bounds(t1);
        assert(t1.subrange(0, trim_end_len(t1)) =~= data@.subrange(lo as int, hi as int));
    }
    sub_vec(data, lo, hi)
}

/// Relies on std `str::from_utf8`: it accepts exactly the valid UTF-8
/// byte strings.
#[verifier::external_body]
pub(crate) fn utf8_ok(b: &[u8]) -> (r: bool)
    ensures
        r == vstd::utf8::valid_utf8(b@),
{
    core::str::from_utf8(b).is_ok()
}

/// `p` is a prefix of `s`.
pub open spec fn starts_with(s: Seq<u8>, p: Seq<u8>) -> bool {
    p.len() <= s.len() && s.subrange(0, p.len() as int) == p
}

pub fn slice_starts_with(s: &[u8], p: &[u8]) -> (r: bool)
    ensures
        r == starts_with(s@, p@),
{
    if p.len() > s.len() {
        return false;
    }
    let mut i: usize = 0;
    while i < p.len()
        invariant
            0 <= i <= p@.len() <= s@.len(),
            forall|k: int| 0 <= k < i ==> s@[k] == p@[k],
        decreases p@.len() - i,
    {
        if s[i] != p[i] {
            proof {
                assert(s@.subrange(0, p@.len() as int)[i as int] != p@[i as int]);
            }
            return false;
        }
        i = i + 1;
    }
    proof {
        assert(s@.subrange(0, p@.len() as int) =~= p@);
    }
    true
}

/// `p` occurs as a contiguous subsequence of `s`.
pub open spec fn contains_seq(s: Seq<u8>, p: Seq<u8>) -> bool {
    exists|i: int| 0 <= i && i + p.len() <= s.len() && #[trigger] s.subrange(i, i + p.len()) == p
}

/// Does `p` match `s` at offset `at`?
fn match_at(s: &[u8], at: usize, p: &[u8]) -> (r: bool)
    requires
        at + p@.len() <= s@.len(),
    ensures
        r == (s@.subrange(at as int, at + p@.len()) == p@),
{
    let n = s.len();
    let mut i: usize = 0;
    while i < p.len()
        invariant
            0 <= i <= p@.len(),
            at + p@.len() <= s@.len(),
            n == s@.len(),
            forall|k: int| 0 <= k < i ==> s@[at + k] == p@[k],
        decreases p@.len() - i,
    {
        if s[at + i] != p[i] {
            proof {
                assert(s@.subrange(at as int, at + p@.len())[i as int] != p@[i as int]);
            }
            return false;
        }
        i = i + 1;
    }
    proof {
        assert(s@.subrange(at as int, at + p@.len()) =~= p@);
    }
    true
}

pub fn slice_contains(s: &[u8], p: &[u8]) -> (r: bool)
    ensures
        r == contains_seq(s@, p@),
{
    let n = s.len();
    let m = p.len();
    if m > n {
        return false;
    }
    if m == 0 {
        proof {
            assert(s@.subrange(0, 0 + p@.len() as int) =~= p@);
        }
        return true;
    }
    let last = n - m;
    let mut i: usize = 0;
    while i <= last
        invariant
            0 <= i <= last + 1,
            last == n - m,
            n == s@.len(),
            m == p@.len(),
            1 <= m <= n,
            forall|j: int| 0 <= j < i ==> #[trigger] s@.subrange(j, j + p@.len()) != p@,
        decreases last + 1 - i,
    {
        if match_at(s, i, p) {
            return true;
        }
        i = i + 1;
    }
    proof {
        assert(forall|j: int| 0 <= j && j + p@.len() <= s@.len() ==> #[trigger] s@.subrange(
            j,
            j + p@.len(),
        ) != p@);
    }
    false
}

/// Index of the first occurrence of `b` at or after `i`, or `s.len()`.
pub open spec fn find_from(s: Seq<u8>, i: int, b: u8) -> int
    decreases s.len() - i,
{
    if i < 0 || i >= s.len() {
        s.len() as int
    } else if s[i] == b {
        i
    } else {
        find_from(s, i + 1, b)
    }
}

pub proof fn lemma_find_from(s: Seq<u8>, i: int, b: u8)
    requires
        0 <= i <= s.len(),
    ensures
        i <= find_from(s, i, b) <= s.len(),
        forall|k: int| i <= k < find_from(s, i, b) ==> s[k] != b,
        find_from(s, i, b) < s.len() ==> s[find_from(s, i, b)] == b,
    decreases s.len() - i,
{
    if i < s.len() && s[i] != b {
        lemma_find_from(s, i + 1, b);
    }
}

pub fn slice_find(s: &[u8], from: usize, b: u8) -> (r: usize)
    requires
        from <= s@.len(),
    ensures
        r == find_from(s@, from as int, b),
        from <= r <= s@.len(),
{
    let mut i: usize = from;
    while i < s.len() && s[i] != b
        invariant
            from <= i <= s@.len(),
            forall|k: int| from <= k < i ==> s@[k] != b,
        decreases s@.len() - i,
    {
        i = i + 1;
    }
    proof {
        lemma_find_from_char(s@, from as int, i as int, b);
    }
    i
}

pub proof fn lemma_find_from_char(s: Seq<u8>, i: int, j: int, b: u8)
    requires
        0 <= i <= j <= s.len(),
        forall|k: int| i <= k < j ==> s[k] != b,
        j < s.len() ==> s[j] == b,
    ensures
        find_from(s, i, b) == j,
    decreases j - i,
{
    if i < j {
        lemma_find_from_char(s, i + 1, j, b);
    }
}

/// ASCII decimal digit.
pub open spec fn is_digit(b: u8) -> bool {
    48 <= b && b <= 57
}

pub open spec fn all_digits(s: Seq<u8>) -> bool {
    forall|k: int| 0 <= k < s.len() ==> is_digit(s[k])
}

/// Numeric value of a digit string, most significant digit first.
pub open spec fn dec_val(s: Seq<u8>) -> int
    decreases s.len(),
{
    if s.len() == 0 {
        0
    } else {
        dec_val(s.drop_last()) * 10 + (s.last() - 48)
    }
}

pub proof fn lemma_dec_val_nonneg(s: Seq<u8>)
    requires
        all_digits(s),
    ensures
        dec_val(s) >= 0,
    decreases s.len(),
{
    if s.len() > 0 {
        assert(all_digits(s.drop_last()));
        lemma_dec_val_nonneg(s.drop_last());
    }
}

/// A digit string is worth at least any of its prefixes.
pub proof fn lemma_dec_val_prefix_le(s: Seq<u8>, i: int)
    requires
        all_digits(s),
        0 <= i <= s.len(),
    ensures
        dec_val(s.subrange(0, i)) <= dec_val(s),
    decreases s.len() - i,
{
    if i < s.len() {
        lemma_dec_val_prefix_le(s, i + 1);
        let t = s.subrange(0, i + 1);
        assert(t.drop_last() =~= s.subrange(0, i));
        assert(all_digits(s.subrange(0, i)));
        lemma_dec_val_nonneg(s.subrange(0, i));
        assert(dec_val(t) == dec_val(s.subrange(0, i)) * 10 + (s[i] - 48));
        assert(dec_val(s.subrange(0, i)) * 10 >= dec_val(s.subrange(0, i))) by {
            lemma_dec_val_nonneg(s.subrange(0, i));
        }
    } else {
        assert(s.subrange(0, i) =~= s);
    }
}

/// Parses an unsigned decimal number out of `s[lo..hi]`; `None` when the
/// range is empty, holds a non-digit, or exceeds `max`.
pub fn parse_dec_range(s: &[u8], lo: usize, hi: usize, max: u64) -> (r: Option<u64>)
    requires
        lo <= hi <= s@.len(),
        max < 0x8000_0000_0000_0000,
    ensures
        ({
            let d = s@.subrange(lo as int, hi as int);
            match r {
                Some(v) => lo < hi && all_digits(d) && dec_val(d) == v && v <= max,
                None => lo == hi || !all_digits(d) || dec_val(d) > max,
            }
        }),
{
    if lo == hi {
        return None;
    }
    let ghost d = s@.subrange(lo as int, hi as int);
    let mut acc: u64 = 0;
    let mut i: usize = lo;
    while i < hi
        invariant
            lo <= i <= hi <= s@.len(),
            max < 0x8000_0000_0000_0000,
            d == s@.subrange(lo as int, hi as int),
            all_digits(d.subrange(0, i - lo)),
            acc == dec_val(d.subrange(0, i - lo)),
            acc <= max,
        decreases hi - i,
    {
        let b = s[i];
        if !(48 <= b && b <= 57) {
            proof {
                assert(d[i - lo] == b);
            }
            return None;
        }
        let digit: u64 = (b - 48) as u64;
        proof {
            assert(d.subrange(0, i + 1 - lo).drop_last() =~= d.subrange(0, i - lo));
            assert(d.subrange(0, i + 1 - lo).last() == b);
        }
        if acc > max / 10 || (acc == max / 10 && digit > max % 10) {
            // The prefix alone already exceeds `max`; if the rest is all
            // digits too, the whole value does as well.
            proof {
                let p = d.subrange(0, i + 1 - lo);
                assert(dec_val(p) == acc * 10 + digit > max);
                assert(all_digits(p));
                if all_digits(d) {
                    lemma_dec_val_prefix_le(d, i + 1 - lo);
                }
            }
            return None;
        }
        acc = acc * 10 + digit;
        i = i + 1;
    }
    proof {
        assert(d.subrange(0, (hi - lo) as int) =~= d);
    }
    Some(acc)
}

/// Character-level equality of two string slices.
pub fn str_eq(a: &str, b: &str) -> (r: bool)
    ensures
        r == (a@ == b@),
{
    let la = a.unicode_len();
    let lb = b.unicode_len();
    if la != lb {
        return false;
    }
    let mut i: usize = 0;
    while i < la
        invariant
            0 <= i <= la,
            la == a@.len(),
            la == b@.len(),
            forall|k: int| 0 <= k < i ==> a@[k] == b@[k],
        decreases la - i,
    {
        if a.get_char(i) != b.get_char(i) {
            return false;
        }
        i = i + 1;
    }
    proof {
        assert(a@ =~= b@);
    }
    true
}

} // verus!
