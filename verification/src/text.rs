//! Character-level string helpers shared by the path, escaping and HTML modules.
//!
//! Strings are modelled by their character sequence (`s@`). Positions that come
//! from byte-oriented scans are byte offsets into the UTF-8 encoding of that
//! sequence; `piece` turns such a byte range back into characters.

use vstd::prelude::*;
use vstd::string::{StrSliceExecFns, StringSliceAdditionalSpecFns};
use vstd::utf8::*;

verus! {

broadcast use group_utf8_lib;

/// The UTF-8 bytes of a character sequence.
pub open spec fn enc(t: Seq<char>) -> Seq<u8> {
    encode_utf8(t)
}

/// Byte offset `i` of `t`'s encoding starts a character (or is the end).
pub open spec fn boundary(t: Seq<char>, i: int) -> bool {
    0 <= i <= enc(t).len() && is_char_boundary(enc(t), i)
}

/// The characters encoded by bytes `a..b` of `t`'s encoding.
pub open spec fn piece(t: Seq<char>, a: int, b: int) -> Seq<char> {
    decode_utf8(enc(t).subrange(a, b))
}

/// A boundary of a valid encoding stays a boundary of any sub-range that
/// starts and ends on boundaries, shifted by the sub-range's start.
pub proof fn lemma_sub_boundary(bs: Seq<u8>, a: int, c: int, b: int)
    requires
        valid_utf8(bs),
        0 <= a <= b <= c <= bs.len(),
        is_char_boundary(bs, a),
        is_char_boundary(bs, b),
        is_char_boundary(bs, c),
    ensures
        valid_utf8(bs.subrange(a, c)),
        is_char_boundary(bs.subrange(a, c), b - a),
{
    let p = bs.subrange(0, c);
    valid_utf8_split(bs, c);
    assert(valid_utf8(p));
    is_char_boundary_start_end_of_seq(p);
    if 0 < a < c {
        is_char_boundary_iff_not_is_continuation_byte(bs, a);
        is_char_boundary_iff_not_is_continuation_byte(p, a);
    }
    assert(is_char_boundary(p, a));
    valid_utf8_split(p, a);
    let s = bs.subrange(a, c);
    assert(p.subrange(a, p.len() as int) =~= s);
    assert(valid_utf8(s));
    is_char_boundary_start_end_of_seq(s);
    if 0 < b - a < s.len() {
        is_char_boundary_iff_not_is_continuation_byte(bs, b);
        is_char_boundary_iff_not_is_continuation_byte(s, b - a);
    }
}

/// In a valid encoding, the position right after an ASCII byte is a boundary.
pub proof fn lemma_after_ascii(bs: Seq<u8>, p: int)
    requires
        valid_utf8(bs),
        1 <= p <= bs.len(),
        bs[p - 1] < 0x80,
    ensures
        is_char_boundary(bs, p),
{
    is_char_boundary_start_end_of_seq(bs);
    if p < bs.len() {
        is_char_boundary_iff_not_is_continuation_byte(bs, p - 1);
        valid_utf8_split(bs, p - 1);
        let s = bs.subrange(p - 1, bs.len() as int);
        assert(valid_first_scalar(s));
        assert(length_of_first_scalar(s) == 1);
        let rest = pop_first_scalar(s);
        assert(rest =~= bs.subrange(p, bs.len() as int));
        assert(valid_utf8(rest));
        assert(valid_first_scalar(rest));
        assert(rest[0] == bs[p]);
        is_char_boundary_iff_not_is_continuation_byte(bs, p);
    }
}

/// Decoding the whole encoding gives the sequence back.
pub proof fn lemma_piece_all(t: Seq<char>)
    ensures
        piece(t, 0, enc(t).len() as int) == t,
        boundary(t, 0),
        boundary(t, enc(t).len() as int),
{
    assert(enc(t).subrange(0, enc(t).len() as int) =~= enc(t));
    encode_utf8_decode_utf8(t);
    encode_utf8_valid_utf8(t);
    is_char_boundary_start_end_of_seq(enc(t));
}

/// Adjacent pieces join into one piece.
pub proof fn lemma_piece_join(t: Seq<char>, a: int, b: int, c: int)
    requires
        a <= b <= c,
        boundary(t, a),
        boundary(t, b),
        boundary(t, c),
    ensures
        piece(t, a, b) + piece(t, b, c) == piece(t, a, c),
{
    let bs = enc(t);
    encode_utf8_valid_utf8(t);
    lemma_sub_boundary(bs, a, c, b);
    let s = bs.subrange(a, c);
    decode_utf8_split(s, b - a);
    assert(s.subrange(0, b - a) =~= bs.subrange(a, b));
    assert(s.subrange(b - a, s.len() as int) =~= bs.subrange(b, c));
}

/// An empty piece has no characters.
pub proof fn lemma_piece_empty(t: Seq<char>, a: int)
    requires
        0 <= a <= enc(t).len(),
    ensures
        piece(t, a, a) == Seq::<char>::empty(),
{
    assert(enc(t).subrange(a, a) =~= Seq::<u8>::empty());
}

/// The bytes `a..b` of `s`, for boundaries `a <= b`.
pub fn slice_bytes(s: &str, a: usize, b: usize) -> (r: &str)
    requires
        a <= b <= enc(s@).len(),
        boundary(s@, a as int),
        boundary(s@, b as int),
    ensures
        r@ == piece(s@, a as int, b as int),
{
    proof {
        encode_utf8_valid_utf8(s@);
        lemma_sub_boundary(enc(s@), 0, b as int, a as int);
    }
    let (head, _) = s.split_at(b);
    proof {
        assert(head.spec_bytes() =~= enc(s@).subrange(0, b as int));
        lemma_sub_boundary(enc(s@), 0, b as int, a as int);
        assert(is_char_boundary(head.spec_bytes(), a as int));
    }
    let (_, mid) = head.split_at(a);
    proof {
        assert(mid.spec_bytes() =~= enc(s@).subrange(a as int, b as int));
        encode_utf8_decode_utf8(mid@);
    }
    mid
}

/// The characters of `s`, in order.
pub fn chars_of(s: &str) -> (r: Vec<char>)
    ensures
        r@ == s@,
{
    let mut r: Vec<char> = Vec::new();
    for c in it: s.chars()
        invariant
            r@ == it.seq().take(it.index() as int),
            it.seq() == s@,
    {
        r.push(c);
    }
    r
}

/// Unicode `White_Space`: the characters `char::is_whitespace` accepts.
pub open spec fn is_ws(c: char) -> bool {
    let u = c as u32;
    (0x9 <= u <= 0xd) || u == 0x20 || u == 0x85 || u == 0xa0 || u == 0x1680 || (0x2000 <= u
        <= 0x200a) || u == 0x2028 || u == 0x2029 || u == 0x202f || u == 0x205f || u == 0x3000
}

/// `s` without its leading whitespace.
pub open spec fn trim_start(s: Seq<char>) -> Seq<char>
    decreases s.len(),
{
    if s.len() > 0 && is_ws(s[0]) {
        trim_start(s.drop_first())
    } else {
        s
    }
}

/// `s` without its trailing whitespace.
pub open spec fn trim_end(s: Seq<char>) -> Seq<char>
    decreases s.len(),
{
    if s.len() > 0 && is_ws(s.last()) {
        trim_end(s.drop_last())
    } else {
        s
    }
}

/// `s` without leading and trailing whitespace (`str::trim`).
pub open spec fn trim_spec(s: Seq<char>) -> Seq<char> {
    trim_end(trim_start(s))
}

/// Whether `c` is Unicode whitespace (`char::is_whitespace`).
pub fn is_whitespace(c: char) -> (r: bool)
    ensures
        r == is_ws(c),
{
    let u = c as u32;
    (0x9 <= u && u <= 0xd) || u == 0x20 || u == 0x85 || u == 0xa0 || u == 0x1680 || (0x2000 <= u
        && u <= 0x200a) || u == 0x2028 || u == 0x2029 || u == 0x202f || u == 0x205f || u == 0x3000
}

/// Characters `from..to` of `s`.
pub fn substring<'a>(s: &'a str, from: usize, to: usize) -> (r: &'a str)
    requires
        from <= to <= s@.len(),
    ensures
        r@ == s@.subrange(from as int, to as int),
{
    s.substring_char(from, to)
}

/// Calls `String::push`, which appends one character.
#[verifier::external_body]
pub(crate) fn push_char(s: &mut String, c: char)
    ensures
        final(s)@ == old(s)@.push(c),
{
    s.push(c);
}

/// An owned copy of `s`.
pub fn own(s: &str) -> (r: String)
    ensures
        r@ == s@,
{
    s.to_owned()
}

/// `s` without leading and trailing whitespace (`str::trim`).
pub fn trim(s: &str) -> (r: &str)
    ensures
        r@ == trim_spec(s@),
{
    let cs = chars_of(s);
    let n = cs.len();
    let mut i: usize = 0;
    proof {
        assert(s@.subrange(0, n as int) =~= s@);
    }
    while i < n && is_whitespace(cs[i])
        invariant
            cs@ == s@,
            n == s@.len(),
            i <= n,
            trim_start(s@) == trim_start(s@.subrange(i as int, n as int)),
        decreases n - i,
    {
        proof {
            assert(s@.subrange(i as int, n as int).drop_first() =~= s@.subrange(i + 1, n as int));
        }
        i = i + 1;
    }
    proof {
        assert(trim_start(s@.subrange(i as int, n as int)) == s@.subrange(i as int, n as int));
    }
    let mut j: usize = n;
    while j > i && is_whitespace(cs[j - 1])
        invariant
            cs@ == s@,
            n == s@.len(),
            i <= j <= n,
            trim_spec(s@) == trim_end(s@.subrange(i as int, j as int)),
        decreases j,
    {
        proof {
            assert(s@.subrange(i as int, j as int).drop_last() =~= s@.subrange(i as int, j - 1));
        }
        j = j - 1;
    }
    substring(s, i, j)
}

/// Whether `a` and `b` hold the same characters.
pub fn str_eq(a: &str, b: &str) -> (r: bool)
    ensures
        r == (a@ == b@),
{
    let x = chars_of(a);
    let y = chars_of(b);
    if x.len() != y.len() {
        return false;
    }
    let mut i: usize = 0;
    while i < x.len()
        invariant
            x@ == a@,
            y@ == b@,
            x@.len() == y@.len(),
            i <= x@.len(),
            forall|j: int| 0 <= j < i ==> x@[j] == y@[j],
        decreases x@.len() - i,
    {
        if x[i] != y[i] {
            return false;
        }
        i = i + 1;
    }
    proof {
        assert(a@ =~= b@);
    }
    true
}

/// What `char::to_uppercase` yields for `c` (one or more characters).
pub uninterp spec fn char_upper(c: char) -> Seq<char>;

/// Calls `char::to_uppercase` and collects the characters it yields; the
/// result is named by `char_upper`.
#[verifier::external_body]
pub(crate) fn char_to_uppercase(c: char) -> (r: String)
    ensures
        r@ == char_upper(c),
{
    c.to_uppercase().to_string()
}

/// `s` with its first character upper-cased.
pub open spec fn capitalize_spec(s: Seq<char>) -> Seq<char> {
    if s.len() == 0 {
        Seq::<char>::empty()
    } else {
        char_upper(s[0]) + s.drop_first()
    }
}

/// `s` with its first character upper-cased (`char::to_uppercase`).
pub fn capitalize(s: &str) -> (r: String)
    ensures
        r@ == capitalize_spec(s@),
{
    let cs = chars_of(s);
    if cs.len() == 0 {
        return String::new();
    }
    let mut out = char_to_uppercase(cs[0]);
    out.append(substring(s, 1, cs.len()));
    proof {
        assert(s@.subrange(1, s@.len() as int) =~= s@.drop_first());
    }
    out
}

/// Index of the first `c` in `s` at or after `i`, or -1.
pub open spec fn find_from(s: Seq<char>, c: char, i: int) -> int
    decreases s.len() - i,
{
    if i < 0 || i >= s.len() {
        -1
    } else if s[i] == c {
        i
    } else {
        find_from(s, c, i + 1)
    }
}

/// Index of the first `c` in `s`, or -1 (`str::find`).
pub open spec fn find_spec(s: Seq<char>, c: char) -> int {
    find_from(s, c, 0)
}

/// Index of the last `c` in `s` before index `j`, or -1.
pub open spec fn rfind_before(s: Seq<char>, c: char, j: int) -> int
    decreases j,
{
    if j <= 0 || j > s.len() {
        -1
    } else if s[j - 1] == c {
        j - 1
    } else {
        rfind_before(s, c, j - 1)
    }
}

/// Index of the last `c` in `s`, or -1 (`str::rfind`).
pub open spec fn rfind_spec(s: Seq<char>, c: char) -> int {
    rfind_before(s, c, s.len() as int)
}

pub proof fn lemma_find_from_range(s: Seq<char>, c: char, i: int)
    ensures
        find_from(s, c, i) == -1 || (i <= find_from(s, c, i) < s.len() && s[find_from(s, c, i)] == c),
    decreases s.len() - i,
{
    if 0 <= i < s.len() && s[i] != c {
        lemma_find_from_range(s, c, i + 1);
    }
}

pub proof fn lemma_rfind_before_range(s: Seq<char>, c: char, j: int)
    ensures
        rfind_before(s, c, j) == -1 || (0 <= rfind_before(s, c, j) < j && s[rfind_before(s, c, j)] == c),
    decreases j,
{
    if 0 < j <= s.len() && s[j - 1] != c {
        lemma_rfind_before_range(s, c, j - 1);
    }
}

/// First index of `c` in `cs` at or after `i`.
pub fn find_char_from(cs: &Vec<char>, c: char, i: usize) -> (r: Option<usize>)
    ensures
        r is None ==> find_from(cs@, c, i as int) == -1,
        r matches Some(k) ==> find_from(cs@, c, i as int) == k && i <= k < cs@.len() && cs@[k as int] == c,
{
    let mut k = i;
    while k < cs.len()
        invariant
            i <= k,
            find_from(cs@, c, i as int) == find_from(cs@, c, k as int),
        decreases cs@.len() - k,
    {
        if cs[k] == c {
            return Some(k);
        }
        k = k + 1;
    }
    None
}

/// Last index of `c` in `cs`.
pub fn rfind_char(cs: &Vec<char>, c: char) -> (r: Option<usize>)
    ensures
        r is None ==> rfind_spec(cs@, c) == -1,
        r matches Some(k) ==> rfind_spec(cs@, c) == k && k < cs@.len() && cs@[k as int] == c,
{
    let mut j = cs.len();
    while j > 0
        invariant
            j <= cs@.len(),
            rfind_spec(cs@, c) == rfind_before(cs@, c, j as int),
        decreases j,
    {
        if cs[j - 1] == c {
            return Some(j - 1);
        }
        j = j - 1;
    }
    None
}

/// Whether `s[i..]` starts with `p`.
fn matches_at(s: &Vec<char>, i: usize, p: &Vec<char>) -> (r: bool)
    requires
        i <= s@.len(),
    ensures
        r == (i + p@.len() <= s@.len() && s@.subrange(i as int, i + p@.len()) == p@),
{
    if s.len() - i < p.len() {
        return false;
    }
    let mut k: usize = 0;
    while k < p.len()
        invariant
            i + p@.len() <= s@.len(),
            s@.len() <= usize::MAX,
            k <= p@.len(),
            forall|j: int| 0 <= j < k ==> s@[i + j] == p@[j],
        decreases p@.len() - k,
    {
        if s[i + k] != p[k] {
            assert(s@.subrange(i as int, i + p@.len())[k as int] != p@[k as int]);
            return false;
        }
        k = k + 1;
    }
    assert(s@.subrange(i as int, i + p@.len()) =~= p@);
    true
}

/// Whether `s` starts with `p`.
pub fn starts_with(s: &str, p: &str) -> (r: bool)
    ensures
        r == (p@.len() <= s@.len() && s@.subrange(0, p@.len() as int) == p@),
{
    let cs = chars_of(s);
    let ps = chars_of(p);
    matches_at(&cs, 0, &ps)
}

/// Whether `s` ends with `p`.
pub fn ends_with(s: &str, p: &str) -> (r: bool)
    ensures
        r == (p@.len() <= s@.len() && s@.subrange(s@.len() - p@.len(), s@.len() as int) == p@),
{
    let cs = chars_of(s);
    let ps = chars_of(p);
    if cs.len() < ps.len() {
        return false;
    }
    matches_at(&cs, cs.len() - ps.len(), &ps)
}

/// `a` followed by `b`.
pub fn concat(a: &str, b: &str) -> (r: String)
    ensures
        r@ == a@ + b@,
{
    let mut r = own(a);
    r.append(b);
    r
}

/// `s` without its trailing `c`s.
pub open spec fn trim_end_char(s: Seq<char>, c: char) -> Seq<char>
    decreases s.len(),
{
    if s.len() > 0 && s.last() == c {
        trim_end_char(s.drop_last(), c)
    } else {
        s
    }
}

/// `s` without its trailing `c`s (`str::trim_end_matches`).
pub fn trim_end_matches<'a>(s: &'a str, c: char) -> (r: &'a str)
    ensures
        r@ == trim_end_char(s@, c),
{
    let cs = chars_of(s);
    let mut j = cs.len();
    proof {
        assert(s@.subrange(0, j as int) =~= s@);
    }
    while j > 0 && cs[j - 1] == c
        invariant
            cs@ == s@,
            j <= cs@.len(),
            trim_end_char(s@, c) == trim_end_char(s@.subrange(0, j as int), c),
        decreases j,
    {
        proof {
            assert(s@.subrange(0, j as int).drop_last() =~= s@.subrange(0, j - 1));
        }
        j = j - 1;
    }
    substring(s, 0, j)
}

/// The numeric value of a run of ASCII digits (`None` if another character occurs).
pub open spec fn digits_value(s: Seq<char>) -> Option<nat>
    decreases s.len(),
{
    if s.len() == 0 {
        Some(0)
    } else {
        match digits_value(s.drop_last()) {
            Some(v) => if '0' <= s.last() <= '9' {
                Some(v * 10 + (s.last() as nat - '0' as nat) as nat)
            } else {
                None
            },
            None => None,
        }
    }
}

/// What `str::parse::<u8>` accepts: an optional `+` followed by at least one
/// digit, with a value that fits in a `u8`.
pub open spec fn parse_u8_spec(s: Seq<char>) -> Option<u8> {
    if s.len() == 0 || (s.len() == 1 && (s[0] == '+' || s[0] == '-')) {
        None
    } else {
        let d = if s[0] == '+' { s.drop_first() } else { s };
        match digits_value(d) {
            Some(v) => if v <= 255 { Some(v as u8) } else { None },
            None => None,
        }
    }
}

/// A digit run's value only grows as digits are added.
pub proof fn lemma_digits_monotone(s: Seq<char>, k: int)
    requires
        0 <= k <= s.len(),
        digits_value(s) is Some,
    ensures
        digits_value(s.take(k)) is Some,
        digits_value(s.take(k))->0 <= digits_value(s)->0,
    decreases s.len(),
{
    if k < s.len() {
        assert(s.drop_last().take(k) =~= s.take(k));
        lemma_digits_monotone(s.drop_last(), k);
    } else {
        assert(s.take(k) =~= s);
    }
}

/// `str::parse::<u8>`.
pub fn parse_u8(s: &str) -> (r: Option<u8>)
    ensures
        r == parse_u8_spec(s@),
{
    let cs = chars_of(s);
    let n = cs.len();
    if n == 0 || (n == 1 && (cs[0] == '+' || cs[0] == '-')) {
        return None;
    }
    let start: usize = if cs[0] == '+' { 1 } else { 0 };
    let ghost d = if s@[0] == '+' { s@.drop_first() } else { s@ };
    proof {
        assert(d =~= s@.subrange(start as int, n as int));
    }
    let mut v: u32 = 0;
    let mut i = start;
    proof {
        assert(d.take(0) =~= Seq::<char>::empty());
    }
    while i < n
        invariant
            cs@ == s@,
            n == s@.len(),
            start <= i <= n,
            d == s@.subrange(start as int, n as int),
            d == (if s@[0] == '+' { s@.drop_first() } else { s@ }),
            !(s@.len() == 0 || (s@.len() == 1 && (s@[0] == '+' || s@[0] == '-'))),
            digits_value(d.take(i - start)) == Some(v as nat),
            v <= 255,
        decreases n - i,
    {
        let c = cs[i];
        proof {
            assert(d.take(i - start + 1).drop_last() =~= d.take(i - start));
            assert(d.take(i - start + 1).last() == c);
        }
        if !('0' <= c && c <= '9') {
            proof {
                let k = i - start + 1;
                assert(digits_value(d.take(k)) == match digits_value(d.take(k).drop_last()) {
                    Some(w) => if '0' <= d.take(k).last() <= '9' {
                        Some(w * 10 + (d.take(k).last() as nat - '0' as nat) as nat)
                    } else {
                        None
                    },
                    None => None,
                });
                assert(digits_value(d.take(i - start + 1)) is None);
                if digits_value(d) is Some {
                    lemma_digits_monotone(d, i - start + 1);
                }
                assert(digits_value(d) is None);
                assert(parse_u8_spec(s@) is None);
            }
            return None;
        }
        v = v * 10 + (c as u32 - '0' as u32);
        proof {
            let k = i - start + 1;
            assert(digits_value(d.take(k)) == match digits_value(d.take(k).drop_last()) {
                Some(w) => if '0' <= d.take(k).last() <= '9' {
                    Some(w * 10 + (d.take(k).last() as nat - '0' as nat) as nat)
                } else {
                    None
                },
                None => None,
            });
            assert(digits_value(d.take(k)) == Some(v as nat));
        }
        if v > 255 {
            proof {
                if digits_value(d) is Some {
                    lemma_digits_monotone(d, i - start + 1);
                    assert(digits_value(d)->0 > 255);
                }
                assert(parse_u8_spec(s@) is None);
            }
            return None;
        }
        i = i + 1;
    }
    proof {
        assert(d.take(n - start) =~= d);
    }
    Some(v as u8)
}

} // verus!
