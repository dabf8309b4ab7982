//! Locating the `</div>` that closes a `<div>` block, by counting nesting.

use vstd::prelude::*;
use vstd::utf8::*;

use crate::pattern::{captures_ok, caps_view, mend, mstart, push_str, regex_captures_all, regex_matches, Caps, Span};
use crate::text::{boundary, enc, lemma_after_ascii, lemma_piece_all, piece, slice_bytes};

verus! {

broadcast use group_utf8_lib;

/// `</div>` starts at byte `i`.
pub open spec fn close_div_at(b: Seq<u8>, i: int) -> bool {
    0 <= i && i + 6 <= b.len() && b[i] == 60 && b[i + 1] == 47 && b[i + 2] == 100 && b[i + 3] == 105
        && b[i + 4] == 118 && b[i + 5] == 62
}

/// `<div` starts at byte `i`.
pub open spec fn div_prefix_at(b: Seq<u8>, i: int) -> bool {
    0 <= i && i + 4 <= b.len() && b[i] == 60 && b[i + 1] == 100 && b[i + 2] == 105 && b[i + 3] == 118
}

/// A byte that may follow `<div` in a div tag: space, `>`, `/`, newline, CR or tab.
pub open spec fn tag_delim(c: u8) -> bool {
    c == 32 || c == 62 || c == 47 || c == 10 || c == 13 || c == 9
}

/// The first `>` at or after byte `i`.
pub open spec fn find_gt(b: Seq<u8>, i: int) -> Option<int>
    decreases b.len() - i,
{
    if i < 0 || i >= b.len() {
        None
    } else if b[i] == 62 {
        Some(i)
    } else {
        find_gt(b, i + 1)
    }
}

/// A `<div` tag opens at byte `i` (and is not self-closing): it is followed by
/// a delimiter, has a closing `>`, and the tag does not end in `/>`.
pub open spec fn opens_div_at(b: Seq<u8>, i: int) -> bool {
    &&& div_prefix_at(b, i)
    &&& i + 4 < b.len() && tag_delim(b[i + 4])
    &&& match find_gt(b, i) {
        Some(c) => !(c >= i + 1 && b[c - 1] == 47),
        None => false,
    }
}

/// Scanning from byte `i` with `depth` open divs: the position right after the
/// `</div>` that brings the depth to zero.
pub open spec fn close_div_from(b: Seq<u8>, i: int, depth: int) -> Option<int>
    decreases b.len() - i,
{
    if i < 0 || i >= b.len() || depth <= 0 {
        None
    } else if close_div_at(b, i) {
        if depth == 1 {
            Some(i + 6)
        } else {
            close_div_from(b, i + 6, depth - 1)
        }
    } else if opens_div_at(b, i) {
        close_div_from(b, i + 1, depth + 1)
    } else {
        close_div_from(b, i + 1, depth)
    }
}

/// Every result of the scan ends right after a `</div>`.
pub proof fn lemma_close_div_result(b: Seq<u8>, i: int, depth: int)
    ensures
        close_div_from(b, i, depth) matches Some(p) ==> 6 <= p <= b.len() && close_div_at(b, p - 6)
            && p > i,
    decreases b.len() - i,
{
    if i < 0 || i >= b.len() || depth <= 0 {
    } else if close_div_at(b, i) {
        if depth != 1 {
            lemma_close_div_result(b, i + 6, depth - 1);
        }
    } else if opens_div_at(b, i) {
        lemma_close_div_result(b, i + 1, depth + 1);
    } else {
        lemma_close_div_result(b, i + 1, depth);
    }
}

/// The number of div-opening tags (as `opens_div_at` counts them) that
/// start in bytes `a..i`.
pub open spec fn opens_in(b: Seq<u8>, a: int, i: int) -> int
    decreases i - a,
{
    if i <= a {
        0
    } else {
        opens_in(b, a, i - 1) + if opens_div_at(b, i - 1) { 1int } else { 0int }
    }
}

/// The number of `</div>` tags that start in bytes `a..i`.
pub open spec fn closes_in(b: Seq<u8>, a: int, i: int) -> int
    decreases i - a,
{
    if i <= a {
        0
    } else {
        closes_in(b, a, i - 1) + if close_div_at(b, i - 1) { 1int } else { 0int }
    }
}

/// No prefix of bytes `a..q`, for `q` up to `i`, closes more divs than it opens.
pub open spec fn never_over_closed(b: Seq<u8>, a: int, i: int) -> bool {
    forall|q: int| a <= q <= i ==> #[trigger] closes_in(b, a, q) <= opens_in(b, a, q)
}

/// Bytes `a..p` are balanced and a `</div>` starts at `p`: it closes the
/// block whose content starts at `a`.
pub open spec fn closes_block_at(b: Seq<u8>, a: int, p: int) -> bool {
    &&& a <= p
    &&& close_div_at(b, p)
    &&& closes_in(b, a, p) == opens_in(b, a, p)
    &&& never_over_closed(b, a, p)
}

proof fn lemma_scan_balanced(b: Seq<u8>, a: int, i: int, depth: int)
    requires
        0 <= a <= i,
        depth == 1 + opens_in(b, a, i) - closes_in(b, a, i),
        depth >= 1,
        never_over_closed(b, a, i),
        forall|p: int| a <= p < i ==> !closes_block_at(b, a, p),
    ensures
        close_div_from(b, i, depth) matches Some(e) ==> closes_block_at(b, a, e - 6) && forall|p: int|
            a <= p < e - 6 ==> !closes_block_at(b, a, p),
        close_div_from(b, i, depth) is None ==> forall|p: int| !closes_block_at(b, a, p),
    decreases b.len() - i,
{
    if i >= b.len() {
        assert forall|p: int| !closes_block_at(b, a, p) by {
            if p >= i && closes_block_at(b, a, p) {
                assert(close_div_at(b, p));
            }
        }
    } else if close_div_at(b, i) {
        assert(!opens_div_at(b, i));
        assert(closes_in(b, a, i + 1) == closes_in(b, a, i) + 1);
        assert(opens_in(b, a, i + 1) == opens_in(b, a, i));
        if depth == 1 {
            assert(closes_block_at(b, a, i));
        } else {
            assert forall|k: int| i + 1 <= k < i + 6 implies !close_div_at(b, k) && !opens_div_at(b, k) by {
                assert(b[k] != 60);
            }
            assert(closes_in(b, a, i + 2) == closes_in(b, a, i + 1) && opens_in(b, a, i + 2) == opens_in(b, a, i + 1));
            assert(closes_in(b, a, i + 3) == closes_in(b, a, i + 2) && opens_in(b, a, i + 3) == opens_in(b, a, i + 2));
            assert(closes_in(b, a, i + 4) == closes_in(b, a, i + 3) && opens_in(b, a, i + 4) == opens_in(b, a, i + 3));
            assert(closes_in(b, a, i + 5) == closes_in(b, a, i + 4) && opens_in(b, a, i + 5) == opens_in(b, a, i + 4));
            assert(closes_in(b, a, i + 6) == closes_in(b, a, i + 5) && opens_in(b, a, i + 6) == opens_in(b, a, i + 5));
            assert(never_over_closed(b, a, i + 6)) by {
                assert forall|q: int| a <= q <= i + 6 implies #[trigger] closes_in(b, a, q) <= opens_in(b, a, q) by {
                    if q > i {
                        assert(q == i + 1 || q == i + 2 || q == i + 3 || q == i + 4 || q == i + 5 || q == i + 6);
                    }
                }
            }
            assert forall|p: int| a <= p < i + 6 implies !closes_block_at(b, a, p) by {
                if p > i {
                    assert(!close_div_at(b, p));
                }
            }
            lemma_scan_balanced(b, a, i + 6, depth - 1);
        }
    } else {
        let d2 = if opens_div_at(b, i) { depth + 1 } else { depth };
        assert(closes_in(b, a, i + 1) == closes_in(b, a, i));
        assert(opens_in(b, a, i + 1) == opens_in(b, a, i) + if opens_div_at(b, i) { 1int } else { 0int });
        assert(never_over_closed(b, a, i + 1)) by {
            assert forall|q: int| a <= q <= i + 1 implies #[trigger] closes_in(b, a, q) <= opens_in(b, a, q) by {
                if q == i + 1 {
                }
            }
        }
        lemma_scan_balanced(b, a, i + 1, d2);
    }
}

/// The scan that finds a block's closing tag finds the first `</div>` at
/// which the block's contents are balanced: the contents hold as many
/// `</div>` tags as counted `<div` tags and no prefix of them closes more
/// than it opens. When there is no such `</div>` the scan finds nothing.
pub proof fn law_close_div_is_first_balanced(b: Seq<u8>, a: int)
    requires
        0 <= a,
    ensures
        close_div_from(b, a, 1) matches Some(e) ==> closes_block_at(b, a, e - 6) && forall|p: int|
            a <= p < e - 6 ==> !closes_block_at(b, a, p),
        close_div_from(b, a, 1) is None ==> forall|p: int| !closes_block_at(b, a, p),
{
    assert(never_over_closed(b, a, a)) by {
        assert forall|q: int| a <= q <= a implies #[trigger] closes_in(b, a, q) <= opens_in(b, a, q) by {
            assert(q == a);
        }
    }
    lemma_scan_balanced(b, a, a, 1);
}

/// The first `>` at or after byte `i`, found by scanning.
fn find_gt_from(b: &[u8], i: usize) -> (r: Option<usize>)
    ensures
        r matches Some(c) ==> find_gt(b@, i as int) == Some(c as int) && i <= c < b@.len(),
        r is None ==> find_gt(b@, i as int) is None,
{
    let mut j = i;
    while j < b.len()
        invariant
            i <= j,
            find_gt(b@, i as int) == find_gt(b@, j as int),
        decreases b@.len() - j,
    {
        if b[j] == 62 {
            return Some(j);
        }
        j = j + 1;
    }
    None
}

/// The position immediately after the `</div>` that closes a `<div>` whose
/// content starts at byte `content_start`, counting nested (non-self-closing)
/// `<div` tags; `None` when the block is never closed.
pub fn find_matching_close_div(html: &str, content_start: usize) -> (r: Option<usize>)
    ensures
        r matches Some(p) ==> Some(p as int) == close_div_from(enc(html@), content_start as int, 1),
        r is None ==> close_div_from(enc(html@), content_start as int, 1) is None,
        r matches Some(p) ==> 6 <= p <= enc(html@).len() && close_div_at(enc(html@), p - 6)
            && boundary(html@, p as int) && p > content_start,
        r matches Some(p) ==> closes_block_at(enc(html@), content_start as int, p - 6) && forall|q: int|
            content_start <= q < p - 6 ==> !closes_block_at(enc(html@), content_start as int, q),
        r is None ==> forall|q: int| !closes_block_at(enc(html@), content_start as int, q),
{
    proof {
        law_close_div_is_first_balanced(enc(html@), content_start as int);
    }
    let b = html.as_bytes();
    let ghost bs = enc(html@);
    assert(b@ == bs);
    let mut depth: usize = 1;
    let mut i = content_start;
    proof {
        lemma_close_div_result(bs, content_start as int, 1);
    }
    while i < b.len()
        invariant
            b@ == bs,
            bs == enc(html@),
            content_start <= i,
            1 <= depth <= i + 1,
            close_div_from(bs, i as int, depth as int) == close_div_from(bs, content_start as int, 1),
        decreases b@.len() - i,
    {
        if b[i] == 60 {
            if b.len() - i >= 6 && b[i + 1] == 47 && b[i + 2] == 100 && b[i + 3] == 105 && b[i + 4]
                == 118 && b[i + 5] == 62 {
                if depth == 1 {
                    proof {
                        encode_utf8_valid_utf8(html@);
                        lemma_after_ascii(bs, i + 6);
                        assert(close_div_from(bs, content_start as int, 1) == Some(i + 6));
                        law_close_div_is_first_balanced(bs, content_start as int);
                    }
                    return Some(i + 6);
                }
                depth = depth - 1;
                i = i + 6;
                continue ;
            }
            if b.len() - i > 4 && b[i + 1] == 100 && b[i + 2] == 105 && b[i + 3] == 118 {
                let after = b[i + 4];
                if after == 32 || after == 62 || after == 47 || after == 10 || after == 13 || after
                    == 9 {
                    match find_gt_from(b, i) {
                        Some(c) => {
                            if !(c >= i + 1 && b[c - 1] == 47) {
                                depth = depth + 1;
                            }
                        },
                        None => {},
                    }
                }
            }
        }
        i = i + 1;
    }
    None
}

/// `t` with bytes `s..e` replaced by `r`.
pub open spec fn edit(t: Seq<char>, s: int, e: int, r: Seq<char>) -> Seq<char> {
    piece(t, 0, s) + r + piece(t, e, enc(t).len() as int)
}

/// The first block opened by a match of `pattern` in `t`: where the match
/// starts, where its closing `</div>` ends, and the match's groups.
pub open spec fn locate_spec(pattern: Seq<char>, t: Seq<char>) -> Option<(int, int, Caps)> {
    let m = regex_matches(pattern, t);
    if m.len() == 0 {
        None
    } else {
        match close_div_from(enc(t), mend(m[0]), 1) {
            Some(e) => Some((mstart(m[0]), e, m[0])),
            None => None,
        }
    }
}

/// Apply `step` repeatedly to a state, at most `fuel` times, until it
/// reports nothing left to do.
pub open spec fn rounds<T>(step: spec_fn(T) -> Option<T>, t: T, fuel: nat) -> T
    decreases fuel,
{
    if fuel == 0 {
        t
    } else {
        match step(t) {
            Some(n) => rounds(step, n, (fuel - 1) as nat),
            None => t,
        }
    }
}

/// `step` has something to do in each of `n` successive rounds from `t`.
pub open spec fn always_steps<T>(step: spec_fn(T) -> Option<T>, t: T, n: nat) -> bool
    decreases n,
{
    n == 0 || match step(t) {
        Some(x) => always_steps(step, x, (n - 1) as nat),
        None => false,
    }
}

/// Repeating a step ends where the step has nothing left to do, unless it
/// did something in every one of the `fuel` rounds allowed.
pub proof fn law_rounds_reach_fixed_point<T>(step: spec_fn(T) -> Option<T>, t: T, fuel: nat)
    ensures
        step(rounds(step, t, fuel)) is None || always_steps(step, t, fuel),
    decreases fuel,
{
    if fuel > 0 {
        match step(t) {
            Some(x) => law_rounds_reach_fixed_point(step, x, (fuel - 1) as nat),
            None => {},
        }
    }
}

/// Find the first match of `pattern` in `t` and the `</div>` that closes the
/// block it opens.
pub fn locate_block(pattern: &str, t: &str) -> (r: Option<(usize, usize, Vec<Span>)>)
    ensures
        r is None ==> locate_spec(pattern@, t@) is None,
        r matches Some((s, e, c)) ==> locate_spec(pattern@, t@) == Some((s as int, e as int, c@))
            && s <= e && boundary(t@, s as int) && boundary(t@, e as int)
            && forall|i: int| 0 <= i < c@.len() ==> crate::pattern::span_ok(t@, #[trigger] c@[i]),
{
    let mut m = regex_captures_all(pattern, t);
    if m.len() == 0 {
        return None;
    }
    proof {
        assert(caps_view(m)[0] == m@[0]@);
        assert(crate::pattern::span_ok(t@, caps_view(m)[0][0]));
        assert forall|i: int| 0 <= i < m@[0]@.len() implies crate::pattern::span_ok(t@, #[trigger] m@[0]@[i]) by {
            assert(caps_view(m)[0][i] == m@[0]@[i]);
        }
    }
    let (s, e0) = m[0][0].unwrap();
    match find_matching_close_div(t, e0) {
        None => None,
        Some(e) => {
            let c = m.swap_remove(0);
            Some((s, e, c))
        },
    }
}

/// Index of the first match, from the `k`-th on, that starts at or after
/// byte `pos`.
pub open spec fn first_from(m: Seq<Caps>, pos: int, k: int) -> Option<int>
    decreases m.len() - k,
{
    if k < 0 || k >= m.len() {
        None
    } else if mstart(m[k]) >= pos {
        Some(k)
    } else {
        first_from(m, pos, k + 1)
    }
}

/// The first block opened by a match of `pattern` that starts at or after
/// byte `pos` of `t`: where the match starts, where its closing `</div>`
/// ends, and the match's groups.
pub open spec fn locate_from(pattern: Seq<char>, t: Seq<char>, pos: int) -> Option<(int, int, Caps)> {
    let m = regex_matches(pattern, t);
    match first_from(m, pos, 0) {
        None => None,
        Some(k) => match close_div_from(enc(t), mend(m[k]), 1) {
            Some(e) => Some((mstart(m[k]), e, m[k])),
            None => None,
        },
    }
}

/// The first reported match that starts at or after byte `pos`.
fn first_from_exec(m: &Vec<Vec<Span>>, pos: usize, Ghost(t): Ghost<Seq<char>>) -> (r: Option<usize>)
    requires
        captures_ok(t, caps_view(*m)),
    ensures
        r is None ==> first_from(caps_view(*m), pos as int, 0) is None,
        r matches Some(k) ==> first_from(caps_view(*m), pos as int, 0) == Some(k as int) && k < m@.len(),
{
    let ghost mv = caps_view(*m);
    let mut k: usize = 0;
    while k < m.len()
        invariant
            mv == caps_view(*m),
            captures_ok(t, mv),
            k <= m@.len(),
            first_from(mv, pos as int, 0) == first_from(mv, pos as int, k as int),
        decreases m@.len() - k,
    {
        proof {
            assert(mv[k as int] == m@[k as int]@);
            assert(mv[k as int][0] is Some);
        }
        let s = match m[k][0] {
            Some((a, _)) => a,
            None => 0,
        };
        if s >= pos {
            return Some(k);
        }
        k = k + 1;
    }
    None
}

/// Find the first match of `pattern` that starts at or after byte `pos` of
/// `t`, and the `</div>` that closes the block it opens.
pub fn locate_block_from(pattern: &str, t: &str, pos: usize) -> (r: Option<(usize, usize, Vec<Span>)>)
    ensures
        r is None ==> locate_from(pattern@, t@, pos as int) is None,
        r matches Some((s, e, c)) ==> locate_from(pattern@, t@, pos as int) == Some((s as int, e as int, c@))
            && s <= e && boundary(t@, s as int) && boundary(t@, e as int)
            && c@.len() >= 1 && c@[0] is Some
            && forall|i: int| 0 <= i < c@.len() ==> crate::pattern::span_ok(t@, #[trigger] c@[i]),
{
    let mut m = regex_captures_all(pattern, t);
    match first_from_exec(&m, pos, Ghost(t@)) {
        None => None,
        Some(k) => {
            proof {
                assert(caps_view(m)[k as int] == m@[k as int]@);
                assert(crate::pattern::span_ok(t@, caps_view(m)[k as int][0]));
                assert forall|i: int| 0 <= i < m@[k as int]@.len() implies crate::pattern::span_ok(t@, #[trigger] m@[k as int]@[i]) by {
                    assert(caps_view(m)[k as int][i] == m@[k as int]@[i]);
                }
            }
            let (s, e0) = m[k][0].unwrap();
            match find_matching_close_div(t, e0) {
                None => None,
                Some(e) => {
                    let c = m.swap_remove(k);
                    Some((s, e, c))
                },
            }
        },
    }
}

/// `t` with bytes `s..e` replaced by `r`.
pub fn edit_range(t: &str, s: usize, e: usize, r: &str) -> (out: String)
    requires
        s <= e <= enc(t@).len(),
        boundary(t@, s as int),
        boundary(t@, e as int),
    ensures
        out@ == edit(t@, s as int, e as int, r@),
{
    proof {
        lemma_piece_all(t@);
    }
    let mut out = String::new();
    push_str(&mut out, slice_bytes(t, 0, s));
    push_str(&mut out, r);
    push_str(&mut out, slice_bytes(t, e, t.as_bytes().len()));
    out
}

} // verus!
