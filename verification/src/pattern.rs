//! Regular-expression matching through the `regex` crate, and the verified
//! assembly of replacement text around the matches it reports.
//!
//! The matching itself is the `regex` crate's: its result is named by
//! `regex_matches` and only the facts that the crate documents are stated of
//! it. Everything built from the match positions is verified here.

use regex::Regex;
use vstd::prelude::*;
use vstd::utf8::*;

use crate::text::{boundary, enc, lemma_piece_all, lemma_piece_empty, lemma_piece_join, piece, slice_bytes};

verus! {

broadcast use group_utf8_lib;

/// A capture group's byte range in the haystack, when the group took part.
pub type Span = Option<(usize, usize)>;

/// The capture groups of one match (group 0 is the whole match).
pub type Caps = Seq<Option<(usize, usize)>>;

/// The capture groups of every successive non-overlapping match of `pattern`
/// in `haystack`, as computed by the `regex` crate (no match at all when the
/// pattern does not compile).
pub uninterp spec fn regex_matches(pattern: Seq<char>, haystack: Seq<char>) -> Seq<Seq<Option<(usize, usize)>>>;

pub open spec fn caps_view(v: Vec<Vec<Span>>) -> Seq<Caps> {
    v@.map_values(|c: Vec<Span>| c@)
}

/// A group's range lies inside the haystack, on character boundaries.
pub open spec fn span_ok(t: Seq<char>, s: Span) -> bool {
    match s {
        None => true,
        Some((a, b)) => a <= b && boundary(t, a as int) && boundary(t, b as int),
    }
}

/// Start of a group's range (0 when absent).
pub open spec fn lo(s: Span) -> int {
    match s {
        Some((a, _)) => a as int,
        None => 0,
    }
}

/// End of a group's range (0 when absent).
pub open spec fn hi(s: Span) -> int {
    match s {
        Some((_, b)) => b as int,
        None => 0,
    }
}

/// Start of the whole match (group 0).
pub open spec fn mstart(c: Caps) -> int {
    lo(c[0])
}

/// End of the whole match (group 0).
pub open spec fn mend(c: Caps) -> int {
    hi(c[0])
}

/// What the `regex` crate documents of the matches it reports: group 0 is
/// present, every group is a range on character boundaries, and matches are
/// successive and do not overlap.
pub open spec fn captures_ok(t: Seq<char>, m: Seq<Caps>) -> bool {
    &&& forall|k: int| 0 <= k < m.len() ==> #[trigger] m[k].len() >= 1 && m[k][0] is Some
    &&& forall|k: int, g: int|
        0 <= k < m.len() && 0 <= g < m[k].len() ==> span_ok(t, #[trigger] m[k][g])
    &&& forall|i: int, j: int|
        0 <= i < j < m.len() ==> mend(#[trigger] m[i]) <= mstart(#[trigger] m[j])
}

/// Runs `Regex::new(pattern)` and `Regex::captures_iter(haystack)`, reporting
/// each match's capture groups as byte ranges. The ranges are named by
/// `regex_matches`; the contract adds only what the crate documents: group 0
/// is present, `start <= end`, both fall on UTF-8 boundaries of the haystack,
/// and the matches are successive and non-overlapping. A pattern that does
/// not compile yields no matches.
#[verifier::external_body]
pub(crate) fn regex_captures_all(pattern: &str, haystack: &str) -> (r: Vec<Vec<Span>>)
    ensures
        caps_view(r) == regex_matches(pattern@, haystack@),
        captures_ok(haystack@, caps_view(r)),
{
    match Regex::new(pattern) {
        Ok(re) => re.captures_iter(haystack).map(
            |c| c.iter().map(|g| g.map(|m| (m.start(), m.end()))).collect(),
        ).collect(),
        Err(_) => Vec::new(),
    }
}

/// The text of group `g` of a match, or nothing when the group did not take part.
pub open spec fn group_text(t: Seq<char>, c: Caps, g: int) -> Seq<char> {
    if 0 <= g < c.len() && c[g] is Some {
        piece(t, lo(c[g]), hi(c[g]))
    } else {
        Seq::<char>::empty()
    }
}

/// Text of `t` from byte `pos` with match `k..` replaced by `repls[k..]`.
pub open spec fn splice_from(t: Seq<char>, m: Seq<Caps>, repls: Seq<Seq<char>>, k: int, pos: int) -> Seq<char>
    decreases m.len() - k,
{
    if k >= m.len() || k < 0 {
        piece(t, pos, enc(t).len() as int)
    } else {
        piece(t, pos, mstart(m[k])) + repls[k] + splice_from(t, m, repls, k + 1, mend(m[k]))
    }
}

/// `t` with every reported match replaced by the corresponding replacement.
pub open spec fn splice(t: Seq<char>, m: Seq<Caps>, repls: Seq<Seq<char>>) -> Seq<char> {
    splice_from(t, m, repls, 0, 0)
}

proof fn lemma_splice_own_text(t: Seq<char>, m: Seq<Caps>, k: int, pos: int)
    requires
        captures_ok(t, m),
        0 <= k <= m.len(),
        boundary(t, pos),
        k < m.len() ==> pos <= mstart(m[k]),
        pos <= enc(t).len(),
    ensures
        splice_from(t, m, m.map_values(|c: Caps| group_text(t, c, 0)), k, pos) == piece(t, pos, enc(t).len() as int),
    decreases m.len() - k,
{
    let repls = m.map_values(|c: Caps| group_text(t, c, 0));
    lemma_piece_all(t);
    if k < m.len() {
        assert(span_ok(t, m[k][0]));
        assert(repls[k] == piece(t, mstart(m[k]), mend(m[k])));
        if k + 1 < m.len() {
            assert(mend(m[k]) <= mstart(m[k + 1]));
        }
        lemma_splice_own_text(t, m, k + 1, mend(m[k]));
        lemma_piece_join(t, pos, mstart(m[k]), mend(m[k]));
        lemma_piece_join(t, pos, mend(m[k]), enc(t).len() as int);
    }
}

/// Replacing every reported match by its own text gives the text back: the
/// gaps and matches reassemble the haystack exactly.
pub proof fn law_splice_identity(pattern: Seq<char>, t: Seq<char>)
    requires
        captures_ok(t, regex_matches(pattern, t)),
    ensures
        ({
            let m = regex_matches(pattern, t);
            splice(t, m, m.map_values(|c: Caps| group_text(t, c, 0))) == t
        }),
{
    let m = regex_matches(pattern, t);
    lemma_piece_all(t);
    lemma_splice_own_text(t, m, 0, 0);
}

/// A pattern that does not match leaves the text unchanged.
pub proof fn law_no_match_no_change(pattern: Seq<char>, t: Seq<char>, tpl: Seq<PartV>)
    requires
        regex_matches(pattern, t).len() == 0,
    ensures
        replace_all_spec(pattern, t, tpl) == t,
        replace_first_spec(pattern, t, tpl) == t,
{
    lemma_piece_all(t);
}

/// `x` occurs in `s` as a contiguous piece.
pub open spec fn holds_text(s: Seq<char>, x: Seq<char>) -> bool {
    exists|i: int| 0 <= i && i + x.len() <= s.len() && #[trigger] s.subrange(i, i + x.len()) == x
}

proof fn lemma_holds_middle(a: Seq<char>, x: Seq<char>, b: Seq<char>)
    ensures
        holds_text(a + x + b, x),
{
    let s = a + x + b;
    assert(s.subrange(a.len() as int, (a.len() + x.len()) as int) =~= x);
}

proof fn lemma_holds_after(a: Seq<char>, s: Seq<char>, x: Seq<char>)
    requires
        holds_text(s, x),
    ensures
        holds_text(a + s, x),
{
    let i = choose|i: int| 0 <= i && i + x.len() <= s.len() && #[trigger] s.subrange(i, i + x.len()) == x;
    assert((a + s).subrange(a.len() + i, a.len() + i + x.len()) =~= s.subrange(i, i + x.len()));
}

proof fn lemma_splice_from_holds(t: Seq<char>, m: Seq<Caps>, repls: Seq<Seq<char>>, j: int, pos: int, k: int)
    requires
        0 <= j <= k < m.len(),
    ensures
        holds_text(splice_from(t, m, repls, j, pos), repls[k]),
    decreases k - j,
{
    let head = piece(t, pos, mstart(m[j]));
    let rest = splice_from(t, m, repls, j + 1, mend(m[j]));
    if j == k {
        lemma_holds_middle(head, repls[k], rest);
    } else {
        lemma_splice_from_holds(t, m, repls, j + 1, mend(m[j]), k);
        lemma_holds_after(head + repls[j], rest, repls[k]);
    }
}

/// Every replacement ends up in the spliced text: none of the matches is
/// left out.
pub proof fn law_splice_holds_each(t: Seq<char>, m: Seq<Caps>, repls: Seq<Seq<char>>)
    ensures
        forall|k: int| 0 <= k < m.len() ==> holds_text(splice(t, m, repls), #[trigger] repls[k]),
{
    assert forall|k: int| 0 <= k < m.len() implies holds_text(splice(t, m, repls), #[trigger] repls[k]) by {
        lemma_splice_from_holds(t, m, repls, 0, 0, k);
    }
}

/// Append `s` to `out`.
pub fn push_str(out: &mut String, s: &str)
    ensures
        final(out)@ == old(out)@ + s@,
{
    out.append(s);
}

/// The text of group `g` of a match.
pub fn group_str<'a>(t: &'a str, c: &Vec<Span>, g: usize) -> (r: &'a str)
    requires
        forall|i: int| 0 <= i < c@.len() ==> span_ok(t@, #[trigger] c@[i]),
    ensures
        r@ == group_text(t@, c@, g as int),
{
    if g < c.len() {
        match c[g] {
            Some((a, b)) => slice_bytes(t, a, b),
            None => {
                proof { lemma_piece_empty(t@, 0); lemma_piece_all(t@); }
                slice_bytes(t, 0, 0)
            },
        }
    } else {
        proof { lemma_piece_empty(t@, 0); lemma_piece_all(t@); }
        slice_bytes(t, 0, 0)
    }
}

/// `t` with every match in `m` replaced by `repls` (one per match).
pub fn splice_matches(t: &str, m: &Vec<Vec<Span>>, repls: &Vec<String>) -> (r: String)
    requires
        captures_ok(t@, caps_view(*m)),
        repls@.len() == m@.len(),
    ensures
        r@ == splice(t@, caps_view(*m), repls@.map_values(|s: String| s@)),
{
    let ghost mv = caps_view(*m);
    let ghost rv = repls@.map_values(|s: String| s@);
    let mut out = String::new();
    let mut pos: usize = 0;
    let mut k: usize = 0;
    proof { lemma_piece_all(t@); }
    while k < m.len()
        invariant
            mv == caps_view(*m),
            rv == repls@.map_values(|s: String| s@),
            captures_ok(t@, mv),
            repls@.len() == m@.len(),
            k <= m@.len(),
            boundary(t@, pos as int),
            k < m@.len() ==> pos <= mstart(mv[k as int]),
            pos <= enc(t@).len(),
            out@ + splice_from(t@, mv, rv, k as int, pos as int) == splice(t@, mv, rv),
        decreases m@.len() - k,
    {
        assert(mv[k as int] == m@[k as int]@);
        assert(span_ok(t@, mv[k as int][0]));
        let (s, e) = m[k][0].unwrap();
        let gap = slice_bytes(t, pos, s);
        push_str(&mut out, gap);
        push_str(&mut out, repls[k].as_str());
        proof {
            assert(rv[k as int] == repls@[k as int]@);
            if k + 1 < m@.len() {
                assert(mend(mv[k as int]) <= mstart(mv[k + 1]));
            }
        }
        pos = e;
        k = k + 1;
    }
    let tail = slice_bytes(t, pos, t.as_bytes().len());
    push_str(&mut out, tail);
    out
}

/// One piece of a replacement template: literal text or a capture group.
pub enum Part {
    Lit(String),
    Group(usize),
}

/// Specification view of a template piece.
pub enum PartV {
    Lit(Seq<char>),
    Group(usize),
}

impl View for Part {
    type V = PartV;

    open spec fn view(&self) -> PartV {
        match self {
            Part::Lit(s) => PartV::Lit(s@),
            Part::Group(g) => PartV::Group(*g),
        }
    }
}

pub open spec fn tpl_view(parts: Seq<Part>) -> Seq<PartV> {
    parts.map_values(|p: Part| p@)
}

/// The text one template piece stands for in a match.
pub open spec fn part_text(t: Seq<char>, c: Caps, p: PartV) -> Seq<char> {
    match p {
        PartV::Lit(s) => s,
        PartV::Group(g) => group_text(t, c, g as int),
    }
}

/// A template expanded for one match: its pieces' texts, in order.
pub open spec fn expand(t: Seq<char>, c: Caps, tpl: Seq<PartV>) -> Seq<char>
    decreases tpl.len(),
{
    if tpl.len() == 0 {
        Seq::<char>::empty()
    } else {
        expand(t, c, tpl.drop_last()) + part_text(t, c, tpl.last())
    }
}

/// Every match of `pattern` in `t` replaced by the template expanded for it.
pub open spec fn replace_all_spec(pattern: Seq<char>, t: Seq<char>, tpl: Seq<PartV>) -> Seq<char> {
    let m = regex_matches(pattern, t);
    splice(t, m, m.map_values(|c: Caps| expand(t, c, tpl)))
}

/// The first match of `pattern` in `t` (if any) replaced by the template.
pub open spec fn replace_first_spec(pattern: Seq<char>, t: Seq<char>, tpl: Seq<PartV>) -> Seq<char> {
    let m = regex_matches(pattern, t);
    let f = if m.len() == 0 { m } else { m.take(1) };
    splice(t, f, f.map_values(|c: Caps| expand(t, c, tpl)))
}

/// A template expanded for one match.
pub fn expand_template(t: &str, c: &Vec<Span>, tpl: &Vec<Part>) -> (r: String)
    requires
        forall|i: int| 0 <= i < c@.len() ==> span_ok(t@, #[trigger] c@[i]),
    ensures
        r@ == expand(t@, c@, tpl_view(tpl@)),
{
    let mut out = String::new();
    let mut i: usize = 0;
    while i < tpl.len()
        invariant
            i <= tpl@.len(),
            forall|j: int| 0 <= j < c@.len() ==> span_ok(t@, #[trigger] c@[j]),
            out@ == expand(t@, c@, tpl_view(tpl@).take(i as int)),
        decreases tpl@.len() - i,
    {
        match &tpl[i] {
            Part::Lit(s) => push_str(&mut out, s.as_str()),
            Part::Group(g) => push_str(&mut out, group_str(t, c, *g)),
        }
        proof {
            let tv = tpl_view(tpl@);
            assert(tv.take(i + 1).drop_last() =~= tv.take(i as int));
            assert(tv.take(i + 1).last() == tpl@[i as int]@);
        }
        i = i + 1;
    }
    proof {
        assert(tpl_view(tpl@).take(tpl@.len() as int) =~= tpl_view(tpl@));
    }
    out
}

/// The replacements for the first `n` matches of `m`.
fn expand_each(t: &str, m: &Vec<Vec<Span>>, n: usize, tpl: &Vec<Part>) -> (r: Vec<String>)
    requires
        n <= m@.len(),
        captures_ok(t@, caps_view(*m)),
    ensures
        r@.len() == n,
        forall|k: int| 0 <= k < n ==> (#[trigger] r@[k])@ == expand(t@, m@[k]@, tpl_view(tpl@)),
{
    let mut r: Vec<String> = Vec::new();
    let mut k: usize = 0;
    while k < n
        invariant
            k <= n <= m@.len(),
            captures_ok(t@, caps_view(*m)),
            r@.len() == k,
            forall|j: int| 0 <= j < k ==> (#[trigger] r@[j])@ == expand(t@, m@[j]@, tpl_view(tpl@)),
        decreases n - k,
    {
        proof {
            assert(caps_view(*m)[k as int] == m@[k as int]@);
            assert forall|i: int| 0 <= i < m@[k as int]@.len() implies span_ok(t@, #[trigger] m@[k as int]@[i]) by {
                assert(caps_view(*m)[k as int][i] == m@[k as int]@[i]);
            }
        }
        let e = expand_template(t, &m[k], tpl);
        r.push(e);
        k = k + 1;
    }
    r
}

/// Every match of `pattern` in `t` replaced by the template expanded for it
/// (what `Regex::replace_all` does with a replacement template).
pub fn replace_all(pattern: &str, t: &str, tpl: &Vec<Part>) -> (r: String)
    ensures
        r@ == replace_all_spec(pattern@, t@, tpl_view(tpl@)),
{
    let m = regex_captures_all(pattern, t);
    let repls = expand_each(t, &m, m.len(), tpl);
    let r = splice_matches(t, &m, &repls);
    proof {
        let mv = regex_matches(pattern@, t@);
        assert(repls@.map_values(|s: String| s@) =~= mv.map_values(|c: Caps| expand(t@, c, tpl_view(tpl@))));
    }
    r
}

/// The first match of `pattern` in `t` replaced by the template expanded for
/// it (what `Regex::replace` does with a replacement template).
pub fn replace_first(pattern: &str, t: &str, tpl: &Vec<Part>) -> (r: String)
    ensures
        r@ == replace_first_spec(pattern@, t@, tpl_view(tpl@)),
{
    let mut m = regex_captures_all(pattern, t);
    let ghost mv = regex_matches(pattern@, t@);
    m.truncate(1);
    proof {
        let f = if mv.len() == 0 { mv } else { mv.take(1) };
        assert(caps_view(m) =~= f);
    }
    let repls = expand_each(t, &m, m.len(), tpl);
    let r = splice_matches(t, &m, &repls);
    proof {
        let f = if mv.len() == 0 { mv } else { mv.take(1) };
        assert(repls@.map_values(|s: String| s@) =~= f.map_values(|c: Caps| expand(t@, c, tpl_view(tpl@))));
    }
    r
}

} // verus!
