//! Rewriting of link targets for directory-URL routing.

use vstd::prelude::*;

use crate::html::HtmlProcessor;
use crate::paths::{
    clean_path, file_stem, file_stem_spec, normalize_path, normalize_spec, parent_path, parent_spec,
    relative_path, relative_spec,
};
use crate::pattern::{
    caps_view, captures_ok, holds_text, law_splice_holds_each, group_str, group_text, push_str, regex_captures_all, regex_matches,
    span_ok, splice, splice_matches, Caps, Span,
};
use crate::text::{
    chars_of, concat, ends_with, find_char_from, find_spec, lemma_find_from_range, own, starts_with,
    str_eq, substring, trim_end_char, trim_end_matches,
};

verus! {

/// `s` starts with `p`.
pub open spec fn has_prefix(s: Seq<char>, p: Seq<char>) -> bool {
    p.len() <= s.len() && s.subrange(0, p.len() as int) == p
}

/// `s` ends with `p`.
pub open spec fn has_suffix(s: Seq<char>, p: Seq<char>) -> bool {
    p.len() <= s.len() && s.subrange(s.len() - p.len(), s.len() as int) == p
}

/// A fragment-only link or an absolute (`http`, `https`, `mailto`, `tel`) URL.
pub open spec fn is_external(h: Seq<char>) -> bool {
    has_prefix(h, "#"@) || has_prefix(h, "http://"@) || has_prefix(h, "https://"@) || has_prefix(
        h,
        "mailto:"@,
    ) || has_prefix(h, "tel:"@)
}

/// `s` split at its first `c`: what precedes it, and what follows it if present.
pub open spec fn split_first(s: Seq<char>, c: char) -> (Seq<char>, Option<Seq<char>>) {
    let i = find_spec(s, c);
    if i >= 0 {
        (s.subrange(0, i), Some(s.subrange(i + 1, s.len() as int)))
    } else {
        (s, None)
    }
}

/// `p` without the last `n` characters, followed by `/`.
pub open spec fn cut_slash(p: Seq<char>, n: int) -> Seq<char> {
    p.subrange(0, p.len() - n).push('/')
}

/// A page path with its `/index.html`, `.html` or `.adoc` ending turned into `/`.
pub open spec fn strip_ext(p: Seq<char>) -> Seq<char> {
    if has_suffix(p, "/index.html"@) {
        cut_slash(p, 11)
    } else if has_suffix(p, ".html"@) {
        cut_slash(p, 5)
    } else if has_suffix(p, ".adoc"@) {
        cut_slash(p, 5)
    } else {
        p
    }
}

/// `s`, followed by `/` when `want` holds and `s` does not already end with one.
pub open spec fn with_slash(s: Seq<char>, want: bool) -> Seq<char> {
    if want && !has_suffix(s, "/"@) {
        s.push('/')
    } else {
        s
    }
}

/// The directory URL under which page `prp` is served.
pub open spec fn page_url_dir(prp: Seq<char>) -> Seq<char> {
    let src_dir = parent_spec(prp);
    let stem = file_stem_spec(prp);
    if stem == "index"@ {
        src_dir
    } else if src_dir.len() == 0 {
        stem
    } else {
        src_dir + "/"@ + stem
    }
}

/// A relative link target resolved against page `prp` and re-expressed
/// relative to the page's directory URL.
pub open spec fn resolve_for_page(conv: Seq<char>, prp: Seq<char>) -> Seq<char> {
    if has_prefix(conv, "/"@) {
        conv
    } else {
        let src_dir = parent_spec(prp);
        let trailing = has_suffix(conv, "/"@);
        let joined = if src_dir.len() == 0 {
            conv
        } else {
            src_dir + "/"@ + conv
        };
        let abs = with_slash(normalize_spec(joined), trailing);
        with_slash(relative_spec(trim_end_char(abs, '/'), page_url_dir(prp)), trailing)
    }
}

/// The rewritten form of a link target `href` on page `page`.
pub open spec fn rewrite_spec(href: Seq<char>, page: Option<Seq<char>>) -> Seq<char> {
    if href.len() == 0 || is_external(href) {
        href
    } else {
        let (pq, frag) = split_first(href, '#');
        let (path, query) = split_first(pq, '?');
        let conv = strip_ext(path);
        let conv2 = match page {
            Some(p) => resolve_for_page(conv, p),
            None => conv,
        };
        conv2 + match query {
            Some(q) => "?"@ + q,
            None => Seq::empty(),
        } + match frag {
            Some(f) => "#"@ + f,
            None => Seq::empty(),
        }
    }
}

/// A rewritten link keeps its fragment (and query) at its end: when the
/// target is relative and has a `#`, the result ends with `#` and everything
/// that followed the first `#`.
pub proof fn law_rewrite_keeps_fragment(href: Seq<char>, page: Option<Seq<char>>)
    requires
        href.len() > 0,
        !is_external(href),
        find_spec(href, '#') >= 0,
    ensures
        has_suffix(
            rewrite_spec(href, page),
            "#"@ + href.subrange(find_spec(href, '#') + 1, href.len() as int),
        ),
{
    let f = "#"@ + href.subrange(find_spec(href, '#') + 1, href.len() as int);
    let r = rewrite_spec(href, page);
    let (pq, frag) = split_first(href, '#');
    assert(frag == Some(href.subrange(find_spec(href, '#') + 1, href.len() as int)));
    let prefix = r.subrange(0, r.len() - f.len());
    assert(r =~= prefix + f);
    assert(r.subrange(r.len() - f.len(), r.len() as int) =~= f);
}

/// The link target `conv` on page `prp`, resolved against the page's
/// source directory.
pub open spec fn source_target(conv: Seq<char>, prp: Seq<char>) -> Seq<char> {
    let src_dir = parent_spec(prp);
    normalize_spec(if src_dir.len() == 0 { conv } else { src_dir + "/"@ + conv })
}

proof fn lemma_with_slash_trim(s: Seq<char>, want: bool)
    requires
        s.len() == 0 || s.last() != '/',
    ensures
        trim_end_char(with_slash(s, want), '/') == s,
{
    reveal_strlit("/");
    let w = with_slash(s, want);
    if w != s {
        assert(w == s.push('/'));
        assert(w.last() == '/');
        assert(w.drop_last() =~= s);
        assert(trim_end_char(w, '/') == trim_end_char(s, '/'));
    }
    assert(trim_end_char(s, '/') == s);
}

proof fn lemma_with_slash_normalize(d: Seq<char>, s: Seq<char>, want: bool)
    ensures
        normalize_spec(d + "/"@ + with_slash(s, want)) == normalize_spec(d + "/"@ + s),
{
    reveal_strlit("/");
    if with_slash(s, want) != s {
        assert(d + "/"@ + with_slash(s, want) =~= (d + "/"@ + s) + "/"@);
        crate::paths::lemma_normalize_trailing_slash(d + "/"@ + s);
    }
}

/// A relative link rewritten for a page leads to its target: for a link
/// path `conv` (its extension already turned into `/`), the path that
/// `resolve_for_page` gives, followed from the directory URL under which the
/// page is served, normalises to `conv` resolved against the page's source
/// directory (for pages whose directory URL is clean, empty or `.`).
pub proof fn law_page_link_resolves(conv: Seq<char>, prp: Seq<char>)
    requires
        !has_prefix(conv, "/"@),
        clean_path(page_url_dir(prp)) || page_url_dir(prp).len() == 0 || page_url_dir(prp) == "."@,
    ensures
        normalize_spec(page_url_dir(prp) + "/"@ + resolve_for_page(conv, prp)) == source_target(conv, prp),
{
    let src_dir = parent_spec(prp);
    let joined = if src_dir.len() == 0 { conv } else { src_dir + "/"@ + conv };
    let abs0 = normalize_spec(joined);
    let trailing = has_suffix(conv, "/"@);
    let url = page_url_dir(prp);
    crate::paths::lemma_normalize_shape(joined);
    lemma_with_slash_trim(abs0, trailing);
    let rel = relative_spec(abs0, url);
    assert(resolve_for_page(conv, prp) == with_slash(rel, trailing));
    lemma_with_slash_normalize(url, rel, trailing);
    if url.len() == 0 || url == "."@ {
        assert(rel == abs0);
        crate::paths::lemma_normalize_skipped_head(url, abs0);
        crate::paths::law_normalize_idempotent(joined);
    } else {
        crate::paths::law_relative_path_resolves(abs0, url);
    }
}

pub open spec fn opt_view(o: Option<&str>) -> Option<Seq<char>> {
    match o {
        Some(s) => Some(s@),
        None => None,
    }
}

/// `s` split at its first `c`.
fn split_first_exec<'a>(s: &'a str, c: char) -> (r: (&'a str, Option<&'a str>))
    ensures
        (r.0@, opt_view(r.1)) == split_first(s@, c),
{
    let cs = chars_of(s);
    let n = cs.len();
    proof {
        lemma_find_from_range(s@, c, 0);
    }
    match find_char_from(&cs, c, 0) {
        Some(i) => (substring(s, 0, i), Some(substring(s, i + 1, n))),
        None => (s, None),
    }
}

/// `p` without the last `n` characters, followed by `/`.
fn cut_slash_exec(p: &str, n: usize) -> (r: String)
    requires
        n <= p@.len(),
    ensures
        r@ == cut_slash(p@, n as int),
{
    let cs = chars_of(p);
    let mut r = own(substring(p, 0, cs.len() - n));
    r.append("/");
    proof {
        reveal_strlit("/");
        assert(r@ =~= cut_slash(p@, n as int));
    }
    r
}

fn strip_ext_exec(p: &str) -> (r: String)
    ensures
        r@ == strip_ext(p@),
{
    proof {
        reveal_strlit("/index.html");
        reveal_strlit(".html");
        reveal_strlit(".adoc");
    }
    if ends_with(p, "/index.html") {
        cut_slash_exec(p, 11)
    } else if ends_with(p, ".html") {
        cut_slash_exec(p, 5)
    } else if ends_with(p, ".adoc") {
        cut_slash_exec(p, 5)
    } else {
        own(p)
    }
}

fn with_slash_exec(s: String, want: bool) -> (r: String)
    ensures
        r@ == with_slash(s@, want),
{
    if want && !ends_with(s.as_str(), "/") {
        let ghost s0 = s@;
        let mut s = s;
        s.append("/");
        proof {
            reveal_strlit("/");
            assert(s@ =~= s0.push('/'));
        }
        s
    } else {
        s
    }
}

fn page_url_dir_exec(prp: &str) -> (r: String)
    ensures
        r@ == page_url_dir(prp@),
{
    let src_dir = parent_path(prp);
    let stem = file_stem(prp);
    if str_eq(stem, "index") {
        own(src_dir)
    } else if src_dir.is_empty() {
        own(stem)
    } else {
        let mut r = concat(src_dir, "/");
        r.append(stem);
        r
    }
}

fn resolve_for_page_exec(conv: String, prp: &str) -> (r: String)
    ensures
        r@ == resolve_for_page(conv@, prp@),
{
    if starts_with(conv.as_str(), "/") {
        return conv;
    }
    let src_dir = parent_path(prp);
    let trailing = ends_with(conv.as_str(), "/");
    let joined = if src_dir.is_empty() {
        own(conv.as_str())
    } else {
        let mut j = concat(src_dir, "/");
        j.append(conv.as_str());
        j
    };
    let abs = with_slash_exec(normalize_path(joined.as_str()), trailing);
    let url_dir = page_url_dir_exec(prp);
    let rel = relative_path(trim_end_matches(abs.as_str(), '/'), url_dir.as_str());
    with_slash_exec(rel, trailing)
}

/// Rewrite a single href value for directory-URL routing.
pub fn rewrite_href(href: &str, page_rel_path: Option<&str>) -> (r: String)
    ensures
        r@ == rewrite_spec(href@, opt_view(page_rel_path)),
{
    if href.is_empty() {
        return own(href);
    }
    if starts_with(href, "#") || starts_with(href, "http://") || starts_with(href, "https://")
        || starts_with(href, "mailto:") || starts_with(href, "tel:") {
        return own(href);
    }
    let (path_and_query, frag) = split_first_exec(href, '#');
    let (path_only, query) = split_first_exec(path_and_query, '?');
    let converted = strip_ext_exec(path_only);
    let converted = match page_rel_path {
        Some(prp) => resolve_for_page_exec(converted, prp),
        None => converted,
    };
    let mut out = converted;
    match query {
        Some(q) => {
            out.append("?");
            out.append(q);
        },
        None => {},
    }
    match frag {
        Some(f) => {
            out.append("#");
            out.append(f);
        },
        None => {},
    }
    proof {
        reveal_strlit("?");
        reveal_strlit("#");
    }
    assert(out@ =~= rewrite_spec(href@, opt_view(page_rel_path)));
    out
}

/// An anchor's `href` attribute; group 1 is what precedes it in the tag,
/// group 2 its value, group 3 the rest of the tag.
pub const ANCHOR_HREF: &'static str = r#"(<a\s[^>]*?)href="([^"]*)"([^>]*>)"#;

/// The anchor tag of one match with its target rewritten.
pub open spec fn anchor_replacement(t: Seq<char>, c: Caps, page: Option<Seq<char>>) -> Seq<char> {
    group_text(t, c, 1) + "href=\""@ + rewrite_spec(group_text(t, c, 2), page) + "\""@ + group_text(
        t,
        c,
        3,
    )
}

/// `html` with every anchor's target rewritten.
pub open spec fn xref_spec(html: Seq<char>, page: Option<Seq<char>>) -> Seq<char> {
    let m = regex_matches(ANCHOR_HREF@, html);
    splice(html, m, m.map_values(|c: Caps| anchor_replacement(html, c, page)))
}

/// The anchor tag of one match of `ANCHOR_HREF` (groups `c`) with its
/// target rewritten for page `page_rel_path`.
pub fn rewrite_anchor(html: &str, c: &Vec<Span>, page_rel_path: Option<&str>) -> (r: String)
    requires
        forall|i: int| 0 <= i < c@.len() ==> span_ok(html@, #[trigger] c@[i]),
    ensures
        r@ == anchor_replacement(html@, c@, opt_view(page_rel_path)),
{
    let mut rep = own(group_str(html, c, 1));
    push_str(&mut rep, "href=\"");
    let target = rewrite_href(group_str(html, c, 2), page_rel_path);
    push_str(&mut rep, target.as_str());
    push_str(&mut rep, "\"");
    push_str(&mut rep, group_str(html, c, 3));
    rep
}

/// Every anchor is rewritten: for each anchor that the anchor pattern finds
/// in the input, the output holds that anchor tag with its `href` value
/// replaced by the rewritten target and the rest of the tag kept.
pub proof fn law_every_anchor_rewritten(html: Seq<char>, page: Option<Seq<char>>)
    ensures
        ({
            let m = regex_matches(ANCHOR_HREF@, html);
            forall|k: int| 0 <= k < m.len() ==> holds_text(
                xref_spec(html, page),
                group_text(html, #[trigger] m[k], 1) + "href=\""@ + rewrite_spec(group_text(html, m[k], 2), page)
                    + "\""@ + group_text(html, m[k], 3),
            )
        }),
{
    let m = regex_matches(ANCHOR_HREF@, html);
    let repls = m.map_values(|c: Caps| anchor_replacement(html, c, page));
    law_splice_holds_each(html, m, repls);
    assert forall|k: int| 0 <= k < m.len() implies holds_text(
        xref_spec(html, page),
        group_text(html, #[trigger] m[k], 1) + "href=\""@ + rewrite_spec(group_text(html, m[k], 2), page)
            + "\""@ + group_text(html, m[k], 3),
    ) by {
        assert(repls[k] == anchor_replacement(html, m[k], page));
    }
}

impl HtmlProcessor {
    /// Rewrite every anchor's `href` for directory-URL routing, resolving
    /// relative targets against `page_rel_path` when given.
    pub fn fix_xref_urls(&self, html: &str, page_rel_path: Option<&str>) -> (r: String)
        ensures
            r@ == xref_spec(html@, opt_view(page_rel_path)),
    {
        let m = regex_captures_all(ANCHOR_HREF, html);
        let ghost mv = caps_view(m);
        let ghost page = opt_view(page_rel_path);
        let mut repls: Vec<String> = Vec::new();
        let mut k: usize = 0;
        while k < m.len()
            invariant
                mv == caps_view(m),
                mv == regex_matches(ANCHOR_HREF@, html@),
                page == opt_view(page_rel_path),
                captures_ok(html@, mv),
                k <= m@.len(),
                repls@.len() == k,
                forall|j: int| 0 <= j < k ==> (#[trigger] repls@[j])@ == anchor_replacement(html@, mv[j], page),
            decreases m@.len() - k,
        {
            proof {
                assert(mv[k as int] == m@[k as int]@);
                assert forall|i: int| 0 <= i < m@[k as int]@.len() implies span_ok(html@, #[trigger] m@[k as int]@[i]) by {
                    assert(mv[k as int][i] == m@[k as int]@[i]);
                }
            }
            repls.push(rewrite_anchor(html, &m[k], page_rel_path));
            k = k + 1;
        }
        proof {
            assert(repls@.map_values(|s: String| s@) =~= mv.map_values(|c: Caps| anchor_replacement(html@, c, page)));
        }
        splice_matches(html, &m, &repls)
    }
}

} // verus!
