//! The HTML-rewriting passes: admonitions, callout lists, code blocks, tables
//! and figures.

use vstd::prelude::*;

use crate::blocks::{always_steps, edit, edit_range, first_from, law_rounds_reach_fixed_point, locate_block, locate_block_from, locate_from, locate_spec, rounds};
use crate::html::{opt_str_view, slugify, slugify_spec, strip_tags, strip_tags_spec, HtmlProcessor};
use crate::pattern::{caps_view, expand, holds_text, law_splice_holds_each, mend, group_str, group_text, push_str, regex_captures_all, regex_matches, replace_all, replace_all_spec, replace_first, replace_first_spec, span_ok, splice, splice_matches, tpl_view, Caps, Part, PartV, Span};
use crate::text::{capitalize, capitalize_spec, enc, own, piece, str_eq, trim, trim_spec};

verus! {

/// Opening tag of an Asciidoctor admonition block; group 1 is its kind.
pub const ADMONITION_START: &'static str = r#"<div\s+class="admonitionblock\s+(\w+)"[^>]*>"#;

/// The title inside an admonition's icon cell; group 1 is the title text.
pub const ADMONITION_TITLE: &'static str = r#"(?is)<td\s+class="icon"[^>]*>.*?<div\s+class="title"[^>]*>\s*(.*?)\s*</div>"#;

/// An admonition's content cell; group 1 is its inner HTML.
pub const ADMONITION_CONTENT: &'static str = r#"(?is)<td\s+class="content"[^>]*>(.*?)</td>"#;

/// The Material admonition kind for an Asciidoctor one.
pub open spec fn material_kind(kind: Seq<char>) -> Seq<char> {
    if kind == "caution"@ {
        "warning"@
    } else if kind == "important"@ {
        "danger"@
    } else {
        kind
    }
}

/// The title text of an admonition block, given the matches of the title
/// pattern in it: group 1 of the first, else the capitalised kind.
pub open spec fn admonition_title(block: Seq<char>, kind: Seq<char>, m: Seq<Caps>) -> Seq<char> {
    if m.len() == 0 {
        capitalize_spec(kind)
    } else {
        group_text(block, m[0], 1)
    }
}

/// The trimmed content of an admonition block, given the matches of the
/// content pattern in it (empty when there is none).
pub open spec fn admonition_content(block: Seq<char>, m: Seq<Caps>) -> Seq<char> {
    if m.len() == 0 {
        Seq::<char>::empty()
    } else {
        trim_spec(group_text(block, m[0], 1))
    }
}

/// The Material markup for an admonition block of kind `kind`, given the
/// matches of the title and content patterns in the block.
pub open spec fn admonition_assembled(block: Seq<char>, kind: Seq<char>, tm: Seq<Caps>, cm: Seq<Caps>) -> Seq<char> {
    "<div class=\"admonition "@ + material_kind(kind) + "\"><p class=\"admonition-title\">"@
        + admonition_title(block, kind, tm) + "</p>"@ + admonition_content(block, cm) + "</div>"@
}

/// The Material markup that replaces an admonition block.
pub open spec fn admonition_html(block: Seq<char>, kind: Seq<char>) -> Seq<char> {
    admonition_assembled(block, kind, regex_matches(ADMONITION_TITLE@, block), regex_matches(ADMONITION_CONTENT@, block))
}

/// One admonition rewrite: the first admonition block replaced.
pub open spec fn admonition_step(t: Seq<char>) -> Option<Seq<char>> {
    match locate_spec(ADMONITION_START@, t) {
        None => None,
        Some((s, e, c)) => Some(edit(t, s, e, admonition_html(piece(t, s, e), group_text(t, c, 1)))),
    }
}

/// All admonition rewrites, first block first, until none is left.
pub open spec fn admonitions_spec(t: Seq<char>) -> Seq<char> {
    rounds(|x: Seq<char>| admonition_step(x), t, u64::MAX as nat)
}

/// The admonition pass runs to completion: when it ends, a further round
/// would find no closed admonition block to convert (the first admonition
/// opening tag, if any, has no matching `</div>`), unless each of its 2^64
/// allowed rounds converted a block.
pub proof fn law_admonitions_complete(t: Seq<char>)
    ensures
        locate_spec(ADMONITION_START@, admonitions_spec(t)) is None || always_steps(
            |x: Seq<char>| admonition_step(x),
            t,
            u64::MAX as nat,
        ),
{
    law_rounds_reach_fixed_point(|x: Seq<char>| admonition_step(x), t, u64::MAX as nat);
}

/// The callout-list pass runs to completion: it ends at a text and search
/// position from which no closed callout block is found, unless each of its
/// 2^64 allowed rounds handled a block.
pub proof fn law_callouts_complete(t: Seq<char>)
    ensures
        ({
            let fin = rounds(|x: (Seq<char>, int)| callout_step(x), (t, 0), u64::MAX as nat);
            &&& callouts_spec(t) == fin.0
            &&& (locate_from(COLIST_START@, fin.0, fin.1) is None || always_steps(
                |x: (Seq<char>, int)| callout_step(x),
                (t, 0),
                u64::MAX as nat,
            ))
        }),
{
    law_rounds_reach_fixed_point(|x: (Seq<char>, int)| callout_step(x), (t, 0), u64::MAX as nat);
}

/// The figure pass runs to completion: it ends at a text and search position
/// from which no closed image block is found, unless each of its 2^64
/// allowed rounds handled a block.
pub proof fn law_figures_complete(t: Seq<char>)
    ensures
        ({
            let fin = rounds(|x: (Seq<char>, int)| figure_step(x), (t, 0), u64::MAX as nat);
            &&& figures_spec(t) == fin.0
            &&& (locate_from(IMAGE_BLOCK_START@, fin.0, fin.1) is None || always_steps(
                |x: (Seq<char>, int)| figure_step(x),
                (t, 0),
                u64::MAX as nat,
            ))
        }),
{
    law_rounds_reach_fixed_point(|x: (Seq<char>, int)| figure_step(x), (t, 0), u64::MAX as nat);
}

/// The table-block pass runs to completion: it ends at a text and search
/// position from which no closed table block is found, unless each of its
/// 2^64 allowed rounds handled a block.
pub proof fn law_table_blocks_complete(t: Seq<char>)
    ensures
        ({
            let fin = rounds(|x: (Seq<char>, int)| table_step(x), (t, 0), u64::MAX as nat);
            &&& table_blocks_spec(t) == fin.0
            &&& (locate_from(TABLE_BLOCK_START@, fin.0, fin.1) is None || always_steps(
                |x: (Seq<char>, int)| table_step(x),
                (t, 0),
                u64::MAX as nat,
            ))
        }),
{
    law_rounds_reach_fixed_point(|x: (Seq<char>, int)| table_step(x), (t, 0), u64::MAX as nat);
}

/// Group 1 of the first match of `pattern` in `t`, if there is a match.
pub open spec fn first_group(pattern: Seq<char>, t: Seq<char>) -> Option<Seq<char>> {
    let m = regex_matches(pattern, t);
    if m.len() == 0 {
        None
    } else {
        Some(group_text(t, m[0], 1))
    }
}

/// Group 1 of the first match of `pattern` in `t`, if there is a match.
pub fn first_group_of(pattern: &str, t: &str) -> (r: Option<String>)
    ensures
        r is None ==> first_group(pattern@, t@) is None,
        r matches Some(g) ==> first_group(pattern@, t@) == Some(g@),
{
    let m = regex_captures_all(pattern, t);
    if m.len() == 0 {
        return None;
    }
    proof {
        assert(caps_view(m)[0] == m@[0]@);
        assert forall|i: int| 0 <= i < m@[0]@.len() implies span_ok(t@, #[trigger] m@[0]@[i]) by {
            assert(caps_view(m)[0][i] == m@[0]@[i]);
        }
    }
    Some(own(group_str(t, &m[0], 1)))
}

/// Group 1 of the first of the reported matches, if there is one.
fn first_group_in<'a>(t: &'a str, m: &Vec<Vec<Span>>) -> (r: Option<&'a str>)
    requires
        crate::pattern::captures_ok(t@, caps_view(*m)),
    ensures
        r is None ==> m@.len() == 0,
        r matches Some(g) ==> m@.len() > 0 && g@ == group_text(t@, caps_view(*m)[0], 1),
{
    if m.len() == 0 {
        return None;
    }
    proof {
        assert(caps_view(*m)[0] == m@[0]@);
        assert forall|i: int| 0 <= i < m@[0]@.len() implies span_ok(t@, #[trigger] m@[0]@[i]) by {
            assert(caps_view(*m)[0][i] == m@[0]@[i]);
        }
    }
    Some(group_str(t, &m[0], 1))
}

/// The Material markup for an admonition block of kind `kind`, given the
/// matches of the title pattern (`title_m`) and of the content pattern
/// (`content_m`) in the block.
pub fn assemble_admonition(block: &str, kind: &str, title_m: &Vec<Vec<Span>>, content_m: &Vec<Vec<Span>>) -> (r: String)
    requires
        crate::pattern::captures_ok(block@, caps_view(*title_m)),
        crate::pattern::captures_ok(block@, caps_view(*content_m)),
    ensures
        r@ == admonition_assembled(block@, kind@, caps_view(*title_m), caps_view(*content_m)),
{
    let mk: String = if str_eq(kind, "caution") {
        own("warning")
    } else if str_eq(kind, "important") {
        own("danger")
    } else {
        own(kind)
    };
    let title = match first_group_in(block, title_m) {
        Some(t) => own(t),
        None => capitalize(kind),
    };
    let content = match first_group_in(block, content_m) {
        Some(c) => own(trim(c)),
        None => String::new(),
    };
    let mut out = own("<div class=\"admonition ");
    push_str(&mut out, mk.as_str());
    push_str(&mut out, "\"><p class=\"admonition-title\">");
    push_str(&mut out, title.as_str());
    push_str(&mut out, "</p>");
    push_str(&mut out, content.as_str());
    push_str(&mut out, "</div>");
    out
}

fn admonition_html_exec(block: &str, kind: &str) -> (r: String)
    ensures
        r@ == admonition_html(block@, kind@),
{
    let tm = regex_captures_all(ADMONITION_TITLE, block);
    let cm = regex_captures_all(ADMONITION_CONTENT, block);
    assemble_admonition(block, kind, &tm, &cm)
}

fn admonition_step_exec(t: &str) -> (r: Option<String>)
    ensures
        r is None ==> admonition_step(t@) is None,
        r matches Some(n) ==> admonition_step(t@) == Some(n@),
{
    match locate_block(ADMONITION_START, t) {
        None => None,
        Some((s, e, c)) => {
            let kind = group_str(t, &c, 1);
            let block = crate::text::slice_bytes(t, s, e);
            let rep = admonition_html_exec(block, kind);
            Some(edit_range(t, s, e, rep.as_str()))
        },
    }
}

/// Opening tag of an Asciidoctor callout list.
pub const COLIST_START: &'static str = r#"<div\s+class="colist"[^>]*>"#;

/// One callout row; group 1 is the callout's text cell.
pub const COLIST_ROW: &'static str = r#"(?is)<tr[^>]*>\s*<td[^>]*>.*?</td>\s*<td[^>]*>(.*?)</td>\s*</tr>"#;

/// The trimmed text cells of the given callout-row matches in a block.
pub open spec fn row_items(block: Seq<char>, m: Seq<Caps>) -> Seq<Seq<char>> {
    m.map_values(|c: Caps| trim_spec(group_text(block, c, 1)))
}

/// The trimmed text cells of the callout rows of a block.
pub open spec fn callout_items(block: Seq<char>) -> Seq<Seq<char>> {
    row_items(block, regex_matches(COLIST_ROW@, block))
}

/// `<li>` elements for the items, in order.
pub open spec fn list_items(items: Seq<Seq<char>>) -> Seq<char>
    decreases items.len(),
{
    if items.len() == 0 {
        Seq::<char>::empty()
    } else {
        list_items(items.drop_last()) + "<li>"@ + items.last() + "</li>"@
    }
}

/// The ordered list that replaces a callout block.
pub open spec fn callout_html(items: Seq<Seq<char>>) -> Seq<char> {
    "<ol class=\"colist\">"@ + list_items(items) + "</ol>"@
}

/// One round of the callout-list pass on a text and the byte position from
/// which to search: the first callout block starting there is replaced by
/// an ordered list when it has rows, and the search starts again where the
/// list begins; a block without rows is left as it is, and the search goes
/// on after its opening tag.
pub open spec fn callout_step(st: (Seq<char>, int)) -> Option<(Seq<char>, int)> {
    let t = st.0;
    match locate_from(COLIST_START@, t, st.1) {
        None => None,
        Some((s, e, c)) => {
            let items = callout_items(piece(t, s, e));
            if items.len() == 0 {
                Some((t, mend(c)))
            } else {
                Some((edit(t, s, e, callout_html(items)), s))
            }
        },
    }
}

/// All callout-list rewrites from the start of the text, until no callout
/// block (that is closed) is left after the last one handled.
pub open spec fn callouts_spec(t: Seq<char>) -> Seq<char> {
    rounds(|x: (Seq<char>, int)| callout_step(x), (t, 0), u64::MAX as nat).0
}

/// The ordered list for a callout block, given the matches of the
/// callout-row pattern in the block.
pub fn assemble_callout_list(block: &str, m: &Vec<Vec<Span>>) -> (r: String)
    requires
        crate::pattern::captures_ok(block@, caps_view(*m)),
    ensures
        r@ == callout_html(row_items(block@, caps_view(*m))),
{
    let ghost items = row_items(block@, caps_view(*m));
    let mut ol = own("<ol class=\"colist\">");
    let mut k: usize = 0;
    while k < m.len()
        invariant
            k <= m@.len(),
            items == row_items(block@, caps_view(*m)),
            crate::pattern::captures_ok(block@, caps_view(*m)),
            ol@ == "<ol class=\"colist\">"@ + list_items(items.take(k as int)),
        decreases m@.len() - k,
    {
        proof {
            assert(caps_view(*m)[k as int] == m@[k as int]@);
            assert forall|i: int| 0 <= i < m@[k as int]@.len() implies span_ok(block@, #[trigger] m@[k as int]@[i]) by {
                assert(caps_view(*m)[k as int][i] == m@[k as int]@[i]);
            }
            assert(items.take(k + 1).drop_last() =~= items.take(k as int));
        }
        push_str(&mut ol, "<li>");
        push_str(&mut ol, trim(group_str(block, &m[k], 1)));
        push_str(&mut ol, "</li>");
        k = k + 1;
    }
    push_str(&mut ol, "</ol>");
    proof {
        assert(items.take(m@.len() as int) =~= items);
    }
    ol
}

/// Where the opening tag of a located block ends.
fn open_end(c: &Vec<Span>) -> (r: usize)
    requires
        c@.len() >= 1,
        c@[0] is Some,
    ensures
        r == mend(c@),
{
    match c[0] {
        Some((_, b)) => b,
        None => 0,
    }
}

fn callout_step_exec(t: &str, pos: usize) -> (r: Option<(String, usize)>)
    ensures
        r is None ==> callout_step((t@, pos as int)) is None,
        r matches Some((n, k)) ==> callout_step((t@, pos as int)) == Some((n@, k as int)),
{
    match locate_block_from(COLIST_START, t, pos) {
        None => None,
        Some((s, e, c)) => {
            let block = crate::text::slice_bytes(t, s, e);
            let m = regex_captures_all(COLIST_ROW, block);
            if m.len() == 0 {
                return Some((own(t), open_end(&c)));
            }
            let ol = assemble_callout_list(block, &m);
            Some((edit_range(t, s, e, ol.as_str()), s))
        },
    }
}

/// A callout marker after a highlighted span; group 1 is the `</span>`.
pub const CALLOUT_MARKER: &'static str = r"(</span>)\s*(?:\(\d+\)|<\d+>|&lt;\d+&gt;)";

/// A Rouge-highlighted code block; group 1 is the language, group 2 the code.
pub const ROUGE_BLOCK: &'static str = r#"(?s)<pre\s+class="rouge highlight"><code\s+data-lang="([^"]+)">(.*?)</code></pre>"#;

/// A callout marker element `<b class="conum">..</b>`.
pub const CONUM_ELEMENT: &'static str = r#"(?is)<b\s+class="conum"[^>]*>.*?</b>"#;

/// Callout markers removed: a marker after a highlighted span is dropped
/// (the span kept), then every `<b class="conum">` marker element.
pub open spec fn markers_spec(t: Seq<char>) -> Seq<char> {
    replace_all_spec(CONUM_ELEMENT@, replace_all_spec(CALLOUT_MARKER@, t, keep_group1()), Seq::<PartV>::empty())
}

/// Template keeping only group 1.
pub open spec fn keep_group1() -> Seq<PartV> {
    seq![PartV::Group(1)]
}

/// Template of the Zensical code block for a Rouge block.
pub open spec fn code_block_tpl() -> Seq<PartV> {
    seq![
        PartV::Lit("<div class=\"language-"@),
        PartV::Group(1),
        PartV::Lit(" highlight\"><pre><code>"@),
        PartV::Group(2),
        PartV::Lit("</code></pre></div>"@),
    ]
}

/// Opening tag of an Asciidoctor table block.
pub const TABLE_BLOCK_START: &'static str = r#"<div\s+class="tableblock"[^>]*>"#;

/// A block's title div; group 1 is the title's inner HTML.
pub const BLOCK_TITLE: &'static str = r#"(?is)<div\s+class="title"[^>]*>(.*?)</div>"#;

/// An Asciidoctor table; group 1 is its opening tag, group 2 the rest.
pub const INNER_TABLE: &'static str = r#"(?is)(<table\s+class="[^"]*tableblock[^"]*"[^>]*>)(.*?</table>)"#;

/// A whole Asciidoctor table.
pub const ANY_TABLE: &'static str = r#"(?is)(<table\s+class="[^"]*tableblock[^"]*"[^>]*>.*?</table>)"#;

/// An Asciidoctor table's opening tag; group 1 is what follows its class.
pub const TABLE_CLASS: &'static str = r#"<table\s+class="[^"]*tableblock[^"]*"([^>]*)>"#;

/// An Asciidoctor header cell's opening tag.
pub const TH_CLASS: &'static str = r#"<th\s+class="[^"]*tableblock[^"]*">"#;

/// An Asciidoctor data cell's opening tag.
pub const TD_CLASS: &'static str = r#"<td\s+class="[^"]*tableblock[^"]*">"#;

/// A cell paragraph; group 1 is its content.
pub const CELL_PARAGRAPH: &'static str = r#"<p\s+class="tableblock">(.*?)</p>"#;

/// A column group.
pub const COLGROUP: &'static str = r#"(?is)<colgroup>.*?</colgroup>"#;

/// A titled caption; group 1 is the title without its `Table N.` label.
pub const TITLED_CAPTION: &'static str = r#"<caption\s+class="title">(?:Table\s+\d+\.\s*)?(.*?)</caption>"#;

/// Opening tag of the Material table wrapper.
pub open spec fn wrapper_open() -> Seq<char> {
    "<div class=\"md-typeset__table\">"@
}

/// The title of a block, tags stripped and trimmed, if it has a title div.
pub open spec fn block_title(block: Seq<char>) -> Option<Seq<char>> {
    match first_group(BLOCK_TITLE@, block) {
        None => None,
        Some(g) => Some(trim_spec(strip_tags_spec(g))),
    }
}

/// A caption element for a non-empty title.
pub open spec fn caption_for(title: Option<Seq<char>>, open: Seq<char>, close: Seq<char>) -> Seq<char> {
    match title {
        Some(t) => if t.len() > 0 { open + t + close } else { Seq::<char>::empty() },
        None => Seq::<char>::empty(),
    }
}

/// The wrapped table for a table block with title `title`, given the
/// block without its title div (`without`) and the matches of the table
/// pattern in it (`m`); nothing when there is no table.
pub open spec fn table_assembled(title: Option<Seq<char>>, without: Seq<char>, m: Seq<Caps>) -> Option<Seq<char>> {
    if m.len() == 0 {
        None
    } else {
        Some(wrapper_open() + group_text(without, m[0], 1) + caption_for(title, "<caption>"@, "</caption>"@)
            + group_text(without, m[0], 2) + "</div>"@)
    }
}

/// The wrapped table that replaces a table block, when the block holds a table.
pub open spec fn table_block_html(block: Seq<char>) -> Option<Seq<char>> {
    let without = replace_first_spec(BLOCK_TITLE@, block, Seq::<PartV>::empty());
    table_assembled(block_title(block), without, regex_matches(INNER_TABLE@, without))
}

/// One round of the table-block pass on a text and the byte position from
/// which to search: the first table block starting there is replaced by its
/// wrapped table, and the search starts again where the replacement begins;
/// a block that holds no table is left as it is, and the search goes on
/// after its opening tag.
pub open spec fn table_step(st: (Seq<char>, int)) -> Option<(Seq<char>, int)> {
    let t = st.0;
    match locate_from(TABLE_BLOCK_START@, t, st.1) {
        None => None,
        Some((s, e, c)) => match table_block_html(piece(t, s, e)) {
            None => Some((t, mend(c))),
            Some(r) => Some((edit(t, s, e, r), s)),
        },
    }
}

/// All table-block rewrites from the start of the text; a block without a
/// table is left as it is.
pub open spec fn table_blocks_spec(t: Seq<char>) -> Seq<char> {
    rounds(|x: (Seq<char>, int)| table_step(x), (t, 0), u64::MAX as nat).0
}

pub open spec fn wrap_table_tpl() -> Seq<PartV> {
    seq![PartV::Lit(wrapper_open()), PartV::Group(0), PartV::Lit("</div>"@)]
}

/// A table inside two Material wrappers (a table block's wrapper, then the
/// wrapper added to every table); group 1 is the table.
pub const DOUBLE_WRAPPED: &'static str = r#"(?is)<div class="md-typeset__table"><div class="md-typeset__table">(<table\s+class="[^"]*tableblock[^"]*"[^>]*>.*?</table>)</div></div>"#;

/// Template of group 1 inside one wrapper.
pub open spec fn rewrap_tpl() -> Seq<PartV> {
    seq![PartV::Lit(wrapper_open()), PartV::Group(1), PartV::Lit("</div>"@)]
}

pub open spec fn table_open_tpl() -> Seq<PartV> {
    seq![PartV::Lit("<table"@), PartV::Group(1), PartV::Lit(">"@)]
}

pub open spec fn caption_tpl() -> Seq<PartV> {
    seq![PartV::Lit("<caption>"@), PartV::Group(1), PartV::Lit("</caption>"@)]
}

/// The table pass: table blocks rewritten, every table wrapped, tables that
/// thus got two wrappers given one, Asciidoctor classes, cell paragraphs and
/// column groups removed, and titled captions made plain.
pub open spec fn tables_spec(t: Seq<char>) -> Seq<char> {
    let r1 = table_blocks_spec(t);
    let r2 = replace_all_spec(ANY_TABLE@, r1, wrap_table_tpl());
    tables_cleanup(r2)
}

/// The table pass after every table has been wrapped: tables that thus got
/// two wrappers given one, Asciidoctor classes, cell paragraphs and column
/// groups removed, and titled captions made plain.
pub open spec fn tables_cleanup(r2: Seq<char>) -> Seq<char> {
    let r4 = replace_all_spec(DOUBLE_WRAPPED@, r2, rewrap_tpl());
    let r5 = replace_all_spec(TABLE_CLASS@, r4, table_open_tpl());
    let r6 = replace_all_spec(TH_CLASS@, r5, seq![PartV::Lit("<th>"@)]);
    let r7 = replace_all_spec(TD_CLASS@, r6, seq![PartV::Lit("<td>"@)]);
    let r8 = replace_all_spec(CELL_PARAGRAPH@, r7, keep_group1());
    let r9 = replace_all_spec(COLGROUP@, r8, Seq::<PartV>::empty());
    replace_all_spec(TITLED_CAPTION@, r9, caption_tpl())
}

/// Every Asciidoctor table is wrapped: the table pass's clean-up runs on a
/// text that holds each table left by the table-block pass inside a
/// Material wrapper (`<div class="md-typeset__table">`, the table, `</div>`).
pub proof fn law_every_table_wrapped(t: Seq<char>)
    ensures
        ({
            let r1 = table_blocks_spec(t);
            let m = regex_matches(ANY_TABLE@, r1);
            exists|w: Seq<char>|
                #![trigger tables_cleanup(w)]
                tables_spec(t) == tables_cleanup(w) && forall|k: int| 0 <= k < m.len() ==> holds_text(
                    w,
                    wrapper_open() + group_text(r1, #[trigger] m[k], 0) + "</div>"@,
                )
        }),
{
    let r1 = table_blocks_spec(t);
    let m = regex_matches(ANY_TABLE@, r1);
    let w = replace_all_spec(ANY_TABLE@, r1, wrap_table_tpl());
    let repls = m.map_values(|c: Caps| expand(r1, c, wrap_table_tpl()));
    law_splice_holds_each(r1, m, repls);
    assert forall|k: int| 0 <= k < m.len() implies holds_text(
        w,
        wrapper_open() + group_text(r1, #[trigger] m[k], 0) + "</div>"@,
    ) by {
        let c = m[k];
        let t0 = Seq::<PartV>::empty();
        let t1 = seq![PartV::Lit(wrapper_open())];
        let t2 = seq![PartV::Lit(wrapper_open()), PartV::Group(0)];
        let tpl = wrap_table_tpl();
        assert(t1.drop_last() =~= t0);
        assert(t2.drop_last() =~= t1);
        assert(tpl.drop_last() =~= t2);
        assert(expand(r1, c, t0) == Seq::<char>::empty());
        assert(expand(r1, c, t1) == expand(r1, c, t0) + wrapper_open());
        assert(expand(r1, c, t1) =~= wrapper_open());
        assert(expand(r1, c, t2) == wrapper_open() + group_text(r1, c, 0));
        assert(expand(r1, c, tpl) == wrapper_open() + group_text(r1, c, 0) + "</div>"@);
        assert(repls[k] == wrapper_open() + group_text(r1, m[k], 0) + "</div>"@);
    }
    assert(tables_spec(t) == tables_cleanup(w));
}

/// Only tables are touched: HTML in which none of the table pass's
/// patterns has a match comes out of the pass unchanged.
pub proof fn law_tables_leave_other_html(t: Seq<char>)
    requires
        regex_matches(TABLE_BLOCK_START@, t).len() == 0,
        regex_matches(ANY_TABLE@, t).len() == 0,
        regex_matches(DOUBLE_WRAPPED@, t).len() == 0,
        regex_matches(TABLE_CLASS@, t).len() == 0,
        regex_matches(TH_CLASS@, t).len() == 0,
        regex_matches(TD_CLASS@, t).len() == 0,
        regex_matches(CELL_PARAGRAPH@, t).len() == 0,
        regex_matches(COLGROUP@, t).len() == 0,
        regex_matches(TITLED_CAPTION@, t).len() == 0,
    ensures
        tables_spec(t) == t,
{
    assert(first_from(regex_matches(TABLE_BLOCK_START@, t), 0, 0) is None);
    assert(table_step((t, 0)) is None);
    assert(table_blocks_spec(t) == t);
    crate::pattern::law_no_match_no_change(ANY_TABLE@, t, wrap_table_tpl());
    crate::pattern::law_no_match_no_change(DOUBLE_WRAPPED@, t, rewrap_tpl());
    crate::pattern::law_no_match_no_change(TABLE_CLASS@, t, table_open_tpl());
    crate::pattern::law_no_match_no_change(TH_CLASS@, t, seq![PartV::Lit("<th>"@)]);
    crate::pattern::law_no_match_no_change(TD_CLASS@, t, seq![PartV::Lit("<td>"@)]);
    crate::pattern::law_no_match_no_change(CELL_PARAGRAPH@, t, keep_group1());
    crate::pattern::law_no_match_no_change(COLGROUP@, t, Seq::<PartV>::empty());
    crate::pattern::law_no_match_no_change(TITLED_CAPTION@, t, caption_tpl());
}

/// The title of a block, tags stripped and trimmed.
fn block_title_exec(block: &str) -> (r: Option<String>)
    ensures
        r is None ==> block_title(block@) is None,
        r matches Some(x) ==> block_title(block@) == Some(x@),
{
    match first_group_of(BLOCK_TITLE, block) {
        None => None,
        Some(g) => {
            let st = strip_tags(g.as_str());
            Some(own(trim(st.as_str())))
        },
    }
}

fn push_caption(out: &mut String, title: &Option<String>, open: &str, close: &str)
    ensures
        final(out)@ == old(out)@ + caption_for(opt_str_view(*title), open@, close@),
{
    match title {
        Some(t) => {
            if !t.as_str().is_empty() {
                push_str(out, open);
                push_str(out, t.as_str());
                push_str(out, close);
            } else {
                proof { assert(old(out)@ + Seq::<char>::empty() =~= old(out)@); }
            }
        },
        None => {
            proof { assert(old(out)@ + Seq::<char>::empty() =~= old(out)@); }
        },
    }
}

/// The wrapped table for a table block with title `title`, given the block
/// without its title div (`without`) and the matches of the table pattern
/// in it (`m`); `None` when there is no table.
pub fn assemble_table(title: &Option<String>, without: &str, m: &Vec<Vec<Span>>) -> (r: Option<String>)
    requires
        crate::pattern::captures_ok(without@, caps_view(*m)),
    ensures
        r is None ==> table_assembled(opt_str_view(*title), without@, caps_view(*m)) is None,
        r matches Some(x) ==> table_assembled(opt_str_view(*title), without@, caps_view(*m)) == Some(x@),
{
    if m.len() == 0 {
        return None;
    }
    proof {
        assert(caps_view(*m)[0] == m@[0]@);
        assert forall|i: int| 0 <= i < m@[0]@.len() implies span_ok(without@, #[trigger] m@[0]@[i]) by {
            assert(caps_view(*m)[0][i] == m@[0]@[i]);
        }
    }
    let mut out = own("<div class=\"md-typeset__table\">");
    push_str(&mut out, group_str(without, &m[0], 1));
    push_caption(&mut out, title, "<caption>", "</caption>");
    push_str(&mut out, group_str(without, &m[0], 2));
    push_str(&mut out, "</div>");
    Some(out)
}

fn table_block_html_exec(block: &str) -> (r: Option<String>)
    ensures
        r is None ==> table_block_html(block@) is None,
        r matches Some(x) ==> table_block_html(block@) == Some(x@),
{
    let title = block_title_exec(block);
    let none: Vec<Part> = Vec::new();
    proof {
        assert(tpl_view(none@) =~= Seq::<PartV>::empty());
    }
    let without = replace_first(BLOCK_TITLE, block, &none);
    let m = regex_captures_all(INNER_TABLE, without.as_str());
    assemble_table(&title, without.as_str(), &m)
}

fn table_step_exec(t: &str, pos: usize) -> (r: Option<(String, usize)>)
    ensures
        r is None ==> table_step((t@, pos as int)) is None,
        r matches Some((n, k)) ==> table_step((t@, pos as int)) == Some((n@, k as int)),
{
    match locate_block_from(TABLE_BLOCK_START, t, pos) {
        None => None,
        Some((s, e, c)) => {
            let block = crate::text::slice_bytes(t, s, e);
            match table_block_html_exec(block) {
                None => Some((own(t), open_end(&c))),
                Some(rep) => Some((edit_range(t, s, e, rep.as_str()), s)),
            }
        },
    }
}

/// Opening tag of an Asciidoctor image block.
pub const IMAGE_BLOCK_START: &'static str = r#"<div\s+class="imageblock"[^>]*>"#;

/// An image block's content div; group 1 is its inner HTML.
pub const IMAGE_CONTENT: &'static str = r#"(?is)<div\s+class="content"[^>]*>(.*?)</div>"#;

/// The figure for an image block with title `title`, given the matches of
/// the content-div pattern in the block (`m`); nothing when there is no
/// content div.
pub open spec fn figure_assembled(block: Seq<char>, m: Seq<Caps>, title: Option<Seq<char>>) -> Option<Seq<char>> {
    if m.len() == 0 {
        None
    } else {
        Some("<figure class=\"adoc-figure\">"@ + caption_for(title, "<figcaption>"@, "</figcaption>"@)
            + group_text(block, m[0], 1) + "</figure>"@)
    }
}

/// The figure that replaces an image block, when the block has a content div.
pub open spec fn figure_html(block: Seq<char>) -> Option<Seq<char>> {
    figure_assembled(block, regex_matches(IMAGE_CONTENT@, block), block_title(block))
}

/// One round of the figure pass on a text and the byte position from which
/// to search: the first image block starting there is replaced by a figure,
/// and the search starts again where the figure begins; a block without a
/// content div is left as it is, and the search goes on after its opening
/// tag.
pub open spec fn figure_step(st: (Seq<char>, int)) -> Option<(Seq<char>, int)> {
    let t = st.0;
    match locate_from(IMAGE_BLOCK_START@, t, st.1) {
        None => None,
        Some((s, e, c)) => match figure_html(piece(t, s, e)) {
            None => Some((t, mend(c))),
            Some(r) => Some((edit(t, s, e, r), s)),
        },
    }
}

/// All figure rewrites from the start of the text.
pub open spec fn figures_spec(t: Seq<char>) -> Seq<char> {
    rounds(|x: (Seq<char>, int)| figure_step(x), (t, 0), u64::MAX as nat).0
}

/// The figure for an image block with title `title`, given the matches of
/// the content-div pattern in the block (`m`); `None` when there is no
/// content div.
pub fn assemble_figure(block: &str, m: &Vec<Vec<Span>>, title: &Option<String>) -> (r: Option<String>)
    requires
        crate::pattern::captures_ok(block@, caps_view(*m)),
    ensures
        r is None ==> figure_assembled(block@, caps_view(*m), opt_str_view(*title)) is None,
        r matches Some(x) ==> figure_assembled(block@, caps_view(*m), opt_str_view(*title)) == Some(x@),
{
    match first_group_in(block, m) {
        None => None,
        Some(content) => {
            let mut fig = own("<figure class=\"adoc-figure\">");
            push_caption(&mut fig, title, "<figcaption>", "</figcaption>");
            push_str(&mut fig, content);
            push_str(&mut fig, "</figure>");
            Some(fig)
        },
    }
}

fn figure_step_exec(t: &str, pos: usize) -> (r: Option<(String, usize)>)
    ensures
        r is None ==> figure_step((t@, pos as int)) is None,
        r matches Some((n, k)) ==> figure_step((t@, pos as int)) == Some((n@, k as int)),
{
    match locate_block_from(IMAGE_BLOCK_START, t, pos) {
        None => None,
        Some((s, e, c)) => {
            let block = crate::text::slice_bytes(t, s, e);
            let m = regex_captures_all(IMAGE_CONTENT, block);
            let title = block_title_exec(block);
            match assemble_figure(block, &m, &title) {
                None => Some((own(t), open_end(&c))),
                Some(fig) => Some((edit_range(t, s, e, fig.as_str()), s)),
            }
        },
    }
}

/// An `id` attribute: the name `id` at the start or after whitespace (so
/// that `data-id` does not count), then `=`.
pub const HAS_ID: &'static str = r"(?i)(?:^|\s)id\s*=";

/// Level-1 to level-6 headings; group 1 is the tag name, group 2 its
/// attributes, group 3 its content.
pub const HEADING_1: &'static str = r"(?is)<(h1)(\s[^>]*)?>(.+?)</h1>";
pub const HEADING_2: &'static str = r"(?is)<(h2)(\s[^>]*)?>(.+?)</h2>";
pub const HEADING_3: &'static str = r"(?is)<(h3)(\s[^>]*)?>(.+?)</h3>";
pub const HEADING_4: &'static str = r"(?is)<(h4)(\s[^>]*)?>(.+?)</h4>";
pub const HEADING_5: &'static str = r"(?is)<(h5)(\s[^>]*)?>(.+?)</h5>";
pub const HEADING_6: &'static str = r"(?is)<(h6)(\s[^>]*)?>(.+?)</h6>";

/// A heading with an `id` added when it has none and its text has a
/// non-empty slug; otherwise the heading unchanged.
pub open spec fn heading_with_id(t: Seq<char>, c: Caps) -> Seq<char> {
    let attrs = group_text(t, c, 2);
    let inner = group_text(t, c, 3);
    heading_assembled(
        t,
        c,
        regex_matches(HAS_ID@, attrs).len() > 0,
        slugify_spec(trim_spec(strip_tags_spec(inner))),
    )
}

/// A matched heading given the id `id`, unless it already has an id
/// (`has_id`) or `id` is empty, in which case the heading is unchanged.
pub open spec fn heading_assembled(t: Seq<char>, c: Caps, has_id: bool, id: Seq<char>) -> Seq<char> {
    let tag = group_text(t, c, 1);
    let attrs = group_text(t, c, 2);
    let inner = group_text(t, c, 3);
    if has_id || id.len() == 0 {
        group_text(t, c, 0)
    } else {
        "<"@ + tag + " id=\""@ + id + "\""@ + attrs + ">"@ + inner + "</"@ + tag + ">"@
    }
}

/// Every heading matched by `pattern` given an id.
pub open spec fn heading_pass(pattern: Seq<char>, t: Seq<char>) -> Seq<char> {
    let m = regex_matches(pattern, t);
    splice(t, m, m.map_values(|c: Caps| heading_with_id(t, c)))
}

/// Headings of every level given ids, level 1 first.
pub open spec fn heading_ids_spec(t: Seq<char>) -> Seq<char> {
    heading_pass(HEADING_6@, heading_pass(HEADING_5@, heading_pass(HEADING_4@, heading_pass(
        HEADING_3@,
        heading_pass(HEADING_2@, heading_pass(HEADING_1@, t)),
    ))))
}

/// The heading pattern of level `n` (1 to 6).
pub open spec fn heading_pattern(n: int) -> Seq<char> {
    if n == 1 {
        HEADING_1@
    } else if n == 2 {
        HEADING_2@
    } else if n == 3 {
        HEADING_3@
    } else if n == 4 {
        HEADING_4@
    } else if n == 5 {
        HEADING_5@
    } else {
        HEADING_6@
    }
}

proof fn lemma_heading_pass_no_match(pattern: Seq<char>, t: Seq<char>)
    requires
        regex_matches(pattern, t).len() == 0,
    ensures
        heading_pass(pattern, t) == t,
{
    crate::text::lemma_piece_all(t);
}

/// Every heading level gets ids: in a text whose headings are all of one
/// level `n` (1 to 6; no heading of another level is found before or after
/// that level's ids are added), each heading found keeps its form when it
/// already has an `id` attribute or its text's slug is empty, and otherwise
/// appears in the output as `<hN id="slug"` followed by its own attributes,
/// `>`, its content and `</hN>`.
pub proof fn law_each_level_gets_ids(t: Seq<char>, n: int)
    requires
        1 <= n <= 6,
        forall|j: int| 1 <= j <= 6 && j != n ==> regex_matches(#[trigger] heading_pattern(j), t).len() == 0
            && regex_matches(heading_pattern(j), heading_pass(heading_pattern(n), t)).len() == 0,
    ensures
        ({
            let m = regex_matches(heading_pattern(n), t);
            forall|k: int| 0 <= k < m.len() ==> holds_text(heading_ids_spec(t), {
                let c = #[trigger] m[k];
                let tag = group_text(t, c, 1);
                let attrs = group_text(t, c, 2);
                let inner = group_text(t, c, 3);
                let slug = slugify_spec(trim_spec(strip_tags_spec(inner)));
                if regex_matches(HAS_ID@, attrs).len() == 0 && slug.len() > 0 {
                    "<"@ + tag + " id=\""@ + slug + "\""@ + attrs + ">"@ + inner + "</"@ + tag + ">"@
                } else {
                    group_text(t, c, 0)
                }
            })
        }),
{
    let p = heading_pattern(n);
    let u = heading_pass(p, t);
    assert(fold_heading_passes(t, 6) == heading_ids_spec(t)) by {
        assert(fold_heading_passes(t, 0) == t);
        assert(fold_heading_passes(t, 1) == heading_pass(HEADING_1@, t));
        assert(fold_heading_passes(t, 2) == heading_pass(HEADING_2@, fold_heading_passes(t, 1)));
        assert(fold_heading_passes(t, 3) == heading_pass(HEADING_3@, fold_heading_passes(t, 2)));
        assert(fold_heading_passes(t, 4) == heading_pass(HEADING_4@, fold_heading_passes(t, 3)));
        assert(fold_heading_passes(t, 5) == heading_pass(HEADING_5@, fold_heading_passes(t, 4)));
        assert(fold_heading_passes(t, 6) == heading_pass(HEADING_6@, fold_heading_passes(t, 5)));
    }
    lemma_fold_heading_passes(t, n, 6);
    assert(heading_ids_spec(t) == u);
    let m = regex_matches(p, t);
    let repls = m.map_values(|c: Caps| heading_with_id(t, c));
    law_splice_holds_each(t, m, repls);
    assert forall|k: int| 0 <= k < m.len() implies holds_text(heading_ids_spec(t), {
        let c = #[trigger] m[k];
        let tag = group_text(t, c, 1);
        let attrs = group_text(t, c, 2);
        let inner = group_text(t, c, 3);
        let slug = slugify_spec(trim_spec(strip_tags_spec(inner)));
        if regex_matches(HAS_ID@, attrs).len() == 0 && slug.len() > 0 {
            "<"@ + tag + " id=\""@ + slug + "\""@ + attrs + ">"@ + inner + "</"@ + tag + ">"@
        } else {
            group_text(t, c, 0)
        }
    }) by {
        assert(repls[k] == heading_with_id(t, m[k]));
    }
}

/// With headings of level `n` only, the passes up to level `j` leave the
/// text as it was before level `n` and as level `n` left it after.
proof fn lemma_fold_heading_passes(t: Seq<char>, n: int, j: int)
    requires
        1 <= n <= 6,
        0 <= j <= 6,
        forall|i: int| 1 <= i <= 6 && i != n ==> regex_matches(#[trigger] heading_pattern(i), t).len() == 0
            && regex_matches(heading_pattern(i), heading_pass(heading_pattern(n), t)).len() == 0,
    ensures
        fold_heading_passes(t, j) == if j < n { t } else { heading_pass(heading_pattern(n), t) },
    decreases j,
{
    if j > 0 {
        lemma_fold_heading_passes(t, n, j - 1);
        if j != n {
            lemma_heading_pass_no_match(heading_pattern(j), fold_heading_passes(t, j - 1));
        }
    }
}

/// The heading passes of levels `1..=j` applied in order.
pub open spec fn fold_heading_passes(t: Seq<char>, j: int) -> Seq<char>
    decreases j,
{
    if j <= 0 {
        t
    } else {
        heading_pass(heading_pattern(j), fold_heading_passes(t, j - 1))
    }
}

fn heading_with_id_exec(t: &str, c: &Vec<Span>) -> (r: String)
    requires
        forall|i: int| 0 <= i < c@.len() ==> span_ok(t@, #[trigger] c@[i]),
    ensures
        r@ == heading_with_id(t@, c@),
{
    let attrs = group_str(t, c, 2);
    let inner = group_str(t, c, 3);
    let text = strip_tags(inner);
    let id = slugify(trim(text.as_str()));
    let id_m = regex_captures_all(HAS_ID, attrs);
    assemble_heading(t, c, &id_m, id.as_str())
}

/// A heading matched with groups `c` (tag name, attributes, content), given
/// the matches of the id-attribute pattern in its attributes (`id_m`) and
/// the slug of its text (`id`): the heading with `id` added, or unchanged
/// when it already has an id or the slug is empty.
pub fn assemble_heading(t: &str, c: &Vec<Span>, id_m: &Vec<Vec<Span>>, id: &str) -> (r: String)
    requires
        forall|i: int| 0 <= i < c@.len() ==> span_ok(t@, #[trigger] c@[i]),
    ensures
        r@ == heading_assembled(t@, c@, id_m@.len() > 0, id@),
{
    let tag = group_str(t, c, 1);
    let attrs = group_str(t, c, 2);
    let inner = group_str(t, c, 3);
    if id_m.len() > 0 || id.is_empty() {
        return own(group_str(t, c, 0));
    }
    let mut out = own("<");
    push_str(&mut out, tag);
    push_str(&mut out, " id=\"");
    push_str(&mut out, id);
    push_str(&mut out, "\"");
    push_str(&mut out, attrs);
    push_str(&mut out, ">");
    push_str(&mut out, inner);
    push_str(&mut out, "</");
    push_str(&mut out, tag);
    push_str(&mut out, ">");
    out
}

fn heading_pass_exec(pattern: &str, t: &str) -> (r: String)
    ensures
        r@ == heading_pass(pattern@, t@),
{
    let m = regex_captures_all(pattern, t);
    let ghost mv = caps_view(m);
    let mut repls: Vec<String> = Vec::new();
    let mut k: usize = 0;
    while k < m.len()
        invariant
            mv == caps_view(m),
            mv == regex_matches(pattern@, t@),
            crate::pattern::captures_ok(t@, mv),
            k <= m@.len(),
            repls@.len() == k,
            forall|j: int| 0 <= j < k ==> (#[trigger] repls@[j])@ == heading_with_id(t@, mv[j]),
        decreases m@.len() - k,
    {
        proof {
            assert(mv[k as int] == m@[k as int]@);
            assert forall|i: int| 0 <= i < m@[k as int]@.len() implies span_ok(t@, #[trigger] m@[k as int]@[i]) by {
                assert(mv[k as int][i] == m@[k as int]@[i]);
            }
        }
        repls.push(heading_with_id_exec(t, &m[k]));
        k = k + 1;
    }
    proof {
        assert(repls@.map_values(|s: String| s@) =~= mv.map_values(|c: Caps| heading_with_id(t@, c)));
    }
    splice_matches(t, &m, &repls)
}

impl HtmlProcessor {
    /// Give every heading that has no `id` one derived from its text,
    /// processing the levels from `h1` to `h6`.
    pub fn ensure_heading_ids(&self, html: &str) -> (r: String)
        ensures
            r@ == heading_ids_spec(html@),
    {
        let r1 = heading_pass_exec(HEADING_1, html);
        let r2 = heading_pass_exec(HEADING_2, r1.as_str());
        let r3 = heading_pass_exec(HEADING_3, r2.as_str());
        let r4 = heading_pass_exec(HEADING_4, r3.as_str());
        let r5 = heading_pass_exec(HEADING_5, r4.as_str());
        heading_pass_exec(HEADING_6, r5.as_str())
    }

    /// Wrap tables for Material: table blocks become wrapped tables with their
    /// title as caption, other tables are wrapped, and Asciidoctor classes,
    /// cell paragraphs and column groups are removed.
    pub fn transform_tables(&self, html: &str) -> (r: String)
        ensures
            r@ == tables_spec(html@),
    {
        let ghost step = |x: (Seq<char>, int)| table_step(x);
        let mut result = own(html);
        let mut pos: usize = 0;
        let mut fuel: u64 = u64::MAX;
        loop
            invariant
                step == (|x: (Seq<char>, int)| table_step(x)),
                rounds(step, (result@, pos as int), fuel as nat) == rounds(
                    step,
                    (html@, 0),
                    u64::MAX as nat,
                ),
            ensures
                result@ == table_blocks_spec(html@),
            decreases fuel,
        {
            if fuel == 0 {
                break;
            }
            match table_step_exec(result.as_str(), pos) {
                Some((n, k)) => {
                    result = n;
                    pos = k;
                    fuel = fuel - 1;
                },
                None => break,
            }
        }
        let wrap = vec![Part::Lit(own("<div class=\"md-typeset__table\">")), Part::Group(0), Part::Lit(own("</div>"))];
        proof { assert(tpl_view(wrap@) =~= wrap_table_tpl()); }
        let r2 = replace_all(ANY_TABLE, result.as_str(), &wrap);
        let t4 = vec![Part::Lit(own("<div class=\"md-typeset__table\">")), Part::Group(1), Part::Lit(own("</div>"))];
        proof { assert(tpl_view(t4@) =~= rewrap_tpl()); }
        let r4 = replace_all(DOUBLE_WRAPPED, r2.as_str(), &t4);
        let t5 = vec![Part::Lit(own("<table")), Part::Group(1), Part::Lit(own(">"))];
        proof { assert(tpl_view(t5@) =~= table_open_tpl()); }
        let r5 = replace_all(TABLE_CLASS, r4.as_str(), &t5);
        let t6 = vec![Part::Lit(own("<th>"))];
        proof { assert(tpl_view(t6@) =~= seq![PartV::Lit("<th>"@)]); }
        let r6 = replace_all(TH_CLASS, r5.as_str(), &t6);
        let t7 = vec![Part::Lit(own("<td>"))];
        proof { assert(tpl_view(t7@) =~= seq![PartV::Lit("<td>"@)]); }
        let r7 = replace_all(TD_CLASS, r6.as_str(), &t7);
        let t8 = vec![Part::Group(1)];
        proof { assert(tpl_view(t8@) =~= keep_group1()); }
        let r8 = replace_all(CELL_PARAGRAPH, r7.as_str(), &t8);
        let t9: Vec<Part> = Vec::new();
        proof { assert(tpl_view(t9@) =~= Seq::<PartV>::empty()); }
        let r9 = replace_all(COLGROUP, r8.as_str(), &t9);
        let t10 = vec![Part::Lit(own("<caption>")), Part::Group(1), Part::Lit(own("</caption>"))];
        proof { assert(tpl_view(t10@) =~= caption_tpl()); }
        replace_all(TITLED_CAPTION, r9.as_str(), &t10)
    }

    /// Convert every image block into an HTML5 figure, one block at a time
    /// from the first; a block without a content div is left as it is.
    pub fn transform_figures(&self, html: &str) -> (r: String)
        ensures
            r@ == figures_spec(html@),
    {
        let ghost step = |x: (Seq<char>, int)| figure_step(x);
        let mut result = own(html);
        let mut pos: usize = 0;
        let mut fuel: u64 = u64::MAX;
        loop
            invariant
                step == (|x: (Seq<char>, int)| figure_step(x)),
                rounds(step, (result@, pos as int), fuel as nat) == rounds(
                    step,
                    (html@, 0),
                    u64::MAX as nat,
                ),
            ensures
                result@ == figures_spec(html@),
            decreases fuel,
        {
            if fuel == 0 {
                break;
            }
            match figure_step_exec(result.as_str(), pos) {
                Some((n, k)) => {
                    result = n;
                    pos = k;
                    fuel = fuel - 1;
                },
                None => break,
            }
        }
        result
    }

    /// Convert every callout-list table into an ordered list, one block at a
    /// time from the first; a block without rows is left as it is.
    pub fn transform_callout_lists(&self, html: &str) -> (r: String)
        ensures
            r@ == callouts_spec(html@),
    {
        let ghost step = |x: (Seq<char>, int)| callout_step(x);
        let mut result = own(html);
        let mut pos: usize = 0;
        let mut fuel: u64 = u64::MAX;
        loop
            invariant
                step == (|x: (Seq<char>, int)| callout_step(x)),
                rounds(step, (result@, pos as int), fuel as nat) == rounds(
                    step,
                    (html@, 0),
                    u64::MAX as nat,
                ),
            ensures
                result@ == callouts_spec(html@),
            decreases fuel,
        {
            if fuel == 0 {
                break;
            }
            match callout_step_exec(result.as_str(), pos) {
                Some((n, k)) => {
                    result = n;
                    pos = k;
                    fuel = fuel - 1;
                },
                None => break,
            }
        }
        result
    }

    /// Remove callout markers from code: `(1)`, `<1>` or `&lt;1&gt;` after a
    /// highlighted span, and `<b class="conum">` marker elements.
    pub fn clean_callout_markers(&self, html: &str) -> (r: String)
        ensures
            r@ == markers_spec(html@),
    {
        let tpl = vec![Part::Group(1)];
        proof {
            assert(tpl_view(tpl@) =~= keep_group1());
        }
        let r1 = replace_all(CALLOUT_MARKER, html, &tpl);
        let none: Vec<Part> = Vec::new();
        proof {
            assert(tpl_view(none@) =~= Seq::<PartV>::empty());
        }
        replace_all(CONUM_ELEMENT, r1.as_str(), &none)
    }

    /// Convert Rouge-highlighted code blocks from Asciidoctor's
    /// `<pre class="rouge highlight"><code data-lang="..">` form to Zensical's
    /// `<div class="language-.. highlight"><pre><code>` form.
    pub fn transform_code_blocks(&self, html: &str) -> (r: String)
        ensures
            r@ == replace_all_spec(ROUGE_BLOCK@, html@, code_block_tpl()),
    {
        let tpl = vec![
            Part::Lit(own("<div class=\"language-")),
            Part::Group(1),
            Part::Lit(own(" highlight\"><pre><code>")),
            Part::Group(2),
            Part::Lit(own("</code></pre></div>")),
        ];
        proof {
            assert(tpl_view(tpl@) =~= code_block_tpl());
        }
        replace_all(ROUGE_BLOCK, html, &tpl)
    }

    /// Convert every Asciidoctor admonition block into a Material admonition,
    /// one block at a time from the first, until none is left.
    pub fn transform_admonitions(&self, html: &str) -> (r: String)
        ensures
            r@ == admonitions_spec(html@),
    {
        let ghost step = |x: Seq<char>| admonition_step(x);
        let mut result = own(html);
        let mut fuel: u64 = u64::MAX;
        loop
            invariant
                step == (|x: Seq<char>| admonition_step(x)),
                rounds(step, result@, fuel as nat) == admonitions_spec(html@),
            ensures
                result@ == admonitions_spec(html@),
            decreases fuel,
        {
            if fuel == 0 {
                break;
            }
            match admonition_step_exec(result.as_str()) {
                Some(n) => {
                    result = n;
                    fuel = fuel - 1;
                },
                None => break,
            }
        }
        result
    }
}

} // verus!
