//! Edge cases, exact values and error paths of the library.

use std::collections::HashMap;

use zensical_asciidoctor_backend::blocks::find_matching_close_div;
use zensical_asciidoctor_backend::config::{Config, SafeMode};
use zensical_asciidoctor_backend::dom::Element;
use zensical_asciidoctor_backend::html::{
    meta_from_elements, slugify, strip_tags, toc_from_headings, DocMeta, HtmlProcessor, TocEntry,
};
use zensical_asciidoctor_backend::paths::{file_stem, normalize_path, parent_path, relative_path};
use zensical_asciidoctor_backend::renderer::{CommandOutcome, Renderer, RendererError};
use zensical_asciidoctor_backend::text::{capitalize, parse_u8};
use zensical_asciidoctor_backend::transform::{
    assemble_admonition, assemble_callout_list, assemble_figure, assemble_heading, assemble_table,
};
use zensical_asciidoctor_backend::xref::{rewrite_anchor, rewrite_href};

fn renderer_with(cmd: &str, fail_on_error: bool) -> Renderer {
    let config = Config {
        asciidoctor_cmd: cmd.to_string(),
        fail_on_error,
        ..Config::default()
    };
    Renderer::new(&config)
}

// -- Rendering outcomes -------------------------------------------------------

#[test]
fn finish_render_not_found_fails() {
    let r = renderer_with("asciidoc<tor>", true);
    match r.finish_render("p.adoc", CommandOutcome::NotFound) {
        Err(RendererError::NotFound { cmd }) => assert_eq!(cmd, "asciidoc<tor>"),
        other => panic!("unexpected: {other:?}"),
    }
}

#[test]
fn finish_render_not_found_graceful() {
    let r = renderer_with("asciidoc<tor>", false);
    let html = r.finish_render("p.adoc", CommandOutcome::NotFound).unwrap();
    assert_eq!(
        html,
        "<div class=\"admonition failure\"><p class=\"admonition-title\">AsciiDoc Error</p>\
         <p>asciidoctor not found: 'asciidoc&lt;tor&gt;'. Install with: \
         <code>gem install asciidoctor</code></p></div>"
    );
}

#[test]
fn finish_render_spawn_failure_is_io_error() {
    let r = renderer_with("asciidoctor", true);
    let e = std::io::Error::new(std::io::ErrorKind::PermissionDenied, "denied");
    match r.finish_render("p.adoc", CommandOutcome::SpawnFailed(e)) {
        Err(RendererError::Io(e)) => assert_eq!(e.kind(), std::io::ErrorKind::PermissionDenied),
        other => panic!("unexpected: {other:?}"),
    }
}

#[test]
fn finish_render_spawn_failure_graceful() {
    let r = renderer_with("asciidoctor", false);
    let e = std::io::Error::new(std::io::ErrorKind::PermissionDenied, "denied <x>");
    let html = r.finish_render("p.adoc", CommandOutcome::SpawnFailed(e)).unwrap();
    assert_eq!(
        html,
        "<div class=\"admonition failure\"><p class=\"admonition-title\">AsciiDoc Error</p>\
         <pre><code>denied &lt;x&gt;</code></pre></div>"
    );
}

#[test]
fn finish_render_success_returns_stdout() {
    let r = renderer_with("asciidoctor", true);
    let out = CommandOutcome::Finished {
        success: true,
        stdout: b"<p>hi</p>".to_vec(),
        stderr: b"warning".to_vec(),
    };
    assert_eq!(r.finish_render("p.adoc", out).unwrap(), "<p>hi</p>");
}

#[test]
fn finish_render_decodes_invalid_utf8_lossily() {
    let r = renderer_with("asciidoctor", true);
    let out = CommandOutcome::Finished { success: true, stdout: vec![0x66, 0xff, 0x6f], stderr: vec![] };
    assert_eq!(r.finish_render("p.adoc", out).unwrap(), "f\u{FFFD}o");
}

#[test]
fn finish_render_failure_fails() {
    let r = renderer_with("asciidoctor", true);
    let out = CommandOutcome::Finished { success: false, stdout: vec![], stderr: b"bad <x>".to_vec() };
    match r.finish_render("docs/p.adoc", out) {
        Err(RendererError::Failed { path, stderr }) => {
            assert_eq!(path, "docs/p.adoc");
            assert_eq!(stderr, "bad <x>");
        }
        other => panic!("unexpected: {other:?}"),
    }
}

#[test]
fn finish_render_failure_graceful() {
    let r = renderer_with("asciidoctor", false);
    let out = CommandOutcome::Finished { success: false, stdout: vec![], stderr: b"bad <x> & \"y\"".to_vec() };
    assert_eq!(
        r.finish_render("p.adoc", out).unwrap(),
        "<div class=\"admonition failure\"><p class=\"admonition-title\">AsciiDoc Error</p>\
         <pre><code>bad &lt;x&gt; &amp; &quot;y&quot;</code></pre></div>"
    );
}

// -- Configuration and renderer construction ----------------------------------

#[test]
fn safe_mode_names_and_default() {
    assert_eq!(SafeMode::default(), SafeMode::Safe);
    assert_eq!(SafeMode::Unsafe.to_string(), "unsafe");
    assert_eq!(SafeMode::Safe.to_string(), "safe");
    assert_eq!(SafeMode::Server.to_string(), "server");
    assert_eq!(SafeMode::Secure.to_string(), "secure");
}

#[test]
fn default_config_values() {
    let c = Config::default();
    assert_eq!(c.asciidoctor_cmd, "asciidoctor");
    assert_eq!(c.safe_mode, SafeMode::Safe);
    assert!(c.requires.is_empty());
    assert!(c.fail_on_error);
    assert_eq!(c.attributes.len(), 3);
    assert_eq!(c.attributes.get("showtitle").map(String::as_str), Some(""));
    assert_eq!(c.attributes.get("sectanchors").map(String::as_str), Some(""));
    assert_eq!(c.attributes.get("source-highlighter").map(String::as_str), Some("rouge"));
}

#[test]
fn renderer_sorts_attributes_bytewise() {
    let config = Config {
        attributes: HashMap::from([
            (String::from("zeta"), String::from("1")),
            (String::from("alpha"), String::new()),
            (String::from("Beta"), String::from("x=y")),
            (String::from("b"), String::from("2")),
        ]),
        requires: vec![String::from("r1"), String::from("r2")],
        safe_mode: SafeMode::Secure,
        ..Config::default()
    };
    let args = Renderer::new(&config).build_args("in.adoc");
    let expected = [
        "asciidoctor", "-b", "html5", "-s", "-o", "-", "-S", "secure", "-r", "r1", "-r", "r2",
        "-a", "Beta=x=y", "-a", "alpha", "-a", "b=2", "-a", "zeta=1", "in.adoc",
    ];
    assert_eq!(args, expected);
}

// -- Cross-reference rewriting ---------------------------------------------------

#[test]
fn rewrite_href_leaves_external_links() {
    for href in ["", "#top", "http://x/y.adoc", "https://x/y.html", "mailto:a@b.adoc", "tel:123"] {
        assert_eq!(rewrite_href(href, Some("guides/install.adoc")), href);
        assert_eq!(rewrite_href(href, None), href);
    }
}

#[test]
fn rewrite_href_without_page() {
    assert_eq!(rewrite_href("docs/index.html", None), "docs/");
    assert_eq!(rewrite_href("img.png?v=2", None), "img.png?v=2");
    assert_eq!(rewrite_href("../up.adoc?a=1#b", None), "../up/?a=1#b");
}

#[test]
fn rewrite_href_relative_to_page() {
    assert_eq!(rewrite_href("other.adoc", Some("guides/install.adoc")), "../other/");
    assert_eq!(rewrite_href("../ref.adoc#x", Some("guides/index.adoc")), "../ref/#x");
    assert_eq!(rewrite_href("/abs.html", Some("a/b.adoc")), "/abs/");
    assert_eq!(rewrite_href("page.adoc", Some("index.adoc")), "page/");
    assert_eq!(rewrite_href("page.adoc", Some("top.adoc")), "../page/");
    assert_eq!(rewrite_href("./", Some("a/b.adoc")), "../");
    assert_eq!(rewrite_href("sub/index.html", Some("a/index.adoc")), "sub/");
}

#[test]
fn fix_xref_urls_in_process() {
    let html = r#"<p><a class="x" href="b.adoc">B</a> <a href="https://e.org">E</a></p>"#;
    let result = HtmlProcessor::new().process(html, Some("dir/a.adoc"));
    assert_eq!(result.html, r#"<p><a class="x" href="../b/">B</a> <a href="https://e.org">E</a></p>"#);
}

// -- Text helpers ------------------------------------------------------------------

#[test]
fn capitalize_uses_unicode_uppercase() {
    assert_eq!(capitalize("tip"), "Tip");
    assert_eq!(capitalize("élan"), "Élan");
    assert_eq!(capitalize("ßx"), "SSx");
    assert_eq!(capitalize(""), "");
}

#[test]
fn slugify_edge_cases() {
    assert_eq!(slugify("Ünïcode Title"), "ncode-title");
    assert_eq!(slugify("A__B  c"), "a-b-c");
    assert_eq!(slugify("!!!"), "");
    assert_eq!(slugify(""), "");
}

#[test]
fn strip_tags_replaces_tags_with_spaces() {
    assert_eq!(strip_tags("<b>x</b>y"), " x y");
    assert_eq!(strip_tags("no tags"), "no tags");
}

#[test]
fn parse_u8_cases() {
    assert_eq!(parse_u8("7"), Some(7));
    assert_eq!(parse_u8("007"), Some(7));
    assert_eq!(parse_u8("255"), Some(255));
    assert_eq!(parse_u8("+5"), Some(5));
    assert_eq!(parse_u8("256"), None);
    assert_eq!(parse_u8(""), None);
    assert_eq!(parse_u8("+"), None);
    assert_eq!(parse_u8("-1"), None);
    assert_eq!(parse_u8("1a"), None);
}

// -- Paths ---------------------------------------------------------------------------

#[test]
fn path_helper_edges() {
    assert_eq!(parent_path("/x"), "");
    assert_eq!(file_stem("a.b/c"), "c");
    assert_eq!(file_stem(".hidden"), "");
    assert_eq!(file_stem("a/b.tar.gz"), "b.tar");
    assert_eq!(normalize_path(""), "");
    assert_eq!(normalize_path("/"), "");
    assert_eq!(normalize_path("../../a"), "a");
    assert_eq!(relative_path("a/b", "."), "a/b");
}

// -- Block scanning --------------------------------------------------------------------

#[test]
fn find_matching_close_div_cases() {
    let nested = "<div class=\"a\"><div>x</div></div>rest";
    assert_eq!(find_matching_close_div(nested, 15), Some(33));
    assert_eq!(find_matching_close_div("<div/><div />x</div>", 0), Some(20));
    assert_eq!(find_matching_close_div("<divx></div>", 0), Some(12));
    assert_eq!(find_matching_close_div("<div>abc", 5), None);
    assert_eq!(find_matching_close_div("</div>", 10), None);
}

// -- HTML passes ----------------------------------------------------------------------

#[test]
fn admonition_exact_output() {
    let html = r#"<div class="admonitionblock note"><table><tr><td class="icon"><div class="title">Note</div></td><td class="content">  Body  </td></tr></table></div>"#;
    assert_eq!(
        HtmlProcessor::new().transform_admonitions(html),
        r#"<div class="admonition note"><p class="admonition-title">Note</p>Body</div>"#
    );
}

#[test]
fn admonition_without_title_uses_kind() {
    let html = r#"<div class="admonitionblock tip"><table><tr><td class="content">Hint</td></tr></table></div>"#;
    assert_eq!(
        HtmlProcessor::new().transform_admonitions(html),
        r#"<div class="admonition tip"><p class="admonition-title">Tip</p>Hint</div>"#
    );
}

#[test]
fn unclosed_admonition_is_left_alone() {
    let html = r#"<div class="admonitionblock note"><p>never closed"#;
    assert_eq!(HtmlProcessor::new().transform_admonitions(html), html);
}

#[test]
fn callout_block_without_rows_is_skipped() {
    let html = r#"<div class="colist"><p>x</p></div><div class="colist"><table><tr><td>1</td><td>A</td></tr></table></div>"#;
    assert_eq!(
        HtmlProcessor::new().transform_callout_lists(html),
        r#"<div class="colist"><p>x</p></div><ol class="colist"><li>A</li></ol>"#
    );
}

#[test]
fn unclosed_callout_block_is_left_alone() {
    let html = r#"<div class="colist"><table><tr><td>1</td><td>A</td></tr></table>"#;
    assert_eq!(HtmlProcessor::new().transform_callout_lists(html), html);
}

#[test]
fn callout_list_exact_output() {
    let html = r#"<p>x</p><div class="colist"><table><tr><td>1</td><td> One </td></tr><tr><td>2</td><td>Two</td></tr></table></div>"#;
    assert_eq!(
        HtmlProcessor::new().transform_callout_lists(html),
        r#"<p>x</p><ol class="colist"><li>One</li><li>Two</li></ol>"#
    );
}

#[test]
fn callout_markers_removed() {
    let p = HtmlProcessor::new();
    assert_eq!(p.clean_callout_markers(r#"<span class="c">a</span> &lt;1&gt;"#), r#"<span class="c">a</span>"#);
    assert_eq!(p.clean_callout_markers("</span><2> (3)"), "</span> (3)");
}

#[test]
fn code_block_exact_output() {
    let html = r#"<pre class="rouge highlight"><code data-lang="py">x = 1</code></pre>"#;
    assert_eq!(
        HtmlProcessor::new().transform_code_blocks(html),
        r#"<div class="language-py highlight"><pre><code>x = 1</code></pre></div>"#
    );
}

#[test]
fn table_classes_cells_and_colgroups_stripped() {
    let html = r#"<table class="tableblock frame-all"><colgroup><col style="width: 50%;"></colgroup><thead><tr><th class="tableblock halign-left">H</th></tr></thead><tbody><tr><td class="tableblock halign-left"><p class="tableblock">v</p></td></tr></tbody></table>"#;
    assert_eq!(
        HtmlProcessor::new().transform_tables(html),
        r#"<div class="md-typeset__table"><table><thead><tr><th>H</th></tr></thead><tbody><tr><td>v</td></tr></tbody></table></div>"#
    );
}

#[test]
fn table_titled_caption_made_plain() {
    let html = r#"<table class="tableblock"><caption class="title">Table 2. Prices</caption><tr><td>x</td></tr></table>"#;
    assert_eq!(
        HtmlProcessor::new().transform_tables(html),
        r#"<div class="md-typeset__table"><table><caption>Prices</caption><tr><td>x</td></tr></table></div>"#
    );
}

#[test]
fn table_pass_leaves_other_divs() {
    assert_eq!(HtmlProcessor::new().transform_tables("<div><div>x</div></div>"), "<div><div>x</div></div>");
}

#[test]
fn table_block_without_table_is_skipped() {
    let html = r#"<div class="tableblock"><p>no table</p></div><div class="tableblock"><table class="tableblock"><tr><td>v</td></tr></table></div>"#;
    assert_eq!(
        HtmlProcessor::new().transform_tables(html),
        r#"<div class="tableblock"><p>no table</p></div><div class="md-typeset__table"><table><tr><td>v</td></tr></table></div>"#
    );
}

#[test]
fn figure_without_content_is_left_alone() {
    let html = r#"<div class="imageblock"><img src="a.png"></div>"#;
    assert_eq!(HtmlProcessor::new().transform_figures(html), html);
}

#[test]
fn figure_exact_output() {
    let html = r#"<div class="imageblock"><div class="content"><img src="a.png"></div><div class="title"><em>Fig</em> 1</div></div>"#;
    assert_eq!(
        HtmlProcessor::new().transform_figures(html),
        r#"<figure class="adoc-figure"><figcaption>Fig  1</figcaption><img src="a.png"></figure>"#
    );
}

#[test]
fn heading_ids_added_and_kept() {
    let p = HtmlProcessor::new();
    assert_eq!(p.ensure_heading_ids(r#"<h2 id="x">Hello</h2>"#), r#"<h2 id="x">Hello</h2>"#);
    assert_eq!(p.ensure_heading_ids(r#"<h3 class="c">Hi There</h3>"#), r#"<h3 id="hi-there" class="c">Hi There</h3>"#);
    assert_eq!(p.ensure_heading_ids("<h2>!!!</h2>"), "<h2>!!!</h2>");
    assert_eq!(
        p.ensure_heading_ids("<h2><code>foo_bar</code> Baz</h2>"),
        r#"<h2 id="foo-bar-baz"><code>foo_bar</code> Baz</h2>"#
    );
}

// -- Metadata and TOC --------------------------------------------------------------------

#[test]
fn meta_empty_values_are_none() {
    let p = HtmlProcessor::new();
    let meta = p.extract_meta(r#"<h1>   </h1><meta name="description" content="">"#);
    assert_eq!(meta, DocMeta::default());
    assert_eq!(DocMeta::default(), DocMeta { title: None, description: None });
}

#[test]
fn meta_title_joins_text_nodes() {
    let meta = HtmlProcessor::new().extract_meta(r#"<h1>Plain</h1><h1 class="sect0">A <em>B</em></h1><h1 class="sect0">Second</h1>"#);
    assert_eq!(meta.title, Some("A  B".to_string()));
    assert_eq!(meta.description, None);
}

#[test]
fn toc_entry_clone_is_deep() {
    let result = HtmlProcessor::new().process(r#"<h2 id="a">A</h2><h3 id="b">B</h3>"#, None);
    let copy = result.toc[0].clone();
    assert_eq!(copy.title, "A");
    assert_eq!(copy.id, "a");
    assert_eq!(copy.level, 2);
    assert_eq!(copy.children.len(), 1);
    assert_eq!(copy.children[0].title, "B");
    assert_eq!(copy.children[0].id, "b");
    assert_eq!(copy.children[0].level, 3);
}

#[test]
fn toc_uses_generated_ids() {
    let result = HtmlProcessor::new().process("<h2>Getting Started</h2><h5>Deep</h5>", None);
    assert_eq!(result.toc.len(), 1);
    assert_eq!(result.toc[0].id, "getting-started");
    assert_eq!(result.toc[0].children[0].id, "deep");
    assert_eq!(result.toc[0].children[0].level, 5);
    assert!(result.html.contains(r#"<h2 id="getting-started">Getting Started</h2>"#));
}

#[test]
fn default_processor_matches_new() {
    let a = HtmlProcessor::default().process("<h2>X</h2>", None);
    let b = HtmlProcessor::new().process("<h2>X</h2>", None);
    assert_eq!(a.html, b.html);
    let _: TocEntry = a.toc[0].clone();
}

#[test]
fn toc_entries_compare_structurally() {
    let p = HtmlProcessor::new();
    let a = p.process(r#"<h2 id="a">A</h2><h3 id="b">B</h3>"#, None);
    let b = p.process(r#"<h2 id="a">A</h2><h3 id="b">B</h3>"#, None);
    assert_eq!(a.toc, b.toc);
    let c = p.process(r#"<h2 id="a">A</h2><h3 id="c">B</h3>"#, None);
    assert_ne!(a.toc, c.toc);
    assert_eq!(a.toc[0].clone(), a.toc[0]);
}

// -- Logic after element selection, on given elements ---------------------------------

fn element(name: &str, texts: &[&str], attr: Option<&str>) -> Element {
    Element {
        name: name.to_string(),
        texts: texts.iter().map(|t| t.to_string()).collect(),
        attr: attr.map(|a| a.to_string()),
    }
}

#[test]
fn toc_from_given_headings() {
    let els = vec![
        element("h1", &["Doc"], Some("doc")),
        element("h2", &[" A ", "x"], Some("a")),
        element("h3", &["B"], None),
        element("h7x", &["Odd"], Some("o")),
        element("h2", &["C"], Some("c")),
    ];
    let top = toc_from_headings(&els);
    assert_eq!(top.len(), 1);
    assert_eq!(top[0].title, "Doc");
    assert_eq!(top[0].level, 1);
    let toc = &top[0].children;
    assert_eq!(toc.len(), 3);
    assert_eq!(toc[0].title, "A  x");
    assert_eq!(toc[0].id, "a");
    assert_eq!(toc[0].children.len(), 1);
    assert_eq!(toc[0].children[0].title, "B");
    assert_eq!(toc[0].children[0].id, "");
    assert_eq!(toc[0].children[0].level, 3);
    assert_eq!(toc[1].title, "Odd");
    assert_eq!(toc[1].level, 2);
    assert_eq!(toc[2].title, "C");
    assert!(toc_from_headings(&Vec::new()).is_empty());
}

#[test]
fn meta_from_given_elements() {
    let none = meta_from_elements(&Vec::new(), &Vec::new());
    assert_eq!(none, DocMeta::default());
    let heads = vec![element("h1", &["  "], None), element("h1", &["T"], None)];
    let metas = vec![element("meta", &[], Some("d")), element("meta", &[], Some("e"))];
    let meta = meta_from_elements(&heads, &metas);
    assert_eq!(meta.title, None);
    assert_eq!(meta.description, Some("d".to_string()));
    let meta = meta_from_elements(&vec![element("h1", &["A", "B"], None)], &vec![element("meta", &[], None)]);
    assert_eq!(meta.title, Some("A B".to_string()));
    assert_eq!(meta.description, None);
}

// -- Documented behaviour -------------------------------------------------------------

#[test]
fn plain_h1_heads_the_toc() {
    let html = r#"<h1>Simple Test Document</h1><h2 id="intro">Introduction</h2>"#;
    let result = HtmlProcessor::new().process(html, Some("docs/simple.adoc"));
    let expected = vec![TocEntry {
        title: "Simple Test Document".into(),
        id: "simple-test-document".into(),
        level: 1,
        children: vec![TocEntry { title: "Introduction".into(), id: "intro".into(), level: 2, children: vec![] }],
    }];
    assert_eq!(result.toc, expected);
    assert_eq!(result.meta.title, None);
}

#[test]
fn sect0_title_is_meta_not_toc() {
    let html = r#"<h1 class="sect0">Doc</h1><h2 id="a">A</h2>"#;
    let result = HtmlProcessor::new().process(html, None);
    assert_eq!(result.meta.title, Some("Doc".to_string()));
    assert_eq!(result.toc.len(), 1);
    assert_eq!(result.toc[0].title, "A");
}

#[test]
fn heading_with_data_id_gets_an_id() {
    let p = HtmlProcessor::new();
    assert_eq!(p.ensure_heading_ids(r#"<h2 data-id="x">Title</h2>"#), r#"<h2 id="title" data-id="x">Title</h2>"#);
    assert_eq!(p.ensure_heading_ids(r#"<h2 class="a" ID="k">T</h2>"#), r#"<h2 class="a" ID="k">T</h2>"#);
}

#[test]
fn conum_elements_removed_from_code() {
    let html = r#"<pre><code>let x = 1; <b class="conum">(1)</b></code></pre>"#;
    let out = HtmlProcessor::new().clean_callout_markers(html);
    assert_eq!(out, "<pre><code>let x = 1; </code></pre>");
}

#[test]
fn figure_block_without_content_is_skipped() {
    let html = r#"<div class="imageblock"><img src="a.png"></div><div class="imageblock"><div class="content"><img src="b.png"></div></div>"#;
    assert_eq!(
        HtmlProcessor::new().transform_figures(html),
        r#"<div class="imageblock"><img src="a.png"></div><figure class="adoc-figure"><img src="b.png"></figure>"#
    );
}

// -- Assembly from given match spans ------------------------------------------------------

#[test]
fn assemble_heading_from_spans() {
    let t = "<h2>Hi</h2>";
    let c = vec![Some((0, 11)), Some((1, 3)), None, Some((4, 6))];
    assert_eq!(assemble_heading(t, &c, &vec![], "hi"), r#"<h2 id="hi">Hi</h2>"#);
    assert_eq!(assemble_heading(t, &c, &vec![vec![Some((0, 0))]], "hi"), t);
    assert_eq!(assemble_heading(t, &c, &vec![], ""), t);
}

#[test]
fn assemble_admonition_from_spans() {
    let block = "TITLE| body |";
    let tm = vec![vec![Some((0, 5)), Some((0, 5))]];
    let cm = vec![vec![Some((6, 13)), Some((6, 12))]];
    assert_eq!(
        assemble_admonition(block, "tip", &tm, &cm),
        r#"<div class="admonition tip"><p class="admonition-title">TITLE</p>body</div>"#
    );
    assert_eq!(
        assemble_admonition(block, "caution", &vec![], &vec![]),
        r#"<div class="admonition warning"><p class="admonition-title">Caution</p></div>"#
    );
}

#[test]
fn assemble_table_from_spans() {
    let without = "<table x>rows</table>";
    let m = vec![vec![Some((0, 21)), Some((0, 9)), Some((9, 21))]];
    assert_eq!(
        assemble_table(&Some("Cap".to_string()), without, &m),
        Some(r#"<div class="md-typeset__table"><table x><caption>Cap</caption>rows</table></div>"#.to_string())
    );
    assert_eq!(
        assemble_table(&Some(String::new()), without, &m),
        Some(r#"<div class="md-typeset__table"><table x>rows</table></div>"#.to_string())
    );
    assert_eq!(assemble_table(&None, without, &vec![]), None);
}

#[test]
fn assemble_figure_from_spans() {
    let m = vec![vec![Some((0, 3)), Some((1, 2))]];
    assert_eq!(assemble_figure("abc", &m, &None), Some(r#"<figure class="adoc-figure">b</figure>"#.to_string()));
    assert_eq!(
        assemble_figure("abc", &m, &Some("T".to_string())),
        Some(r#"<figure class="adoc-figure"><figcaption>T</figcaption>b</figure>"#.to_string())
    );
    assert_eq!(assemble_figure("abc", &vec![], &None), None);
}

#[test]
fn assemble_callout_list_from_spans() {
    let m = vec![vec![Some((0, 1)), Some((0, 1))], vec![Some((2, 5)), Some((2, 5))]];
    assert_eq!(assemble_callout_list("a  b ", &m), r#"<ol class="colist"><li>a</li><li>b</li></ol>"#);
}

#[test]
fn rewrite_anchor_from_spans() {
    let html = r#"<a x href="p.adoc">"#;
    let c = vec![Some((0, 19)), Some((0, 5)), Some((11, 17)), Some((18, 19))];
    assert_eq!(rewrite_anchor(html, &c, None), r#"<a x href="p/">"#);
    assert_eq!(rewrite_anchor(html, &c, Some("d/q.adoc")), r#"<a x href="../p/">"#);
}

#[test]
fn figure_pass_searches_again_from_the_edit() {
    let html = r#"<div class="imageblock"><div class="content"><div class="imageblock"><div class="content">x</div></div></div></div></div></div>"#;
    assert_eq!(
        HtmlProcessor::new().transform_figures(html),
        r#"<figure class="adoc-figure"><figure class="adoc-figure">x</figure></figure>"#
    );
}

#[test]
fn table_pass_leaves_html_without_tables() {
    let html = r#"<div class="x"><div><p>text</p></div></div><ul><li>a</li></ul>"#;
    assert_eq!(HtmlProcessor::new().transform_tables(html), html);
}
