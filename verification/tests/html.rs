//! Tests of the HTML post-processor and its helpers.

use zensical_asciidoctor_backend::html::{slugify, HtmlProcessor};
use zensical_asciidoctor_backend::paths::{file_stem, normalize_path, parent_path, relative_path};

fn processor() -> HtmlProcessor {
    HtmlProcessor::new()
}

// -- Metadata tests -----------------------------------------------------

#[test]
fn test_extract_meta_title() {
    let html = r#"<h1 class="sect0">My Document Title</h1><p>body</p>"#;
    let proc = processor();
    let result = proc.process(html, None);
    assert_eq!(result.meta.title, Some("My Document Title".to_string()));
}

#[test]
fn test_extract_meta_description() {
    let html = r#"<meta name="description" content="A great doc"><h2 id="intro">Intro</h2>"#;
    let proc = processor();
    let result = proc.process(html, None);
    assert_eq!(result.meta.description, Some("A great doc".to_string()));
}

// -- TOC tests ----------------------------------------------------------

#[test]
fn test_toc_from_headings() {
    let html = r#"
        <h2 id="chapter-1">Chapter 1</h2>
        <h3 id="section-1-1">Section 1.1</h3>
        <h3 id="section-1-2">Section 1.2</h3>
        <h2 id="chapter-2">Chapter 2</h2>
    "#;
    let proc = processor();
    let result = proc.process(html, None);

    assert_eq!(result.toc.len(), 2);
    assert_eq!(result.toc[0].title, "Chapter 1");
    assert_eq!(result.toc[0].id, "chapter-1");
    assert_eq!(result.toc[0].level, 2);
    assert_eq!(result.toc[0].children.len(), 2);
    assert_eq!(result.toc[0].children[0].title, "Section 1.1");
    assert_eq!(result.toc[0].children[0].id, "section-1-1");
    assert_eq!(result.toc[0].children[0].level, 3);
    assert_eq!(result.toc[0].children[1].title, "Section 1.2");
    assert_eq!(result.toc[1].title, "Chapter 2");
    assert_eq!(result.toc[1].children.len(), 0);
}

#[test]
fn test_toc_generates_id_when_missing() {
    let html = r#"<h2>My Heading Without ID</h2>"#;
    let proc = processor();
    let result = proc.process(html, None);

    assert_eq!(result.toc.len(), 1);
    assert_eq!(result.toc[0].id, "my-heading-without-id");
    assert_eq!(result.toc[0].title, "My Heading Without ID");
}

#[test]
fn test_sect0_excluded_from_toc() {
    let html = r#"
        <h1 class="sect0">Document Title</h1>
        <h2 id="intro">Introduction</h2>
    "#;
    let proc = processor();
    let result = proc.process(html, None);

    assert_eq!(result.toc.len(), 1);
    assert_eq!(result.toc[0].title, "Introduction");
}

// -- Slugify tests ------------------------------------------------------

#[test]
fn test_slugify() {
    assert_eq!(slugify("Hello World"), "hello-world");
    assert_eq!(slugify("  My Heading  "), "my-heading");
    assert_eq!(slugify("CamelCase Title"), "camelcase-title");
    assert_eq!(slugify("with_underscores"), "with-underscores");
    assert_eq!(slugify("special!@#chars"), "specialchars");
    assert_eq!(slugify("multiple   spaces"), "multiple-spaces");
    assert_eq!(slugify("already-slugged"), "already-slugged");
}

// -- Admonition tests ---------------------------------------------------

#[test]
fn test_transform_admonition_note() {
    let html = r#"<div class="admonitionblock note">
<table><tbody><tr><td class="icon"><div class="title">Note</div></td>
<td class="content">This is a note.</td></tr></tbody></table></div>"#;

    let proc = processor();
    let result = proc.process(html, None);

    assert!(
        result.html.contains("class=\"admonition note\""),
        "Expected 'admonition note' class, got: {}",
        result.html
    );
    assert!(result.html.contains("class=\"admonition-title\""));
    assert!(result.html.contains("Note"));
    assert!(result.html.contains("This is a note."));
    assert!(!result.html.contains("admonitionblock"));
}

#[test]
fn test_transform_admonition_caution_maps_to_warning() {
    let html = r#"<div class="admonitionblock caution">
<table><tbody><tr><td class="icon"><div class="title">Caution</div></td>
<td class="content">Be careful!</td></tr></tbody></table></div>"#;

    let proc = processor();
    let result = proc.process(html, None);

    assert!(result.html.contains("class=\"admonition warning\""));
    assert!(result.html.contains("Caution"));
}

#[test]
fn test_transform_admonition_important_maps_to_danger() {
    let html = r#"<div class="admonitionblock important">
<table><tbody><tr><td class="icon"><div class="title">Important</div></td>
<td class="content">Critical info!</td></tr></tbody></table></div>"#;

    let proc = processor();
    let result = proc.process(html, None);

    assert!(result.html.contains("class=\"admonition danger\""));
    assert!(result.html.contains("Important"));
}

// -- Callout tests ------------------------------------------------------

#[test]
fn test_transform_callout_list() {
    let html = r#"<div class="colist"><table>
<tr><td>1</td><td>First item</td></tr>
<tr><td>2</td><td>Second item</td></tr>
</table></div>"#;

    let proc = processor();
    let result = proc.process(html, None);

    assert!(
        result.html.contains("<ol class=\"colist\">"),
        "Expected ol.colist, got: {}",
        result.html
    );
    assert!(result.html.contains("<li>First item</li>"));
    assert!(result.html.contains("<li>Second item</li>"));
    assert!(result.html.contains("</ol>"));
    assert!(!result.html.contains("<table>"));
}

#[test]
fn test_clean_callout_markers() {
    let html = r#"<span class="conum" data-value="1"></span>(1)
<span class="conum" data-value="2"></span> (2)"#;

    let proc = processor();
    let result = proc.process(html, None);

    assert!(!result.html.contains("(1)"));
    assert!(!result.html.contains("(2)"));
    assert!(result.html.contains("conum"));
}

// -- Code block tests ---------------------------------------------------

#[test]
fn test_transform_code_block_rouge_to_zensical() {
    let html = r#"<pre class="rouge highlight"><code data-lang="rust"><span class="k">use</span> <span class="nn">std</span>;</code></pre>"#;
    let proc = processor();
    let result = proc.process(html, None);

    assert!(
        result.html.contains(r#"class="language-rust highlight""#),
        "Expected language-rust wrapper, got: {}",
        result.html
    );
    assert!(
        !result.html.contains(r#"class="rouge highlight""#),
        "Rouge wrapper should be removed"
    );
    assert!(
        result.html.contains(r#"<span class="k">use</span>"#),
        "Highlighted spans should be preserved"
    );
}

#[test]
fn test_transform_code_block_preserves_non_rouge() {
    let html = r#"<pre><code>plain code</code></pre>"#;
    let proc = processor();
    let result = proc.process(html, None);

    assert!(
        result.html.contains("<pre><code>plain code</code></pre>"),
        "Non-Rouge code blocks should be unchanged"
    );
}

// -- Table tests --------------------------------------------------------

#[test]
fn test_transform_table_wraps_with_typeset() {
    let html = r#"<table class="tableblock"><tr><td>cell</td></tr></table>"#;

    let proc = processor();
    let result = proc.process(html, None);

    assert!(
        result.html.contains("class=\"md-typeset__table\""),
        "Expected md-typeset__table wrapper, got: {}",
        result.html
    );
    assert!(
        !result.html.contains("tableblock"),
        "Asciidoctor tableblock classes should be stripped"
    );
}

#[test]
fn test_transform_table_moves_title_to_caption() {
    let html = r#"<div class="tableblock">
<div class="title">Table 1. My Table</div>
<table class="tableblock"><tr><td>data</td></tr></table>
</div>"#;

    let proc = processor();
    let result = proc.process(html, None);

    assert!(
        result.html.contains("<caption>Table 1. My Table</caption>"),
        "Expected caption, got: {}",
        result.html
    );
    assert!(result.html.contains("md-typeset__table"));
    assert!(
        !result
            .html
            .contains(r#"<div class="title">Table 1. My Table</div>"#)
    );
}

// -- Figure tests -------------------------------------------------------

#[test]
fn test_transform_figure() {
    let html = r#"<div class="imageblock">
<div class="content"><img src="image.png" alt="photo"></div>
<div class="title">Figure 1. A nice photo</div>
</div>"#;

    let proc = processor();
    let result = proc.process(html, None);

    assert!(
        result.html.contains("<figure class=\"adoc-figure\">"),
        "Expected figure.adoc-figure, got: {}",
        result.html
    );
    assert!(
        result
            .html
            .contains("<figcaption>Figure 1. A nice photo</figcaption>")
    );
    assert!(result.html.contains("<img"));
    assert!(!result.html.contains("imageblock"));
}

#[test]
fn test_transform_figure_without_title() {
    let html = r#"<div class="imageblock">
<div class="content"><img src="image.png" alt="photo"></div>
</div>"#;

    let proc = processor();
    let result = proc.process(html, None);

    assert!(
        result.html.contains("<figure class=\"adoc-figure\">"),
        "Expected figure.adoc-figure, got: {}",
        result.html
    );
    assert!(!result.html.contains("<figcaption>"));
    assert!(result.html.contains("<img"));
}

// -- Xref URL tests -----------------------------------------------------

#[test]
fn test_xref_adoc_to_trailing_slash() {
    let html = r#"<a href="page.adoc">Link</a>"#;
    let proc = processor();
    let result = proc.process(html, None);

    assert!(result.html.contains(r#"href="page/""#));
}

#[test]
fn test_xref_preserves_fragment() {
    let html = r#"<a href="page.adoc#section">Link</a>"#;
    let proc = processor();
    let result = proc.process(html, None);

    assert!(result.html.contains(r#"href="page/#section""#));
}

#[test]
fn test_xref_absolute_url_unchanged() {
    let html = r#"<a href="https://example.com/page">Link</a>"#;
    let proc = processor();
    let result = proc.process(html, None);

    assert!(result.html.contains(r#"href="https://example.com/page""#));
}

#[test]
fn test_xref_fragment_only_unchanged() {
    let html = r##"<a href="#section">Link</a>"##;
    let proc = processor();
    let result = proc.process(html, None);

    assert!(result.html.contains(r##"href="#section""##));
}

#[test]
fn test_xref_html_extension_to_trailing_slash() {
    let html = r#"<a href="other.html">Link</a>"#;
    let proc = processor();
    let result = proc.process(html, None);

    assert!(result.html.contains(r#"href="other/""#));
}

// -- Helper function tests ----------------------------------------------

#[test]
fn test_parent_path() {
    assert_eq!(parent_path("a/b/c.txt"), "a/b");
    assert_eq!(parent_path("file.txt"), "");
    assert_eq!(parent_path(""), "");
}

#[test]
fn test_file_stem() {
    assert_eq!(file_stem("a/b/page.adoc"), "page");
    assert_eq!(file_stem("index.html"), "index");
    assert_eq!(file_stem("noext"), "noext");
}

#[test]
fn test_normalize_path() {
    assert_eq!(normalize_path("a/b/../c"), "a/c");
    assert_eq!(normalize_path("a/./b/c"), "a/b/c");
    assert_eq!(normalize_path("a/b/../../c"), "c");
    assert_eq!(normalize_path("a/b/c"), "a/b/c");
}

#[test]
fn test_relative_path() {
    assert_eq!(relative_path("a/b", "a"), "b");
    assert_eq!(relative_path("a/b", "c"), "../a/b");
    assert_eq!(relative_path("a", "a/b"), "..");
    assert_eq!(relative_path("x", ""), "x");
}
