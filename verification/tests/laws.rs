//! Concrete instances of the library's laws.

use zensical_asciidoctor_backend::blocks::find_matching_close_div;
use zensical_asciidoctor_backend::config::Config;
use zensical_asciidoctor_backend::html::{HtmlProcessor, TocEntry};
use zensical_asciidoctor_backend::paths::{normalize_path, relative_path};
use zensical_asciidoctor_backend::renderer::{html_escape, Renderer};
use zensical_asciidoctor_backend::xref::rewrite_href;

fn flatten(entries: &[TocEntry], out: &mut Vec<(u8, String)>) {
    for e in entries {
        out.push((e.level, e.title.clone()));
        flatten(&e.children, out);
    }
}

fn check_nested(entries: &[TocEntry], lo: i32) {
    for e in entries {
        assert!(i32::from(e.level) > lo);
        check_nested(&e.children, i32::from(e.level));
    }
}

#[test]
fn law_toc_lists_headings_in_order() {
    let html = r#"<h1>Doc</h1><h2 id="a">A</h2><h4 id="b">B</h4><h3 id="c">C</h3><h2 id="d">D</h2><h3 id="e">E</h3>"#;
    let result = HtmlProcessor::new().process(html, None);
    let mut flat = Vec::new();
    flatten(&result.toc, &mut flat);
    let expected: Vec<(u8, String)> = vec![
        (1, "Doc".to_string()),
        (2, "A".to_string()),
        (4, "B".to_string()),
        (3, "C".to_string()),
        (2, "D".to_string()),
        (3, "E".to_string()),
    ];
    assert_eq!(flat, expected);
    check_nested(&result.toc, -1);
    assert_eq!(result.toc.len(), 1);
    let doc = &result.toc[0].children;
    assert_eq!(doc.len(), 2);
    assert_eq!(doc[0].children.len(), 2);
    assert_eq!(doc[0].children[0].title, "B");
    assert_eq!(doc[0].children[1].title, "C");
}

#[test]
fn law_toc_shallower_heading_starts_new_root() {
    let html = r#"<h3 id="x">X</h3><h2 id="y">Y</h2>"#;
    let result = HtmlProcessor::new().process(html, None);
    assert_eq!(result.toc.len(), 2);
    assert_eq!(result.toc[0].level, 3);
    assert_eq!(result.toc[1].level, 2);
}

#[test]
fn law_normalize_is_idempotent() {
    for p in ["a/./b/../../c/d/", "../x//y", "", "/a/b", "a/b/c/..", "./."] {
        let once = normalize_path(p);
        assert_eq!(normalize_path(&once), once);
    }
    assert_eq!(normalize_path("a/./b/../../c/d/"), "c/d");
    assert_eq!(normalize_path("../x//y"), "x/y");
}

#[test]
fn law_relative_path_resolves_back() {
    let cases = [("a/b", "a"), ("a/b", "c"), ("a", "a/b"), ("x/y/z", "x/q/r"), ("a/b", "a/b"), ("", "p/q")];
    for (to, from) in cases {
        let rel = relative_path(to, from);
        assert_eq!(normalize_path(&format!("{from}/{rel}")), to, "to={to} from={from} rel={rel}");
    }
    assert_eq!(relative_path("a/b", "a/b"), ".");
    assert_eq!(relative_path("x/y/z", "x/q/r"), "../../y/z");
    assert_eq!(relative_path("", "p/q"), "../..");
}

#[test]
fn law_escape_removes_markup() {
    let escaped = html_escape("<a href=\"x\">&</a>");
    assert!(!escaped.contains('<') && !escaped.contains('>') && !escaped.contains('"'));
    assert_eq!(escaped, "&lt;a href=&quot;x&quot;&gt;&amp;&lt;/a&gt;");
}

#[test]
fn law_args_shape_default_config() {
    let renderer = Renderer::new(&Config::default());
    let args = renderer.build_args("test.adoc");
    let expected = [
        "asciidoctor", "-b", "html5", "-s", "-o", "-", "-S", "safe", "-a", "sectanchors", "-a",
        "showtitle", "-a", "source-highlighter=rouge", "test.adoc",
    ];
    assert_eq!(args, expected);
}

#[test]
fn law_rewrite_keeps_fragment() {
    assert_eq!(rewrite_href("page.html?x=1#y", None), "page/?x=1#y");
    assert_eq!(rewrite_href("a/b.adoc#s#t", Some("guide/p.adoc")), "../a/b/#s#t");
}

#[test]
fn law_splice_identity_without_matches() {
    let html = "<p>nothing to change here</p>";
    let result = HtmlProcessor::new().process(html, None);
    assert_eq!(result.html, html);
}

#[test]
fn law_page_link_resolves_to_target() {
    // (link, page, directory URL of the page, source directory of the page, expected link)
    let cases = [
        ("other.adoc", "guides/install.adoc", "guides/install", "guides", "../other/"),
        ("../ref.adoc", "guides/index.adoc", "guides", "guides", "../ref/"),
        ("sub/deep.html", "a/b/c.adoc", "a/b/c", "a/b", "../sub/deep/"),
        ("x.adoc", "top.adoc", "top", "", "../x/"),
        ("x.adoc", "index.adoc", "", "", "x/"),
    ];
    for (link, page, url_dir, src_dir, expected) in cases {
        let rewritten = rewrite_href(link, Some(page));
        assert_eq!(rewritten, expected);
        let converted = rewrite_href(link, None);
        let followed = normalize_path(&format!("{url_dir}/{rewritten}"));
        let target = normalize_path(&format!("{src_dir}/{converted}"));
        assert_eq!(followed, target, "link={link} page={page}");
    }
}

#[test]
fn law_attribute_order_is_unique() {
    let keys = ["toc", "icons", "imagesdir", "sectnums", "experimental", "b", "a"];
    let forward: std::collections::HashMap<String, String> =
        keys.iter().map(|k| (k.to_string(), format!("v-{k}"))).collect();
    let backward: std::collections::HashMap<String, String> =
        keys.iter().rev().map(|k| (k.to_string(), format!("v-{k}"))).collect();
    let a = Renderer::new(&Config { attributes: forward, ..Config::default() }).build_args("f.adoc");
    let b = Renderer::new(&Config { attributes: backward, ..Config::default() }).build_args("f.adoc");
    assert_eq!(a, b);
    let settings: Vec<&String> = a.iter().skip(9).step_by(2).take(keys.len()).collect();
    let mut sorted = settings.clone();
    sorted.sort();
    assert_eq!(settings, sorted);
    assert_eq!(settings[0], "a=v-a");
}

fn parents(entries: &[TocEntry], parent: i64, out: &mut Vec<(u8, i64)>) {
    for e in entries {
        let idx = out.len() as i64;
        out.push((e.level, parent));
        parents(&e.children, idx, out);
    }
}

#[test]
fn law_toc_parent_is_nearest_lower() {
    let html = r#"<h3 id="a">A</h3><h2 id="b">B</h2><h4 id="c">C</h4><h3 id="d">D</h3><h5 id="e">E</h5><h2 id="f">F</h2><h6 id="g">G</h6>"#;
    let result = HtmlProcessor::new().process(html, None);
    let mut flat = Vec::new();
    parents(&result.toc, -1, &mut flat);
    assert_eq!(flat.len(), 7);
    for j in 0..flat.len() {
        let nearest = (0..j).rev().find(|&i| flat[i].0 < flat[j].0).map_or(-1, |i| i as i64);
        assert_eq!(flat[j].1, nearest, "entry {j}");
    }
    let expected: Vec<i64> = vec![-1, -1, 1, 1, 3, -1, 5];
    assert_eq!(flat.iter().map(|p| p.1).collect::<Vec<_>>(), expected);
}

#[test]
fn law_close_div_is_first_balanced() {
    let html = "<div class=\"a\">x<div>y</div><div/><divx>z</div>tail</div>";
    let start = 15;
    let e = find_matching_close_div(html, start).unwrap();
    assert_eq!(&html[e - 6..e], "</div>");
    let inner = &html[start..e - 6];
    assert_eq!(inner.matches("</div>").count(), 1);
    assert_eq!(inner, "x<div>y</div><div/><divx>z");
    assert_eq!(find_matching_close_div("x<div>y</div>", 0), None);
}
