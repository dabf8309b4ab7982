//! Tests of the asciidoctor argument builder and HTML escaping.

use std::collections::HashMap;

use zensical_asciidoctor_backend::config::{Config, SafeMode};
use zensical_asciidoctor_backend::renderer::{html_escape, Renderer};

#[test]
fn test_build_args_default_config() {
    let config = Config::default();
    let renderer = Renderer::new(&config);
    let args = renderer.build_args("test.adoc");

    assert_eq!(args[0], "asciidoctor");
    assert_eq!(args[1], "-b");
    assert_eq!(args[2], "html5");
    assert_eq!(args[3], "-s");
    assert_eq!(args[4], "-o");
    assert_eq!(args[5], "-");
    assert_eq!(args[6], "-S");
    assert_eq!(args[7], "safe");
    // The last argument must always be the file path.
    assert_eq!(args.last().unwrap(), "test.adoc");
}

#[test]
fn test_build_args_custom_safe_mode() {
    let config = Config {
        safe_mode: SafeMode::Unsafe,
        ..Config::default()
    };
    let renderer = Renderer::new(&config);
    let args = renderer.build_args("test.adoc");

    assert_eq!(args[7], "unsafe");
}

#[test]
fn test_build_args_with_attributes() {
    let config = Config {
        attributes: HashMap::from([(
            String::from("imagesdir"),
            String::from("images"),
        )]),
        ..Config::default()
    };
    let renderer = Renderer::new(&config);
    let args = renderer.build_args("test.adoc");

    assert!(
        args.windows(2)
            .any(|w| w[0] == "-a" && w[1] == "imagesdir=images"),
        "expected -a imagesdir=images in args: {args:?}"
    );
}

#[test]
fn test_build_args_with_requires() {
    let config = Config {
        requires: vec![String::from("asciidoctor-diagram")],
        ..Config::default()
    };
    let renderer = Renderer::new(&config);
    let args = renderer.build_args("test.adoc");

    assert!(
        args.windows(2)
            .any(|w| w[0] == "-r" && w[1] == "asciidoctor-diagram"),
        "expected -r asciidoctor-diagram in args: {args:?}"
    );
}

#[test]
fn test_build_args_empty_attribute_value() {
    let config = Config {
        attributes: HashMap::from([(String::from("showtitle"), String::new())]),
        ..Config::default()
    };
    let renderer = Renderer::new(&config);
    let args = renderer.build_args("test.adoc");

    assert!(
        args.windows(2)
            .any(|w| w[0] == "-a" && w[1] == "showtitle"),
        "expected -a showtitle (without =) in args: {args:?}"
    );
    // Make sure it does NOT contain "showtitle=".
    assert!(
        !args.iter().any(|a| a == "showtitle="),
        "empty-valued attribute must not produce 'showtitle='"
    );
}

#[test]
fn test_html_escape() {
    assert_eq!(
        html_escape("<script>alert(\"xss\")&</script>"),
        "&lt;script&gt;alert(&quot;xss&quot;)&amp;&lt;/script&gt;"
    );
}
