//! Links, metadata, images, attributes, inner text, base href, markdown.

use html_extract::attrs::{AttributeSelector, ExtractAttributesOptions};
use html_extract::bridge::parse_document;
use html_extract::dom::Document;
use html_extract::meta::MetaValue;
use html_extract::{
    extract_attributes, extract_base_href, extract_images, extract_links, extract_metadata,
    get_inner_json, post_process_markdown, remove_skip_to_content_links, ExtractError,
};

#[test]
fn links_repairs_single_slash_http() {
    let html = r#"<a href="http:/example.com">x</a>"#;
    let links = extract_links(Some(html));
    assert_eq!(links, vec!["http://example.com".to_string()]);
}

#[test]
fn links_repairs_single_slash_https() {
    let html = r#"<a href="https:/x">x</a>"#;
    let links = extract_links(Some(html));
    assert_eq!(links, vec!["https://x".to_string()]);
}

#[test]
fn links_pass_correct_urls_through() {
    let html = r#"<a href="https://example.com/a">x</a><a href="/rel">y</a>"#;
    let links = extract_links(Some(html));
    assert_eq!(
        links,
        vec!["https://example.com/a".to_string(), "/rel".to_string()]
    );
}

#[test]
fn links_empty_input_gives_empty_list() {
    assert_eq!(extract_links(None).len(), 0);
}

#[test]
fn markdown_removes_skip_link() {
    let out = post_process_markdown("[Skip to Content](#main)\nRest");
    assert_eq!(out, "\nRest");
}

#[test]
fn markdown_escapes_newline_inside_label() {
    let out = post_process_markdown("[a\nb](url)");
    assert_eq!(out, "[a\\\nb](url)");
}

#[test]
fn markdown_leaves_plain_text_alone() {
    let out = post_process_markdown("plain\ntext [link](x) end");
    assert_eq!(out, "plain\ntext [link](x) end");
}

#[test]
fn markdown_skip_link_case_insensitive() {
    let out = remove_skip_to_content_links("a [SKIP TO CONTENT](#top) b");
    assert_eq!(out, "a  b");
}

#[test]
fn markdown_keeps_non_fragment_skip_link() {
    let s = "[Skip to Content](https://x/main)";
    assert_eq!(remove_skip_to_content_links(s), s);
}

#[test]
fn metadata_two_descriptions_join() {
    let html = r#"<head><meta name="description" content="a"><meta name="description" content="b"></head>"#;
    let m = extract_metadata(Some(html));
    let key: Vec<char> = "description".chars().collect();
    match m.get(&key) {
        Some(MetaValue::One(s)) => assert_eq!(s, "a, b"),
        _ => panic!("description should be one joined string"),
    }
}

#[test]
fn metadata_repeated_key_becomes_array() {
    let html = r#"<head><meta name="keywords" content="a"><meta name="keywords" content="b"></head>"#;
    let m = extract_metadata(Some(html));
    let key: Vec<char> = "keywords".chars().collect();
    match m.get(&key) {
        Some(MetaValue::Many(v)) => assert_eq!(v, &vec!["a".to_string(), "b".to_string()]),
        _ => panic!("keywords should be an array"),
    }
}

#[test]
fn metadata_locale_alternate_accumulates() {
    let html = r#"<head><meta property="og:locale:alternate" content="fr_FR"><meta property="og:locale:alternate" content="de_DE"></head>"#;
    let m = extract_metadata(Some(html));
    let key: Vec<char> = "ogLocaleAlternate".chars().collect();
    match m.get(&key) {
        Some(MetaValue::Many(v)) => {
            assert_eq!(v, &vec!["fr_FR".to_string(), "de_DE".to_string()])
        },
        _ => panic!("ogLocaleAlternate should be an array"),
    }
}

#[test]
fn metadata_title_and_language() {
    let html = r#"<html lang="en"><head><title>My Page</title></head><body></body></html>"#;
    let m = extract_metadata(Some(html));
    let title: Vec<char> = "title".chars().collect();
    match m.get(&title) {
        Some(MetaValue::One(s)) => assert_eq!(s, "My Page"),
        _ => panic!("title missing"),
    }
    let lang: Vec<char> = "language".chars().collect();
    match m.get(&lang) {
        Some(MetaValue::One(s)) => assert_eq!(s, "en"),
        _ => panic!("language missing"),
    }
}

#[test]
fn metadata_title_fallback_from_og_title() {
    let html = r#"<head><meta property="og:title" content="OG Title"></head>"#;
    let m = extract_metadata(Some(html));
    let title: Vec<char> = "title".chars().collect();
    match m.get(&title) {
        Some(MetaValue::One(s)) => assert_eq!(s, "OG Title"),
        _ => panic!("title fallback missing"),
    }
}

#[test]
fn metadata_empty_input_gives_empty_map() {
    let m = extract_metadata(None);
    assert_eq!(m.entries.len(), 0);
}

#[test]
fn images_collects_and_resolves() {
    let html = r#"<html><body>
      <img src="/a.png">
      <img data-src="b.png">
      <meta property="og:image" content="https://cdn.example.net/c.png">
    </body></html>"#;
    let imgs = extract_images(html, "https://example.com/dir/").unwrap();
    assert!(imgs.contains(&"https://example.com/a.png".to_string()));
    assert!(imgs.contains(&"https://example.com/dir/b.png".to_string()));
    assert!(imgs.contains(&"https://cdn.example.net/c.png".to_string()));
}

#[test]
fn images_deduplicates_and_filters() {
    let html = r#"<html><body>
      <img src="https://example.com/a.png">
      <img src="https://example.com/a.png">
      <img src="javascript:alert(1)">
    </body></html>"#;
    let imgs = extract_images(html, "https://example.com").unwrap();
    assert_eq!(
        imgs.iter()
            .filter(|u| u.as_str() == "https://example.com/a.png")
            .count(),
        1
    );
    assert!(imgs.iter().all(|u| !u.starts_with("javascript:")));
}

#[test]
fn images_reads_style_backgrounds_and_srcset() {
    let html = r#"<html><body>
      <div style="background: url('/bg.png')">x</div>
      <img srcset="/s1.png 1x, /s2.png 2x">
      <video poster="/p.png"></video>
    </body></html>"#;
    let imgs = extract_images(html, "https://example.com").unwrap();
    assert!(imgs.contains(&"https://example.com/bg.png".to_string()));
    assert!(imgs.contains(&"https://example.com/s1.png".to_string()));
    assert!(imgs.contains(&"https://example.com/s2.png".to_string()));
    assert!(imgs.contains(&"https://example.com/p.png".to_string()));
}

#[test]
fn images_protocol_relative_joins_page_url() {
    let html = r#"<img src="//cdn.example.net/x.png">"#;
    let imgs = extract_images(html, "https://example.com").unwrap();
    assert!(imgs.contains(&"https://cdn.example.net/x.png".to_string()));
}

#[test]
fn images_bad_url_is_error() {
    assert!(matches!(
        extract_images("<img src='/x.png'>", "nope"),
        Err(ExtractError::UrlParse)
    ));
}

#[test]
fn attributes_direct_and_data_fallback() {
    let html = r#"<div id="a" title="T">x</div><div id="b" data-title="D">y</div>"#;
    let r = extract_attributes(
        html,
        &ExtractAttributesOptions {
            selectors: vec![AttributeSelector {
                selector: "div".to_string(),
                attribute: "title".to_string(),
            }],
        },
    );
    assert_eq!(r.len(), 1);
    assert_eq!(r[0].selector, "div");
    assert_eq!(r[0].attribute, "title");
    assert_eq!(r[0].values, vec!["T".to_string(), "D".to_string()]);
}

#[test]
fn attributes_invalid_selector_yields_empty_values() {
    let r = extract_attributes(
        "<div id='a'>x</div>",
        &ExtractAttributesOptions {
            selectors: vec![AttributeSelector {
                selector: "[[".to_string(),
                attribute: "id".to_string(),
            }],
        },
    );
    assert_eq!(r.len(), 1);
    assert_eq!(r[0].values.len(), 0);
}

#[test]
fn inner_text_of_body() {
    let t = get_inner_json("<html><body><p>Hello <b>there</b></p></body></html>").unwrap();
    assert_eq!(t, "Hello there");
}

#[test]
fn inner_text_missing_body_is_error() {
    let doc = Document { children: vec![] };
    assert!(matches!(
        html_extract::api::get_inner_json_doc(&doc),
        Err(ExtractError::MissingElement)
    ));
}

#[test]
fn base_href_defaults_to_page_url() {
    let b = extract_base_href("<p>x</p>", "https://example.com/a/b").unwrap();
    assert_eq!(b, "https://example.com/a/b");
}

#[test]
fn base_href_joins_relative_base() {
    let b = extract_base_href(
        r#"<head><base href="/sub/"></head>"#,
        "https://example.com/a/b",
    )
    .unwrap();
    assert_eq!(b, "https://example.com/sub/");
}

#[test]
fn base_href_bad_url_is_error() {
    assert!(matches!(
        extract_base_href("<p>x</p>", "::"),
        Err(ExtractError::UrlParse)
    ));
}

#[test]
fn base_href_is_idempotent() {
    let once = extract_base_href(r#"<head><base href="dir/"></head>"#, "https://example.com/a/").unwrap();
    let twice = extract_base_href("<p>x</p>", once.as_str()).unwrap();
    assert_eq!(once, twice);
}

#[test]
fn attributes_prefix_suffix_word_dash_operators() {
    let html = r#"<a id="p" href="https://x/a.pdf">1</a><a id="s" href="https://y/b.png">2</a><div id="w" rel="alpha beta">3</div><div id="d" lang="en-US">4</div>"#;
    let get = |sel: &str| {
        let r = extract_attributes(
            html,
            &ExtractAttributesOptions {
                selectors: vec![AttributeSelector {
                    selector: sel.to_string(),
                    attribute: "id".to_string(),
                }],
            },
        );
        r[0].values.clone()
    };
    assert_eq!(get(r#"a[href^="https://x"]"#), vec!["p".to_string()]);
    assert_eq!(get(r#"a[href$=".png"]"#), vec!["s".to_string()]);
    assert_eq!(get(r#"div[rel~="beta"]"#), vec!["w".to_string()]);
    assert_eq!(get(r#"div[lang|="en"]"#), vec!["d".to_string()]);
    // as in CSS, an empty operator value matches nothing
    assert_eq!(get(r#"a[href*=""]"#).len(), 0);
}
