//! End-to-end transform behaviour.

use html_extract::{transform_html, ExtractError, TransformHtmlOptions};

fn opts(html: &str, only_main: bool) -> TransformHtmlOptions {
    TransformHtmlOptions {
        html: html.to_string(),
        url: "https://example.com".to_string(),
        include_tags: vec![],
        exclude_tags: vec![],
        only_main_content: only_main,
        omce_signatures: None,
    }
}

#[test]
fn transform_preserves_attribution_footer_removes_nav() {
    let html = r#"<html><body>
      <nav><a href="/home">Home</a><a href="/about">About</a></nav>
      <main><h1>Hello World</h1><p>Content here</p></main>
      <footer>© 2024 Test Company. All Rights Reserved.</footer>
    </body></html>"#;

    let result = transform_html(&opts(html, true)).unwrap();

    assert!(result.contains("© 2024 Test Company"));
    assert!(result.contains("All Rights Reserved"));
    assert!(!result.contains("Home</a>"));
    assert!(!result.contains("About</a>"));
}

#[test]
fn transform_strips_noise_siblings_keeps_attribution() {
    let html = r#"<html><body>
      <main><h1>Hello World</h1></main>
      <footer>
        <div class="copyright">© 2024 Test Company</div>
        <div class="social-links"><a href="https://twitter.com">Twitter</a><a href="https://github.com">GitHub</a></div>
        <div class="sitemap"><a href="/sitemap">Sitemap</a></div>
      </footer>
    </body></html>"#;

    let result = transform_html(&opts(html, true)).unwrap();

    assert!(result.contains("© 2024 Test Company"));
    assert!(!result.contains("Twitter"));
    assert!(!result.contains("GitHub"));
    assert!(!result.contains("Sitemap"));
}

#[test]
fn transform_strips_nested_noise_keeps_nested_attribution() {
    let html = r#"<html><body>
      <main><h1>Content</h1></main>
      <footer>
        <div class="footer-inner">
          <div class="copyright-wrapper"><span>© 2024 Corp</span></div>
          <div class="social"><a href="/tw">Twitter</a></div>
          <div class="newsletter"><form>Subscribe</form></div>
        </div>
      </footer>
    </body></html>"#;

    let result = transform_html(&opts(html, true)).unwrap();

    assert!(result.contains("© 2024 Corp"));
    assert!(!result.contains("Twitter"));
    assert!(!result.contains("Subscribe"));
}

#[test]
fn transform_removes_footer_without_attribution() {
    let html = r#"<html><body>
      <main><h1>Hello World</h1></main>
      <footer><a href="/sitemap">Sitemap</a></footer>
    </body></html>"#;

    let result = transform_html(&opts(html, true)).unwrap();

    assert!(!result.contains("Sitemap"));
}

#[test]
fn transform_no_strip_when_only_main_content_false() {
    let html = r#"<html><body>
      <nav><a href="/home">Home</a></nav>
      <main><h1>Hello World</h1></main>
      <footer><a href="/sitemap">Sitemap</a></footer>
    </body></html>"#;

    let result = transform_html(&opts(html, false)).unwrap();

    assert!(result.contains("Home"));
    assert!(result.contains("Hello World"));
    assert!(result.contains("Sitemap"));
}

#[test]
fn transform_rejects_invalid_page_url() {
    let r = transform_html(&TransformHtmlOptions {
        html: "<p>x</p>".to_string(),
        url: "not a url".to_string(),
        include_tags: vec![],
        exclude_tags: vec![],
        only_main_content: false,
        omce_signatures: None,
    });
    assert!(matches!(r, Err(ExtractError::UrlParse)));
}

#[test]
fn transform_rejects_invalid_include_selector() {
    let r = transform_html(&TransformHtmlOptions {
        html: "<p>x</p>".to_string(),
        url: "https://example.com".to_string(),
        include_tags: vec!["[[".to_string()],
        exclude_tags: vec![],
        only_main_content: false,
        omce_signatures: None,
    });
    assert!(matches!(r, Err(ExtractError::Selector)));
}

#[test]
fn transform_include_tags_keep_only_matches() {
    let html = r#"<html><body><nav>Menu</nav><main><p>Keep me</p></main></body></html>"#;
    let result = transform_html(&TransformHtmlOptions {
        html: html.to_string(),
        url: "https://example.com".to_string(),
        include_tags: vec!["main".to_string()],
        exclude_tags: vec![],
        only_main_content: false,
        omce_signatures: None,
    })
    .unwrap();
    assert!(result.contains("Keep me"));
    assert!(!result.contains("Menu"));
}

#[test]
fn transform_exclude_tags_remove_matches() {
    let html = r#"<html><body><p class="x">Gone</p><p>Stays</p></body></html>"#;
    let result = transform_html(&TransformHtmlOptions {
        html: html.to_string(),
        url: "https://example.com".to_string(),
        include_tags: vec![],
        exclude_tags: vec![".x".to_string()],
        only_main_content: false,
        omce_signatures: None,
    })
    .unwrap();
    assert!(!result.contains("Gone"));
    assert!(result.contains("Stays"));
}

#[test]
fn transform_srcset_picks_largest_descriptor() {
    let html = r#"<html><body><img srcset="small.jpg 1x, big.jpg 2x" src="orig.jpg"></body></html>"#;
    let result = transform_html(&opts(html, false)).unwrap();
    assert!(result.contains(r#"src="https://example.com/big.jpg""#));
}

#[test]
fn transform_srcset_width_descriptors() {
    let html = r#"<html><body><img srcset="a.jpg 480w, b.jpg 1024w, c.jpg 720w" src="orig.jpg"></body></html>"#;
    let result = transform_html(&opts(html, false)).unwrap();
    assert!(result.contains(r#"src="https://example.com/b.jpg""#));
}

#[test]
fn transform_srcset_density_fallback_to_src() {
    // all descriptors are densities at most 1x, so the plain src (an
    // implicit 1x) stays the winner as the first maximal candidate
    let html = r#"<html><body><img srcset="tiny.jpg 0.5x" src="orig.jpg"></body></html>"#;
    let result = transform_html(&opts(html, false)).unwrap();
    assert!(result.contains(r#"src="https://example.com/orig.jpg""#));
}

#[test]
fn transform_absolutizes_links_and_keeps_absolute_ones() {
    let html =
        r#"<html><body><a href="/page">rel</a><a href="https://other.net/x">abs</a></body></html>"#;
    let result = transform_html(&opts(html, false)).unwrap();
    assert!(result.contains(r#"href="https://example.com/page""#));
    assert!(result.contains(r#"href="https://other.net/x""#));
}

#[test]
fn transform_respects_base_href() {
    let html = r#"<html><head><base href="/sub/"></head><body><a href="x.html">go</a></body></html>"#;
    let result = transform_html(&opts(html, false)).unwrap();
    assert!(result.contains(r#"href="https://example.com/sub/x.html""#));
}

#[test]
fn transform_omce_signature_prunes_matching_block() {
    // compute the fingerprint shape the pipeline itself uses: a deny entry
    // whose mode is "m" and whose encoding names a div with class "promo"
    let html = r#"<html><body><main><p>Keep</p></main><div class="promo">Ad text</div></body></html>"#;
    let sig = "sig:m:(div|promo)".to_string();
    let result = transform_html(&TransformHtmlOptions {
        html: html.to_string(),
        url: "https://example.com".to_string(),
        include_tags: vec![],
        exclude_tags: vec![],
        only_main_content: true,
        omce_signatures: Some(vec![sig]),
    })
    .unwrap();
    assert!(result.contains("Keep"));
    assert!(!result.contains("Ad text"));
}

#[test]
fn transform_rejects_invalid_exclude_selector() {
    let r = transform_html(&TransformHtmlOptions {
        html: "<p>x</p>".to_string(),
        url: "https://example.com".to_string(),
        include_tags: vec![],
        exclude_tags: vec!["[[".to_string()],
        only_main_content: false,
        omce_signatures: None,
    });
    assert!(matches!(r, Err(ExtractError::Selector)));
}
