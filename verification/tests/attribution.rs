//! Attribution detection over parsed markup.

use html_extract::attribution::document_contains_attribution;
use html_extract::bridge::parse_document;

fn detects(html: &str) -> bool {
    let doc = parse_document(html);
    document_contains_attribution(&doc)
}

#[test]
fn detects_copyright_symbol() {
    assert!(detects("<footer>© 2024 Company</footer>"));
}

#[test]
fn detects_html_entity_copyright() {
    assert!(detects("<footer>&copy; 2024 Company</footer>"));
}

#[test]
fn detects_copyright_text() {
    assert!(detects("<div>Copyright 2024 Company Inc.</div>"));
}

#[test]
fn detects_copyright_c() {
    assert!(detects("<div>Copyright (c) Company</div>"));
}

#[test]
fn detects_all_rights_reserved() {
    assert!(detects("<footer>All Rights Reserved</footer>"));
}

#[test]
fn detects_creative_commons_text() {
    assert!(detects("<div>Licensed under Creative Commons</div>"));
}

#[test]
fn detects_cc_by_license() {
    assert!(detects("<div>CC BY-SA 4.0</div>"));
}

#[test]
fn detects_cc0() {
    assert!(detects("<div>CC0 1.0 Universal</div>"));
}

#[test]
fn detects_licensed_under() {
    assert!(detects("<div>Licensed under the MIT License</div>"));
}

#[test]
fn detects_photo_credit() {
    assert!(detects("<aside>Photo by John Doe</aside>"));
}

#[test]
fn detects_image_credit() {
    assert!(detects("<aside>Image credit: Jane Smith</aside>"));
}

#[test]
fn detects_rel_license_link() {
    assert!(detects(
        r#"<footer><a rel="license" href="https://creativecommons.org/licenses/by/4.0/">License</a></footer>"#
    ));
}

#[test]
fn detects_itemprop_copyright_holder() {
    assert!(detects(r#"<footer><span itemprop="copyrightHolder">Company</span></footer>"#));
}

#[test]
fn detects_itemprop_copyright_year() {
    assert!(detects(r#"<footer><span itemprop="copyrightYear">2024</span></footer>"#));
}

#[test]
fn detects_copyright_class() {
    assert!(detects(r#"<div class="site-copyright">Some text</div>"#));
}

#[test]
fn detects_license_class() {
    assert!(detects(r#"<div class="license-info">Some text</div>"#));
}

#[test]
fn no_false_positive_on_plain_nav() {
    assert!(!detects("<nav><a href='/home'>Home</a><a href='/about'>About</a></nav>"));
}

#[test]
fn no_false_positive_on_plain_aside() {
    assert!(!detects("<aside><h3>Related articles</h3><ul><li>Article 1</li></ul></aside>"));
}

#[test]
fn no_false_positive_on_social_links() {
    assert!(!detects(
        r#"<div class="social-links"><a href="https://twitter.com">Twitter</a></div>"#
    ));
}

#[test]
fn detects_standalone_c_year() {
    assert!(detects("<footer>(c) 2024 Company</footer>"));
}

#[test]
fn detects_standalone_c_year_no_space() {
    assert!(detects("<footer>(c)2024 Company</footer>"));
}

#[test]
fn detects_uppercase_c_in_parens() {
    assert!(detects("<footer>(C) 2024 Company</footer>"));
}

#[test]
fn detects_copyright_lowercase() {
    assert!(detects("<footer>copyright 2024 Company</footer>"));
}

#[test]
fn detects_all_rights_reserved_mixed_case() {
    assert!(detects("<footer>all rights reserved</footer>"));
}

#[test]
fn detects_copyright_symbol_no_year() {
    assert!(detects("<footer>© Company Name</footer>"));
}

#[test]
fn detects_cc_by_alone() {
    assert!(detects("<div>CC BY 4.0</div>"));
}

#[test]
fn detects_cc_by_nc_sa() {
    assert!(detects("<div>CC BY-NC-SA 4.0</div>"));
}

#[test]
fn detects_cc_by_nc_nd() {
    assert!(detects("<div>CC BY-NC-ND 4.0</div>"));
}

#[test]
fn detects_cc_by_with_spaces() {
    assert!(detects("<div>CC BY SA 4.0</div>"));
}

#[test]
fn detects_licensed_under_apache() {
    assert!(detects("<footer>Licensed under the Apache License 2.0</footer>"));
}

#[test]
fn detects_photo_by_mid_text() {
    assert!(detects("<aside>Header image: Photo by Jane Doe on Unsplash</aside>"));
}

#[test]
fn detects_attribution_nested_deep() {
    assert!(detects(
        r#"<footer><div class="wrapper"><div class="inner"><span>© 2024 Corp</span></div></div></footer>"#
    ));
}

#[test]
fn detects_creativecommons_org_link() {
    assert!(detects(
        r#"<footer><a href="https://creativecommons.org/licenses/by/4.0/">License</a></footer>"#
    ));
}

#[test]
fn detects_uppercase_copyright_text() {
    assert!(detects("<footer>COPYRIGHT 2024 COMPANY</footer>"));
}

#[test]
fn detects_all_rights_reserved_with_nbsp() {
    assert!(detects("<footer>All\u{a0}Rights Reserved</footer>"));
}
