//! Content-extraction and cleaning core for crawled HTML pages.
//!
//! Given raw markup fetched from a page, this library produces a cleaned
//! document suitable for markdown conversion, structured page metadata,
//! harvested link and image URLs, and post-processed markdown text.
//! Boilerplate (navigation, ads, cookie banners) is pruned while copyright,
//! license and photo-credit content is preserved.

pub mod api;
pub mod attribution;
pub mod attrs;
pub mod bridge;
pub mod dom;
pub mod errors;
pub mod images;
pub mod links;
pub mod markdown;
pub mod meta;
pub mod query;
pub mod selector;
pub mod serialize;
pub mod srcset;
pub mod text;
pub mod transform;
pub mod urlres;

pub use api::{extract_base_href, get_inner_json};
pub use attrs::{
    extract_attributes, AttributeSelector, ExtractAttributesOptions, ExtractedAttributeResult,
};
pub use errors::ExtractError;
pub use images::extract_images;
pub use links::extract_links;
pub use markdown::{post_process_markdown, remove_skip_to_content_links};
pub use meta::{extract_metadata, Metadata, MetaValue};
pub use transform::{transform_html, TransformHtmlOptions};
