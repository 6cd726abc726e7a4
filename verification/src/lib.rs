//! Extraction of top-level tagged blocks from a document that mixes several
//! embedded languages inside named sections, such as a `template`, a `script`
//! and a `style` section in one file.
//!
//! A block is delimited by a start tag `<name ...>` and the matching end tag
//! `</name>`. Tags of the same name may nest inside the block's content; the
//! scanner counts same-named start/end pairs as depth and stops at the end
//! tag that closes the outermost level, not at the first one in the text.

pub mod chars;
pub mod scan;
pub mod tag;
pub mod content;
pub mod block;

pub use block::parse_block;
pub use block::Block;
pub use content::parse_tag_content;
pub use tag::parse_attribute;
pub use tag::parse_attribute_name;
pub use tag::parse_end_tag;
pub use tag::parse_start_tag;
pub use tag::ParseFailure;
pub use tag::StartTag;
