//! **Block elements** form the main structure of an AsciiDoc document.
//!
//! A block element (aka **block**) is a discrete, line-oriented chunk of
//! content in an AsciiDoc document. Certain blocks may contain other blocks,
//! so blocks can be nested.

pub mod section;
pub mod metadata;
pub mod metadata_order;
pub mod break_block;
pub mod layout;
pub mod is_block;
pub mod raw_delimited;
pub mod compound_delimited;
pub mod macro_line;
pub mod media;
pub mod macro_block;
pub mod list_item_marker;
pub mod simple;
pub mod section_title;
pub mod block;
pub mod list;
pub mod list_item;
pub mod parse_utils;
pub mod preamble;

pub use block::Block;
pub use break_block::{Break, BreakType};
pub use compound_delimited::CompoundDelimitedBlock;
pub use is_block::{ContentModel, IsBlock};
pub use list::{ListBlock, ListType};
pub use list_item::ListItem;
pub use list_item_marker::ListItemMarker;
pub use macro_block::MacroBlock;
pub use media::{MediaBlock, MediaType};
pub use preamble::Preamble;
pub use raw_delimited::RawDelimitedBlock;
pub use section::{SectionBlock, SectionNumber};
pub use simple::{SimpleBlock, SimpleBlockStyle};
