//! Attribute lists and the element attributes they hold.

pub mod element_attribute;
pub mod attrlist;
