//! A tree builder for markup documents: a tokenizer turns the document into a
//! stream of start, end and text events, and the builder folds that stream into
//! a tree of [`XMLElement`] nodes, each holding an optional text value and a
//! mapping from child tag name to child element.

pub mod builder;
pub mod element;
pub mod event;
pub mod laws;
pub mod model;

pub use builder::get_next_tag;
pub use builder::parse_xml_content;
pub use element::XMLElement;
pub use event::get_starting_tag;
pub use event::is_ending_tag;
pub use event::Event;
