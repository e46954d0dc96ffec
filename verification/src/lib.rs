//! What a batch renaming window decides.
//!
//! A renaming engine reads directories, judges new names and carries out renames; a toolkit draws
//! the window. Between the two lies this library: the rule forms and the rules they stand for, the
//! state of the window and what its commands do to it, the preview table with its filter, and the
//! files that the window reads and writes. Every function states what it does, and the modules
//! also state what holds of several of them together.
pub mod bitmap;
pub mod codec;
pub mod filter;
pub mod fonts;
pub mod form;
pub mod mapping;
pub mod panel;
pub mod paths;
pub mod preview;
pub mod rows;
pub mod rule;
pub mod rule_list;
pub mod text;
pub mod tree;
