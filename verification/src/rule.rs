//! The rules that the renaming engine applies.
use crate::mapping::NameMapping;
use vstd::prelude::*;

verus! {

/// The part of a file name that a rule works on.
#[derive(Debug, Clone, Copy, PartialEq, Eq, Structural)]
pub enum Scope {
    /// The whole name.
    Full,
    /// The name without its extension.
    Stem,
    /// The extension.
    Ext,
}

/// A way to change letter case.
#[derive(Debug, Clone, Copy, PartialEq, Eq, Structural)]
pub enum CaseMode {
    Lower,
    Upper,
    Title,
    Capitalize,
}

/// The side on which a sequence number is put.
#[derive(Debug, Clone, Copy, PartialEq, Eq, Structural)]
pub enum NumberPos {
    Prefix,
    Suffix,
}

/// One renaming rule.
#[derive(Debug, PartialEq)]
pub enum Rule {
    Replace { search: String, replace: String, case_sensitive: bool, scope: Scope },
    Regex { pattern: String, replace: String, scope: Scope },
    Case { mode: CaseMode, scope: Scope },
    Prefix { text: String },
    Suffix { text: String },
    Number { pos: NumberPos, start: i64, step: i64, digits: usize, sep: String },
    Ext { text: String },
    Strip { chars: String, scope: Scope },
    Trim { underscore: bool },
    List { mapping: NameMapping },
}

} // verus!
