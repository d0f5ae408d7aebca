//! Formatting options, stable preferences of the user.
use vstd::prelude::*;

verus! {

/// The options of the formatter.
#[derive(Debug, Clone, Copy, PartialEq, Eq, Structural)]
pub struct Config {
    /// Spaces per indentation level.
    pub tab_spaces: usize,
    /// The width a line should not exceed.
    pub max_width: usize,
    /// The most blank lines kept in a row.
    pub blank_lines_upper_bound: usize,
    /// Collapse runs of spaces in markup into one.
    pub collapse_markup_spaces: bool,
    /// Sort the items of an import.
    pub reorder_import_items: bool,
    /// Wrap text in markup to the line width.
    pub wrap_text: bool,
}

impl Config {
    /// The default options: indent by 2, lines of 80, at most 2 blank lines,
    /// import items sorted, no space collapsing or text wrapping.
    pub open spec fn spec_default() -> Config {
        Config {
            tab_spaces: 2,
            max_width: 80,
            blank_lines_upper_bound: 2,
            collapse_markup_spaces: false,
            reorder_import_items: true,
            wrap_text: false,
        }
    }

    pub fn new() -> (res: Self)
        ensures
            res == Config::spec_default(),
    {
        Config {
            tab_spaces: 2,
            max_width: 80,
            blank_lines_upper_bound: 2,
            collapse_markup_spaces: false,
            reorder_import_items: true,
            wrap_text: false,
        }
    }
}

impl Default for Config {
    fn default() -> (res: Self)
        ensures
            res == Config::spec_default(),
    {
        Config::new()
    }
}

} // verus!
