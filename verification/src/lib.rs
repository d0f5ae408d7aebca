//! A formatter for Typst documents: the layout of aligned math and of
//! tables, the facts that guide it, its options, and the decisions of its
//! command line.
use vstd::prelude::*;

pub mod aligned;
pub mod cli;
pub mod config;
pub mod facts;
pub mod math_align;
pub mod project;
pub mod table;
pub mod text;

pub use config::Config;
pub use facts::{FormatFacts, FunctionFact, FunctionHint, FunctionQuery, TableLikeHint};

verus! {

/// Why a document could not be formatted.
#[derive(Debug, Clone, Copy, PartialEq, Eq, Structural)]
pub enum Error {
    /// The document has syntax errors.
    SyntaxError,
    /// An error occurred while rendering the document.
    RenderError,
}

/// Names whether `typst-syntax` finds errors when it parses a text as markup.
pub uninterp spec fn markup_has_errors(text: Seq<char>) -> bool;

/// Calls `typst_syntax::parse`, which parses a text as top-level markup (as a
/// `Source` does for its root), and reads `errors` of the tree's
/// `diagnosis()`: whether the tree holds an error node. The parse depends on
/// the text alone, so the result is named by `markup_has_errors`; nothing
/// more is claimed of it.
#[verifier::external_body]
fn parse_has_errors(text: &str) -> (res: bool)
    ensures
        res == markup_has_errors(text@),
{
    typst_syntax::parse(text).diagnosis().errors
}

/// A document with syntax errors is refused.
pub fn syntax_outcome(has_errors: bool) -> (res: Result<(), Error>)
    ensures
        res == if has_errors {
            Err::<(), Error>(Error::SyntaxError)
        } else {
            Ok::<(), Error>(())
        },
{
    if has_errors {
        return Err(Error::SyntaxError);
    }
    Ok(())
}

/// Refuse a document with syntax errors, as formatting does before it builds
/// the document.
pub fn check_syntax(text: &str) -> (res: Result<(), Error>)
    ensures
        res == if markup_has_errors(text@) {
            Err::<(), Error>(Error::SyntaxError)
        } else {
            Ok::<(), Error>(())
        },
{
    syntax_outcome(parse_has_errors(text))
}

/// Names the text that the `Debug` impl of `typst-syntax`'s syntax nodes
/// gives, in its alternate form (`{:#?}`), for the tree that
/// `typst_syntax::parse` makes of a text.
pub uninterp spec fn syntax_tree_debug(text: Seq<char>) -> Seq<char>;

/// Calls `typst_syntax::parse` and formats the tree with `{:#?}`: each node's
/// kind with its length and children, or a leaf's kind and text, indented by
/// four spaces a level. Neither depends on more than the text (the spans
/// that a `Source` gives its tree do not show), so the result is named by
/// `syntax_tree_debug`; nothing more is claimed of it.
#[verifier::external_body]
fn debug_syntax_tree(text: &str) -> (res: String)
    ensures
        res@ == syntax_tree_debug(text@),
{
    format!("{:#?}", typst_syntax::parse(text))
}

/// The syntax tree of a text, for debugging: as its `Debug` form prints it,
/// with two spaces a level in place of four.
pub fn format_ast(text: &str) -> (res: String)
    ensures
        res@ == text::indent_halved(syntax_tree_debug(text@)),
{
    let tree = debug_syntax_tree(text);
    text::indent_4_to_2(tree.as_str())
}

/// The formatter: its options and the experimental facts that guide it.
#[derive(Debug, Clone)]
pub struct Typstyle {
    config: Config,
    experimental_facts: FormatFacts,
}

impl Typstyle {
    /// The options.
    pub closed spec fn spec_config(self) -> Config {
        self.config
    }

    /// The experimental facts.
    pub closed spec fn spec_facts(self) -> Seq<FunctionFact> {
        self.experimental_facts@
    }

    /// Creates a new `Typstyle` with the given style configuration.
    pub fn new(config: Config) -> (res: Self)
        ensures
            res.spec_config() == config,
            res.spec_facts() == Seq::<FunctionFact>::empty(),
    {
        Self { config, experimental_facts: FormatFacts::new() }
    }

    /// Creates a new `Typstyle` with experimental semantic facts, such as
    /// "this function should be formatted like a table".
    pub fn with_experimental_facts(self, facts: FormatFacts) -> (res: Self)
        ensures
            res.spec_config() == self.spec_config(),
            res.spec_facts() == facts@,
    {
        Typstyle { config: self.config, experimental_facts: facts }
    }

    /// The options.
    pub fn config(&self) -> (res: &Config)
        ensures
            *res == self.spec_config(),
    {
        &self.config
    }

    /// The experimental facts.
    pub fn experimental_facts(&self) -> (res: &FormatFacts)
        ensures
            res@ == self.spec_facts(),
    {
        &self.experimental_facts
    }
}

impl Default for Typstyle {
    fn default() -> (res: Self)
        ensures
            res.spec_config() == Config::spec_default(),
            res.spec_facts() == Seq::<FunctionFact>::empty(),
    {
        Typstyle::new(Config::new())
    }
}

} // verus!
