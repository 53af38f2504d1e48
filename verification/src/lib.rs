//! A directive substitution engine for plain text documents.
//!
//! The engine scans a document for inline directives of the form
//! `{{#name attrs}}content{{/name}}`, tokenizes each directive's
//! attribute text, and replaces every occurrence with the output of a
//! per-kind renderer, prepending a one-time header fragment when at
//! least one occurrence was rewritten.

pub mod pipeline;
pub mod render;
pub mod rewrite;
pub mod text;
pub mod tokenizer;

pub use pipeline::ShortcodesProcessor;
pub use pipeline::process_chapter;
pub use render::DirectiveKind;
pub use rewrite::rewrite;
pub use text::is_quote;
pub use tokenizer::split_attrs;

use vstd::prelude::*;

verus! {

/// A structured failure while transforming one document.
#[derive(Copy, Clone, PartialEq, Eq, Hash, Debug)]
pub enum Error {
    /// An opening directive marker had no matching attribute-close or
    /// body-close sequence before the end of the input.
    NoClosingDirective,
    /// A quoted attribute token was opened but never closed.
    UnterminatedString,
    /// A renderer received a number of attributes outside its accepted
    /// arity.
    InvalidAttributeCount,
    /// An attribute value was syntactically valid but not one of the
    /// renderer's accepted enumerated values.
    UnknownHintKind,
}

} // verus!
