//! The pipeline driver: one rewriting pass per directive kind, in a
//! fixed order, over a single document's text.

use vstd::prelude::*;

use crate::Error;
use crate::render::DirectiveKind;
use crate::rewrite::lemma_rewrite_no_occurrence;
use crate::rewrite::rewrite;
use crate::rewrite::rewrite_spec;
use crate::rewrite::start_lit;
use crate::text::matches_at;

verus! {

/// What processing one document returns: the passes for Columns, Hint,
/// Tabs and Details in that order, each pass feeding the next, with the
/// first error aborting the rest.
pub open spec fn process_spec(s: Seq<char>) -> Result<Seq<char>, Error> {
    match rewrite_spec(s, DirectiveKind::Columns) {
        Err(e) => Err(e),
        Ok(s1) => match rewrite_spec(s1, DirectiveKind::Hint) {
            Err(e) => Err(e),
            Ok(s2) => match rewrite_spec(s2, DirectiveKind::Tabs) {
                Err(e) => Err(e),
                Ok(s3) => rewrite_spec(s3, DirectiveKind::Details),
            },
        },
    }
}

/// Transforms one document's text: every directive kind is rewritten in
/// the fixed order, and the result is exactly what [`process_spec`]
/// says for the input's view.  The first error aborts the remaining
/// passes; no partial output is returned.
pub fn process_chapter(content: &str) -> (r: Result<String, Error>)
    ensures
        match r {
            Ok(out) => process_spec(content@) == Ok::<Seq<char>, Error>(out@),
            Err(e) => process_spec(content@) == Err::<Seq<char>, Error>(e),
        },
{
    let s1 = match rewrite(content, DirectiveKind::Columns) {
        Ok(s) => s,
        Err(e) => {
            return Err(e);
        },
    };
    let s2 = match rewrite(s1.as_str(), DirectiveKind::Hint) {
        Ok(s) => s,
        Err(e) => {
            return Err(e);
        },
    };
    let s3 = match rewrite(s2.as_str(), DirectiveKind::Tabs) {
        Ok(s) => s,
        Err(e) => {
            return Err(e);
        },
    };
    match rewrite(s3.as_str(), DirectiveKind::Details) {
        Ok(s) => Ok(s),
        Err(e) => Err(e),
    }
}

/// Law: a document holding no occurrence of any directive kind's
/// opening sequence passes through the whole pipeline unchanged.
pub proof fn lemma_process_no_occurrence(s: Seq<char>)
    requires
        forall|k: DirectiveKind, i: int| !matches_at(s, start_lit(k), i),
    ensures
        process_spec(s) == Ok::<Seq<char>, Error>(s),
{
    lemma_rewrite_no_occurrence(s, DirectiveKind::Columns);
    lemma_rewrite_no_occurrence(s, DirectiveKind::Hint);
    lemma_rewrite_no_occurrence(s, DirectiveKind::Tabs);
    lemma_rewrite_no_occurrence(s, DirectiveKind::Details);
}

/// The directive substitution engine, one value per host installation;
/// it holds no state, and documents are processed independently.
#[derive(Copy, Clone, PartialEq, Eq, PartialOrd, Ord, Hash, Debug)]
pub struct ShortcodesProcessor;

impl ShortcodesProcessor {
    /// A new processor; the engine holds no state.
    pub fn new() -> (r: Self)
        ensures
            r == (ShortcodesProcessor),
    {
        Self
    }
}

impl Default for ShortcodesProcessor {
    fn default() -> (r: Self)
        ensures
            r == (ShortcodesProcessor),
    {
        Self
    }
}

} // verus!
