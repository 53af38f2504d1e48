//! The directive matcher and rewriter.
//!
//! One pass scans the original input left to right with a moving
//! cursor, building a fresh output buffer: literal spans are copied
//! verbatim, and each directive occurrence — open sequence, attribute
//! text, attribute close, content, close sequence — is replaced by its
//! renderer's output.  Offsets are only ever taken against the original
//! input, never against a buffer whose length has already changed, so
//! occurrences whose replacement length differs from the matched length
//! cannot corrupt later offsets.  When at least one occurrence was
//! rewritten, the kind's header fragment is prepended once; a document
//! with no occurrence is returned unchanged.

use vstd::prelude::*;

use crate::Error;
use crate::render::DirectiveKind;
use crate::render::render;
use crate::render::render_spec;
use crate::text::find_from;
use crate::text::find_substr;
use crate::text::lemma_find_from;
use crate::text::matches_at;
use crate::tokenizer::split_attrs;
use crate::tokenizer::tokenize_spec;

verus! {

/// The opening sequence of a directive kind: the open delimiter
/// followed by the kind's name.
pub open spec fn start_lit(k: DirectiveKind) -> Seq<char> {
    match k {
        DirectiveKind::Columns => "{{#columns"@,
        DirectiveKind::Hint => "{{#hint"@,
        DirectiveKind::Tabs => "{{#tabs"@,
        DirectiveKind::Details => "{{#details"@,
    }
}

/// The sequence closing the attribute text of any directive.
pub open spec fn attrs_close_lit() -> Seq<char> {
    "}}"@
}

/// The closing sequence of a directive kind: the close delimiter, the
/// kind's name, and the close suffix.
pub open spec fn end_lit(k: DirectiveKind) -> Seq<char> {
    match k {
        DirectiveKind::Columns => "{{/columns}}"@,
        DirectiveKind::Hint => "{{/hint}}"@,
        DirectiveKind::Tabs => "{{/tabs}}"@,
        DirectiveKind::Details => "{{/details}}"@,
    }
}

/// The header fragment emitted once, before the rewritten document,
/// when a kind had at least one occurrence.
pub open spec fn header_lit(k: DirectiveKind) -> Seq<char> {
    match k {
        DirectiveKind::Columns => "
<style>
    .mdbook-shortcodes-columns-container {
        display: flex;
        margin: 0 -1em;
    }
    .mdbook-shortcodes-column {
        flex: 50%;
        padding: 0 1em;
    }
</style>
"@,
        DirectiveKind::Hint => "
<style>
    .mdbook-shortcodes-hint {
        padding: .5rem 2rem .5rem 1.75rem;
        border-inline-start: .5rem solid #fff;
        border-radius: .5rem;
    }

    .mdbook-shortcodes-hint-info {
        border-color: #6bf;
        background-color: rgba(102,187,255,.1);
    }

    .mdbook-shortcodes-hint-ok {
        border-color: #5b6;
        background-color: rgba(85,187,102,.1);
    }

    .mdbook-shortcodes-hint-warning {
        border-color: #fd6;
        background-color: rgba(255,221,102,.1);
    }

    .mdbook-shortcodes-hint-danger {
        border-color: #f66;
        background-color: rgba(255,102,102,.1);
    }
</style>
"@,
        DirectiveKind::Tabs => ""@,
        DirectiveKind::Details => ""@,
    }
}

/// Executable opening sequence; its view is [`start_lit`].
fn start_str(k: DirectiveKind) -> (r: &'static str)
    ensures
        r@ == start_lit(k),
{
    match k {
        DirectiveKind::Columns => "{{#columns",
        DirectiveKind::Hint => "{{#hint",
        DirectiveKind::Tabs => "{{#tabs",
        DirectiveKind::Details => "{{#details",
    }
}

/// Executable closing sequence; its view is [`end_lit`].
fn end_str(k: DirectiveKind) -> (r: &'static str)
    ensures
        r@ == end_lit(k),
{
    match k {
        DirectiveKind::Columns => "{{/columns}}",
        DirectiveKind::Hint => "{{/hint}}",
        DirectiveKind::Tabs => "{{/tabs}}",
        DirectiveKind::Details => "{{/details}}",
    }
}

/// Executable header fragment; its view is [`header_lit`].
fn header_str(k: DirectiveKind) -> (r: &'static str)
    ensures
        r@ == header_lit(k),
{
    match k {
        DirectiveKind::Columns => "
<style>
    .mdbook-shortcodes-columns-container {
        display: flex;
        margin: 0 -1em;
    }
    .mdbook-shortcodes-column {
        flex: 50%;
        padding: 0 1em;
    }
</style>
",
        DirectiveKind::Hint => "
<style>
    .mdbook-shortcodes-hint {
        padding: .5rem 2rem .5rem 1.75rem;
        border-inline-start: .5rem solid #fff;
        border-radius: .5rem;
    }

    .mdbook-shortcodes-hint-info {
        border-color: #6bf;
        background-color: rgba(102,187,255,.1);
    }

    .mdbook-shortcodes-hint-ok {
        border-color: #5b6;
        background-color: rgba(85,187,102,.1);
    }

    .mdbook-shortcodes-hint-warning {
        border-color: #fd6;
        background-color: rgba(255,221,102,.1);
    }

    .mdbook-shortcodes-hint-danger {
        border-color: #f66;
        background-color: rgba(255,102,102,.1);
    }
</style>
",
        DirectiveKind::Tabs => "",
        DirectiveKind::Details => "",
    }
}

/// One rewriting pass over `s` for kind `k`, from offset `cursor` on:
/// the rewritten tail of the document together with the number of
/// occurrences replaced, or the first error.  Each occurrence is the
/// next opening sequence, its attribute text up to the first attribute
/// close, and its content up to the first closing sequence; a missing
/// close is [`Error::NoClosingDirective`].
pub open spec fn rewrite_rec(s: Seq<char>, k: DirectiveKind, cursor: int) -> Result<
    (Seq<char>, nat),
    Error,
>
    decreases s.len() - cursor,
    via rewrite_rec_dec
{
    match find_from(s, start_lit(k), cursor) {
        None => Ok((s.subrange(cursor, s.len() as int), 0)),
        Some(i) => {
            let attrs_start = i + start_lit(k).len();
            match find_from(s, attrs_close_lit(), attrs_start) {
                None => Err(Error::NoClosingDirective),
                Some(j) => match tokenize_spec(s.subrange(attrs_start, j)) {
                    None => Err(Error::UnterminatedString),
                    Some(toks) => {
                        let content_start = j + attrs_close_lit().len();
                        match find_from(s, end_lit(k), content_start) {
                            None => Err(Error::NoClosingDirective),
                            Some(e) => match render_spec(k, s.subrange(content_start, e), toks) {
                                Err(er) => Err(er),
                                Ok(frag) => match rewrite_rec(s, k, e + end_lit(k).len()) {
                                    Err(er) => Err(er),
                                    Ok(rest) => Ok(
                                        (s.subrange(cursor, i) + frag + rest.0, rest.1 + 1),
                                    ),
                                },
                            },
                        }
                    },
                },
            }
        },
    }
}

#[via_fn]
proof fn rewrite_rec_dec(s: Seq<char>, k: DirectiveKind, cursor: int) {
    reveal_strlit("}}");
    if 0 <= cursor {
        lemma_find_from(s, start_lit(k), cursor);
        if let Some(i) = find_from(s, start_lit(k), cursor) {
            let attrs_start = i + start_lit(k).len();
            lemma_find_from(s, attrs_close_lit(), attrs_start);
            if let Some(j) = find_from(s, attrs_close_lit(), attrs_start) {
                let content_start = j + attrs_close_lit().len();
                lemma_find_from(s, end_lit(k), content_start);
            }
        }
    }
}

/// One full rewriting pass over a document for kind `k`: the rewritten
/// document with the header prepended once when at least one occurrence
/// was replaced, the document unchanged when none was, or the first
/// error.
pub open spec fn rewrite_spec(s: Seq<char>, k: DirectiveKind) -> Result<Seq<char>, Error> {
    match rewrite_rec(s, k, 0) {
        Err(e) => Err(e),
        Ok(rest) => if rest.1 == 0 {
            Ok(s)
        } else {
            Ok(header_lit(k) + rest.0)
        },
    }
}

/// Rewrites every occurrence of directive kind `kind` in `text`; the
/// result is exactly what [`rewrite_spec`] says for the input's view.
pub fn rewrite(text: &str, kind: DirectiveKind) -> (r: Result<String, Error>)
    ensures
        match r {
            Ok(out) => rewrite_spec(text@, kind) == Ok::<Seq<char>, Error>(out@),
            Err(e) => rewrite_spec(text@, kind) == Err::<Seq<char>, Error>(e),
        },
{
    let start_s = start_str(kind);
    let end_s = end_str(kind);
    let n = text.unicode_len();
    let start_len = start_s.unicode_len();
    let end_len = end_s.unicode_len();
    let mut out = String::new();
    let mut cursor: usize = 0;
    let mut count: usize = 0;
    proof {
        reveal_strlit("}}");
        if let Ok(rest) = rewrite_rec(text@, kind, 0) {
            assert(out@ + rest.0 =~= rest.0);
        }
    }
    loop
        invariant_except_break
            n == text@.len(),
            start_s@ == start_lit(kind),
            end_s@ == end_lit(kind),
            start_len == start_s@.len(),
            end_len == end_s@.len(),
            cursor <= n,
            2 * (count as int) <= cursor as int,
            attrs_close_lit().len() == 2,
            match rewrite_rec(text@, kind, cursor as int) {
                Ok(rest) => rewrite_rec(text@, kind, 0) == Ok::<(Seq<char>, nat), Error>(
                    (out@ + rest.0, rest.1 + count as nat),
                ),
                Err(e) => rewrite_rec(text@, kind, 0) == Err::<(Seq<char>, nat), Error>(e),
            },
        ensures
            rewrite_rec(text@, kind, 0) == Ok::<(Seq<char>, nat), Error>((out@, count as nat)),
        decreases n - cursor,
    {
        match find_substr(text, start_s, cursor) {
            None => {
                let ghost pre_out = out@;
                out.append(text.substring_char(cursor, n));
                proof {
                    let tail = text@.subrange(cursor as int, n as int);
                    assert(rewrite_rec(text@, kind, cursor as int) == Ok::<
                        (Seq<char>, nat),
                        Error,
                    >((tail, 0nat)));
                    assert(out@ == pre_out + tail);
                }
                break;
            },
            Some(i) => {
                proof {
                    lemma_find_from(text@, start_s@, cursor as int);
                }
                let ghost pre_out = out@;
                out.append(text.substring_char(cursor, i));
                let attrs_start = i + start_len;
                match find_substr(text, "}}", attrs_start) {
                    None => {
                        return Err(Error::NoClosingDirective);
                    },
                    Some(j) => {
                        proof {
                            lemma_find_from(text@, "}}"@, attrs_start as int);
                        }
                        let raw_attrs = text.substring_char(attrs_start, j);
                        match split_attrs(raw_attrs) {
                            Err(e) => {
                                return Err(e);
                            },
                            Ok(attrs) => {
                                let content_start = j + 2;
                                match find_substr(text, end_s, content_start) {
                                    None => {
                                        return Err(Error::NoClosingDirective);
                                    },
                                    Some(e_idx) => {
                                        proof {
                                            lemma_find_from(
                                                text@,
                                                end_s@,
                                                content_start as int,
                                            );
                                        }
                                        let content = text.substring_char(content_start, e_idx);
                                        match render(kind, content, &attrs) {
                                            Err(er) => {
                                                return Err(er);
                                            },
                                            Ok(frag) => {
                                                out.append(frag.as_str());
                                                proof {
                                                    let here = text@.subrange(
                                                        cursor as int,
                                                        i as int,
                                                    );
                                                    let next = e_idx + end_len;
                                                    if let Ok(rest) = rewrite_rec(
                                                        text@,
                                                        kind,
                                                        next as int,
                                                    ) {
                                                        assert(rewrite_rec(
                                                            text@,
                                                            kind,
                                                            cursor as int,
                                                        ) == Ok::<(Seq<char>, nat), Error>(
                                                            (here + frag@ + rest.0, rest.1 + 1),
                                                        ));
                                                        assert(out@ + rest.0 =~= pre_out + (here
                                                            + frag@ + rest.0));
                                                    }
                                                }
                                                cursor = e_idx + end_len;
                                                count = count + 1;
                                            },
                                        }
                                    },
                                }
                            },
                        }
                    },
                }
            },
        }
    }
    if count == 0 {
        proof {
            assert(text@.subrange(0, n as int) =~= text@);
        }
        return Ok(String::from_str(text));
    }
    let mut res = String::from_str(header_str(kind));
    res.append(out.as_str());
    Ok(res)
}

/// Law: a document holding no occurrence of a directive kind's opening
/// sequence is rewritten to itself, unchanged — in particular no header
/// fragment is added.
pub proof fn lemma_rewrite_no_occurrence(s: Seq<char>, k: DirectiveKind)
    requires
        forall|i: int| !matches_at(s, start_lit(k), i),
    ensures
        rewrite_spec(s, k) == Ok::<Seq<char>, Error>(s),
{
    lemma_find_from(s, start_lit(k), 0);
    assert(find_from(s, start_lit(k), 0) is None);
    assert(rewrite_rec(s, k, 0) == Ok::<(Seq<char>, nat), Error>(
        (s.subrange(0, s.len() as int), 0nat),
    ));
    assert(s.subrange(0, s.len() as int) =~= s);
}

} // verus!
