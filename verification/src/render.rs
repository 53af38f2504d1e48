//! The directive kinds and their renderers.
//!
//! A renderer is a pure function from the content of one occurrence and
//! its attribute tokens to a rendered markup fragment, or to a
//! structured error when the attributes have the wrong arity or an
//! unrecognized value.

use vstd::prelude::*;

use crate::Error;
use crate::text::find_from;
use crate::text::find_substr;
use crate::text::lemma_find_from;
use crate::text::str_eq;

verus! {

/// The closed, ordered set of directive kinds the engine knows.
#[derive(Copy, Clone, PartialEq, Eq, Structural, Debug)]
pub enum DirectiveKind {
    Columns,
    Hint,
    Tabs,
    Details,
}

/// The literal separating two columns inside a columns directive body.
pub open spec fn column_sep() -> Seq<char> {
    "{{#column}}"@
}

/// Splits `s` from offset `from` on at the non-overlapping, leftmost
/// occurrences of `sep`; the pieces between occurrences, in order.
pub open spec fn split_from(s: Seq<char>, sep: Seq<char>, from: int) -> Seq<Seq<char>>
    decreases s.len() - from,
    via split_from_dec
{
    if sep.len() == 0 {
        seq![s.subrange(from, s.len() as int)]
    } else {
        match find_from(s, sep, from) {
            None => seq![s.subrange(from, s.len() as int)],
            Some(i) => seq![s.subrange(from, i)] + split_from(s, sep, i + sep.len()),
        }
    }
}

#[via_fn]
proof fn split_from_dec(s: Seq<char>, sep: Seq<char>, from: int) {
    if sep.len() > 0 && 0 <= from {
        lemma_find_from(s, sep, from);
    }
}

/// The inline style put on a columns container for spacing `p`.
pub open spec fn columns_container_style(p: Seq<char>) -> Seq<char> {
    "style=\"margin: 0 -"@ + p + "\""@
}

/// The inline style put on each column for spacing `p`.
pub open spec fn columns_column_style(p: Seq<char>) -> Seq<char> {
    "style=\"padding: 0 "@ + p + "\""@
}

/// The rendered sequence of column wrappers, one per column content.
pub open spec fn columns_body_spec(cols: Seq<Seq<char>>, col_style: Seq<char>) -> Seq<char>
    decreases cols.len(),
{
    if cols.len() == 0 {
        Seq::empty()
    } else {
        "<div class=\"mdbook-shortcodes-column\" "@ + col_style + ">"@ + cols[0] + "</div>"@
            + columns_body_spec(cols.drop_first(), col_style)
    }
}

/// What the columns renderer returns: a container wrapping one column
/// fragment per piece of the content split on [`column_sep`], styled by
/// the optional single spacing attribute; more than one attribute is an
/// arity error.
pub open spec fn render_columns_spec(content: Seq<char>, attrs: Seq<Seq<char>>) -> Result<
    Seq<char>,
    Error,
> {
    if attrs.len() > 1 {
        Err(Error::InvalidAttributeCount)
    } else {
        let container_style = if attrs.len() == 1 {
            columns_container_style(attrs[0])
        } else {
            Seq::empty()
        };
        let col_style = if attrs.len() == 1 {
            columns_column_style(attrs[0])
        } else {
            Seq::empty()
        };
        Ok(
            "<div class=\"mdbook-shortcodes-columns-container\" "@ + container_style + ">"@
                + columns_body_spec(split_from(content, column_sep(), 0), col_style) + "</div>"@,
        )
    }
}

/// The enumerated set of accepted hint kinds.
pub open spec fn is_hint_kind(a: Seq<char>) -> bool {
    a == "info"@ || a == "ok"@ || a == "warning"@ || a == "danger"@
}

/// What the hint renderer returns: the content wrapped in a fragment
/// whose class encodes the single attribute, which must be one of the
/// accepted hint kinds.
pub open spec fn render_hint_spec(content: Seq<char>, attrs: Seq<Seq<char>>) -> Result<
    Seq<char>,
    Error,
> {
    if attrs.len() != 1 {
        Err(Error::InvalidAttributeCount)
    } else if !is_hint_kind(attrs[0]) {
        Err(Error::UnknownHintKind)
    } else {
        Ok(
            "<div class=\"mdbook-shortcodes-hint mdbook-shortcodes-hint-"@ + attrs[0] + "\">"@
                + content + "</div>"@,
        )
    }
}

/// What the tabs renderer returns: the content in a single container;
/// it takes no attributes.
pub open spec fn render_tabs_spec(content: Seq<char>, attrs: Seq<Seq<char>>) -> Result<
    Seq<char>,
    Error,
> {
    if attrs.len() != 0 {
        Err(Error::InvalidAttributeCount)
    } else {
        Ok("<div class=\"mdbook-shortcodes-tabs\">"@ + content + "</div>"@)
    }
}

/// What the details renderer returns: the content in a disclosure
/// widget, with an optional title attribute and an optional second
/// attribute that must be `open` and makes the widget open by default.
pub open spec fn render_details_spec(content: Seq<char>, attrs: Seq<Seq<char>>) -> Result<
    Seq<char>,
    Error,
> {
    if attrs.len() == 0 {
        Ok("<details>"@ + content + "</details>"@)
    } else if attrs.len() == 1 {
        Ok("<details><summary>"@ + attrs[0] + "</summary>"@ + content + "</details>"@)
    } else if attrs.len() == 2 && attrs[1] == "open"@ {
        Ok("<details open><summary>"@ + attrs[0] + "</summary>"@ + content + "</details>"@)
    } else if attrs.len() == 2 {
        Err(Error::UnknownHintKind)
    } else {
        Err(Error::InvalidAttributeCount)
    }
}

/// What the renderer of kind `k` returns for one occurrence.
pub open spec fn render_spec(k: DirectiveKind, content: Seq<char>, attrs: Seq<Seq<char>>) -> Result<
    Seq<char>,
    Error,
> {
    match k {
        DirectiveKind::Columns => render_columns_spec(content, attrs),
        DirectiveKind::Hint => render_hint_spec(content, attrs),
        DirectiveKind::Tabs => render_tabs_spec(content, attrs),
        DirectiveKind::Details => render_details_spec(content, attrs),
    }
}

fn render_columns(content: &str, attrs: &Vec<String>) -> (r: Result<String, Error>)
    ensures
        match r {
            Ok(f) => render_columns_spec(content@, attrs.deep_view()) == Ok::<Seq<char>, Error>(
                f@,
            ),
            Err(e) => render_columns_spec(content@, attrs.deep_view()) == Err::<Seq<char>, Error>(
                e,
            ),
        },
{
    if attrs.len() > 1 {
        return Err(Error::InvalidAttributeCount);
    }
    let mut container_style = String::new();
    let mut col_style = String::new();
    if attrs.len() == 1 {
        container_style.append("style=\"margin: 0 -");
        container_style.append(attrs[0].as_str());
        container_style.append("\"");
        col_style.append("style=\"padding: 0 ");
        col_style.append(attrs[0].as_str());
        col_style.append("\"");
        assert(container_style@ == columns_container_style(attrs.deep_view()[0]));
        assert(col_style@ == columns_column_style(attrs.deep_view()[0]));
    }
    let mut out = String::from_str("<div class=\"mdbook-shortcodes-columns-container\" ");
    out.append(container_style.as_str());
    out.append(">");
    let ghost prefix = out@;
    let sep = "{{#column}}";
    proof {
        reveal_strlit("{{#column}}");
    }
    let n = content.unicode_len();
    let sep_len = sep.unicode_len();
    let mut cursor: usize = 0;
    loop
        invariant_except_break
            n == content@.len(),
            sep@ == column_sep(),
            sep_len == sep@.len(),
            0 < sep_len,
            cursor <= n,
            out@ + columns_body_spec(split_from(content@, column_sep(), cursor as int), col_style@)
                == prefix + columns_body_spec(split_from(content@, column_sep(), 0), col_style@),
        ensures
            out@ == prefix + columns_body_spec(split_from(content@, column_sep(), 0), col_style@),
        decreases n - cursor,
    {
        let piece_end: usize;
        let found: bool;
        match find_substr(content, sep, cursor) {
            Some(i) => {
                proof {
                    lemma_find_from(content@, sep@, cursor as int);
                }
                piece_end = i;
                found = true;
            },
            None => {
                piece_end = n;
                found = false;
            },
        }
        let ghost old_out = out@;
        let ghost rest = split_from(content@, column_sep(), cursor as int);
        out.append("<div class=\"mdbook-shortcodes-column\" ");
        out.append(col_style.as_str());
        out.append(">");
        out.append(content.substring_char(cursor, piece_end));
        out.append("</div>");
        proof {
            assert(rest[0] == content@.subrange(cursor as int, piece_end as int));
            assert(out@ == old_out + ("<div class=\"mdbook-shortcodes-column\" "@ + col_style@
                + ">"@ + rest[0] + "</div>"@)) by {
                assert(out@ =~= old_out + ("<div class=\"mdbook-shortcodes-column\" "@ + col_style@
                    + ">"@ + rest[0] + "</div>"@));
            }
        }
        if found {
            proof {
                assert(rest =~= seq![rest[0]] + rest.drop_first());
                assert(columns_body_spec(rest, col_style@) == "<div class=\"mdbook-shortcodes-column\" "@
                    + col_style@ + ">"@ + rest[0] + "</div>"@ + columns_body_spec(
                    rest.drop_first(),
                    col_style@,
                ));
                assert(rest.drop_first() =~= split_from(
                    content@,
                    column_sep(),
                    piece_end + sep_len,
                ));
                assert(old_out + columns_body_spec(rest, col_style@) =~= out@ + columns_body_spec(
                    rest.drop_first(),
                    col_style@,
                ));
            }
            cursor = piece_end + sep_len;
        } else {
            proof {
                assert(rest =~= seq![content@.subrange(cursor as int, n as int)]);
                assert(rest.drop_first() =~= Seq::<Seq<char>>::empty());
                assert(columns_body_spec(rest.drop_first(), col_style@) == Seq::<char>::empty());
                assert(old_out + columns_body_spec(rest, col_style@) =~= out@);
            }
            break;
        }
    }
    out.append("</div>");
    Ok(out)
}

fn render_hint(content: &str, attrs: &Vec<String>) -> (r: Result<String, Error>)
    ensures
        match r {
            Ok(f) => render_hint_spec(content@, attrs.deep_view()) == Ok::<Seq<char>, Error>(f@),
            Err(e) => render_hint_spec(content@, attrs.deep_view()) == Err::<Seq<char>, Error>(e),
        },
{
    if attrs.len() != 1 {
        return Err(Error::InvalidAttributeCount);
    }
    let ty = attrs[0].as_str();
    if !(str_eq(ty, "info") || str_eq(ty, "ok") || str_eq(ty, "warning") || str_eq(ty, "danger")) {
        return Err(Error::UnknownHintKind);
    }
    let mut out = String::from_str("<div class=\"mdbook-shortcodes-hint mdbook-shortcodes-hint-");
    out.append(ty);
    out.append("\">");
    out.append(content);
    out.append("</div>");
    Ok(out)
}

fn render_tabs(content: &str, attrs: &Vec<String>) -> (r: Result<String, Error>)
    ensures
        match r {
            Ok(f) => render_tabs_spec(content@, attrs.deep_view()) == Ok::<Seq<char>, Error>(f@),
            Err(e) => render_tabs_spec(content@, attrs.deep_view()) == Err::<Seq<char>, Error>(e),
        },
{
    if attrs.len() != 0 {
        return Err(Error::InvalidAttributeCount);
    }
    let mut out = String::from_str("<div class=\"mdbook-shortcodes-tabs\">");
    out.append(content);
    out.append("</div>");
    Ok(out)
}

fn render_details(content: &str, attrs: &Vec<String>) -> (r: Result<String, Error>)
    ensures
        match r {
            Ok(f) => render_details_spec(content@, attrs.deep_view()) == Ok::<Seq<char>, Error>(
                f@,
            ),
            Err(e) => render_details_spec(content@, attrs.deep_view()) == Err::<Seq<char>, Error>(
                e,
            ),
        },
{
    if attrs.len() == 0 {
        let mut out = String::from_str("<details>");
        out.append(content);
        out.append("</details>");
        Ok(out)
    } else if attrs.len() == 1 {
        let mut out = String::from_str("<details><summary>");
        out.append(attrs[0].as_str());
        out.append("</summary>");
        out.append(content);
        out.append("</details>");
        Ok(out)
    } else if attrs.len() == 2 && str_eq(attrs[1].as_str(), "open") {
        let mut out = String::from_str("<details open><summary>");
        out.append(attrs[0].as_str());
        out.append("</summary>");
        out.append(content);
        out.append("</details>");
        Ok(out)
    } else if attrs.len() == 2 {
        Err(Error::UnknownHintKind)
    } else {
        Err(Error::InvalidAttributeCount)
    }
}

/// Renders one occurrence of kind `k`: the result is exactly what
/// [`render_spec`] says for the content and attribute views.
pub fn render(k: DirectiveKind, content: &str, attrs: &Vec<String>) -> (r: Result<String, Error>)
    ensures
        match r {
            Ok(f) => render_spec(k, content@, attrs.deep_view()) == Ok::<Seq<char>, Error>(f@),
            Err(e) => render_spec(k, content@, attrs.deep_view()) == Err::<Seq<char>, Error>(e),
        },
{
    match k {
        DirectiveKind::Columns => render_columns(content, attrs),
        DirectiveKind::Hint => render_hint(content, attrs),
        DirectiveKind::Tabs => render_tabs(content, attrs),
        DirectiveKind::Details => render_details(content, attrs),
    }
}

} // verus!
