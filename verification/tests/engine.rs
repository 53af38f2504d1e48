use shortcodes::DirectiveKind;
use shortcodes::Error;
use shortcodes::ShortcodesProcessor;
use shortcodes::is_quote;
use shortcodes::process_chapter;
use shortcodes::rewrite;
use shortcodes::split_attrs;

const COLUMNS_HEADER: &str = "
<style>
    .mdbook-shortcodes-columns-container {
        display: flex;
        margin: 0 -1em;
    }
    .mdbook-shortcodes-column {
        flex: 50%;
        padding: 0 1em;
    }
</style>
";

const HINT_HEADER: &str = "
<style>
    .mdbook-shortcodes-hint {
        padding: .5rem 2rem .5rem 1.75rem;
        border-inline-start: .5rem solid #fff;
        border-radius: .5rem;
    }

    .mdbook-shortcodes-hint-info {
        border-color: #6bf;
        background-color: rgba(102,187,255,.1);
    }

    .mdbook-shortcodes-hint-ok {
        border-color: #5b6;
        background-color: rgba(85,187,102,.1);
    }

    .mdbook-shortcodes-hint-warning {
        border-color: #fd6;
        background-color: rgba(255,221,102,.1);
    }

    .mdbook-shortcodes-hint-danger {
        border-color: #f66;
        background-color: rgba(255,102,102,.1);
    }
</style>
";

#[test]
fn test_columns() {
    let input = "
# Example
{{#columns}}

Column 1

{{#column}}

Column 2

{{/columns}}
";
    let expected = COLUMNS_HEADER.to_string() + "
# Example
<div class=\"mdbook-shortcodes-columns-container\" ><div class=\"mdbook-shortcodes-column\" >

Column 1

</div><div class=\"mdbook-shortcodes-column\" >

Column 2

</div></div>
";
    assert_eq!(rewrite(input, DirectiveKind::Columns), Ok(expected));
}

fn whitespace_variants(base: &str) -> Vec<String> {
    let mut result = vec![base.to_owned()];

    for w in [" ", "  "] {
        let mut temp = w.to_owned();
        temp.push_str(base);
        result.push(temp);

        let mut temp = base.to_owned();
        temp.push_str(w);
        result.push(temp);
    }

    result
}

fn owned(tokens: Vec<&str>) -> Result<Vec<String>, Error> {
    Ok(tokens.iter().map(|t| t.to_string()).collect())
}

#[test]
fn test_split_attributes() {
    let cases: Vec<(&str, Result<Vec<String>, Error>)> = vec![
        ("", Ok(Vec::new())),
        ("my name is john", owned(vec!["my", "name", "is", "john"])),
        ("c", owned(vec!["c"])),
        ("c a", owned(vec!["c", "a"])),
        ("\"d\" \"q\"", owned(vec!["d", "q"])),
        ("\"s\" \"q\"", owned(vec!["s", "q"])),
        (
            "\"Multiple words in quotes\" foo 'bar'",
            owned(vec!["Multiple words in quotes", "foo", "bar"]),
        ),
        ("\"Unterminated string", Err(Error::UnterminatedString)),
        ("Unterminated string\"", Err(Error::UnterminatedString)),
    ];

    for (input, expected) in cases {
        for i in whitespace_variants(input) {
            assert_eq!(split_attrs(&i), expected);
        }
    }
}

#[test]
fn test_no_occurrence_is_no_op() {
    let input = "# Plain\n\nNothing to rewrite here.\n";
    assert_eq!(rewrite(input, DirectiveKind::Columns), Ok(input.to_string()));
    assert_eq!(rewrite(input, DirectiveKind::Hint), Ok(input.to_string()));
    assert_eq!(rewrite(input, DirectiveKind::Tabs), Ok(input.to_string()));
    assert_eq!(rewrite(input, DirectiveKind::Details), Ok(input.to_string()));
    assert_eq!(process_chapter(input), Ok(input.to_string()));
    assert_eq!(rewrite("", DirectiveKind::Columns), Ok(String::new()));
}

#[test]
fn test_single_occurrence_round_trip() {
    let input = "# Example\n{{#columns}}\nColumn 1\n{{#column}}\nColumn 2\n{{/columns}}\n";
    let expected = COLUMNS_HEADER.to_string() + "# Example\n"
        + "<div class=\"mdbook-shortcodes-columns-container\" >"
        + "<div class=\"mdbook-shortcodes-column\" >\nColumn 1\n</div>"
        + "<div class=\"mdbook-shortcodes-column\" >\nColumn 2\n</div>" + "</div>" + "\n";
    assert_eq!(rewrite(input, DirectiveKind::Columns), Ok(expected));
}

#[test]
fn test_closing_tag_missing() {
    assert_eq!(
        rewrite("{{#columns}}\nbody", DirectiveKind::Columns),
        Err(Error::NoClosingDirective)
    );
    assert_eq!(rewrite("{{#hint info}}\nbody", DirectiveKind::Hint), Err(Error::NoClosingDirective));
    // An opening sequence whose attribute close is missing too.
    assert_eq!(rewrite("{{#tabs", DirectiveKind::Tabs), Err(Error::NoClosingDirective));
}

#[test]
fn test_unterminated_quote() {
    assert_eq!(split_attrs("\"Title"), Err(Error::UnterminatedString));
    assert_eq!(
        rewrite("{{#details \"Title}}\nbody\n{{/details}}", DirectiveKind::Details),
        Err(Error::UnterminatedString)
    );
}

#[test]
fn test_multiple_occurrences_non_constant_length() {
    let input = "a{{#hint info}}x{{/hint}}bb{{#hint danger}}yyyy{{/hint}}c";
    let expected = HINT_HEADER.to_string() + "a"
        + "<div class=\"mdbook-shortcodes-hint mdbook-shortcodes-hint-info\">x</div>" + "bb"
        + "<div class=\"mdbook-shortcodes-hint mdbook-shortcodes-hint-danger\">yyyy</div>" + "c";
    assert_eq!(rewrite(input, DirectiveKind::Hint), Ok(expected));
}

#[test]
fn test_hint_enumeration() {
    for kind in ["info", "ok", "warning", "danger"] {
        let input = "{{#hint ".to_string() + kind + "}}body{{/hint}}";
        let expected = HINT_HEADER.to_string()
            + "<div class=\"mdbook-shortcodes-hint mdbook-shortcodes-hint-" + kind
            + "\">body</div>";
        assert_eq!(rewrite(&input, DirectiveKind::Hint), Ok(expected));
    }
    assert_eq!(
        rewrite("{{#hint bogus}}body{{/hint}}", DirectiveKind::Hint),
        Err(Error::UnknownHintKind)
    );
    assert_eq!(
        rewrite("{{#hint}}body{{/hint}}", DirectiveKind::Hint),
        Err(Error::InvalidAttributeCount)
    );
    assert_eq!(
        rewrite("{{#hint info ok}}body{{/hint}}", DirectiveKind::Hint),
        Err(Error::InvalidAttributeCount)
    );
}

#[test]
fn test_columns_spacing_attribute() {
    let input = "{{#columns 3em}}a{{#column}}b{{/columns}}";
    let expected = COLUMNS_HEADER.to_string()
        + "<div class=\"mdbook-shortcodes-columns-container\" style=\"margin: 0 -3em\">"
        + "<div class=\"mdbook-shortcodes-column\" style=\"padding: 0 3em\">a</div>"
        + "<div class=\"mdbook-shortcodes-column\" style=\"padding: 0 3em\">b</div>" + "</div>";
    assert_eq!(rewrite(input, DirectiveKind::Columns), Ok(expected));
    assert_eq!(
        rewrite("{{#columns 1em 2em}}a{{/columns}}", DirectiveKind::Columns),
        Err(Error::InvalidAttributeCount)
    );
}

#[test]
fn test_tabs() {
    let input = "{{#tabs}}body{{/tabs}}";
    let expected = "<div class=\"mdbook-shortcodes-tabs\">body</div>".to_string();
    assert_eq!(rewrite(input, DirectiveKind::Tabs), Ok(expected));
    assert_eq!(
        rewrite("{{#tabs x}}body{{/tabs}}", DirectiveKind::Tabs),
        Err(Error::InvalidAttributeCount)
    );
}

#[test]
fn test_details() {
    assert_eq!(
        rewrite("{{#details}}body{{/details}}", DirectiveKind::Details),
        Ok("<details>body</details>".to_string())
    );
    assert_eq!(
        rewrite("{{#details \"My Title\"}}body{{/details}}", DirectiveKind::Details),
        Ok("<details><summary>My Title</summary>body</details>".to_string())
    );
    assert_eq!(
        rewrite("{{#details \"My Title\" open}}body{{/details}}", DirectiveKind::Details),
        Ok("<details open><summary>My Title</summary>body</details>".to_string())
    );
    assert_eq!(
        rewrite("{{#details \"My Title\" closed}}body{{/details}}", DirectiveKind::Details),
        Err(Error::UnknownHintKind)
    );
    assert_eq!(
        rewrite("{{#details a b c}}body{{/details}}", DirectiveKind::Details),
        Err(Error::InvalidAttributeCount)
    );
}

#[test]
fn test_process_chapter_applies_passes_in_order() {
    let input = "intro {{#hint info}}note{{/hint}} outro";
    let expected = HINT_HEADER.to_string() + "intro "
        + "<div class=\"mdbook-shortcodes-hint mdbook-shortcodes-hint-info\">note</div>"
        + " outro";
    assert_eq!(process_chapter(input), Ok(expected));

    // The first failing pass aborts the whole document.
    assert_eq!(process_chapter("{{#hint bogus}}x{{/hint}}"), Err(Error::UnknownHintKind));
    assert_eq!(process_chapter("{{#columns}}no close"), Err(Error::NoClosingDirective));
}

#[test]
fn test_quote_exit_conditions() {
    // A token ending exactly at a closing quote leaves no dangling token.
    assert_eq!(split_attrs("'a'"), owned(vec!["a"]));
    // A final token without a closing quote is still flushed.
    assert_eq!(split_attrs("a"), owned(vec!["a"]));
    assert_eq!(split_attrs("'a' b"), owned(vec!["a", "b"]));
    assert_eq!(split_attrs("a 'b'"), owned(vec!["a", "b"]));
    // Quotes of either kind delimit, and embedded white space survives.
    assert_eq!(split_attrs("'two words'"), owned(vec!["two words"]));
    assert_eq!(split_attrs("\"two  spaces\""), owned(vec!["two  spaces"]));
}

#[test]
fn test_multibyte_offsets() {
    // Offsets count characters, not bytes, so multi-byte characters in
    // attributes and content must not shift any boundary.
    assert_eq!(split_attrs("h\u{e9}llo w\u{f6}rld"), owned(vec!["h\u{e9}llo", "w\u{f6}rld"]));
    assert_eq!(split_attrs("\u{2000}a\u{2000}"), owned(vec!["a"]));
    assert_eq!(split_attrs("a\u{2000}b"), owned(vec!["a", "b"]));
    let input = "pr\u{e9}fix {{#hint info}}caf\u{e9}{{/hint}} suffix";
    let expected = HINT_HEADER.to_string() + "pr\u{e9}fix "
        + "<div class=\"mdbook-shortcodes-hint mdbook-shortcodes-hint-info\">caf\u{e9}</div>"
        + " suffix";
    assert_eq!(rewrite(input, DirectiveKind::Hint), Ok(expected));
}

#[test]
fn test_quote_opened_inside_token_discards_prefix() {
    // A quote opened in the middle of an unquoted token starts a fresh
    // quoted token; the characters accumulated before it are dropped.
    assert_eq!(split_attrs("ab\"cd\""), owned(vec!["cd"]));
}

#[test]
fn test_is_quote() {
    assert!(is_quote(&'\''));
    assert!(is_quote(&'"'));
    assert!(!is_quote(&'a'));
    assert!(!is_quote(&' '));
}

#[test]
fn test_processor_new() {
    let p = ShortcodesProcessor::new();
    assert_eq!(p, ShortcodesProcessor);
    assert_eq!(ShortcodesProcessor::default(), p);
}
