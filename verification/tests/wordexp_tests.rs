use posixutils::wordexp::{split_fields, ExpandedWord, ExpandedWordPart};

#[test]
fn split_fields_on_empty_literal() {
    assert_eq!(
        split_fields(
            ExpandedWord::from_parts(vec![ExpandedWordPart::GeneratedUnquotedLiteral(
                "".to_string()
            )]),
            None
        ),
        Vec::<ExpandedWord>::new()
    );
}

#[test]
fn split_fields_on_single_non_whitespace_char() {
    assert_eq!(
        split_fields(
            ExpandedWord::from_parts(vec![ExpandedWordPart::GeneratedUnquotedLiteral(
                "a:b:c:".to_string()
            )]),
            Some(":")
        ),
        vec![
            ExpandedWord::unquoted_literal("a"),
            ExpandedWord::unquoted_literal("b"),
            ExpandedWord::unquoted_literal("c")
        ]
    );
}

#[test]
fn split_fields_on_multiple_non_whitespace_char() {
    // Every non-whitespace separator closes the field before it, so
    // the two separators after `d` leave two empty fields between
    // them, while the trailing text stays one field.
    assert_eq!(
        split_fields(
            ExpandedWord::from_parts(vec![ExpandedWordPart::GeneratedUnquotedLiteral(
                "a:b/c-d-:/x y".to_string()
            )]),
            Some(":/-")
        ),
        vec![
            ExpandedWord::unquoted_literal("a"),
            ExpandedWord::unquoted_literal("b"),
            ExpandedWord::unquoted_literal("c"),
            ExpandedWord::unquoted_literal("d"),
            ExpandedWord::from_parts(vec![]),
            ExpandedWord::from_parts(vec![]),
            ExpandedWord::unquoted_literal("x y")
        ]
    );
}

#[test]
fn split_fields_preserves_empty_field_between_separators() {
    // Generated `a::b` with a `:` separator keeps the empty field
    // between the two colons; the trailing separator of `a:` adds
    // none.
    assert_eq!(
        split_fields(
            ExpandedWord::from_parts(vec![ExpandedWordPart::GeneratedUnquotedLiteral(
                "a::b".to_string()
            )]),
            Some(":")
        ),
        vec![
            ExpandedWord::unquoted_literal("a"),
            ExpandedWord::from_parts(vec![]),
            ExpandedWord::unquoted_literal("b")
        ]
    );
    assert_eq!(
        split_fields(
            ExpandedWord::from_parts(vec![ExpandedWordPart::GeneratedUnquotedLiteral(
                "a:".to_string()
            )]),
            Some(":")
        ),
        vec![ExpandedWord::unquoted_literal("a")]
    );
}

#[test]
fn split_fields_on_single_whitespace_char() {
    assert_eq!(
        split_fields(
            ExpandedWord::from_parts(vec![ExpandedWordPart::GeneratedUnquotedLiteral(
                "a b c ".to_string()
            )]),
            Some(" ")
        ),
        vec![
            ExpandedWord::unquoted_literal("a"),
            ExpandedWord::unquoted_literal("b"),
            ExpandedWord::unquoted_literal("c"),
        ]
    );
}

#[test]
fn split_fields_on_multiple_whitespace_char() {
    assert_eq!(
        split_fields(
            ExpandedWord::from_parts(vec![ExpandedWordPart::GeneratedUnquotedLiteral(
                "  a\t\n\t\nb  \tc\nd  e f".to_string()
            )]),
            Some("\t\n")
        ),
        vec![
            ExpandedWord::unquoted_literal("  a"),
            ExpandedWord::unquoted_literal("b  "),
            ExpandedWord::unquoted_literal("c"),
            ExpandedWord::unquoted_literal("d  e f"),
        ]
    )
}

#[test]
fn split_fields_default_ifs() {
    assert_eq!(
        split_fields(
            ExpandedWord::from_parts(vec![ExpandedWordPart::GeneratedUnquotedLiteral(
                "\t\n   a\n\n\t  \n\t word,and\n\t\n \n\tc\n\n\n   \t\n\t ".to_string()
            )]),
            None
        ),
        vec![
            ExpandedWord::unquoted_literal("a"),
            ExpandedWord::unquoted_literal("word,and"),
            ExpandedWord::unquoted_literal("c")
        ]
    );
}

#[test]
fn split_fields_by_mixed_ifs() {
    assert_eq!(
        split_fields(
            ExpandedWord::from_parts(vec![ExpandedWordPart::GeneratedUnquotedLiteral(
                "a,b.c  d\n\ne  f".to_string()
            )]),
            Some(",.:  \n")
        ),
        vec![
            ExpandedWord::unquoted_literal("a"),
            ExpandedWord::unquoted_literal("b"),
            ExpandedWord::unquoted_literal("c"),
            ExpandedWord::unquoted_literal("d"),
            ExpandedWord::unquoted_literal("e"),
            ExpandedWord::unquoted_literal("f")
        ]
    );
}

#[test]
fn field_splitting_does_not_affect_non_generated_literals() {
    assert_eq!(
        split_fields(
            ExpandedWord::from_parts(vec![ExpandedWordPart::UnquotedLiteral("a:b:c".to_string())]),
            Some(":")
        ),
        vec![ExpandedWord::unquoted_literal("a:b:c")]
    );
    assert_eq!(
        split_fields(
            ExpandedWord::from_parts(vec![
                ExpandedWordPart::UnquotedLiteral("a:".to_string()),
                ExpandedWordPart::GeneratedUnquotedLiteral("b:c".to_string()),
                ExpandedWordPart::UnquotedLiteral(":d".to_string())
            ]),
            Some(":")
        ),
        vec![
            ExpandedWord::unquoted_literal("a:b"),
            ExpandedWord::unquoted_literal("c:d")
        ]
    );
}
