use posixutils::c99::{CStream, CTokenType};
use posixutils::command::{
    Assignment, IORedirectionKind, SimpleCommand, Word, WordPair, WordPart,
};
use posixutils::cut::{cut_run, CutError};
use posixutils::lexinfo::{find_ere_end, parse, parse_braces};
use posixutils::tr::{tr_run, TrError};
use posixutils::environment::{EnvError, Environment};
use posixutils::pattern::{component_matches, glob_step};
use posixutils::wordexp::{split_fields, ExpandedWord, ExpandedWordPart};

fn args_of(a: &[&str]) -> Vec<String> {
    a.iter().map(|s| s.to_string()).collect()
}

#[test]
fn empty_ifs_disables_field_splitting() {
    // An empty separator string turns splitting off: the word comes
    // back as the one and only field, unaltered.
    let w = ExpandedWord::from_parts(vec![ExpandedWordPart::GeneratedUnquotedLiteral(
        "a:b c".to_string(),
    )]);
    let fields = split_fields(w.clone(), Some(""));
    assert_eq!(fields, vec![w]);
}

#[test]
fn unset_ifs_differs_from_empty_ifs() {
    let w = ExpandedWord::from_parts(vec![ExpandedWordPart::GeneratedUnquotedLiteral(
        "a b".to_string(),
    )]);
    let fields = split_fields(w, None);
    assert_eq!(fields.len(), 2);
}

#[test]
fn tr_missing_operand() {
    assert_eq!(tr_run(&args_of(&[]), "x"), Err(TrError::MissingOperand));
    assert_eq!(tr_run(&args_of(&["abc"]), "x"), Err(TrError::MissingOperand));
}

#[test]
fn tr_extra_operand() {
    assert_eq!(
        tr_run(&args_of(&["-d", "a", "b"]), "x"),
        Err(TrError::ExtraOperand)
    );
}

#[test]
fn tr_unknown_option() {
    assert_eq!(tr_run(&args_of(&["-z", "a", "b"]), "x"), Err(TrError::UnknownOption));
}

#[test]
fn tr_bad_set_reversed_range() {
    assert_eq!(tr_run(&args_of(&["z-a", "b"]), "x"), Err(TrError::BadSet));
}

#[test]
fn tr_bad_set_octal_digit() {
    assert_eq!(tr_run(&args_of(&["[a*08]", "b"]), "x"), Err(TrError::BadSet));
}

#[test]
fn tr_empty_second_set() {
    assert_eq!(tr_run(&args_of(&["a", ""]), "abc"), Err(TrError::EmptySet2));
    assert_eq!(tr_run(&args_of(&["-c", "a", ""]), "abc"), Err(TrError::EmptySet2));
}

#[test]
fn tr_option_terminator() {
    assert_eq!(tr_run(&args_of(&["--", "ab", "xy"]), "ab"), Ok("xy".to_string()));
}

#[test]
fn cut_no_list() {
    assert_eq!(cut_run(&args_of(&["-"]), "x"), Err(CutError::NoList));
}

#[test]
fn cut_missing_value() {
    assert_eq!(cut_run(&args_of(&["-f"]), "x"), Err(CutError::MissingValue));
}

#[test]
fn cut_bad_list() {
    assert_eq!(cut_run(&args_of(&["-f", "0"]), "x"), Err(CutError::BadList));
    assert_eq!(cut_run(&args_of(&["-f", "3-2"]), "x"), Err(CutError::BadList));
    assert_eq!(cut_run(&args_of(&["-f", ""]), "x"), Err(CutError::BadList));
}

#[test]
fn cut_bad_delimiter() {
    assert_eq!(
        cut_run(&args_of(&["-d", "ab", "-f", "1"]), "x"),
        Err(CutError::BadDelim)
    );
}

#[test]
fn cut_unknown_option() {
    assert_eq!(cut_run(&args_of(&["-q"]), "x"), Err(CutError::UnknownOption));
}

#[test]
fn c99_tokenize_number_and_string() {
    let text = "123 \"ab\"".as_bytes().to_vec();
    let mut stream = CStream::from_buffer(0, text);
    stream.tokenize();
    let types: Vec<&CTokenType> = stream.tokenlist.iter().map(|t| &t.ttype).collect();
    assert!(matches!(types[0], CTokenType::StreamBegin));
    match types[1] {
        CTokenType::Number(s) => assert_eq!(s, "123"),
        other => panic!("expected a number token, got {:?}", other),
    }
    match types[2] {
        CTokenType::Str(is_str, is_wide, s) => {
            assert!(*is_str);
            assert!(!*is_wide);
            assert_eq!(s, "ab");
        }
        other => panic!("expected a string token, got {:?}", other),
    }
    assert!(matches!(types[types.len() - 1], CTokenType::StreamEnd));
}

#[test]
fn c99_number_with_exponent() {
    let text = "1e+5;".as_bytes().to_vec();
    let mut stream = CStream::from_buffer(0, text);
    stream.tokenize();
    match &stream.tokenlist[1].ttype {
        CTokenType::Number(s) => assert_eq!(s, "1e+5"),
        other => panic!("expected a number token, got {:?}", other),
    }
}

#[test]
fn c99_nextchar_reads_plain_text() {
    let text = "ab".as_bytes().to_vec();
    let mut stream = CStream::from_buffer(0, text);
    assert_eq!(stream.nextchar(), 'a' as i32);
    assert_eq!(stream.nextchar(), 'b' as i32);
    assert_eq!(stream.nextchar(), -1);
}

#[test]
fn c99_nextchar_counts_lines() {
    let text = "\n\r\nx".as_bytes().to_vec();
    let mut stream = CStream::from_buffer(0, text);
    let c = stream.nextchar();
    assert_eq!(c, 92);
    assert_eq!(stream.line, 3);
}

#[test]
fn lex_parse_sections_and_substitution() {
    let input: Vec<String> = vec![
        "DIGIT [0-9]".to_string(),
        "%%".to_string(),
        "{DIGIT}+ { count(); }".to_string(),
        "%%".to_string(),
        "int main() {}".to_string(),
    ];
    let info = parse(&input).expect("parse failed");
    assert_eq!(info.subs.len(), 1);
    assert_eq!(info.subs[0].0, "DIGIT");
    assert_eq!(info.subs[0].1, "[0-9]");
    assert_eq!(info.rules.len(), 1);
    assert_eq!(info.rules[0].ere, "[0-9]+");
    assert_eq!(info.rules[0].action, "{ count(); }");
    assert_eq!(info.user_subs, vec!["int main() {}".to_string()]);
}

#[test]
fn lex_quoted_operators_are_escaped() {
    let input: Vec<String> = vec![
        "%%".to_string(),
        "\"a.b\" { dot(); }".to_string(),
    ];
    let info = parse(&input).expect("parse failed");
    assert_eq!(info.rules[0].ere, "a\\x2eb");
}

#[test]
fn lex_unknown_substitution_is_an_error() {
    let input: Vec<String> = vec!["%%".to_string(), "{NOPE} { x(); }".to_string()];
    assert!(parse(&input).is_err());
}

#[test]
fn lex_parse_braces_counts() {
    assert_eq!(parse_braces(0, "{ a { b } "), Ok(1));
    assert_eq!(parse_braces(1, "}"), Ok(0));
    assert!(parse_braces(0, "}").is_err());
}

#[test]
fn lex_find_ere_end_balances_brackets() {
    assert_eq!(find_ere_end("[ ]x rest"), Ok(4));
    assert_eq!(find_ere_end("a(b c)d e"), Ok(7));
    assert!(find_ere_end("a)b ").is_err());
    assert!(find_ere_end("abc").is_err());
}

#[test]
fn ast_prints_itself_back() {
    let sc = SimpleCommand {
        assignments: vec![Assignment {
            name: "V".to_string(),
            value: WordPair {
                word: Word { parts: vec![WordPart::UnquotedLiteral("x".to_string())] },
                as_string: "x".to_string(),
            },
        }],
        redirections: Vec::new(),
        words: vec![WordPair {
            word: Word { parts: vec![WordPart::UnquotedLiteral("cmd".to_string())] },
            as_string: "cmd".to_string(),
        }],
    };
    assert_eq!(sc.to_string(), "V=x\n cmd ");
    assert_eq!(IORedirectionKind::RedirectOuputAppend.to_string(), ">>");
}

#[test]
fn none_if_empty_drops_only_the_empty_command() {
    let empty = SimpleCommand {
        assignments: Vec::new(),
        redirections: Vec::new(),
        words: Vec::new(),
    };
    assert!(empty.none_if_empty().is_none());
    let nonempty = SimpleCommand {
        assignments: Vec::new(),
        redirections: Vec::new(),
        words: vec![WordPair {
            word: Word { parts: vec![WordPart::UnquotedLiteral("x".to_string())] },
            as_string: "x".to_string(),
        }],
    };
    assert!(nonempty.none_if_empty().is_some());
}

#[test]
fn glob_component_matching() {
    assert!(component_matches("*", "anything"));
    assert!(component_matches("a*c", "abc"));
    assert!(component_matches("a*c", "ac"));
    assert!(!component_matches("a*c", "abd"));
    assert!(component_matches("a?c", "abc"));
    assert!(!component_matches("a?c", "ac"));
    assert!(component_matches("[abc]x", "bx"));
    assert!(component_matches("[a-f]x", "dx"));
    assert!(!component_matches("[a-f]x", "gx"));
    assert!(component_matches("[!a-f]x", "gx"));
    assert!(component_matches("[]]x", "]x"));
    assert!(component_matches("a[", "a["));
}

#[test]
fn glob_step_splits_hits_and_descents() {
    let entries = vec![
        ("alpha".to_string(), true),
        ("beta".to_string(), false),
        ("axe".to_string(), false),
    ];
    let (descend, hits) = glob_step("a*", false, &entries);
    assert_eq!(descend, vec!["alpha".to_string()]);
    assert_eq!(hits, Vec::<String>::new());
    let (descend2, hits2) = glob_step("a*", true, &entries);
    assert_eq!(descend2, Vec::<String>::new());
    assert_eq!(hits2, vec!["alpha".to_string(), "axe".to_string()]);
}

#[test]
fn environment_export_unset_and_readonly() {
    let mut env = Environment::new();
    env.set("A", "1".to_string(), false).unwrap();
    env.mark_exported("A");
    let exported = env.exported();
    assert_eq!(exported, vec![("A".to_string(), "1".to_string())]);
    env.mark_readonly("A");
    assert_eq!(env.set("A", "2".to_string(), false), Err(EnvError::Readonly));
    assert_eq!(env.unset("A"), Err(EnvError::Readonly));
    env.set("B", "2".to_string(), false).unwrap();
    env.unset("B").unwrap();
    assert_eq!(env.get_value("B"), None);
    assert_eq!(env.get_value("A"), Some("1".to_string()));
}

#[test]
fn sort_strings_orders_and_keeps_everything() {
    let v = vec![
        "file2".to_string(),
        "dir1".to_string(),
        "file1".to_string(),
        "dir1".to_string(),
    ];
    let sorted = posixutils::strings::sort_strings(v);
    assert_eq!(
        sorted,
        vec![
            "dir1".to_string(),
            "dir1".to_string(),
            "file1".to_string(),
            "file2".to_string()
        ]
    );
}
