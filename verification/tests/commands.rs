//! The two command grammars, exercised on raw text.

use lexibot::Error;
use lexibot::LangCode;
use lexibot::is_valid_query;
use lexibot::parse_query;
use lexibot::parse_translatable;

fn lang(code: &str) -> LangCode {
    LangCode::try_new(code).unwrap()
}

#[test]
fn valid_query() {
    let bad = "/q";
    assert!(!is_valid_query(bad));

    let raw = "/q foo bar absent";
    assert!(is_valid_query(raw));
}

#[test]
fn valid_translatable() {
    // syntax: /t src_lang trg_lang text
    let test_vec: Vec<(&str, (LangCode, LangCode, String))> = vec![
        (
            "/t en de good morning",
            (lang("EN"), lang("DE"), "good morning".to_string()),
        ),
        (
            "/t it en-us Cos'è l'intelligenza?",
            (lang("IT"), lang("EN-US"), "Cos'è l'intelligenza?".to_string()),
        ),
    ];

    // successfully parsed
    for t in test_vec {
        let result = parse_translatable(t.0);

        assert!(result.is_ok());
        assert_eq!(result.unwrap(), t.1);
    }

    // rejects empty text
    let s = "/t en de   ";
    let result = parse_translatable(s);
    assert!(result.is_err());
    assert!(matches!(result.unwrap_err(), Error::Usage));
}

#[test]
fn query_candidates_in_order() {
    let words = parse_query("/q foo bar absent");
    let expect = vec!["foo".to_string(), "bar".to_string(), "absent".to_string()];
    assert_eq!(words, expect);
}

#[test]
fn query_without_word_is_invalid() {
    assert!(parse_query("/q").is_empty());
    assert!(parse_query("/q ").is_empty());
    assert!(parse_query("/q a b").is_empty());
    assert!(parse_query("hello").is_empty());
}

#[test]
fn query_drops_bad_tokens_and_lowercases() {
    let words = parse_query("/q FOO x b4r Absent");
    let expect = vec!["foo".to_string(), "absent".to_string()];
    assert_eq!(words, expect);
}

#[test]
fn translatable_with_comma_separator() {
    let result = parse_translatable("/t en,fr good evening").unwrap();
    assert_eq!(result.0, lang("EN"));
    assert_eq!(result.1, lang("FR"));
    assert_eq!(result.2, "good evening".to_string());
}

#[test]
fn translatable_unknown_source() {
    let result = parse_translatable("/t qq de good morning");
    assert!(matches!(result, Err(Error::UnknownSourceLanguage(c)) if c == "QQ"));
}

#[test]
fn translatable_unknown_target() {
    let result = parse_translatable("/t en qq good morning");
    assert!(matches!(result, Err(Error::UnknownTargetLanguage(c)) if c == "QQ"));
}

#[test]
fn translatable_usage_errors() {
    // no prefix
    assert!(matches!(parse_translatable("translate this"), Err(Error::Usage)));
    // missing phrase
    assert!(matches!(parse_translatable("/t en de"), Err(Error::Usage)));
    // code too long
    assert!(matches!(parse_translatable("/t english de hello there"), Err(Error::Usage)));
    // code with a digit
    assert!(matches!(parse_translatable("/t e4 de hello there"), Err(Error::Usage)));
    // phrase opening with characters outside its alphabet
    assert!(matches!(parse_translatable("/t en de %% zzz"), Err(Error::Usage)));
    // phrase of two characters only
    assert!(matches!(parse_translatable("/t en de hi"), Err(Error::Usage)));
}

#[test]
fn lang_code_catalog() {
    assert!(LangCode::try_new("EN").is_some());
    assert!(LangCode::try_new("LA").is_some());
    assert!(LangCode::try_new("QQ").is_none());
    assert_eq!(lang("EN-GB").as_code(), "EN-GB");
}
