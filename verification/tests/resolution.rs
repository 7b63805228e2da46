//! Fuzzy resolution against a fixture store, and the resolution coordinator.

use lexibot::Dictionary;
use lexibot::Latin;
use lexibot::Relaxation;
use lexibot::ResolutionResult;
use lexibot::Store;
use lexibot::contains_ci;
use lexibot::query_greedy;
use lexibot::resolve_word;

fn row(id: i32, en: &str, la: &str) -> Latin {
    Latin {
        id,
        en: en.to_string(),
        la: la.to_string(),
        defn: "a definition".to_string(),
        fr: "fr".to_string(),
        es: "es".to_string(),
        it: "it".to_string(),
    }
}

fn fixture_store() -> Store {
    let mut db = Store::new();
    db.push_row(row(1, "focus", "focus"));
    db.push_row(row(2, "inquire", "inquirere"));
    db.push_row(row(3, "aviary", "aviarium"));
    db.push_row(row(4, "spelunker", "spelunca"));
    db
}

#[test]
fn find_like_or_none() {
    let db = fixture_store();

    let test_vec: Vec<(Vec<String>, Option<String>)> = vec![
        (
            // walks the vector,
            // and strips trailing char
            vec![String::from("zzz"), String::from("spelunkerzzz")],
            Some(String::from("spelunker")),
        ),
        (
            // finds LIKE with '%foo%' syntax
            vec![String::from("foo")],
            Some(String::from("focus")),
        ),
        (
            // finds correct substring e.g. 'quire' -> inquire
            vec!["quire".to_string()],
            Some(String::from("inquire")),
        ),
        (
            // finds closest latin match e.g. '-arium' -> aviary
            vec!["viarium".to_string()],
            Some(String::from("aviary")),
        ),
        (
            // test None returned
            vec!["zzz".to_string()],
            None,
        ),
    ];

    for case in test_vec {
        let words = case.0;
        let expect = case.1;

        let mut en: Option<String> = None; // an english word

        let row = query_greedy(&words, &db);

        if let Some(latin) = row {
            en = Some(latin.en)
        }
        assert_eq!(en, expect);
    }
}

#[test]
fn wildcard_match_is_case_insensitive() {
    assert!(contains_ci("aViArIuM", "viarium"));
    assert!(contains_ci("focus", "FOC"));
    assert!(!contains_ci("focus", "zz"));

    let mut db = Store::new();
    db.push_row(row(1, "Aviary", "AVIARIUM"));
    let hit = query_greedy(&vec!["viarium".to_string()], &db).unwrap();
    assert_eq!(hit.en, "Aviary");
}

#[test]
fn exact_store_lookup() {
    let db = fixture_store();
    let hit = db.find_exact("focus").unwrap();
    assert_eq!(hit.en, "focus");
    assert_eq!(hit.la, "focus");
    assert!(db.find_exact("Focus").is_none());
    assert!(db.find_exact("focu").is_none());
}

#[test]
fn repeated_resolution_same_result() {
    let db = fixture_store();
    let words = vec!["viarium".to_string()];
    let first = query_greedy(&words, &db).map(|r| r.en);
    let second = query_greedy(&words, &db).map(|r| r.en);
    assert_eq!(first, second);
    assert_eq!(first, Some("aviary".to_string()));
}

#[test]
fn relaxation_never_below_two_chars() {
    let words = vec![
        "intelligence".to_string(),
        "x".to_string(),
        "ab".to_string(),
    ];
    let mut m = Relaxation::new(&words);
    let mut patterns: Vec<String> = Vec::new();
    while let Some(p) = m.current() {
        patterns.push(p);
        m.advance();
    }
    // "intelligence" relaxes from 12 characters down to 2; "x" is too short
    // to attempt; "ab" is attempted once.
    assert_eq!(patterns.len(), 12);
    for p in &patterns {
        assert!(p.chars().count() >= 2);
    }
    assert_eq!(patterns[0], "intelligence");
    assert_eq!(patterns[10], "in");
    assert_eq!(patterns[11], "ab");
}

#[test]
fn coordinator_paths() {
    let db = fixture_store();
    let dict = Dictionary::build(&db.rows).unwrap();

    // exact hit: served without fuzzy search
    let r = resolve_word("/q focus", &dict, &db);
    assert!(matches!(r, ResolutionResult::Exact(latin) if latin.en == "focus"));

    // fuzzy hit after relaxation
    let r = resolve_word("/q spelunkerzzz", &dict, &db);
    assert!(matches!(r, ResolutionResult::Similar(latin) if latin.en == "spelunker"));

    // later candidate wins when earlier ones miss
    let r = resolve_word("/q zzz quire", &dict, &db);
    assert!(matches!(r, ResolutionResult::Similar(latin) if latin.en == "inquire"));

    // nothing matches
    let r = resolve_word("/q zzz", &dict, &db);
    assert!(matches!(r, ResolutionResult::NoResult));

    // no candidates: invalid command text
    let r = resolve_word("/q", &dict, &db);
    assert!(matches!(r, ResolutionResult::NoResult));
}
