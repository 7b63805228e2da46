//! The lexicon index: bucket totality, exact lookup, building from rows.

use lexibot::Dictionary;
use lexibot::Error;
use lexibot::Latin;
use lexibot::try_from_dictionary;

fn row(id: i32, en: &str, la: &str) -> Latin {
    Latin {
        id,
        en: en.to_string(),
        la: la.to_string(),
        defn: "a definition".to_string(),
        fr: "fr".to_string(),
        es: "es".to_string(),
        it: "it".to_string(),
    }
}

#[test]
fn dict_new() {
    let d = Dictionary::new();

    // all keys present, with empty buckets
    for i in 0_u8..26 {
        let key = (b'a' + i) as char;
        let val = d.get(key);
        assert!(val.is_some());
        assert!(val.unwrap().is_empty())
    }
}

#[test]
fn dict_match() {
    // test iterate dictionary match
    // e.g. [foo, bar, absent] yields 'absent'

    let mut d = Dictionary::new();
    assert!(d.insert(String::from("spelunker")));

    let mut words = vec![
        "foo".to_string(),
        "bar".to_string(),
        "spelunker".to_string(),
    ];

    // match returned
    let exact = try_from_dictionary(&words, &d);
    assert!(exact.is_some());
    assert_eq!(exact.unwrap(), "spelunker");

    // no match
    words.pop(); // spelunker
    words.push(String::from("baz"));
    let exact = try_from_dictionary(&words, &d);
    assert!(exact.is_none());
}

#[test]
fn lookup_is_exact() {
    let mut d = Dictionary::new();
    assert!(d.insert(String::from("spelunker")));
    assert!(d.lookup("spelunker"));
    assert!(!d.lookup("spelunkers"));
    assert!(!d.lookup("spelunke"));
    assert!(!d.lookup(""));
}

#[test]
fn insert_refuses_unbucketable_word() {
    let mut d = Dictionary::new();
    assert!(!d.insert(String::from("3dmodel")));
    assert!(!d.insert(String::from("")));
    // an uppercase headword is folded into its lowercase bucket
    assert!(d.insert(String::from("Focus")));
    let bucket = d.get('f').unwrap();
    assert_eq!(bucket.len(), 1);
    assert_eq!(bucket[0], "Focus");
}

#[test]
fn build_from_rows() {
    let rows = vec![row(1, "focus", "focus"), row(2, "fable", "fabula"), row(3, "aviary", "aviarium")];
    let d = Dictionary::build(&rows).unwrap();
    assert!(d.lookup("focus"));
    assert!(d.lookup("fable"));
    assert!(d.lookup("aviary"));
    assert!(!d.lookup("spelunker"));
    let f_bucket = d.get('f').unwrap();
    assert_eq!(f_bucket.len(), 2);
    assert_eq!(f_bucket[0], "focus");
    assert_eq!(f_bucket[1], "fable");
}

#[test]
fn build_rejects_corrupt_headword() {
    let rows = vec![row(1, "focus", "focus"), row(2, "3dmodel", "none")];
    let r = Dictionary::build(&rows);
    assert!(matches!(r, Err(Error::DataIntegrity)));

    let rows = vec![row(1, "", "empty")];
    let r = Dictionary::build(&rows);
    assert!(matches!(r, Err(Error::DataIntegrity)));
}
