use icie::auth::{Keyring, INDEX_ENTRY, KIND_CREDENTIALS, KIND_SESSION};

#[test]
fn entry_name_format() {
    let k = Keyring::new(KIND_CREDENTIALS, "codeforces.com");
    assert_eq!(k.entry(), "@credentials codeforces.com");
    let s = Keyring::new(KIND_SESSION, "atcoder.jp");
    assert_eq!(s.entry(), "@session atcoder.jp");
    assert_eq!(INDEX_ENTRY, "all");
}

#[test]
fn index_with_appends_record() {
    assert_eq!(Keyring::index_with(None, "@session a"), "#@session a");
    assert_eq!(Keyring::index_with(Some("#@session a"), "@credentials b"), "#@session a#@credentials b");
}

#[test]
fn index_entries_sorted_unique() {
    let index = "#@session b#@credentials a#@session b##@credentials a";
    assert_eq!(Keyring::index_entries(Some(index)), vec!["@credentials a".to_string(), "@session b".to_string()]);
    assert_eq!(Keyring::index_entries(None), Vec::<String>::new());
    assert_eq!(Keyring::index_entries(Some("")), Vec::<String>::new());
}

#[test]
fn index_entries_orders_like_str() {
    let names = ["b", "a", "ab", "B", "é", "z", "aa"];
    let mut index = String::new();
    for n in names {
        index = Keyring::index_with(Some(&index), n);
    }
    let mut expected: Vec<String> = names.iter().map(|s| s.to_string()).collect();
    expected.sort();
    expected.dedup();
    assert_eq!(Keyring::index_entries(Some(&index)), expected);
}

#[test]
fn index_without_removes_every_record() {
    let index = "#@session a#@credentials b#@session a";
    let out = Keyring::index_without(Some(index), "@session a");
    assert_eq!(out, "#@credentials b");
    assert_eq!(Keyring::index_entries(Some(&out)), vec!["@credentials b".to_string()]);
    assert_eq!(Keyring::index_without(None, "x"), "");
}

#[test]
fn index_without_keeps_others_and_joins() {
    assert_eq!(Keyring::index_without(Some("#a#b#c"), "b"), "#a#c");
    assert_eq!(Keyring::index_without(Some("#a"), "a"), "");
    assert_eq!(Keyring::index_without(Some("a#b"), "zz"), "a#b");
}

#[test]
fn saved_then_deleted_round_trip() {
    let k = Keyring::new(KIND_CREDENTIALS, "codeforces.com");
    let before = "#@session x";
    let saved = Keyring::index_with(Some(before), &k.entry());
    assert!(Keyring::index_entries(Some(&saved)).contains(&k.entry()));
    let deleted = Keyring::index_without(Some(&saved), &k.entry());
    assert_eq!(Keyring::index_entries(Some(&deleted)), Keyring::index_entries(Some(before)));
}

#[test]
fn prompts() {
    assert_eq!(Keyring::username_prompt("codeforces.com"), "Username at codeforces.com");
    assert_eq!(Keyring::password_prompt("tourist", "codeforces.com"), "Password for tourist at codeforces.com");
}
