use nicebot::PrefixTrie;

#[test]
fn trie_get_exact() {
    let mut trie = PrefixTrie::new();

    trie.insert("apple", 1);
    trie.insert("banana", 2);
    trie.insert("citrus", 3);

    let apple = trie.get("apple");
    let banana = trie.get("banana");
    let citrus = trie.get("citrus");

    assert_eq!(apple, Some(1));
    assert_eq!(banana, Some(2));
    assert_eq!(citrus, Some(3));

    let date = trie.get("date");

    assert_eq!(date, None);
}

#[test]
fn trie_get_longer() {
    let mut trie = PrefixTrie::new();

    trie.insert("abc", 5);

    let value = trie.get("abcdefg");

    assert_eq!(value, Some(5));
}

#[test]
fn trie_get_shorter() {
    let mut trie = PrefixTrie::new();

    trie.insert("abc", 5);

    let value = trie.get("a");

    assert_eq!(value, None);
}

#[test]
fn trie_get_empty() {
    let mut trie = PrefixTrie::new();

    trie.insert("", 1);

    let value = trie.get("");

    assert_eq!(value, Some(1));
}

#[test]
fn trie_has_exact() {
    let mut trie = PrefixTrie::new();

    trie.insert("abc", 5);

    assert!(trie.has("abc"));
}

#[test]
fn trie_has_longer() {
    let mut trie = PrefixTrie::new();

    trie.insert("abc", 5);

    assert!(trie.has("abcdef"));
}

#[test]
fn trie_has_shorter() {
    let mut trie = PrefixTrie::new();

    trie.insert("abc", 5);

    assert!(!trie.has("a"));
}

#[test]
fn trie_prioritize_exact() {
    let mut trie = PrefixTrie::new();

    trie.insert("/aaa", 0);
    trie.insert("/aaa\0", 1);
    trie.insert("*/aaa", 2);
    trie.insert("*/aaa\0", 3);
    trie.insert("/aaa*", 4);
    trie.insert("*/aaa*", 5);

    assert_eq!(trie.get("/aaa"), Some(1));
    assert_eq!(trie.get("/aaa/xxx"), Some(4));
    assert_eq!(trie.get("/xxx/aaa"), Some(3));
    assert_eq!(trie.get("/xxx/aaa/xxx"), Some(5));
    assert_eq!(trie.get("/xxx"), None);
}

#[test]
fn trie_double_wildcard() {
    let mut trie = PrefixTrie::new();

    trie.insert("*/abc*", 5);

    assert!(!trie.has("abc"));
    assert!(!trie.has("/axxxbc"));
    assert!(!trie.has("/xabc"));
    assert!(trie.has("/abc"));
    assert!(trie.has("/x/abc"));
    assert!(trie.has("/abc/x"));
    assert!(trie.has("/abcx"));
    assert!(trie.has("/x/abc/x"));
}

#[test]
fn trie_insert_twice_displaces() {
    let mut trie = PrefixTrie::new();

    assert_eq!(trie.insert("abc", 5), None);
    assert_eq!(trie.insert("abc", 5), Some(5));
    assert_eq!(trie.get("abc"), Some(5));
    assert_eq!(trie.insert("a*c\0", 7), None);
    assert_eq!(trie.insert("a*c\0", 7), Some(7));
}

#[test]
fn trie_last_write_wins() {
    let mut trie = PrefixTrie::new();

    trie.insert("abc", 1);
    assert_eq!(trie.insert("abc", 2), Some(1));
    assert_eq!(trie.get("abc"), Some(2));
    assert_eq!(trie.get("abcd"), Some(2));
}

#[test]
fn trie_root_default_covers_all() {
    let mut trie = PrefixTrie::new();

    trie.insert("", 9);

    assert_eq!(trie.get(""), Some(9));
    assert_eq!(trie.get("anything"), Some(9));
    assert_eq!(trie.get("/a/b/c"), Some(9));
}

#[test]
fn trie_unmatched_query_defaults() {
    let mut trie = PrefixTrie::new();

    trie.insert("", 0);
    trie.insert("/alpha", 1);
    trie.insert("/beta", 2);

    // shares no prefix with any inserted pattern: the root default answers
    assert_eq!(trie.get("/gamma"), Some(0));
    // a proper prefix of an inserted pattern is not a match either
    assert_eq!(trie.get("/al"), Some(0));
}

#[test]
fn trie_prefix_match_wins() {
    let mut trie = PrefixTrie::new();

    trie.insert("/al", 1);
    trie.insert("/alpha", 2);

    // the longer pattern answers its own extensions
    assert_eq!(trie.get("/alphabet"), Some(2));
    // queries past the short pattern but off the long one keep the short answer
    assert_eq!(trie.get("/alto"), Some(1));
}

#[test]
fn trie_anchor_only_exact() {
    let mut trie = PrefixTrie::new();

    trie.insert("abc\0", 5);

    assert_eq!(trie.get("abc"), Some(5));
    assert_eq!(trie.get("abcd"), None);
    assert_eq!(trie.get("ab"), None);
}

#[test]
fn trie_anchor_trailing_chars_ignored() {
    let mut trie = PrefixTrie::new();

    trie.insert("ab\0zzz", 4);

    assert_eq!(trie.get("ab"), Some(4));
    assert_eq!(trie.get("abzzz"), None);
}

#[test]
fn trie_shrink_preserves_answers() {
    let mut trie = PrefixTrie::new();

    trie.insert("/aaa", 0);
    trie.insert("*/abc*", 5);
    trie.insert("x\0", 7);
    trie.shrink();

    assert_eq!(trie.get("/aaa"), Some(0));
    assert_eq!(trie.get("/x/abc/x"), Some(5));
    assert_eq!(trie.get("x"), Some(7));
    assert_eq!(trie.get("zzz"), None);
}

#[test]
fn trie_single_star_outranks_empty() {
    let mut trie = PrefixTrie::new();

    trie.insert("", 0);
    trie.insert("*", 1);

    assert_eq!(trie.get("anything"), Some(1));
    assert_eq!(trie.get(""), Some(1));
}
