use coral_turbo::PrefixTrie;

#[test]
fn test_insert_and_get() {
    let mut trie: PrefixTrie<i32> = PrefixTrie::new();
    trie.insert("p-", 1);
    trie.insert("pt-", 2);
    trie.insert("pb-", 3);

    assert_eq!(trie.get("p-"), Some(&1));
    assert_eq!(trie.get("pt-"), Some(&2));
    assert_eq!(trie.get("pb-"), Some(&3));
    assert_eq!(trie.get("px-"), None);
}

#[test]
fn test_longest_prefix_match() {
    let mut trie: PrefixTrie<&str> = PrefixTrie::new();
    trie.insert("bg-", "background");
    trie.insert("bg-gradient-", "gradient");
    trie.insert("bg-gradient-to-", "gradient-direction");

    let result = trie.longest_prefix_match("bg-gradient-to-r");
    assert_eq!(result, Some((&"gradient-direction", 15)));

    let result = trie.longest_prefix_match("bg-red-500");
    assert_eq!(result, Some((&"background", 3)));
}

#[test]
fn test_all_prefix_matches() {
    let mut trie: PrefixTrie<&str> = PrefixTrie::new();
    trie.insert("b", "b");
    trie.insert("bg", "bg");
    trie.insert("bg-", "background");

    let matches = trie.all_prefix_matches("bg-red");
    assert_eq!(matches.len(), 3);
}

#[test]
fn test_remove() {
    let mut trie: PrefixTrie<i32> = PrefixTrie::new();
    trie.insert("test", 1);
    trie.insert("testing", 2);

    assert_eq!(trie.len(), 2);
    assert_eq!(trie.remove("test"), Some(1));
    assert_eq!(trie.len(), 1);
    assert_eq!(trie.get("test"), None);
    assert_eq!(trie.get("testing"), Some(&2));
}

#[test]
fn test_keys() {
    let mut trie: PrefixTrie<i32> = PrefixTrie::new();
    trie.insert("p-", 1);
    trie.insert("m-", 2);
    trie.insert("bg-", 3);

    let keys = trie.keys();
    assert_eq!(keys.len(), 3);
    assert!(keys.contains(&"p-".to_string()));
    assert!(keys.contains(&"m-".to_string()));
    assert!(keys.contains(&"bg-".to_string()));
}

#[test]
fn test_keys_with_prefix() {
    let mut trie: PrefixTrie<i32> = PrefixTrie::new();
    trie.insert("border-", 1);
    trie.insert("border-t-", 2);
    trie.insert("border-b-", 3);
    trie.insert("bg-", 4);

    let keys = trie.keys_with_prefix("border-");
    assert_eq!(keys.len(), 3);
    assert!(keys.contains(&"border-".to_string()));
    assert!(keys.contains(&"border-t-".to_string()));
    assert!(keys.contains(&"border-b-".to_string()));
}

#[test]
fn test_insert_overwrites_value() {
    let mut trie: PrefixTrie<i32> = PrefixTrie::new();
    trie.insert("key", 1);
    trie.insert("key", 2);
    assert_eq!(trie.len(), 1);
    assert_eq!(trie.get("key"), Some(&2));
}

#[test]
fn test_contains_and_is_empty() {
    let mut trie: PrefixTrie<i32> = PrefixTrie::new();
    assert!(trie.is_empty());
    assert!(!trie.contains("a"));
    trie.insert("a", 7);
    assert!(!trie.is_empty());
    assert!(trie.contains("a"));
}

#[test]
fn test_remove_missing_key() {
    let mut trie: PrefixTrie<i32> = PrefixTrie::new();
    trie.insert("abc", 1);
    assert_eq!(trie.remove("ab"), None);
    assert_eq!(trie.len(), 1);
    assert_eq!(trie.get("abc"), Some(&1));
}

#[test]
fn test_lpm_exact_key_consumes_whole_key() {
    let mut trie: PrefixTrie<i32> = PrefixTrie::new();
    trie.insert("abc", 9);
    trie.insert("ab", 8);
    let r = trie.longest_prefix_match("abc");
    assert_eq!(r, Some((&9, 3)));
}
