use find_cmdlet::tags::{join_tags, split_tags, trim_str};

#[test]
fn tags_round_trip() {
    let tags = vec![
        String::from("automation"),
        String::from("Azure"),
        String::from("vm"),
    ];
    let stored = join_tags(&tags);
    assert_eq!(stored, "automation Azure vm");
    let back = split_tags(&stored);
    assert_eq!(back, tags);
}

#[test]
fn join_empty_list() {
    let tags: Vec<String> = Vec::new();
    assert_eq!(join_tags(&tags), "");
}

#[test]
fn split_discards_empty_fragments() {
    let back = split_tags("  alpha   beta ");
    assert_eq!(back, vec![String::from("alpha"), String::from("beta")]);
}

#[test]
fn split_of_empty_is_empty() {
    assert!(split_tags("").is_empty());
    assert!(split_tags("   ").is_empty());
}

#[test]
fn tag_with_inner_space_does_not_round_trip() {
    // The accepted limitation of the storage format: a tag holding a space
    // comes back as two tags.
    let tags = vec![String::from("two words")];
    let stored = join_tags(&tags);
    let back = split_tags(&stored);
    assert_eq!(back, vec![String::from("two"), String::from("words")]);
}

#[test]
fn trim_strips_surrounding_whitespace() {
    assert_eq!(trim_str("  hello \t\r\n"), "hello");
    assert_eq!(trim_str("hello"), "hello");
    assert_eq!(trim_str("   "), "");
    assert_eq!(trim_str(""), "");
    assert_eq!(trim_str(" a b "), "a b");
}
