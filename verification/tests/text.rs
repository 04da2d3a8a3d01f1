use colmena::text::{contains_char, split_on};

#[test]
fn split_cuts_at_every_separator() {
    assert_eq!(split_on("a,b,c", ','), vec!["a", "b", "c"]);
    assert_eq!(split_on("abc", ','), vec!["abc"]);
    assert_eq!(split_on("edge-*,@staging", ','), vec!["edge-*", "@staging"]);
}

#[test]
fn split_keeps_empty_parts() {
    assert_eq!(split_on("", ','), vec![""]);
    assert_eq!(split_on(",", ','), vec!["", ""]);
    assert_eq!(split_on("a,,b", ','), vec!["a", "", "b"]);
    assert_eq!(split_on(",a,", ','), vec!["", "a", ""]);
}

#[test]
fn split_counts_characters_not_bytes() {
    assert_eq!(split_on("é,ü€,x", ','), vec!["é", "ü€", "x"]);
}

#[test]
fn split_agrees_with_std() {
    for s in ["", "a", ",", "a,b", "a,,b,", ",,,", "x,y;z,,"] {
        let expected: Vec<String> = s.split(',').map(|p| p.to_string()).collect();
        assert_eq!(split_on(s, ','), expected);
    }
}

#[test]
fn contains_char_finds_a_character() {
    assert!(contains_char("user@host:repo", ':'));
    assert!(!contains_char("foo.nix", ':'));
    assert!(!contains_char("", ':'));
    assert!(contains_char(":", ':'));
    assert!(contains_char("é:", ':'));
}
