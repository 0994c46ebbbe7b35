use subshell::env_map::EnvMap;
use subshell::text::{has_char, is_before, join_path, rest_after, split_on};

fn s(text: &str) -> String {
    String::from(text)
}

#[test]
fn split_keeps_every_piece_in_order() {
    assert_eq!(split_on("/usr/bin:/bin:/opt/x", ':'), vec![s("/usr/bin"), s("/bin"), s("/opt/x")]);
}

#[test]
fn split_of_text_without_separator_is_the_text() {
    assert_eq!(split_on("/usr/bin", ':'), vec![s("/usr/bin")]);
}

#[test]
fn split_of_empty_text_is_one_empty_piece() {
    assert_eq!(split_on("", ':'), vec![s("")]);
}

#[test]
fn split_keeps_empty_pieces() {
    assert_eq!(split_on(":a::b:", ':'), vec![s(""), s("a"), s(""), s("b"), s("")]);
}

#[test]
fn split_agrees_with_std_on_non_ascii_text() {
    let text = "/höme/ü:/usr/bïn::/☃";
    let expected: Vec<String> = text.split(':').map(String::from).collect();
    assert_eq!(split_on(text, ':'), expected);
}

#[test]
fn split_then_join_gives_the_text_back() {
    let text = "a:bc::d";
    assert_eq!(split_on(text, ':').join(":"), text);
}

#[test]
fn join_path_puts_one_slash_between() {
    assert_eq!(join_path("/usr/bin", "zsh"), "/usr/bin/zsh");
    assert_eq!(join_path("", "zsh"), "/zsh");
    assert_eq!(join_path("/home/u/.subshell", ""), "/home/u/.subshell/");
}

#[test]
fn new_map_is_empty() {
    let map = EnvMap::new();
    assert!(map.is_empty());
    assert_eq!(map.len(), 0);
    assert_eq!(map.get(&s("HOME")), None);
    assert!(!map.contains_key(&s("HOME")));
}

#[test]
fn map_gives_back_what_was_inserted() {
    let mut map = EnvMap::new();
    map.insert(s("HOME"), s("/home/u"));
    map.insert(s("PATH"), s("/usr/bin"));
    assert!(!map.is_empty());
    assert_eq!(map.get(&s("HOME")), Some(&s("/home/u")));
    assert_eq!(map.get(&s("PATH")), Some(&s("/usr/bin")));
    assert_eq!(map.get(&s("SHELL")), None);
    assert!(map.contains_key(&s("PATH")));
}

#[test]
fn later_insert_of_a_name_wins() {
    let mut map = EnvMap::new();
    map.insert(s("A"), s("1"));
    map.insert(s("B"), s("2"));
    map.insert(s("A"), s("3"));
    assert_eq!(map.get(&s("A")), Some(&s("3")));
    assert_eq!(map.get(&s("B")), Some(&s("2")));
}

#[test]
fn a_name_stands_once_where_it_first_came_in() {
    let mut map = EnvMap::new();
    map.insert(s("A"), s("1"));
    map.insert(s("B"), s("2"));
    map.insert(s("A"), s("3"));
    map.insert(s("C"), s("4"));
    map.insert(s("B"), s("5"));
    assert_eq!(map.len(), 3);
    assert_eq!(map.entry(0), (&s("A"), &s("3")));
    assert_eq!(map.entry(1), (&s("B"), &s("5")));
    assert_eq!(map.entry(2), (&s("C"), &s("4")));
}

#[test]
fn entries_come_in_the_order_of_insertion() {
    let mut map = EnvMap::new();
    map.insert(s("A"), s("1"));
    map.insert(s("B"), s("2"));
    assert_eq!(map.len(), 2);
    assert_eq!(map.entry(0), (&s("A"), &s("1")));
    assert_eq!(map.entry(1), (&s("B"), &s("2")));
}

#[test]
fn duplicate_has_the_same_entries() {
    let mut map = EnvMap::new();
    map.insert(s("A"), s("1"));
    map.insert(s("B"), s("2"));
    let copy = map.duplicate();
    map.insert(s("A"), s("9"));
    assert_eq!(copy.len(), 2);
    assert_eq!(copy.get(&s("A")), Some(&s("1")));
    assert_eq!(copy.get(&s("B")), Some(&s("2")));
}

#[test]
fn lexical_order_goes_by_the_first_difference() {
    assert!(is_before("abc", "abd"));
    assert!(!is_before("abd", "abc"));
    assert!(is_before("Zeta", "alpha"));
    assert!(is_before("a", "b"));
    assert!(is_before("z", "é"));
}

#[test]
fn lexical_order_puts_a_text_before_what_it_begins() {
    assert!(is_before("", "a"));
    assert!(is_before("ab", "abc"));
    assert!(!is_before("abc", "ab"));
    assert!(!is_before("a", ""));
}

#[test]
fn no_text_is_before_itself() {
    assert!(!is_before("", ""));
    assert!(!is_before("work", "work"));
}

#[test]
fn lexical_order_agrees_with_std() {
    let words = ["", "a", "ab", "b", "B", "é", "z", "work", "wörk", "☃", ".zshrc", "/"];
    for a in words {
        for b in words {
            assert_eq!(is_before(a, b), a < b, "{:?} before {:?}", a, b);
        }
    }
}

#[test]
fn rest_after_gives_what_follows_the_prefix() {
    assert_eq!(rest_after("/b/work", "/b/"), Some(s("work")));
    assert_eq!(rest_after("/b/", "/b/"), Some(s("")));
    assert_eq!(rest_after("anything", ""), Some(s("anything")));
    assert_eq!(rest_after("/höme/ü/x", "/höme/ü/"), Some(s("x")));
}

#[test]
fn rest_after_of_a_text_that_begins_otherwise_is_none() {
    assert_eq!(rest_after("/c/work", "/b/"), None);
    assert_eq!(rest_after("/b", "/b/"), None);
    assert_eq!(rest_after("", "/"), None);
}

#[test]
fn has_char_finds_a_character_anywhere() {
    assert!(has_char("a/b", '/'));
    assert!(has_char("/", '/'));
    assert!(has_char("ab/", '/'));
    assert!(!has_char("ab", '/'));
    assert!(!has_char("", '/'));
}
