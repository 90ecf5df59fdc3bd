use adventure::flags::FlagSet;
use adventure::history::History;
use adventure::story::{Link, Scene, Story};
use adventure::text::{decimal_string, numbered_line, parse_number, text_eq};

#[test]
fn flag_set_activate_and_deactivate() {
    let mut flags = FlagSet::new();
    assert!(!flags.contains("a"));
    flags.activate("a");
    flags.activate("a");
    assert!(flags.contains("a"));
    flags.activate("b");
    flags.deactivate("a");
    assert!(!flags.contains("a"));
    assert!(flags.contains("b"));
    flags.deactivate("a");
    assert!(!flags.contains("a"));
    flags.clear();
    assert!(!flags.contains("b"));
}

#[test]
fn history_is_last_in_first_out() {
    let mut history = History::new();
    assert!(history.is_empty());
    assert_eq!(history.pop(), None);
    history.push("one".to_string());
    history.push("two".to_string());
    assert_eq!(history.len(), 2);
    assert_eq!(history.pop(), Some("two".to_string()));
    assert_eq!(history.pop(), Some("one".to_string()));
    assert_eq!(history.pop(), None);
    history.push("three".to_string());
    history.clear();
    assert!(history.is_empty());
}

#[test]
fn story_insert_replaces_and_lookup_finds() {
    let mut story = Story::new();
    let make = |d: &str| Scene {
        description: d.to_string(),
        set: Vec::new(),
        unset: Vec::new(),
        choices: vec![Link { key: "k".to_string(), target: "t".to_string() }],
        check: Vec::new(),
    };
    story.insert("start".to_string(), make("first"));
    story.insert("other".to_string(), make("other"));
    story.insert("start".to_string(), make("second"));
    assert_eq!(story.get_scene("start").unwrap().description, "second");
    assert_eq!(story.get_scene("other").unwrap().description, "other");
    assert!(story.get_scene("missing").is_none());
}

#[test]
fn decimal_rendering() {
    assert_eq!(decimal_string(0), "0");
    assert_eq!(decimal_string(7), "7");
    assert_eq!(decimal_string(10), "10");
    assert_eq!(decimal_string(1234), "1234");
    assert_eq!(decimal_string(usize::MAX), usize::MAX.to_string());
}

#[test]
fn numbered_line_format() {
    assert_eq!(numbered_line(1, "Open the door"), "1) Open the door");
    assert_eq!(numbered_line(12, "Go Back"), "12) Go Back");
}

#[test]
fn parse_number_reads_like_std() {
    assert_eq!(parse_number("1"), Some(1));
    assert_eq!(parse_number("+7"), Some(7));
    assert_eq!(parse_number("007"), Some(7));
    assert_eq!(parse_number("0"), Some(0));
    assert_eq!(parse_number(""), None);
    assert_eq!(parse_number("+"), None);
    assert_eq!(parse_number("-1"), None);
    assert_eq!(parse_number("abc"), None);
    assert_eq!(parse_number("1a"), None);
    assert_eq!(parse_number(" 1"), None);
    let max = usize::MAX.to_string();
    assert_eq!(parse_number(&max), Some(usize::MAX));
    let over = format!("{}0", max);
    assert_eq!(parse_number(&over), None);
    for s in ["42", "+5", "x", "99999999999999999999999"] {
        assert_eq!(parse_number(s), s.parse::<usize>().ok());
    }
}

#[test]
fn text_equality() {
    assert!(text_eq("end", "end"));
    assert!(!text_eq("end", "End"));
    assert!(!text_eq("end", "ends"));
    assert!(text_eq("", ""));
}
