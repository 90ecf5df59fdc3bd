use adventure::engine::{EngineError, Reply, Session, Turn};
use adventure::story::{Link, Scene, Story};

fn link(key: &str, target: &str) -> Link {
    Link { key: key.to_string(), target: target.to_string() }
}

fn scene(description: &str, choices: Vec<Link>) -> Scene {
    Scene {
        description: description.to_string(),
        set: Vec::new(),
        unset: Vec::new(),
        choices,
        check: Vec::new(),
    }
}

fn names(list: &[&str]) -> Vec<String> {
    list.iter().map(|s| s.to_string()).collect()
}

/// start --go--> mid --back_opt--> start
fn two_scene_story() -> Story {
    let mut story = Story::new();
    story.insert("start".to_string(), scene("A", vec![link("go", "mid")]));
    story.insert("mid".to_string(), scene("B", vec![link("back_opt", "start")]));
    story
}

fn check_story(flags_to_set: &[&str]) -> Story {
    let mut story = Story::new();
    let mut start = scene("Hall", vec![]);
    start.set = names(flags_to_set);
    start.check = vec![link("A", "x"), link("else", "y")];
    story.insert("start".to_string(), start);
    story.insert("x".to_string(), scene("X", vec![]));
    story.insert("y".to_string(), scene("Y", vec![]));
    story
}

#[test]
fn new_session_starts_at_start() {
    let session = Session::new();
    assert_eq!(session.current(), "start");
    assert!(session.history().is_empty());
    assert!(!session.flags().contains("anything"));
}

#[test]
fn end_to_end_choice_then_go_back() {
    let story = two_scene_story();
    let mut session = Session::new();
    assert_eq!(session.enter(&story), Ok(Turn::Menu));
    assert_eq!(session.menu(&story), vec!["1) go".to_string()]);
    assert_eq!(session.respond(&story, "1"), Ok(Reply::Moved));
    assert_eq!(session.current(), "mid");
    assert_eq!(session.history().len(), 1);

    assert_eq!(session.enter(&story), Ok(Turn::Menu));
    assert_eq!(
        session.menu(&story),
        vec!["1) back_opt".to_string(), "2) Go Back".to_string()]
    );
    assert_eq!(session.respond(&story, "1"), Ok(Reply::Moved));
    assert_eq!(session.current(), "start");
    assert_eq!(session.history().len(), 2);

    assert_eq!(session.enter(&story), Ok(Turn::Menu));
    assert_eq!(session.menu(&story).len(), 2);
    assert_eq!(session.respond(&story, "2"), Ok(Reply::WentBack));
    assert_eq!(session.current(), "mid");
    assert_eq!(session.history().len(), 1);

    assert_eq!(session.enter(&story), Ok(Turn::Menu));
    assert_eq!(session.respond(&story, "2"), Ok(Reply::WentBack));
    assert_eq!(session.current(), "start");
    assert!(session.history().is_empty());
}

#[test]
fn forward_steps_follow_targets_and_grow_history() {
    let mut story = Story::new();
    story.insert(
        "start".to_string(),
        scene("A", vec![link("left", "l"), link("right", "r")]),
    );
    story.insert("r".to_string(), scene("R", vec![link("on", "s")]));
    story.insert("s".to_string(), scene("S", vec![link("loop", "start")]));
    let mut session = Session::new();
    let steps = [("2", "r"), ("1", "s"), ("1", "start"), ("2", "r")];
    for (i, (input, target)) in steps.iter().enumerate() {
        assert_eq!(session.enter(&story), Ok(Turn::Menu));
        assert_eq!(session.respond(&story, input), Ok(Reply::Moved));
        assert_eq!(session.current(), *target);
        assert_eq!(session.history().len(), i + 1);
    }
}

#[test]
fn go_back_with_empty_history_changes_nothing() {
    let story = two_scene_story();
    let mut session = Session::new();
    assert_eq!(session.enter(&story), Ok(Turn::Menu));
    assert_eq!(session.respond(&story, "2"), Ok(Reply::NoPrevious));
    assert_eq!(session.current(), "start");
    assert!(session.history().is_empty());
}

#[test]
fn go_back_returns_to_prior_scene() {
    let story = two_scene_story();
    let mut session = Session::new();
    session.enter(&story).unwrap();
    session.respond(&story, "1").unwrap();
    session.enter(&story).unwrap();
    assert_eq!(session.respond(&story, "2"), Ok(Reply::WentBack));
    assert_eq!(session.current(), "start");
    assert_eq!(session.history().len(), 0);
}

#[test]
fn invalid_inputs_leave_scene_unchanged() {
    let mut story = Story::new();
    story.insert(
        "start".to_string(),
        scene("A", vec![link("one", "a"), link("two", "b")]),
    );
    let mut session = Session::new();
    assert_eq!(session.enter(&story), Ok(Turn::Menu));
    let menu = session.menu(&story);
    for input in ["abc", "0", "99", "", "-1", "1.0", "Quit"] {
        assert_eq!(session.respond(&story, input), Ok(Reply::Invalid));
        assert_eq!(session.current(), "start");
        assert!(session.history().is_empty());
        assert_eq!(session.enter(&story), Ok(Turn::Menu));
        assert_eq!(session.menu(&story), menu);
    }
    assert_eq!(menu, vec!["1) one".to_string(), "2) two".to_string()]);
}

#[test]
fn restart_resets_everything() {
    let mut story = two_scene_story();
    let mut mid = scene("B", vec![link("back_opt", "start")]);
    mid.set = names(&["key"]);
    story.insert("mid".to_string(), mid);
    let mut session = Session::new();
    for _ in 0..3 {
        session.enter(&story).unwrap();
        session.respond(&story, "1").unwrap();
    }
    session.enter(&story).unwrap();
    assert_eq!(session.current(), "mid");
    assert!(session.flags().contains("key"));
    assert_eq!(session.history().len(), 3);
    assert_eq!(session.respond(&story, "restart"), Ok(Reply::Restart));
    assert_eq!(session.current(), "start");
    assert!(session.history().is_empty());
    assert!(!session.flags().contains("key"));
}

#[test]
fn restart_works_on_unknown_scene() {
    let story = Story::new();
    let mut session = Session::new();
    assert_eq!(session.respond(&story, "restart"), Ok(Reply::Restart));
    assert_eq!(session.current(), "start");
}

#[test]
fn quit_moves_to_end() {
    let mut story = two_scene_story();
    story.insert("end".to_string(), scene("Bye", vec![]));
    let mut session = Session::new();
    session.enter(&story).unwrap();
    assert_eq!(session.respond(&story, "quit"), Ok(Reply::Quit));
    assert_eq!(session.current(), "end");
    assert_eq!(session.enter(&story), Ok(Turn::End));
    assert_eq!(session.current(), "end");
}

#[test]
fn quit_without_end_scene_is_unknown() {
    let story = two_scene_story();
    let mut session = Session::new();
    session.respond(&story, "quit").unwrap();
    assert_eq!(session.enter(&story), Err(EngineError::UnknownScene));
}

#[test]
fn end_scene_stops_before_effects() {
    let mut story = Story::new();
    let mut end = scene("Bye", vec![link("again", "start")]);
    end.set = names(&["late"]);
    story.insert("start".to_string(), scene("A", vec![link("finish", "end")]));
    story.insert("end".to_string(), end);
    let mut session = Session::new();
    session.enter(&story).unwrap();
    session.respond(&story, "1").unwrap();
    assert_eq!(session.enter(&story), Ok(Turn::End));
    assert!(!session.flags().contains("late"));
}

#[test]
fn check_picks_flag_branch() {
    let story = check_story(&["A"]);
    let mut session = Session::new();
    assert_eq!(session.enter(&story), Ok(Turn::Branch));
    assert_eq!(session.current(), "x");
    assert!(session.history().is_empty());
}

#[test]
fn check_falls_back_to_else() {
    let story = check_story(&[]);
    let mut session = Session::new();
    assert_eq!(session.enter(&story), Ok(Turn::Branch));
    assert_eq!(session.current(), "y");
}

#[test]
fn check_first_declared_flag_wins() {
    let mut story = Story::new();
    let mut start = scene("Hall", vec![link("ignored", "z")]);
    start.set = names(&["b", "a"]);
    start.check = vec![link("else", "y"), link("a", "first"), link("b", "second")];
    story.insert("start".to_string(), start);
    let mut session = Session::new();
    assert_eq!(session.enter(&story), Ok(Turn::Branch));
    assert_eq!(session.current(), "first");
}

#[test]
fn check_without_match_or_else_is_an_error() {
    let mut story = Story::new();
    let mut start = scene("Hall", vec![]);
    start.check = vec![link("A", "x")];
    story.insert("start".to_string(), start);
    let mut session = Session::new();
    assert_eq!(session.enter(&story), Err(EngineError::NoBranch));
    assert_eq!(session.current(), "start");
}

#[test]
fn else_is_not_a_flag() {
    let mut story = Story::new();
    let mut start = scene("Hall", vec![]);
    start.set = names(&["else"]);
    start.check = vec![link("else", "y"), link("A", "x")];
    story.insert("start".to_string(), start);
    let mut session = Session::new();
    assert_eq!(session.enter(&story), Ok(Turn::Branch));
    assert_eq!(session.current(), "y");
}

#[test]
fn set_then_unset_leaves_flag_absent() {
    let mut story = Story::new();
    let mut start = scene("A", vec![link("on", "mid")]);
    start.set = names(&["lamp", "lamp"]);
    let mut mid = scene("B", vec![link("on", "start")]);
    mid.unset = names(&["lamp", "lamp", "never_set"]);
    story.insert("start".to_string(), start);
    story.insert("mid".to_string(), mid);
    let mut session = Session::new();
    session.enter(&story).unwrap();
    assert!(session.flags().contains("lamp"));
    session.respond(&story, "1").unwrap();
    session.enter(&story).unwrap();
    assert!(!session.flags().contains("lamp"));
    assert!(!session.flags().contains("never_set"));
}

#[test]
fn unset_applies_after_set_in_one_scene() {
    let mut story = Story::new();
    let mut start = scene("A", vec![link("on", "start")]);
    start.set = names(&["both", "kept"]);
    start.unset = names(&["both"]);
    story.insert("start".to_string(), start);
    let mut session = Session::new();
    session.enter(&story).unwrap();
    assert!(!session.flags().contains("both"));
    assert!(session.flags().contains("kept"));
}

#[test]
fn scene_without_choices_or_check_is_terminal() {
    let mut story = Story::new();
    story.insert("start".to_string(), scene("A", vec![link("on", "dead_end")]));
    story.insert("dead_end".to_string(), scene("Nothing here", vec![]));
    let mut session = Session::new();
    session.enter(&story).unwrap();
    session.respond(&story, "1").unwrap();
    assert_eq!(session.enter(&story), Ok(Turn::Terminal));
    assert_eq!(session.current(), "dead_end");
}

#[test]
fn unknown_scene_is_reported() {
    let story = Story::new();
    let mut session = Session::new();
    assert_eq!(session.enter(&story), Err(EngineError::UnknownScene));
    assert_eq!(session.respond(&story, "1"), Err(EngineError::UnknownScene));
    assert!(session.menu(&story).is_empty());
}

#[test]
fn numbers_with_plus_or_leading_zeros_pick_choices() {
    let story = two_scene_story();
    let mut session = Session::new();
    session.enter(&story).unwrap();
    assert_eq!(session.respond(&story, "+1"), Ok(Reply::Moved));
    session.enter(&story).unwrap();
    assert_eq!(session.respond(&story, "02"), Ok(Reply::WentBack));
    assert_eq!(session.current(), "start");
}
