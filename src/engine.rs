use vstd::prelude::*;

use crate::flags::FlagSet;
use crate::history::History;
use crate::story::{Link, Scene, SceneView, Story};
use crate::text::{choice_number, menu_line, numbered_line, parse_number, text_eq};

verus! {

/// The key of the scene that every session starts from.
pub open spec fn start_key() -> Seq<char> {
    seq!['s', 't', 'a', 'r', 't']
}

/// The key of the scene that ends the session once it has been shown.
pub open spec fn end_key() -> Seq<char> {
    seq!['e', 'n', 'd']
}

/// The key of a conditional branch that applies when no flag matched.
pub open spec fn else_key() -> Seq<char> {
    seq!['e', 'l', 's', 'e']
}

pub open spec fn quit_word() -> Seq<char> {
    seq!['q', 'u', 'i', 't']
}

pub open spec fn restart_word() -> Seq<char> {
    seq!['r', 'e', 's', 't', 'a', 'r', 't']
}

/// The label of the menu entry that goes back one scene.
pub open spec fn go_back_label() -> Seq<char> {
    seq!['G', 'o', ' ', 'B', 'a', 'c', 'k']
}

/// The state of one playthrough: where the player is, which flags are set, and
/// the scenes to go back to.
pub struct SessionView {
    pub current: Seq<char>,
    pub flags: Set<Seq<char>>,
    pub history: Seq<Seq<char>>,
}

/// The state at the beginning of a playthrough, and after a restart.
pub open spec fn initial() -> SessionView {
    SessionView { current: start_key(), flags: Set::empty(), history: Seq::empty() }
}

/// The names listed in `s`.
pub open spec fn names(s: Seq<Seq<char>>) -> Set<Seq<char>> {
    Set::new(|k: Seq<char>| s.contains(k))
}

/// The flags after entering a scene: every name of `set` is added, then every name
/// of `unset` is removed.
pub open spec fn apply_effects(
    flags: Set<Seq<char>>,
    set: Seq<Seq<char>>,
    unset: Seq<Seq<char>>,
) -> Set<Seq<char>> {
    flags.union(names(set)).difference(names(unset))
}

/// Whether a branch names a flag (not `"else"`) that is set.
pub open spec fn fires(link: (Seq<char>, Seq<char>), flags: Set<Seq<char>>) -> bool {
    link.0 != else_key() && flags.contains(link.0)
}

/// The target of the first branch at or after `from` that fires.
pub open spec fn first_fired(
    check: Seq<(Seq<char>, Seq<char>)>,
    flags: Set<Seq<char>>,
    from: int,
) -> Option<Seq<char>>
    decreases check.len() - from,
{
    if from < 0 || from >= check.len() {
        None
    } else if fires(check[from], flags) {
        Some(check[from].1)
    } else {
        first_fired(check, flags, from + 1)
    }
}

/// The target of the first `"else"` branch at or after `from`.
pub open spec fn else_from(check: Seq<(Seq<char>, Seq<char>)>, from: int) -> Option<Seq<char>>
    decreases check.len() - from,
{
    if from < 0 || from >= check.len() {
        None
    } else if check[from].0 == else_key() {
        Some(check[from].1)
    } else {
        else_from(check, from + 1)
    }
}

/// Where a conditional branch leads: the first declared branch whose flag is set,
/// else the `"else"` branch, else nowhere.
pub open spec fn resolve_check(check: Seq<(Seq<char>, Seq<char>)>, flags: Set<Seq<char>>) -> Option<
    Seq<char>,
> {
    match first_fired(check, flags, 0) {
        Some(t) => Some(t),
        None => else_from(check, 0),
    }
}

/// What entering the current scene leads to.
#[derive(PartialEq, Eq, Structural, Clone, Copy, Debug)]
pub enum Turn {
    /// The scene is `"end"`: the session is over.
    End,
    /// The scene offers neither choices nor branches: the session is over.
    Terminal,
    /// A conditional branch moved the session to another scene.
    Branch,
    /// The scene waits for the player to pick from its menu.
    Menu,
}

/// What one line of player input did.
#[derive(PartialEq, Eq, Structural, Clone, Copy, Debug)]
pub enum Reply {
    /// The session moves to `"end"`.
    Quit,
    /// The session starts over.
    Restart,
    /// The player took a choice.
    Moved,
    /// The player went back one scene.
    WentBack,
    /// The player asked to go back with nothing to go back to.
    NoPrevious,
    /// The input names no entry of the menu.
    Invalid,
}

/// A fault of the story data.
#[derive(PartialEq, Eq, Structural, Clone, Copy, Debug)]
pub enum EngineError {
    /// The current key names no scene of the story.
    UnknownScene,
    /// No branch of a conditional scene applies and it has no `"else"`.
    NoBranch,
}

/// What entering the current scene reports.
pub open spec fn enter_result(story: Map<Seq<char>, SceneView>, s: SessionView) -> Result<
    Turn,
    EngineError,
> {
    if !story.contains_key(s.current) {
        Err(EngineError::UnknownScene)
    } else if s.current == end_key() {
        Ok(Turn::End)
    } else {
        let sc = story[s.current];
        if sc.choices.len() == 0 && sc.check.len() == 0 {
            Ok(Turn::Terminal)
        } else if sc.check.len() > 0 {
            match resolve_check(sc.check, apply_effects(s.flags, sc.set, sc.unset)) {
                Some(t) => Ok(Turn::Branch),
                None => Err(EngineError::NoBranch),
            }
        } else {
            Ok(Turn::Menu)
        }
    }
}

/// The state after entering the current scene.
pub open spec fn enter_state(story: Map<Seq<char>, SceneView>, s: SessionView) -> SessionView {
    if !story.contains_key(s.current) || s.current == end_key() {
        s
    } else {
        let sc = story[s.current];
        let flags = apply_effects(s.flags, sc.set, sc.unset);
        let current = if sc.check.len() > 0 {
            match resolve_check(sc.check, flags) {
                Some(t) => t,
                None => s.current,
            }
        } else {
            s.current
        };
        SessionView { current, flags, history: s.history }
    }
}

/// What one line of input reports.
pub open spec fn respond_result(
    story: Map<Seq<char>, SceneView>,
    s: SessionView,
    input: Seq<char>,
) -> Result<Reply, EngineError> {
    if input == quit_word() {
        Ok(Reply::Quit)
    } else if input == restart_word() {
        Ok(Reply::Restart)
    } else if !story.contains_key(s.current) {
        Err(EngineError::UnknownScene)
    } else {
        let count = story[s.current].choices.len();
        match choice_number(input) {
            Some(n) => if 1 <= n <= count {
                Ok(Reply::Moved)
            } else if n == count + 1 {
                if s.history.len() > 0 {
                    Ok(Reply::WentBack)
                } else {
                    Ok(Reply::NoPrevious)
                }
            } else {
                Ok(Reply::Invalid)
            },
            None => Ok(Reply::Invalid),
        }
    }
}

/// The state after one line of input.
pub open spec fn respond_state(
    story: Map<Seq<char>, SceneView>,
    s: SessionView,
    input: Seq<char>,
) -> SessionView {
    if input == quit_word() {
        SessionView { current: end_key(), flags: s.flags, history: s.history }
    } else if input == restart_word() {
        initial()
    } else if !story.contains_key(s.current) {
        s
    } else {
        let choices = story[s.current].choices;
        match choice_number(input) {
            Some(n) => if 1 <= n <= choices.len() {
                SessionView {
                    current: choices[n - 1].1,
                    flags: s.flags,
                    history: s.history.push(s.current),
                }
            } else if n == choices.len() + 1 && s.history.len() > 0 {
                SessionView {
                    current: s.history.last(),
                    flags: s.flags,
                    history: s.history.drop_last(),
                }
            } else {
                s
            },
            None => s,
        }
    }
}

/// The numbered menu of a scene: its choices in order, then "Go Back" when `back`.
pub open spec fn menu_lines(choices: Seq<(Seq<char>, Seq<char>)>, back: bool) -> Seq<Seq<char>> {
    Seq::new(
        choices.len() + if back {
            1nat
        } else {
            0nat
        },
        |i: int|
            menu_line(
                (i + 1) as nat,
                if i < choices.len() {
                    choices[i].0
                } else {
                    go_back_label()
                },
            ),
    )
}

/// The menu shown at the current scene.
pub open spec fn menu_of(story: Map<Seq<char>, SceneView>, s: SessionView) -> Seq<Seq<char>> {
    if story.contains_key(s.current) {
        menu_lines(story[s.current].choices, s.history.len() > 0)
    } else {
        Seq::empty()
    }
}

fn literal_start() -> (r: &'static str)
    ensures
        r@ == start_key(),
{
    proof {
        reveal_strlit("start");
    }
    let r = "start";
    assert(r@ =~= start_key());
    r
}

fn literal_end() -> (r: &'static str)
    ensures
        r@ == end_key(),
{
    proof {
        reveal_strlit("end");
    }
    let r = "end";
    assert(r@ =~= end_key());
    r
}

fn literal_else() -> (r: &'static str)
    ensures
        r@ == else_key(),
{
    proof {
        reveal_strlit("else");
    }
    let r = "else";
    assert(r@ =~= else_key());
    r
}

fn literal_quit() -> (r: &'static str)
    ensures
        r@ == quit_word(),
{
    proof {
        reveal_strlit("quit");
    }
    let r = "quit";
    assert(r@ =~= quit_word());
    r
}

fn literal_restart() -> (r: &'static str)
    ensures
        r@ == restart_word(),
{
    proof {
        reveal_strlit("restart");
    }
    let r = "restart";
    assert(r@ =~= restart_word());
    r
}

fn literal_go_back() -> (r: &'static str)
    ensures
        r@ == go_back_label(),
{
    proof {
        reveal_strlit("Go Back");
    }
    let r = "Go Back";
    assert(r@ =~= go_back_label());
    r
}

proof fn lemma_names_take(s: Seq<Seq<char>>, i: int)
    requires
        0 <= i < s.len(),
    ensures
        names(s.take(i + 1)) == names(s.take(i)).insert(s[i]),
{
    let a = s.take(i + 1);
    let b = s.take(i);
    assert forall|k: Seq<char>| #[trigger] names(a).contains(k) == names(b).insert(s[i]).contains(k) by {
        if a.contains(k) {
            let j = choose|j: int| 0 <= j < a.len() && a[j] == k;
            if j < i {
                assert(b[j] == k);
            }
        }
        if b.contains(k) {
            let j = choose|j: int| 0 <= j < b.len() && b[j] == k;
            assert(a[j] == k);
        }
        if k == s[i] {
            assert(a[i] == k);
        }
    }
    assert(names(a) =~= names(b).insert(s[i]));
}

/// Where the conditional branches `check` lead under `flags`.
pub fn resolve<'a>(check: &'a Vec<Link>, flags: &FlagSet) -> (r: Option<&'a String>)
    ensures
        r matches Some(t) ==> resolve_check(check@.map_values(|l: Link| l@), flags@) == Some(
            t@,
        ),
        r is None ==> resolve_check(check@.map_values(|l: Link| l@), flags@) is None,
{
    let ghost cv = check@.map_values(|l: Link| l@);
    let mut i: usize = 0;
    while i < check.len()
        invariant
            i <= check@.len(),
            cv == check@.map_values(|l: Link| l@),
            first_fired(cv, flags@, 0) == first_fired(cv, flags@, i as int),
        decreases check@.len() - i,
    {
        assert(cv[i as int] == check@[i as int]@);
        let is_else = text_eq(check[i].key.as_str(), literal_else());
        if !is_else && flags.contains(check[i].key.as_str()) {
            return Some(&check[i].target);
        }
        i = i + 1;
    }
    let mut i: usize = 0;
    while i < check.len()
        invariant
            i <= check@.len(),
            cv == check@.map_values(|l: Link| l@),
            first_fired(cv, flags@, 0) is None,
            else_from(cv, 0) == else_from(cv, i as int),
        decreases check@.len() - i,
    {
        assert(cv[i as int] == check@[i as int]@);
        if text_eq(check[i].key.as_str(), literal_else()) {
            return Some(&check[i].target);
        }
        i = i + 1;
    }
    None
}

/// One playthrough of a story.
pub struct Session {
    current: String,
    flags: FlagSet,
    history: History,
}

impl View for Session {
    type V = SessionView;

    closed spec fn view(&self) -> SessionView {
        SessionView { current: self.current@, flags: self.flags@, history: self.history@ }
    }
}

impl Session {
    /// A session at `"start"`, with no flags and no history.
    pub fn new() -> (r: Session)
        ensures
            r@ == initial(),
    {
        Session {
            current: String::from_str(literal_start()),
            flags: FlagSet::new(),
            history: History::new(),
        }
    }

    /// The key of the current scene.
    pub fn current(&self) -> (r: &str)
        ensures
            r@ == self@.current,
    {
        self.current.as_str()
    }

    /// The flags set so far.
    pub fn flags(&self) -> (r: &FlagSet)
        ensures
            r@ == self@.flags,
    {
        &self.flags
    }

    /// The scenes to go back to, most recent last.
    pub fn history(&self) -> (r: &History)
        ensures
            r@ == self@.history,
    {
        &self.history
    }

    fn apply_effects(&mut self, scene: &Scene)
        ensures
            final(self)@ == (SessionView {
                flags: apply_effects(old(self)@.flags, scene@.set, scene@.unset),
                ..old(self)@
            }),
    {
        let ghost set = scene@.set;
        let ghost unset = scene@.unset;
        let mut i: usize = 0;
        while i < scene.set.len()
            invariant
                i <= scene.set@.len(),
                set == scene@.set,
                self.current == old(self).current,
                self.history == old(self).history,
                self.flags@ == old(self)@.flags.union(names(set.take(i as int))),
            decreases scene.set@.len() - i,
        {
            proof {
                lemma_names_take(set, i as int);
            }
            self.flags.activate(scene.set[i].as_str());
            assert(self.flags@ =~= old(self)@.flags.union(names(set.take(i + 1))));
            i = i + 1;
        }
        assert(set.take(i as int) =~= set);
        let ghost mid = self.flags@;
        let mut i: usize = 0;
        while i < scene.unset.len()
            invariant
                i <= scene.unset@.len(),
                unset == scene@.unset,
                self.current == old(self).current,
                self.history == old(self).history,
                self.flags@ == mid.difference(names(unset.take(i as int))),
            decreases scene.unset@.len() - i,
        {
            proof {
                lemma_names_take(unset, i as int);
            }
            self.flags.deactivate(scene.unset[i].as_str());
            assert(self.flags@ =~= mid.difference(names(unset.take(i + 1))));
            i = i + 1;
        }
        assert(unset.take(i as int) =~= unset);
    }

    /// Enters the current scene: stops at `"end"`, applies the scene's flag effects,
    /// and then ends the session, follows a conditional branch, or waits at the menu.
    pub fn enter(&mut self, story: &Story) -> (r: Result<Turn, EngineError>)
        ensures
            r == enter_result(story@, old(self)@),
            final(self)@ == enter_state(story@, old(self)@),
    {
        let scene = match story.get_scene(self.current.as_str()) {
            None => {
                return Err(EngineError::UnknownScene);
            },
            Some(sc) => sc,
        };
        if text_eq(self.current.as_str(), literal_end()) {
            return Ok(Turn::End);
        }
        self.apply_effects(scene);
        if scene.choices.len() == 0 && scene.check.len() == 0 {
            return Ok(Turn::Terminal);
        }
        if scene.check.len() > 0 {
            match resolve(&scene.check, &self.flags) {
                Some(t) => {
                    self.current = t.clone();
                    Ok(Turn::Branch)
                },
                None => Err(EngineError::NoBranch),
            }
        } else {
            Ok(Turn::Menu)
        }
    }

    /// Handles one line of player input at the current scene's menu: `quit`,
    /// `restart`, the number of a choice, or the number after the last choice to
    /// go back.
    pub fn respond(&mut self, story: &Story, input: &str) -> (r: Result<Reply, EngineError>)
        ensures
            r == respond_result(story@, old(self)@, input@),
            final(self)@ == respond_state(story@, old(self)@, input@),
    {
        if text_eq(input, literal_quit()) {
            self.current = String::from_str(literal_end());
            return Ok(Reply::Quit);
        }
        if text_eq(input, literal_restart()) {
            self.current = String::from_str(literal_start());
            self.history.clear();
            self.flags.clear();
            return Ok(Reply::Restart);
        }
        let scene = match story.get_scene(self.current.as_str()) {
            None => {
                return Err(EngineError::UnknownScene);
            },
            Some(sc) => sc,
        };
        let count = scene.choices.len();
        match parse_number(input) {
            Some(n) => {
                if 1 <= n && n <= count {
                    let prev = self.current.clone();
                    self.history.push(prev);
                    assert(scene@.choices[n - 1] == scene.choices@[n - 1]@);
                    self.current = scene.choices[n - 1].target.clone();
                    Ok(Reply::Moved)
                } else if 1 <= n && n - 1 == count {
                    match self.history.pop() {
                        Some(k) => {
                            self.current = k;
                            Ok(Reply::WentBack)
                        },
                        None => Ok(Reply::NoPrevious),
                    }
                } else {
                    Ok(Reply::Invalid)
                }
            },
            None => Ok(Reply::Invalid),
        }
    }

    /// The numbered menu of the current scene, as lines to show; empty when the
    /// current key names no scene.
    pub fn menu(&self, story: &Story) -> (r: Vec<String>)
        requires
            story@.contains_key(self@.current) ==> story@[self@.current].choices.len()
                < usize::MAX,
        ensures
            r@.map_values(|l: String| l@) == menu_of(story@, self@),
    {
        let mut lines: Vec<String> = Vec::new();
        let scene = match story.get_scene(self.current.as_str()) {
            None => {
                assert(lines@.map_values(|l: String| l@) =~= menu_of(story@, self@));
                return lines;
            },
            Some(sc) => sc,
        };
        let ghost want = menu_of(story@, self@);
        let ghost choices = scene@.choices;
        let mut i: usize = 0;
        while i < scene.choices.len()
            invariant
                i <= scene.choices@.len(),
                choices == scene@.choices,
                want == menu_lines(choices, self@.history.len() > 0),
                lines@.len() == i,
                forall|j: int| 0 <= j < i ==> #[trigger] lines@[j]@ == want[j],
            decreases scene.choices@.len() - i,
        {
            assert(choices[i as int] == scene.choices@[i as int]@);
            lines.push(numbered_line(i + 1, scene.choices[i].key.as_str()));
            i = i + 1;
        }
        if !self.history.is_empty() {
            lines.push(numbered_line(i + 1, literal_go_back()));
        }
        assert(lines@.map_values(|l: String| l@) =~= want);
        lines
    }
}

} // verus!
