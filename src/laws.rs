use vstd::prelude::*;

use crate::engine::{
    apply_effects, end_key, enter_result, enter_state, initial, names, quit_word,
    respond_result, respond_state, restart_word, EngineError, Reply, SessionView, Turn,
};
use crate::story::SceneView;
use crate::text::{choice_number, decimal, lemma_decimal_reads_back};

verus! {

proof fn lemma_number_is_no_command(n: usize)
    ensures
        choice_number(decimal(n as nat)) == Some(n as nat),
        decimal(n as nat) != quit_word(),
        decimal(n as nat) != restart_word(),
{
    lemma_decimal_reads_back(n);
    assert(decimal(n as nat)[0] != quit_word()[0]);
    assert(decimal(n as nat)[0] != restart_word()[0]);
}

/// Picking choice `n` of the current menu moves to that choice's target and
/// records the scene left behind: the history grows by exactly one entry.
pub proof fn lemma_choice_moves_forward(
    story: Map<Seq<char>, SceneView>,
    s: SessionView,
    n: usize,
)
    requires
        story.contains_key(s.current),
        1 <= n <= story[s.current].choices.len(),
    ensures
        respond_result(story, s, decimal(n as nat)) == Ok::<Reply, EngineError>(Reply::Moved),
        respond_state(story, s, decimal(n as nat)).current == story[s.current].choices[n - 1].1,
        respond_state(story, s, decimal(n as nat)).history == s.history.push(s.current),
        respond_state(story, s, decimal(n as nat)).history.len() == s.history.len() + 1,
        respond_state(story, s, decimal(n as nat)).flags == s.flags,
{
    lemma_number_is_no_command(n);
}

/// The state after entering the current scene and picking `picks[0]`, then doing
/// the same with each following pick.
pub open spec fn play(story: Map<Seq<char>, SceneView>, s: SessionView, picks: Seq<usize>) -> SessionView
    decreases picks.len(),
{
    if picks.len() == 0 {
        s
    } else {
        let shown = enter_state(story, play(story, s, picks.drop_last()));
        respond_state(story, shown, decimal(picks.last() as nat))
    }
}

/// Whether each pick is made at a menu and names one of its choices.
pub open spec fn picks_valid(story: Map<Seq<char>, SceneView>, s: SessionView, picks: Seq<usize>) -> bool
    decreases picks.len(),
{
    if picks.len() == 0 {
        true
    } else {
        let at = play(story, s, picks.drop_last());
        &&& picks_valid(story, s, picks.drop_last())
        &&& enter_result(story, at) == Ok::<Turn, EngineError>(Turn::Menu)
        &&& 1 <= picks.last() <= story[enter_state(story, at).current].choices.len()
    }
}

/// Over any run of valid picks, each step lands on the target of the choice
/// picked, and the history grows by exactly one entry per step.
pub proof fn lemma_picks_follow_targets(
    story: Map<Seq<char>, SceneView>,
    s: SessionView,
    picks: Seq<usize>,
)
    requires
        picks_valid(story, s, picks),
    ensures
        play(story, s, picks).history.len() == s.history.len() + picks.len(),
        picks.len() > 0 ==> play(story, s, picks).current == story[play(
            story,
            s,
            picks.drop_last(),
        ).current].choices[picks.last() - 1].1,
    decreases picks.len(),
{
    if picks.len() > 0 {
        let prev = picks.drop_last();
        lemma_picks_follow_targets(story, s, prev);
        let at = play(story, s, prev);
        let shown = enter_state(story, at);
        assert(shown.current == at.current && shown.history == at.history);
        lemma_choice_moves_forward(story, shown, picks.last());
    }
}

/// Going back right after a choice returns to the scene the choice was made at,
/// and the history shrinks back to what it was. Entering the new scene may have
/// changed the flags in between, so `t` is that scene's state with any flags.
pub proof fn lemma_go_back_undoes_choice(
    story: Map<Seq<char>, SceneView>,
    s: SessionView,
    n: usize,
    t: SessionView,
    back: usize,
)
    requires
        story.contains_key(s.current),
        1 <= n <= story[s.current].choices.len(),
        t.current == respond_state(story, s, decimal(n as nat)).current,
        t.history == respond_state(story, s, decimal(n as nat)).history,
        story.contains_key(t.current),
        back == story[t.current].choices.len() + 1,
    ensures
        respond_result(story, t, decimal(back as nat)) == Ok::<Reply, EngineError>(
            Reply::WentBack,
        ),
        respond_state(story, t, decimal(back as nat)).current == s.current,
        respond_state(story, t, decimal(back as nat)).history == s.history,
        respond_state(story, t, decimal(back as nat)).history.len() == t.history.len() - 1,
{
    lemma_number_is_no_command(n);
    lemma_number_is_no_command(back);
    assert(s.history.push(s.current).drop_last() =~= s.history);
}

/// Going back with an empty history reports that there is nothing to go back to
/// and changes nothing.
pub proof fn lemma_go_back_without_history(
    story: Map<Seq<char>, SceneView>,
    s: SessionView,
    back: usize,
)
    requires
        story.contains_key(s.current),
        s.history.len() == 0,
        back == story[s.current].choices.len() + 1,
    ensures
        respond_result(story, s, decimal(back as nat)) == Ok::<Reply, EngineError>(
            Reply::NoPrevious,
        ),
        respond_state(story, s, decimal(back as nat)) == s,
{
    lemma_number_is_no_command(back);
}

/// `restart` brings any state back to `"start"` with no flags and no history.
pub proof fn lemma_restart_resets(story: Map<Seq<char>, SceneView>, s: SessionView)
    ensures
        respond_result(story, s, restart_word()) == Ok::<Reply, EngineError>(Reply::Restart),
        respond_state(story, s, restart_word()) == initial(),
        initial().current == seq!['s', 't', 'a', 'r', 't'],
        initial().flags.is_empty(),
        initial().history.len() == 0,
{
    assert(restart_word()[0] != quit_word()[0]);
}

/// A flag set and then cleared is absent; setting twice is setting once, and
/// clearing twice is clearing once.
pub proof fn lemma_set_then_unset(flags: Set<Seq<char>>, name: Seq<char>)
    ensures
        !flags.insert(name).remove(name).contains(name),
        flags.insert(name).insert(name) == flags.insert(name),
        flags.remove(name).remove(name) == flags.remove(name),
{
    assert(flags.insert(name).insert(name) =~= flags.insert(name));
    assert(flags.remove(name).remove(name) =~= flags.remove(name));
}

/// A flag that a scene clears is absent after entering it, whatever was set
/// before; and entering the same scene's effects twice changes nothing more.
pub proof fn lemma_unset_wins(
    flags: Set<Seq<char>>,
    set: Seq<Seq<char>>,
    unset: Seq<Seq<char>>,
    name: Seq<char>,
)
    requires
        unset.contains(name),
    ensures
        !apply_effects(flags, set, unset).contains(name),
        apply_effects(apply_effects(flags, set, unset), set, unset) == apply_effects(
            flags,
            set,
            unset,
        ),
{
    assert(names(unset).contains(name));
    assert(apply_effects(apply_effects(flags, set, unset), set, unset) =~= apply_effects(
        flags,
        set,
        unset,
    ));
}

/// A scene other than `"end"` with neither choices nor branches ends the session
/// as soon as it is entered, without moving.
pub proof fn lemma_implicit_terminal(story: Map<Seq<char>, SceneView>, s: SessionView)
    requires
        story.contains_key(s.current),
        s.current != end_key(),
        story[s.current].choices.len() == 0,
        story[s.current].check.len() == 0,
    ensures
        enter_result(story, s) == Ok::<Turn, EngineError>(Turn::Terminal),
        enter_state(story, s).current == s.current,
        enter_state(story, s).history == s.history,
{
}

/// Input that is no command and no number of the menu (not a number, zero, or
/// past the "Go Back" entry) is reported and changes nothing.
pub proof fn lemma_invalid_input_keeps_state(
    story: Map<Seq<char>, SceneView>,
    s: SessionView,
    input: Seq<char>,
)
    requires
        story.contains_key(s.current),
        input != quit_word(),
        input != restart_word(),
        match choice_number(input) {
            Some(n) => n == 0 || n > story[s.current].choices.len() + 1,
            None => true,
        },
    ensures
        respond_result(story, s, input) == Ok::<Reply, EngineError>(Reply::Invalid),
        respond_state(story, s, input) == s,
{
}

} // verus!
