use vstd::prelude::*;

use crate::engine::start_key;

verus! {

/// One outgoing edge of a scene: a choice label, or a flag name (or `"else"`) of a
/// conditional branch, with the key of the scene it leads to.
pub struct Link {
    pub key: String,
    pub target: String,
}

impl View for Link {
    type V = (Seq<char>, Seq<char>);

    open spec fn view(&self) -> (Seq<char>, Seq<char>) {
        (self.key@, self.target@)
    }
}

/// One node of the story graph. `choices` and `check` keep the order in which the
/// story declares them; an empty list stands for an absent one.
pub struct Scene {
    pub description: String,
    pub set: Vec<String>,
    pub unset: Vec<String>,
    pub choices: Vec<Link>,
    pub check: Vec<Link>,
}

pub struct SceneView {
    pub description: Seq<char>,
    pub set: Seq<Seq<char>>,
    pub unset: Seq<Seq<char>>,
    pub choices: Seq<(Seq<char>, Seq<char>)>,
    pub check: Seq<(Seq<char>, Seq<char>)>,
}

impl View for Scene {
    type V = SceneView;

    open spec fn view(&self) -> SceneView {
        SceneView {
            description: self.description@,
            set: self.set@.map_values(|s: String| s@),
            unset: self.unset@.map_values(|s: String| s@),
            choices: self.choices@.map_values(|l: Link| l@),
            check: self.check@.map_values(|l: Link| l@),
        }
    }
}

/// The map that a list of keyed scenes describes: a later entry replaces an
/// earlier one with the same key.
pub open spec fn scene_map(entries: Seq<(Seq<char>, SceneView)>) -> Map<Seq<char>, SceneView>
    decreases entries.len(),
{
    if entries.len() == 0 {
        Map::empty()
    } else {
        scene_map(entries.drop_last()).insert(entries.last().0, entries.last().1)
    }
}

/// The story graph: scenes by key.
pub struct Story {
    entries: Vec<(String, Scene)>,
}

impl Story {
    pub closed spec fn entries_view(&self) -> Seq<(Seq<char>, SceneView)> {
        self.entries@.map_values(|e: (String, Scene)| (e.0@, e.1@))
    }
}

impl View for Story {
    type V = Map<Seq<char>, SceneView>;

    closed spec fn view(&self) -> Map<Seq<char>, SceneView> {
        scene_map(self.entries_view())
    }
}

proof fn lemma_scene_map_found(es: Seq<(Seq<char>, SceneView)>, k: Seq<char>, i: int)
    requires
        0 <= i < es.len(),
        es[i].0 == k,
        forall|j: int| i < j < es.len() ==> (#[trigger] es[j]).0 != k,
    ensures
        scene_map(es).contains_key(k),
        scene_map(es)[k] == es[i].1,
    decreases es.len(),
{
    if i < es.len() - 1 {
        let t = es.drop_last();
        assert forall|j: int| i < j < t.len() implies (#[trigger] t[j]).0 != k by {
            assert(t[j] == es[j]);
        }
        lemma_scene_map_found(t, k, i);
        assert(es.last() == es[es.len() - 1]);
    }
}

proof fn lemma_scene_map_absent(es: Seq<(Seq<char>, SceneView)>, k: Seq<char>)
    requires
        forall|j: int| 0 <= j < es.len() ==> (#[trigger] es[j]).0 != k,
    ensures
        !scene_map(es).contains_key(k),
    decreases es.len(),
{
    if es.len() > 0 {
        let t = es.drop_last();
        assert forall|j: int| 0 <= j < t.len() implies (#[trigger] t[j]).0 != k by {
            assert(t[j] == es[j]);
        }
        lemma_scene_map_absent(t, k);
        assert(es.last() == es[es.len() - 1]);
    }
}

/// Whether every target of `links` names a scene of `story`.
pub open spec fn leads_into(links: Seq<(Seq<char>, Seq<char>)>, story: Map<Seq<char>, SceneView>) -> bool {
    forall|i: int| 0 <= i < links.len() ==> story.contains_key(#[trigger] links[i].1)
}

/// Whether some edge of `links` leads to `target`.
pub open spec fn has_target(links: Seq<(Seq<char>, Seq<char>)>, target: Seq<char>) -> bool {
    exists|i: int| 0 <= i < links.len() && #[trigger] links[i].1 == target
}

/// Whether every choice and branch of every scene leads to a scene of the story.
pub open spec fn targets_exist(story: Map<Seq<char>, SceneView>) -> bool {
    forall|k: Seq<char>|
        #[trigger] story.contains_key(k) ==> leads_into(story[k].choices, story) && leads_into(
            story[k].check,
            story,
        )
}

/// Whether a story can be played: it has `"start"` and no edge leads nowhere.
pub open spec fn well_formed(story: Map<Seq<char>, SceneView>) -> bool {
    story.contains_key(start_key()) && targets_exist(story)
}

/// A fault found by checking a whole story before play.
#[derive(PartialEq, Eq, Debug)]
pub enum StoryError {
    /// There is no scene keyed `"start"`.
    MissingStart,
    /// A choice or branch of `scene` leads to `target`, which is no scene.
    DanglingTarget { scene: String, target: String },
}

/// Whether no later entry has the same key as entry `i`.
pub open spec fn live(es: Seq<(Seq<char>, SceneView)>, i: int) -> bool {
    forall|j: int| i < j < es.len() ==> (#[trigger] es[j]).0 != es[i].0
}

proof fn lemma_scene_map_live(es: Seq<(Seq<char>, SceneView)>, k: Seq<char>) -> (i: int)
    requires
        scene_map(es).contains_key(k),
    ensures
        0 <= i < es.len(),
        es[i].0 == k,
        live(es, i),
        scene_map(es)[k] == es[i].1,
    decreases es.len(),
{
    let last = es.len() - 1;
    assert(es.last() == es[last]);
    if es[last].0 == k {
        last
    } else {
        let t = es.drop_last();
        let i = lemma_scene_map_live(t, k);
        assert(t[i] == es[i]);
        assert forall|j: int| i < j < es.len() implies (#[trigger] es[j]).0 != es[i].0 by {
            if j < last {
                assert(t[j] == es[j]);
            }
        }
        i
    }
}

impl Story {
    /// A story with no scenes.
    pub fn new() -> (r: Story)
        ensures
            r@ == Map::<Seq<char>, SceneView>::empty(),
    {
        let r = Story { entries: Vec::new() };
        assert(r.entries_view() =~= Seq::<(Seq<char>, SceneView)>::empty());
        r
    }

    /// Adds `scene` under `key`, replacing any scene already there.
    pub fn insert(&mut self, key: String, scene: Scene)
        ensures
            final(self)@ == old(self)@.insert(key@, scene@),
    {
        let ghost k = key@;
        let ghost v = scene@;
        self.entries.push((key, scene));
        assert(self.entries_view().drop_last() =~= old(self).entries_view());
        assert(self.entries_view().last() == (k, v));
    }

    /// The scene stored under `key`, or `None` when the story has none.
    pub fn get_scene(&self, key: &str) -> (r: Option<&Scene>)
        ensures
            r is None <==> !self@.contains_key(key@),
            r matches Some(sc) ==> sc@ == self@[key@],
    {
        let wanted = key.to_owned();
        let ghost es = self.entries_view();
        let mut i: usize = self.entries.len();
        while i > 0
            invariant
                i <= self.entries@.len(),
                es == self.entries_view(),
                es.len() == self.entries@.len(),
                wanted@ == key@,
                forall|j: int| i <= j < es.len() ==> (#[trigger] es[j]).0 != key@,
            decreases i,
        {
            i = i - 1;
            assert(es[i as int] == (self.entries@[i as int].0@, self.entries@[i as int].1@));
            if self.entries[i].0 == wanted {
                proof {
                    lemma_scene_map_found(es, key@, i as int);
                }
                return Some(&self.entries[i].1);
            }
        }
        proof {
            lemma_scene_map_absent(es, key@);
        }
        None
    }

    fn first_dangling<'a>(&self, links: &'a Vec<Link>) -> (r: Option<&'a String>)
        ensures
            r is None <==> leads_into(links@.map_values(|l: Link| l@), self@),
            r matches Some(t) ==> !self@.contains_key(t@) && has_target(
                links@.map_values(|l: Link| l@),
                t@,
            ),
    {
        let ghost lv = links@.map_values(|l: Link| l@);
        let mut i: usize = 0;
        while i < links.len()
            invariant
                i <= links@.len(),
                lv == links@.map_values(|l: Link| l@),
                forall|j: int| 0 <= j < i ==> self@.contains_key(#[trigger] lv[j].1),
            decreases links@.len() - i,
        {
            assert(lv[i as int] == links@[i as int]@);
            if self.get_scene(links[i].target.as_str()).is_none() {
                assert(!self@.contains_key(lv[i as int].1));
                return Some(&links[i].target);
            }
            i = i + 1;
        }
        None
    }

    /// Checks the whole story before play: it needs a `"start"` scene, and every
    /// choice and branch must lead to a scene of the story.
    pub fn validate(&self) -> (r: Result<(), StoryError>)
        ensures
            r is Ok <==> well_formed(self@),
            r matches Err(StoryError::MissingStart) ==> !self@.contains_key(start_key()),
            r matches Err(StoryError::DanglingTarget { scene, target }) ==> self@.contains_key(
                scene@,
            ) && !self@.contains_key(target@) && (has_target(self@[scene@].choices, target@)
                || has_target(self@[scene@].check, target@)),
    {
        proof {
            reveal_strlit("start");
        }
        assert("start"@ =~= start_key());
        if self.get_scene("start").is_none() {
            return Err(StoryError::MissingStart);
        }
        let ghost es = self.entries_view();
        let mut i: usize = 0;
        while i < self.entries.len()
            invariant
                i <= self.entries@.len(),
                es == self.entries_view(),
                es.len() == self.entries@.len(),
                self@.contains_key(start_key()),
                forall|j: int|
                    0 <= j < i && live(es, j) ==> leads_into(#[trigger] es[j].1.choices, self@)
                        && leads_into(es[j].1.check, self@),
            decreases self.entries@.len() - i,
        {
            assert(es[i as int] == (self.entries@[i as int].0@, self.entries@[i as int].1@));
            let mut later: usize = i + 1;
            let mut shadowed = false;
            while later < self.entries.len()
                invariant
                    i < later <= self.entries@.len(),
                    es == self.entries_view(),
                    es.len() == self.entries@.len(),
                    es[i as int] == (self.entries@[i as int].0@, self.entries@[i as int].1@),
                    shadowed == (exists|j: int| i < j < later && (#[trigger] es[j]).0 == es[i as int].0),
                decreases self.entries@.len() - later,
            {
                assert(es[later as int] == (self.entries@[later as int].0@, self.entries@[later as int].1@));
                if self.entries[later].0 == self.entries[i].0 {
                    shadowed = true;
                }
                later = later + 1;
            }
            if !shadowed {
                let key = &self.entries[i].0;
                let scene = &self.entries[i].1;
                proof {
                    lemma_scene_map_found(es, key@, i as int);
                }
                match self.first_dangling(&scene.choices) {
                    Some(t) => {
                        return Err(StoryError::DanglingTarget { scene: key.clone(), target: t.clone() });
                    },
                    None => {},
                }
                match self.first_dangling(&scene.check) {
                    Some(t) => {
                        return Err(StoryError::DanglingTarget { scene: key.clone(), target: t.clone() });
                    },
                    None => {},
                }
            }
            i = i + 1;
        }
        assert forall|k: Seq<char>| #[trigger] self@.contains_key(k) implies leads_into(
            self@[k].choices,
            self@,
        ) && leads_into(self@[k].check, self@) by {
            lemma_scene_map_live(es, k);
        }
        Ok(())
    }
}

} // verus!
