use vstd::prelude::*;

verus! {

/// The set of story flags gathered during one playthrough.
pub struct FlagSet {
    names: Vec<String>,
}

impl View for FlagSet {
    type V = Set<Seq<char>>;

    closed spec fn view(&self) -> Set<Seq<char>> {
        Set::new(|k: Seq<char>| exists|i: int| 0 <= i < self.names@.len() && #[trigger] self.names@[i]@ == k)
    }
}

impl FlagSet {
    /// An empty flag set.
    pub fn new() -> (r: FlagSet)
        ensures
            r@ == Set::<Seq<char>>::empty(),
    {
        let r = FlagSet { names: Vec::new() };
        assert(r@ =~= Set::<Seq<char>>::empty());
        r
    }

    /// Whether the flag `name` is set.
    pub fn contains(&self, name: &str) -> (r: bool)
        ensures
            r == self@.contains(name@),
    {
        let wanted = name.to_owned();
        let mut i: usize = 0;
        while i < self.names.len()
            invariant
                i <= self.names@.len(),
                wanted@ == name@,
                forall|j: int| 0 <= j < i ==> #[trigger] self.names@[j]@ != name@,
            decreases self.names@.len() - i,
        {
            if self.names[i] == wanted {
                return true;
            }
            i = i + 1;
        }
        false
    }

    /// Sets the flag `name`; setting a flag that is already set changes nothing.
    pub fn activate(&mut self, name: &str)
        ensures
            final(self)@ == old(self)@.insert(name@),
    {
        if !self.contains(name) {
            let ghost before = self.names@;
            self.names.push(name.to_owned());
            assert(self.names@[before.len() as int]@ == name@);
            assert forall|k: Seq<char>| #[trigger] self@.contains(k) == old(self)@.insert(name@).contains(k) by {
                if old(self)@.contains(k) {
                    let i = choose|i: int| 0 <= i < before.len() && #[trigger] before[i]@ == k;
                    assert(self.names@[i] == before[i]);
                }
                if self@.contains(k) && k != name@ {
                    let i = choose|i: int| 0 <= i < self.names@.len() && #[trigger] self.names@[i]@ == k;
                    assert(before[i] == self.names@[i]);
                }
            }
            assert(self@ =~= old(self)@.insert(name@));
        } else {
            assert(old(self)@.insert(name@) =~= old(self)@);
        }
    }

    /// Clears the flag `name`; clearing a flag that is not set changes nothing.
    pub fn deactivate(&mut self, name: &str)
        ensures
            final(self)@ == old(self)@.remove(name@),
    {
        let wanted = name.to_owned();
        let mut kept: Vec<String> = Vec::new();
        let mut i: usize = 0;
        while i < self.names.len()
            invariant
                i <= self.names@.len(),
                wanted@ == name@,
                forall|j: int| 0 <= j < kept@.len() ==> #[trigger] kept@[j]@ != name@,
                forall|j: int|
                    0 <= j < kept@.len() ==> exists|m: int|
                        0 <= m < i && #[trigger] self.names@[m]@ == (#[trigger] kept@[j])@,
                forall|m: int|
                    0 <= m < i && #[trigger] self.names@[m]@ != name@ ==> exists|j: int|
                        0 <= j < kept@.len() && #[trigger] kept@[j]@ == self.names@[m]@,
            decreases self.names@.len() - i,
        {
            if self.names[i] != wanted {
                let ghost before = kept@;
                kept.push(self.names[i].clone());
                assert(kept@[before.len() as int]@ == self.names@[i as int]@);
                assert forall|j: int| 0 <= j < kept@.len() implies exists|m: int|
                    0 <= m < i + 1 && #[trigger] self.names@[m]@ == (#[trigger] kept@[j])@ by {
                    if j < before.len() {
                        assert(kept@[j] == before[j]);
                        let m = choose|m: int| 0 <= m < i && #[trigger] self.names@[m]@ == (#[trigger] before[j])@;
                        assert(self.names@[m]@ == kept@[j]@);
                    } else {
                        assert(self.names@[i as int]@ == kept@[j]@);
                    }
                }
                assert forall|m: int| 0 <= m < i + 1 && #[trigger] self.names@[m]@ != name@ implies exists|j: int|
                    0 <= j < kept@.len() && #[trigger] kept@[j]@ == self.names@[m]@ by {
                    if m < i {
                        let j = choose|j: int| 0 <= j < before.len() && #[trigger] before[j]@ == self.names@[m]@;
                        assert(kept@[j] == before[j]);
                    } else {
                        assert(kept@[before.len() as int]@ == self.names@[m]@);
                    }
                }
            }
            i = i + 1;
        }
        let ghost old_names = self.names@;
        self.names = kept;
        assert forall|k: Seq<char>| #[trigger] self@.contains(k) == old(self)@.remove(name@).contains(k) by {
            if self@.contains(k) {
                let j = choose|j: int| 0 <= j < self.names@.len() && #[trigger] self.names@[j]@ == k;
                assert(self.names@[j]@ != name@);
                let m = choose|m: int| 0 <= m < old_names.len() && #[trigger] old_names[m]@ == (#[trigger] self.names@[j])@;
                assert(old(self)@.contains(k));
            }
            if old(self)@.remove(name@).contains(k) {
                let m = choose|m: int| 0 <= m < old_names.len() && #[trigger] old_names[m]@ == k;
                assert(old_names[m]@ != name@);
                let j = choose|j: int| 0 <= j < self.names@.len() && #[trigger] self.names@[j]@ == old_names[m]@;
                assert(self@.contains(k));
            }
        }
        assert(self@ =~= old(self)@.remove(name@));
    }

    /// Clears every flag.
    pub fn clear(&mut self)
        ensures
            final(self)@ == Set::<Seq<char>>::empty(),
    {
        self.names = Vec::new();
        assert(self@ =~= Set::<Seq<char>>::empty());
    }
}

} // verus!
