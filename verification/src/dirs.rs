//! The directories that back segments.
//!
//! Each segment has a directory of its own. Names are drawn at random, and drawing the same one
//! twice would have two segments share their files. So those in use are kept, and a name that is
//! among them is not given out.

use vstd::prelude::*;
use crate::slot::{dir_name, is_uuid_v7_text, retired_by, swapped, unique_dir, SlotView};

verus! {

/// The directories in use.
#[derive(Debug)]
pub struct Directories {
    pub names: Vec<String>,
}

impl View for Directories {
    type V = Set<Seq<char>>;

    open spec fn view(&self) -> Set<Seq<char>> {
        self.names@.map_values(|n: String| n@).to_set()
    }
}

/// A directory is given out only where it is not in use, and then is. `used` are those in use
/// before, `left` those after, and `given` is what came of the wish for `name`.
pub open spec fn is_claim(
    used: Set<Seq<char>>,
    name: Seq<char>,
    given: Option<String>,
    left: Set<Seq<char>>,
) -> bool {
    if used.contains(name) {
        given is None && left == used
    } else {
        given matches Some(n) && n@ == name && left == used.insert(name)
    }
}

impl Default for Directories {
    fn default() -> (d: Self)
        ensures
            d@ == Set::<Seq<char>>::empty(),
    {
        let d = Directories { names: Vec::new() };
        assert(d@ =~= Set::<Seq<char>>::empty());
        d
    }
}

impl Directories {
    /// Whether the directory is in use.
    pub fn contains(&self, name: &String) -> (r: bool)
        ensures
            r == self@.contains(name@),
    {
        let ghost views = self.names@.map_values(|n: String| n@);
        for i in 0..self.names.len()
            invariant
                views == self.names@.map_values(|n: String| n@),
                forall|j: int| 0 <= j < i ==> #[trigger] views[j] != name@,
        {
            assert(views[i as int] == self.names@[i as int]@);
            if self.names[i] == *name {
                assert(views.contains(name@));
                return true;
            }
        }
        assert(!views.contains(name@));
        false
    }

    /// Gives out the directory `name`, unless it is in use.
    pub fn claim(&mut self, name: String) -> (r: Option<String>)
        ensures
            is_claim(old(self)@, name@, r, final(self)@),
    {
        if self.contains(&name) {
            return None;
        }
        let ghost views = self.names@.map_values(|n: String| n@);
        self.names.push(name.clone());
        proof {
            let after = self.names@.map_values(|n: String| n@);
            assert(after =~= views.push(name@));
            assert forall|d: Seq<char>| #[trigger]
                after.to_set().contains(d) == views.to_set().insert(name@).contains(d) by {
                if views.contains(d) {
                    let i = choose|i: int| 0 <= i < views.len() && views[i] == d;
                    assert(after[i] == d);
                }
                assert(after[views.len() as int] == name@);
            }
            assert(after.to_set() =~= views.to_set().insert(name@));
        }
        Some(name)
    }

    /// Gives out a directory that is not in use, under an id of its own. There is none only where
    /// the id that was drawn is that of a directory in use.
    pub fn draw(&mut self) -> (r: Option<String>)
        ensures
            exists|id: Seq<char>|
                is_uuid_v7_text(id) && is_claim(
                    old(self)@,
                    #[trigger] dir_name(id),
                    r,
                    final(self)@,
                ),
            r matches Some(name) ==> !old(self)@.contains(name@) && final(self)@ == old(
                self,
            )@.insert(name@),
            r is None ==> final(self)@ == old(self)@,
    {
        let name = unique_dir();
        self.claim(name)
    }

    /// The directory is not in use any more.
    pub fn release(&mut self, name: &String)
        ensures
            final(self)@ == old(self)@.remove(name@),
    {
        let ghost views = self.names@.map_values(|n: String| n@);
        let mut kept: Vec<String> = Vec::new();
        for i in 0..self.names.len()
            invariant
                self.names@ == old(self).names@,
                views == self.names@.map_values(|n: String| n@),
                forall|j: int|
                    0 <= j < kept@.len() ==> (#[trigger] kept@[j])@ != name@ && views.contains(
                        kept@[j]@,
                    ),
                forall|j: int|
                    0 <= j < i && #[trigger] views[j] != name@ ==> (exists|l: int|
                        0 <= l < kept@.len() && (#[trigger] kept@[l])@ == views[j]),
        {
            let ghost before = kept@;
            assert(views[i as int] == self.names@[i as int]@);
            if !(self.names[i] == *name) {
                kept.push(self.names[i].clone());
                assert(kept@[before.len() as int]@ == views[i as int]);
                assert forall|j: int| 0 <= j < i && #[trigger] views[j] != name@ implies (exists|
                    l: int,
                | 0 <= l < kept@.len() && (#[trigger] kept@[l])@ == views[j]) by {
                    let l = choose|l: int| 0 <= l < before.len() && (#[trigger] before[l])@
                        == views[j];
                    assert(kept@[l]@ == views[j]);
                }
            }
        }
        self.names = kept;
        proof {
            let after = kept@.map_values(|n: String| n@);
            assert forall|d: Seq<char>| #[trigger]
                after.to_set().contains(d) == views.to_set().remove(name@).contains(d) by {
                if after.contains(d) {
                    let j = choose|j: int| 0 <= j < after.len() && after[j] == d;
                    assert(kept@[j]@ == d);
                }
                if views.contains(d) && d != name@ {
                    let j = choose|j: int| 0 <= j < views.len() && views[j] == d;
                    let l = choose|l: int| 0 <= l < kept@.len() && (#[trigger] kept@[l])@
                        == views[j];
                    assert(after[l] == d);
                }
            }
            assert(after.to_set() =~= views.to_set().remove(name@));
        }
    }
}

/// Of two directories that are given out, no two are the same, unless the first has been released
/// before the second is given out. `used`, `between` and `left` are the directories in use before
/// the first, before the second and after both.
pub proof fn no_two_segments_share_a_directory(
    used: Set<Seq<char>>,
    a: Seq<char>,
    first: String,
    between: Set<Seq<char>>,
    b: Seq<char>,
    second: String,
    left: Set<Seq<char>>,
)
    requires
        is_claim(used, a, Some(first), used.insert(a)),
        between.contains(first@),
        is_claim(between, b, Some(second), left),
    ensures
        first@ != second@,
        left.contains(first@),
        left.contains(second@),
{
}

/// A segment that was rebuilt in a directory given out beside the one in use can be offered to the
/// slot: of the two, one stays in use and the other is retired.
pub proof fn a_swap_never_retires_the_directory_in_use(
    used: Set<Seq<char>>,
    slot: SlotView,
    name: Seq<char>,
    given: String,
    left: Set<Seq<char>>,
    started: nat,
)
    requires
        used.contains(slot.dir),
        is_claim(used, name, Some(given), left),
    ensures
        ({
            let retired = retired_by(slot, given@);
            let end = swapped(slot, given@, started);
            &&& retired != end.dir
            &&& left.remove(retired).contains(end.dir)
            &&& retired == slot.dir || retired == given@
        }),
{
}

} // verus!
