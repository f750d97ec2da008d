//! The chain of elements that are open at a point of the document, kept for
//! error reports only, and bounded in depth.

use vstd::prelude::*;
use vstd::string::StringExecFns;

verus! {

/// How many levels of nesting are remembered by name.
pub const CAPACITY: usize = 10;

/// A tracker as a mathematical value: how deep the walk is, and the name
/// remembered at each level.
pub ghost struct PathView {
    pub depth: nat,
    pub slots: Seq<Option<Seq<char>>>,
}

/// The tracker before anything was opened.
pub open spec fn empty_path() -> PathView {
    PathView { depth: 0, slots: Seq::new(CAPACITY as nat, |i: int| None::<Seq<char>>) }
}

/// The tracker after an element of the given name was entered. Within the
/// capacity the name is remembered at the current level; deeper down only the
/// depth moves. The depth stops at the largest number a machine word holds.
pub open spec fn entered(p: PathView, name: Seq<char>) -> PathView {
    PathView {
        depth: if p.depth < usize::MAX {
            p.depth + 1
        } else {
            p.depth
        },
        slots: if p.depth < CAPACITY {
            p.slots.update(p.depth as int, Some(name))
        } else {
            p.slots
        },
    }
}

/// The tracker after the innermost element was left: one level up, and the
/// name at that level forgotten. With nothing open, nothing changes.
pub open spec fn left(p: PathView) -> PathView {
    if p.depth == 0 {
        p
    } else {
        PathView {
            depth: (p.depth - 1) as nat,
            slots: if p.depth - 1 < CAPACITY {
                p.slots.update(p.depth - 1, None)
            } else {
                p.slots
            },
        }
    }
}

/// Some level of `slots` remembers a name.
pub open spec fn any_named(slots: Seq<Option<Seq<char>>>) -> bool {
    exists|i: int| 0 <= i < slots.len() && (#[trigger] slots[i]) is Some
}

/// The remembered names from the outermost level inward, with "/" between
/// them.
pub open spec fn joined(slots: Seq<Option<Seq<char>>>) -> Seq<char>
    decreases slots.len(),
{
    if slots.len() == 0 {
        Seq::empty()
    } else {
        let front = slots.drop_last();
        match slots.last() {
            None => joined(front),
            Some(name) => if any_named(front) {
                joined(front) + "/"@ + name
            } else {
                name
            },
        }
    }
}

/// The location that a tracker reports.
pub open spec fn location_of(p: PathView) -> Seq<char> {
    joined(p.slots)
}

/// What one level remembers, as a mathematical value.
pub open spec fn slot_view(slot: Option<String>) -> Option<Seq<char>> {
    match slot {
        Some(name) => Some(name@),
        None => None,
    }
}

/// The open elements of a walk: a depth counter and, for the outermost
/// levels, their names.
pub struct PathTracker {
    slots: Vec<Option<String>>,
    depth: usize,
}

impl View for PathTracker {
    type V = PathView;

    closed spec fn view(&self) -> PathView {
        PathView { depth: self.depth as nat, slots: self.slots@.map_values(|s| slot_view(s)) }
    }
}

impl PathTracker {
    /// The tracker has one slot for each level that it remembers.
    pub closed spec fn wf(&self) -> bool {
        self.slots@.len() == CAPACITY
    }

    /// A tracker with nothing open.
    pub fn new() -> (p: PathTracker)
        ensures
            p.wf(),
            p@ == empty_path(),
    {
        let mut slots: Vec<Option<String>> = Vec::new();
        let mut i: usize = 0;
        while i < CAPACITY
            invariant
                i <= CAPACITY,
                slots@.len() == i,
                forall|j: int| 0 <= j < i ==> (#[trigger] slots@[j]) is None,
            decreases CAPACITY - i,
        {
            slots.push(None);
            i += 1;
        }
        let p = PathTracker { slots, depth: 0 };
        assert(p@.slots =~= empty_path().slots);
        p
    }

    /// How many elements are open.
    pub fn depth(&self) -> (d: usize)
        ensures
            d == self@.depth,
    {
        self.depth
    }

    /// Enters an element.
    pub fn enter(&mut self, name: &str)
        requires
            old(self).wf(),
        ensures
            final(self).wf(),
            final(self)@ == entered(old(self)@, name@),
    {
        if self.depth < CAPACITY {
            self.slots.set(self.depth, Some(String::from_str(name)));
        }
        if self.depth < usize::MAX {
            self.depth += 1;
        }
        assert(self@.slots =~= entered(old(self)@, name@).slots);
    }

    /// Leaves the innermost element.
    pub fn leave(&mut self)
        requires
            old(self).wf(),
        ensures
            final(self).wf(),
            final(self)@ == left(old(self)@),
    {
        if self.depth > 0 {
            self.depth -= 1;
            if self.depth < CAPACITY {
                self.slots.set(self.depth, None);
            }
        }
        assert(self@.slots =~= left(old(self)@).slots);
    }

    /// The location: the remembered names, outermost first, joined by "/".
    pub fn location(&self) -> (text: String)
        requires
            self.wf(),
        ensures
            text@ == location_of(self@),
    {
        let mut text = String::new();
        let mut seen = false;
        let ghost slots = self@.slots;
        let mut i: usize = 0;
        while i < CAPACITY
            invariant
                i <= CAPACITY,
                self.slots@.len() == CAPACITY,
                slots == self.slots@.map_values(|s| slot_view(s)),
                text@ == joined(slots.take(i as int)),
                seen == any_named(slots.take(i as int)),
            decreases CAPACITY - i,
        {
            let ghost front = slots.take(i as int);
            let ghost upto = slots.take(i as int + 1);
            proof {
                assert(upto.drop_last() =~= front);
                assert(upto.last() == slots[i as int]);
                assert(joined(upto) == match slots[i as int] {
                    None => joined(front),
                    Some(name) => if any_named(front) {
                        joined(front) + "/"@ + name
                    } else {
                        name
                    },
                });
            }
            match &self.slots[i] {
                Some(name) => {
                    if seen {
                        text.append("/");
                    }
                    text.append(name.as_str());
                    seen = true;
                    proof {
                        assert(upto[i as int] is Some);
                        if !any_named(front) {
                            assert(joined(front) =~= Seq::<char>::empty()) by {
                                lemma_unnamed_joins_empty(front);
                            }
                            assert(text@ =~= name@);
                        }
                    }
                },
                None => {
                    proof {
                        if any_named(upto) {
                            let k = choose|k: int| 0 <= k < upto.len() && (#[trigger] upto[k]) is Some;
                            assert(front[k] is Some);
                        }
                        if any_named(front) {
                            let k = choose|k: int| 0 <= k < front.len() && (#[trigger] front[k]) is Some;
                            assert(upto[k] is Some);
                        }
                    }
                },
            }
            i += 1;
        }
        assert(slots.take(CAPACITY as int) =~= slots);
        text
    }
}

/// Levels without a name join to the empty text.
pub proof fn lemma_unnamed_joins_empty(slots: Seq<Option<Seq<char>>>)
    requires
        !any_named(slots),
    ensures
        joined(slots).len() == 0,
    decreases slots.len(),
{
    if slots.len() > 0 {
        let front = slots.drop_last();
        assert(slots[slots.len() - 1] is None);
        assert(!any_named(front)) by {
            if any_named(front) {
                let k = choose|k: int| 0 <= k < front.len() && (#[trigger] front[k]) is Some;
                assert(slots[k] is Some);
            }
        }
        lemma_unnamed_joins_empty(front);
    }
}

} // verus!
