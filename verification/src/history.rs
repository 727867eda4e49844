use vstd::prelude::*;

verus! {

/// Most snapshots the undo history keeps.
pub const UNDO_STACK_MAX: usize = 100;

/// Undo and redo stacks of snapshots of an edited text: the newest
/// snapshot last.
#[derive(Debug)]
pub struct UndoHistory<S> {
    pub undo_stack: Vec<S>,
    pub redo_stack: Vec<S>,
}

/// The undo stack after recording `s`: pushed last, the oldest dropped
/// past [`UNDO_STACK_MAX`].
pub open spec fn spec_pushed<S>(u: Seq<S>, s: S) -> Seq<S> {
    if u.len() < UNDO_STACK_MAX { u.push(s) } else { u.push(s).drop_first() }
}

impl<S> UndoHistory<S> {
    /// At most [`UNDO_STACK_MAX`] snapshots to undo.
    pub open spec fn well_formed(&self) -> bool {
        self.undo_stack@.len() <= UNDO_STACK_MAX
    }

    /// Nothing to undo or redo.
    pub fn new() -> (r: Self)
        ensures
            r.undo_stack@.len() == 0,
            r.redo_stack@.len() == 0,
            r.well_formed(),
    {
        UndoHistory { undo_stack: Vec::new(), redo_stack: Vec::new() }
    }

    /// Record `snapshot` (the text before an edit): it becomes the newest
    /// snapshot to undo, the redo history is dropped, and past
    /// [`UNDO_STACK_MAX`] snapshots the oldest goes.
    pub fn push(&mut self, snapshot: S)
        requires
            old(self).well_formed(),
        ensures
            final(self).well_formed(),
            final(self).redo_stack@.len() == 0,
            final(self).undo_stack@ == spec_pushed(old(self).undo_stack@, snapshot),
    {
        self.undo_stack.push(snapshot);
        self.redo_stack = Vec::new();
        if self.undo_stack.len() > UNDO_STACK_MAX {
            let _ = self.undo_stack.remove(0);
            proof {
                assert(self.undo_stack@ =~= old(self).undo_stack@.push(snapshot).drop_first());
            }
        }
    }

    /// Undo: give back the newest snapshot, and keep `current` (the text
    /// as it is now) to redo; `None` and no change when there is nothing
    /// to undo.
    pub fn undo(&mut self, current: S) -> (r: Option<S>)
        ensures
            old(self).undo_stack@.len() == 0 ==> r.is_none() && final(self).undo_stack@ == old(self).undo_stack@ && final(self).redo_stack@ == old(self).redo_stack@,
            old(self).undo_stack@.len() > 0 ==> {
                &&& r == Some(old(self).undo_stack@.last())
                &&& final(self).undo_stack@ == old(self).undo_stack@.drop_last()
                &&& final(self).redo_stack@ == old(self).redo_stack@.push(current)
            },
    {
        match self.undo_stack.pop() {
            Some(s) => {
                self.redo_stack.push(current);
                Some(s)
            },
            None => None,
        }
    }

    /// Redo: give back the newest undone snapshot, and keep `current` to
    /// undo again; `None` and no change when there is nothing to redo.
    pub fn redo(&mut self, current: S) -> (r: Option<S>)
        ensures
            old(self).redo_stack@.len() == 0 ==> r.is_none() && final(self).undo_stack@ == old(self).undo_stack@ && final(self).redo_stack@ == old(self).redo_stack@,
            old(self).redo_stack@.len() > 0 ==> {
                &&& r == Some(old(self).redo_stack@.last())
                &&& final(self).redo_stack@ == old(self).redo_stack@.drop_last()
                &&& final(self).undo_stack@ == old(self).undo_stack@.push(current)
            },
    {
        match self.redo_stack.pop() {
            Some(s) => {
                self.undo_stack.push(current);
                Some(s)
            },
            None => None,
        }
    }
}

} // verus!
