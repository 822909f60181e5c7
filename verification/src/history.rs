//! Undo/redo histories for the robot and track editors. A history keeps whole
//! snapshots, so every part of a definition comes back together on undo.
use vstd::prelude::*;

verus! {

/// How many snapshots a history keeps, undo and redo together.
pub const HISTORY_LIMIT: usize = 100;

/// The two stacks of a history: undo (oldest first) and redo (oldest first).
pub struct Stacks<X> {
    pub undo: Seq<X>,
    pub redo: Seq<X>,
}

/// Recording `before`: when the edit changed something, `before` goes on top
/// of the undo stack, the oldest snapshot is dropped beyond the limit, and the
/// redo stack is emptied. An edit that changed nothing is not recorded.
pub open spec fn record_step<X>(h: Stacks<X>, before: X, changed: bool) -> Stacks<X> {
    if changed {
        let u = h.undo.push(before);
        Stacks { undo: if u.len() > HISTORY_LIMIT { u.drop_first() } else { u }, redo: Seq::empty() }
    } else {
        h
    }
}

/// Undoing from state `cur`: the newest undo snapshot becomes current and
/// `cur` goes on top of the redo stack. Nothing happens with no snapshot.
pub open spec fn undo_step<X>(h: Stacks<X>, cur: X) -> (Stacks<X>, X) {
    if h.undo.len() > 0 {
        (Stacks { undo: h.undo.drop_last(), redo: h.redo.push(cur) }, h.undo.last())
    } else {
        (h, cur)
    }
}

/// Redoing from state `cur`: the mirror image of `undo_step`.
pub open spec fn redo_step<X>(h: Stacks<X>, cur: X) -> (Stacks<X>, X) {
    if h.redo.len() > 0 {
        (Stacks { undo: h.undo.push(cur), redo: h.redo.drop_last() }, h.redo.last())
    } else {
        (h, cur)
    }
}

/// A history never holds more than the limit, undo and redo together.
pub open spec fn stacks_wf<X>(h: Stacks<X>) -> bool {
    h.undo.len() + h.redo.len() <= HISTORY_LIMIT
}

/// Undo followed by redo returns both the state and the history to where
/// they were, whenever there was something to undo.
pub proof fn lemma_undo_then_redo<X>(h: Stacks<X>, cur: X)
    requires
        h.undo.len() > 0,
    ensures
        ({
            let (h1, c1) = undo_step(h, cur);
            let (h2, c2) = redo_step(h1, c1);
            h2 == h && c2 == cur
        }),
{
    let (h1, c1) = undo_step(h, cur);
    assert(h1.undo.push(c1) =~= h.undo);
    assert(h1.redo.drop_last() =~= h.redo);
}

/// Redo followed by undo returns both the state and the history to where
/// they were, whenever there was something to redo.
pub proof fn lemma_redo_then_undo<X>(h: Stacks<X>, cur: X)
    requires
        h.redo.len() > 0,
    ensures
        ({
            let (h1, c1) = redo_step(h, cur);
            let (h2, c2) = undo_step(h1, c1);
            h2 == h && c2 == cur
        }),
{
    let (h1, c1) = redo_step(h, cur);
    assert(h1.redo.push(c1) =~= h.redo);
    assert(h1.undo.drop_last() =~= h.undo);
}

/// Every operation keeps a history within its limit.
pub proof fn lemma_history_bounded<X>(h: Stacks<X>, cur: X, before: X, changed: bool)
    requires
        stacks_wf(h),
    ensures
        stacks_wf(record_step(h, before, changed)),
        stacks_wf(undo_step(h, cur).0),
        stacks_wf(redo_step(h, cur).0),
{
}

/// Undo directly after recording a change gives back the recorded snapshot.
pub proof fn lemma_record_then_undo<X>(h: Stacks<X>, before: X, cur: X)
    ensures
        undo_step(record_step(h, before, true), cur).1 == before,
{
}

/// Compares two texts.
fn same_text(a: &str, b: &str) -> (r: bool)
    ensures
        r == (a@ == b@),
{
    a.to_owned() == b.to_owned()
}

/// Undo/redo history of robot definitions. Two snapshots count as the same
/// definition when their persisted JSON texts are equal.
#[derive(Debug)]
pub struct RobotHistory<T> {
    undo: Vec<T>,
    redo: Vec<T>,
}

impl<T> RobotHistory<T> {
    #[verifier::type_invariant]
    spec fn inv(self) -> bool {
        self.undo.len() + self.redo.len() <= HISTORY_LIMIT
    }

    /// The history's stacks.
    pub closed spec fn stacks(&self) -> Stacks<T> {
        Stacks { undo: self.undo@, redo: self.redo@ }
    }

    /// An empty history.
    pub fn new() -> (h: Self)
        ensures
            h.stacks().undo.len() == 0,
            h.stacks().redo.len() == 0,
    {
        RobotHistory { undo: Vec::new(), redo: Vec::new() }
    }

    /// Records `before`, the definition as it was before an edit, when the
    /// edit changed its JSON text (`before_json` against `after_json`).
    pub fn record(&mut self, before: T, before_json: &str, after_json: &str)
        ensures
            final(self).stacks() == record_step(old(self).stacks(), before, before_json@ != after_json@),
            stacks_wf(final(self).stacks()),
    {
        proof {
            use_type_invariant(&*self);
        }
        if !same_text(before_json, after_json) {
            let (mut undo, _) = self.take_stacks();
            if undo.len() >= HISTORY_LIMIT {
                undo.remove(0);
            }
            undo.push(before);
            proof {
                let u = old(self).undo@.push(before);
                if u.len() > HISTORY_LIMIT {
                    assert(undo@ =~= u.drop_first());
                } else {
                    assert(undo@ =~= u);
                }
            }
            *self = RobotHistory { undo, redo: Vec::new() };
        }
    }

    fn take_stacks(&mut self) -> (r: (Vec<T>, Vec<T>))
        ensures
            r.0@ == old(self).undo@,
            r.1@ == old(self).redo@,
            r.0.len() + r.1.len() <= HISTORY_LIMIT,
            final(self).undo@.len() == 0,
            final(self).redo@.len() == 0,
    {
        proof {
            use_type_invariant(&*self);
        }
        let mut h = RobotHistory::new();
        std::mem::swap(self, &mut h);
        let RobotHistory { undo, redo } = h;
        (undo, redo)
    }

    /// Replaces `robot` by the newest undo snapshot, keeping the replaced
    /// definition for redo. Returns whether there was anything to undo.
    pub fn undo(&mut self, robot: &mut T) -> (r: bool)
        ensures
            r == (old(self).stacks().undo.len() > 0),
            (final(self).stacks(), *final(robot)) == undo_step(old(self).stacks(), *old(robot)),
            stacks_wf(final(self).stacks()),
    {
        proof {
            use_type_invariant(&*self);
        }
        let (mut undo, mut redo) = self.take_stacks();
        let r = if let Some(mut snapshot) = undo.pop() {
            std::mem::swap(robot, &mut snapshot);
            redo.push(snapshot);
            true
        } else {
            false
        };
        *self = RobotHistory { undo, redo };
        r
    }

    /// Replaces `robot` by the newest redo snapshot, keeping the replaced
    /// definition for undo. Returns whether there was anything to redo.
    pub fn redo(&mut self, robot: &mut T) -> (r: bool)
        ensures
            r == (old(self).stacks().redo.len() > 0),
            (final(self).stacks(), *final(robot)) == redo_step(old(self).stacks(), *old(robot)),
            stacks_wf(final(self).stacks()),
    {
        proof {
            use_type_invariant(&*self);
        }
        let (mut undo, mut redo) = self.take_stacks();
        let r = if let Some(mut snapshot) = redo.pop() {
            std::mem::swap(robot, &mut snapshot);
            undo.push(snapshot);
            true
        } else {
            false
        };
        *self = RobotHistory { undo, redo };
        r
    }

    /// Forgets every snapshot.
    pub fn clear(&mut self)
        ensures
            final(self).stacks().undo.len() == 0,
            final(self).stacks().redo.len() == 0,
    {
        let _ = self.take_stacks();
    }
}

impl<T> Default for RobotHistory<T> {
    fn default() -> (h: Self)
        ensures
            h.stacks().undo.len() == 0,
            h.stacks().redo.len() == 0,
    {
        Self::new()
    }
}

/// Undo/redo history of the track editor: each snapshot is a track
/// definition together with the project's start pose. Two snapshots count
/// as the same when the track JSON texts are equal and the pose is unchanged.
#[derive(Debug)]
pub struct TrackEditHistory<C, P> {
    undo: Vec<(C, P)>,
    redo: Vec<(C, P)>,
}

impl<C, P> TrackEditHistory<C, P> {
    #[verifier::type_invariant]
    spec fn inv(self) -> bool {
        self.undo.len() + self.redo.len() <= HISTORY_LIMIT
    }

    /// The history's stacks.
    pub closed spec fn stacks(&self) -> Stacks<(C, P)> {
        Stacks { undo: self.undo@, redo: self.redo@ }
    }

    /// An empty history.
    pub fn new() -> (h: Self)
        ensures
            h.stacks().undo.len() == 0,
            h.stacks().redo.len() == 0,
    {
        TrackEditHistory { undo: Vec::new(), redo: Vec::new() }
    }

    /// Records `before` when the edit changed the track's JSON text
    /// (`before_json` against `track_json`) or moved the start pose.
    pub fn record(&mut self, before: (C, P), before_json: &str, track_json: &str, pose_changed: bool)
        ensures
            final(self).stacks() == record_step(
                old(self).stacks(),
                before,
                before_json@ != track_json@ || pose_changed,
            ),
            stacks_wf(final(self).stacks()),
    {
        proof {
            use_type_invariant(&*self);
        }
        if !same_text(before_json, track_json) || pose_changed {
            let (mut undo, _) = self.take_stacks();
            if undo.len() >= HISTORY_LIMIT {
                undo.remove(0);
            }
            undo.push(before);
            proof {
                let u = old(self).undo@.push(before);
                if u.len() > HISTORY_LIMIT {
                    assert(undo@ =~= u.drop_first());
                } else {
                    assert(undo@ =~= u);
                }
            }
            *self = TrackEditHistory { undo, redo: Vec::new() };
        }
    }

    fn take_stacks(&mut self) -> (r: (Vec<(C, P)>, Vec<(C, P)>))
        ensures
            r.0@ == old(self).undo@,
            r.1@ == old(self).redo@,
            r.0.len() + r.1.len() <= HISTORY_LIMIT,
            final(self).undo@.len() == 0,
            final(self).redo@.len() == 0,
    {
        proof {
            use_type_invariant(&*self);
        }
        let mut h = TrackEditHistory::new();
        std::mem::swap(self, &mut h);
        let TrackEditHistory { undo, redo } = h;
        (undo, redo)
    }

    /// Replaces the current track and start pose by the newest undo
    /// snapshot, keeping the replaced pair for redo. Returns whether there
    /// was anything to undo.
    pub fn undo(&mut self, track: &mut C, pose: &mut P) -> (r: bool)
        ensures
            r == (old(self).stacks().undo.len() > 0),
            (final(self).stacks(), (*final(track), *final(pose))) == undo_step(
                old(self).stacks(),
                (*old(track), *old(pose)),
            ),
            stacks_wf(final(self).stacks()),
    {
        proof {
            use_type_invariant(&*self);
        }
        let (mut undo, mut redo) = self.take_stacks();
        let r = if let Some((mut t, mut p)) = undo.pop() {
            std::mem::swap(track, &mut t);
            std::mem::swap(pose, &mut p);
            redo.push((t, p));
            true
        } else {
            false
        };
        *self = TrackEditHistory { undo, redo };
        r
    }

    /// Replaces the current track and start pose by the newest redo
    /// snapshot, keeping the replaced pair for undo. Returns whether there
    /// was anything to redo.
    pub fn redo(&mut self, track: &mut C, pose: &mut P) -> (r: bool)
        ensures
            r == (old(self).stacks().redo.len() > 0),
            (final(self).stacks(), (*final(track), *final(pose))) == redo_step(
                old(self).stacks(),
                (*old(track), *old(pose)),
            ),
            stacks_wf(final(self).stacks()),
    {
        proof {
            use_type_invariant(&*self);
        }
        let (mut undo, mut redo) = self.take_stacks();
        let r = if let Some((mut t, mut p)) = redo.pop() {
            std::mem::swap(track, &mut t);
            std::mem::swap(pose, &mut p);
            undo.push((t, p));
            true
        } else {
            false
        };
        *self = TrackEditHistory { undo, redo };
        r
    }

    /// Forgets every snapshot.
    pub fn clear(&mut self)
        ensures
            final(self).stacks().undo.len() == 0,
            final(self).stacks().redo.len() == 0,
    {
        let _ = self.take_stacks();
    }
}

impl<C, P> Default for TrackEditHistory<C, P> {
    fn default() -> (h: Self)
        ensures
            h.stacks().undo.len() == 0,
            h.stacks().redo.len() == 0,
    {
        Self::new()
    }
}

} // verus!
