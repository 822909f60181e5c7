//! Race bookkeeping: start, checkpoint and finish gates, lap counting and
//! area exits. The geometric test of which gates a movement crossed, and in
//! which order, is made by the caller; this module decides what each ordered
//! crossing means for the race.
use vstd::prelude::*;

verus! {

/// The role of a race gate.
#[derive(Debug, Clone, Copy, PartialEq, Eq, Structural)]
pub enum GateKind {
    Start,
    Checkpoint,
    Finish,
}

/// What happened during a race.
#[derive(Debug, Clone, Copy, PartialEq, Eq, Structural)]
pub enum RaceEventKind {
    Started,
    Checkpoint,
    Lap,
    Finished,
    WrongSequence,
    ReverseCrossing,
    ExitedArea,
    EnteredArea,
}

/// One recorded race event, stamped with the simulated time and the lap
/// counter at the moment it was recorded.
#[derive(Debug, PartialEq)]
pub struct RaceEvent {
    pub t_us: u64,
    pub kind: RaceEventKind,
    pub gate_id: Option<String>,
    pub lap: u32,
}

impl Clone for RaceEvent {
    fn clone(&self) -> (r: Self)
        ensures
            r == *self,
    {
        RaceEvent {
            t_us: self.t_us,
            kind: self.kind,
            gate_id: match &self.gate_id {
                Some(id) => Some(id.clone()),
                None => None,
            },
            lap: self.lap,
        }
    }
}

/// What the race logic reads of a gate: its identity and its role.
#[derive(Debug)]
pub struct RaceGate {
    pub id: String,
    pub kind: GateKind,
}

impl Clone for RaceGate {
    fn clone(&self) -> (r: Self)
        ensures
            r == *self,
    {
        RaceGate { id: self.id.clone(), kind: self.kind }
    }
}

/// A gate crossed during one movement: its index among the race's gates and
/// whether it was crossed in its forward direction.
#[derive(Debug, Clone, Copy)]
pub struct GateCrossing {
    pub gate: usize,
    pub forward: bool,
}

/// The race state as a mathematical value.
pub struct RaceView {
    pub enabled: bool,
    pub stop_on_exit: bool,
    pub target_laps: u32,
    pub gates: Seq<RaceGate>,
    pub checkpoints: Seq<String>,
    pub next: nat,
    pub started: bool,
    pub lap_armed: bool,
    pub invalid_lap: bool,
    pub lap: u32,
    pub finished: bool,
    pub inside: bool,
    pub exited: bool,
    pub events: Seq<RaceEvent>,
}

/// The ids of the checkpoint gates, in gate order.
pub open spec fn checkpoint_ids(gates: Seq<RaceGate>) -> Seq<String>
    decreases gates.len(),
{
    if gates.len() == 0 {
        Seq::empty()
    } else {
        let rest = checkpoint_ids(gates.drop_last());
        if gates.last().kind == GateKind::Checkpoint {
            rest.push(gates.last().id)
        } else {
            rest
        }
    }
}

/// The largest lap count a race with this target can reach.
pub open spec fn lap_bound(target_laps: u32) -> nat {
    if target_laps == 0 {
        1
    } else {
        target_laps as nat
    }
}

/// Internal consistency of a race state.
pub open spec fn race_wf(s: RaceView) -> bool {
    &&& s.next <= s.checkpoints.len()
    &&& s.lap <= lap_bound(s.target_laps)
    &&& s.finished ==> s.lap >= s.target_laps && s.lap >= 1
    &&& !s.finished ==> (s.lap == 0 || s.lap < s.target_laps)
}

/// `s` with one more event recorded at time `t`.
pub open spec fn with_event(s: RaceView, t: u64, kind: RaceEventKind, gate_id: Option<String>) -> RaceView {
    RaceView { events: s.events.push(RaceEvent { t_us: t, kind, gate_id, lap: s.lap }), ..s }
}

/// The effect of the robot being inside or outside the allowed area at time `t`.
pub open spec fn area_step(s: RaceView, inside: bool, t: u64) -> RaceView {
    if inside != s.inside {
        let s1 = RaceView { inside, exited: if !inside { true } else { s.exited }, ..s };
        with_event(s1, t, if inside { RaceEventKind::EnteredArea } else { RaceEventKind::ExitedArea }, None)
    } else {
        s
    }
}

/// The effect of one gate crossing at time `t`.
pub open spec fn crossing_step(s: RaceView, c: GateCrossing, t: u64) -> RaceView {
    let g = s.gates[c.gate as int];
    if !c.forward {
        with_event(s, t, RaceEventKind::ReverseCrossing, Some(g.id))
    } else {
        match g.kind {
            GateKind::Start => {
                if !s.lap_armed {
                    let s1 = RaceView { started: true, lap_armed: true, next: 0, invalid_lap: false, ..s };
                    with_event(s1, t, RaceEventKind::Started, Some(g.id))
                } else {
                    s
                }
            },
            GateKind::Checkpoint => {
                if s.started && s.lap_armed {
                    if s.next < s.checkpoints.len() && s.checkpoints[s.next as int]@ == g.id@ {
                        let s1 = RaceView { next: s.next + 1, ..s };
                        with_event(s1, t, RaceEventKind::Checkpoint, Some(g.id))
                    } else {
                        let s1 = RaceView { invalid_lap: true, ..s };
                        with_event(s1, t, RaceEventKind::WrongSequence, Some(g.id))
                    }
                } else {
                    s
                }
            },
            GateKind::Finish => {
                if s.started && s.lap_armed {
                    if s.next == s.checkpoints.len() && !s.invalid_lap {
                        let s1 = RaceView { lap: (s.lap + 1) as u32, ..s };
                        let s2 = with_event(s1, t, RaceEventKind::Lap, Some(g.id));
                        if s2.lap >= s.target_laps {
                            with_event(RaceView { finished: true, ..s2 }, t, RaceEventKind::Finished, Some(g.id))
                        } else {
                            RaceView { next: 0, invalid_lap: false, lap_armed: false, ..s2 }
                        }
                    } else {
                        let s1 = with_event(s, t, RaceEventKind::WrongSequence, Some(g.id));
                        RaceView { next: 0, invalid_lap: false, lap_armed: false, ..s1 }
                    }
                } else {
                    s
                }
            },
        }
    }
}

/// The effect of a sequence of ordered crossings; nothing counts once the
/// race is finished.
pub open spec fn crossings_step(s: RaceView, cs: Seq<GateCrossing>, t: u64) -> RaceView
    decreases cs.len(),
{
    if cs.len() == 0 || s.finished {
        s
    } else {
        crossings_step(crossing_step(s, cs[0], t), cs.drop_first(), t)
    }
}

/// The effect of one movement: the area change first, then the crossings,
/// which count only in an enabled race that is not finished.
pub open spec fn update_step(s: RaceView, inside: bool, t: u64, cs: Seq<GateCrossing>) -> RaceView {
    let s1 = area_step(s, inside, t);
    if !s1.enabled || s1.finished {
        s1
    } else {
        crossings_step(s1, cs, t)
    }
}

/// Why a run in this race state should stop, if it should: `area_exit`
/// when the robot left the area and exits stop the run, else
/// `race_finished` when an enabled race was finished.
pub open spec fn termination_of(s: RaceView) -> Option<Seq<char>> {
    if s.stop_on_exit && s.exited {
        Some("area_exit"@)
    } else if s.enabled && s.finished {
        Some("race_finished"@)
    } else {
        None
    }
}

/// The event recorded at time `t` of kind `kind` at gate `gate`, with lap
/// counter `lap`.
pub open spec fn gate_event(t: u64, kind: RaceEventKind, gate: RaceGate, lap: u32) -> RaceEvent {
    RaceEvent { t_us: t, kind, gate_id: Some(gate.id), lap }
}

/// The single forward crossing of gate `i`.
pub open spec fn forward_only(i: usize) -> Seq<GateCrossing> {
    seq![GateCrossing { gate: i, forward: true }]
}

/// Every crossing names one of the gates.
pub open spec fn crossings_valid(gates: Seq<RaceGate>, cs: Seq<GateCrossing>) -> bool {
    forall|i: int| 0 <= i < cs.len() ==> (#[trigger] cs[i]).gate < gates.len()
}

/// The fields of a race state, worked on while an update is under way.
#[derive(Debug)]
struct RaceCore {
    enabled: bool,
    stop_on_exit: bool,
    target_laps: u32,
    gates: Vec<RaceGate>,
    checkpoints: Vec<String>,
    next: usize,
    started: bool,
    lap_armed: bool,
    invalid_lap: bool,
    lap: u32,
    finished: bool,
    inside: bool,
    exited: bool,
    events: Vec<RaceEvent>,
}

impl View for RaceCore {
    type V = RaceView;

    closed spec fn view(&self) -> RaceView {
        RaceView {
            enabled: self.enabled,
            stop_on_exit: self.stop_on_exit,
            target_laps: self.target_laps,
            gates: self.gates@,
            checkpoints: self.checkpoints@,
            next: self.next as nat,
            started: self.started,
            lap_armed: self.lap_armed,
            invalid_lap: self.invalid_lap,
            lap: self.lap,
            finished: self.finished,
            inside: self.inside,
            exited: self.exited,
            events: self.events@,
        }
    }
}

/// The state of a race: progress through the gates, laps and area exits,
/// with the events recorded so far. It is always consistent (`race_wf`).
#[derive(Debug)]
pub struct RaceState {
    core: RaceCore,
}

impl View for RaceState {
    type V = RaceView;

    closed spec fn view(&self) -> RaceView {
        self.core@
    }
}

proof fn lemma_crossing_step_wf(s: RaceView, c: GateCrossing, t: u64)
    requires
        race_wf(s),
        !s.finished,
        c.gate < s.gates.len(),
    ensures
        race_wf(crossing_step(s, c, t)),
        crossing_step(s, c, t).events.len() >= s.events.len(),
        crossing_step(s, c, t).events.take(s.events.len() as int) == s.events,
        crossing_step(s, c, t).lap >= s.lap,
        crossing_step(s, c, t).gates == s.gates,
        crossing_step(s, c, t).checkpoints == s.checkpoints,
        crossing_step(s, c, t).target_laps == s.target_laps,
        crossing_step(s, c, t).enabled == s.enabled,
        crossing_step(s, c, t).stop_on_exit == s.stop_on_exit,
        crossing_step(s, c, t).inside == s.inside,
        crossing_step(s, c, t).exited == s.exited,
{
    let r = crossing_step(s, c, t);
    assert(r.events.take(s.events.len() as int) =~= s.events);
}


/// A movement never erases or rewrites recorded events: the events after an
/// update begin with the events before it.
pub proof fn lemma_update_appends_events(s: RaceView, inside: bool, t: u64, cs: Seq<GateCrossing>)
    requires
        race_wf(s),
        crossings_valid(s.gates, cs),
    ensures
        update_step(s, inside, t, cs).events.len() >= s.events.len(),
        update_step(s, inside, t, cs).events.take(s.events.len() as int) == s.events,
        update_step(s, inside, t, cs).lap >= s.lap,
        s.finished ==> update_step(s, inside, t, cs).finished,
        race_wf(update_step(s, inside, t, cs)),
{
    let s1 = area_step(s, inside, t);
    assert(s1.events.take(s.events.len() as int) =~= s.events);
    if s1.enabled && !s1.finished {
        lemma_crossings_append(s1, cs, t);
        let r = crossings_step(s1, cs, t);
        assert(r.events.take(s.events.len() as int) =~= r.events.take(s1.events.len() as int).take(
            s.events.len() as int,
        ));
    }
}

proof fn lemma_crossings_append(s: RaceView, cs: Seq<GateCrossing>, t: u64)
    requires
        race_wf(s),
        crossings_valid(s.gates, cs),
    ensures
        crossings_step(s, cs, t).events.len() >= s.events.len(),
        crossings_step(s, cs, t).events.take(s.events.len() as int) == s.events,
        crossings_step(s, cs, t).lap >= s.lap,
        s.finished ==> crossings_step(s, cs, t).finished,
        race_wf(crossings_step(s, cs, t)),
    decreases cs.len(),
{
    if cs.len() == 0 || s.finished {
        assert(s.events.take(s.events.len() as int) =~= s.events);
    } else {
        assert(cs[0].gate < s.gates.len());
        lemma_crossing_step_wf(s, cs[0], t);
        let s1 = crossing_step(s, cs[0], t);
        assert(crossings_valid(s1.gates, cs.drop_first()));
        lemma_crossings_append(s1, cs.drop_first(), t);
        let r = crossings_step(s1, cs.drop_first(), t);
        assert(r.events.take(s.events.len() as int) =~= r.events.take(s1.events.len() as int).take(
            s.events.len() as int,
        ));
    }
}

/// Once a race is finished, gate crossings no longer count: an update only
/// records whether the robot left or re-entered the area.
pub proof fn lemma_finished_race_ignores_gates(s: RaceView, inside: bool, t: u64, cs: Seq<GateCrossing>)
    requires
        s.finished,
    ensures
        update_step(s, inside, t, cs) == area_step(s, inside, t),
{
}

/// In a disabled race, gate crossings never count.
pub proof fn lemma_disabled_race_ignores_gates(s: RaceView, inside: bool, t: u64, cs: Seq<GateCrossing>)
    requires
        !s.enabled,
    ensures
        update_step(s, inside, t, cs) == area_step(s, inside, t),
{
}

/// `c` is a forward crossing of a gate of kind `kind`.
pub open spec fn forward_through(s: RaceView, c: GateCrossing, kind: GateKind) -> bool {
    &&& c.forward
    &&& c.gate < s.gates.len()
    &&& s.gates[c.gate as int].kind == kind
}

/// `cs` crosses, forward, the checkpoints from number `from` on, in order,
/// and then a finish gate.
pub open spec fn checkpoints_then_finish(s: RaceView, cs: Seq<GateCrossing>, from: nat) -> bool {
    &&& from <= s.checkpoints.len()
    &&& cs.len() == s.checkpoints.len() - from + 1
    &&& forall|j: int| 0 <= j < cs.len() - 1 ==> {
        &&& forward_through(s, #[trigger] cs[j], GateKind::Checkpoint)
        &&& s.gates[cs[j].gate as int].id@ == s.checkpoints[from + j]@
    }
    &&& forward_through(s, cs.last(), GateKind::Finish)
}

proof fn lemma_lap_tail(s: RaceView, cs: Seq<GateCrossing>, t: u64)
    requires
        race_wf(s),
        !s.finished,
        s.started,
        s.lap_armed,
        !s.invalid_lap,
        checkpoints_then_finish(s, cs, s.next),
    ensures
        crossings_step(s, cs, t).lap == s.lap + 1,
    decreases cs.len(),
{
    let s1 = crossing_step(s, cs[0], t);
    if cs.len() == 1 {
        assert(s.next == s.checkpoints.len());
        assert(crossings_step(s1, cs.drop_first(), t) == s1);
    } else {
        assert(forward_through(s, cs[0], GateKind::Checkpoint));
        assert(s.gates[cs[0].gate as int].id@ == s.checkpoints[s.next as int]@);
        assert(s1.next == s.next + 1);
        assert forall|j: int| 0 <= j < cs.drop_first().len() - 1 implies {
            &&& forward_through(s1, #[trigger] cs.drop_first()[j], GateKind::Checkpoint)
            &&& s1.gates[cs.drop_first()[j].gate as int].id@ == s1.checkpoints[s1.next + j]@
        } by {
            assert(cs.drop_first()[j] == cs[j + 1]);
        }
        assert(checkpoints_then_finish(s1, cs.drop_first(), s1.next));
        lemma_lap_tail(s1, cs.drop_first(), t);
    }
}

/// A clean lap counts exactly one lap: in an enabled race, crossing the
/// start gate and then every checkpoint in order and then a finish gate, all
/// forward, raises the lap counter by one.
pub proof fn lemma_clean_lap_counts_once(s: RaceView, inside: bool, t: u64, cs: Seq<GateCrossing>)
    requires
        race_wf(s),
        s.enabled,
        !s.finished,
        !s.lap_armed,
        inside == s.inside,
        cs.len() >= 2,
        forward_through(s, cs[0], GateKind::Start),
        checkpoints_then_finish(s, cs.drop_first(), 0),
    ensures
        update_step(s, inside, t, cs).lap == s.lap + 1,
{
    let s1 = crossing_step(s, cs[0], t);
    assert(s1.next == 0 && s1.started && s1.lap_armed && !s1.invalid_lap);
    assert(checkpoints_then_finish(s1, cs.drop_first(), s1.next));
    lemma_lap_tail(s1, cs.drop_first(), t);
}

impl RaceCore {
    fn new(gates: Vec<RaceGate>, enabled: bool, stop_on_exit: bool, target_laps: u32, inside: bool) -> (s: Self)
        ensures
            s@.enabled == enabled,
            s@.stop_on_exit == stop_on_exit,
            s@.target_laps == target_laps,
            s@.gates == gates@,
            s@.checkpoints == checkpoint_ids(gates@),
            s@.next == 0,
            !s@.started,
            !s@.lap_armed,
            !s@.invalid_lap,
            s@.lap == 0,
            !s@.finished,
            s@.inside == inside,
            s@.exited == !inside,
            s@.events == (if inside {
                Seq::<RaceEvent>::empty()
            } else {
                seq![RaceEvent { t_us: 0, kind: RaceEventKind::ExitedArea, gate_id: None, lap: 0 }]
            }),
            race_wf(s@),
    {
        let mut checkpoints: Vec<String> = Vec::new();
        let mut i: usize = 0;
        while i < gates.len()
            invariant
                i <= gates.len(),
                checkpoints@ == checkpoint_ids(gates@.take(i as int)),
            decreases gates.len() - i,
        {
            proof {
                assert(gates@.take(i + 1).drop_last() =~= gates@.take(i as int));
            }
            if gates[i].kind == GateKind::Checkpoint {
                checkpoints.push(gates[i].id.clone());
            }
            i = i + 1;
        }
        proof {
            assert(gates@.take(gates.len() as int) =~= gates@);
        }
        let mut s = RaceCore {
            enabled,
            stop_on_exit,
            target_laps,
            gates,
            checkpoints,
            next: 0,
            started: false,
            lap_armed: false,
            invalid_lap: false,
            lap: 0,
            finished: false,
            inside,
            exited: !inside,
            events: Vec::new(),
        };
        if !inside {
            s.emit(0, RaceEventKind::ExitedArea, None);
            proof {
                assert(s.events@ =~= seq![RaceEvent { t_us: 0, kind: RaceEventKind::ExitedArea, gate_id: None, lap: 0 }]);
            }
        }
        s
    }

    fn emit(&mut self, t_us: u64, kind: RaceEventKind, id: Option<String>)
        ensures
            final(self)@ == with_event(old(self)@, t_us, kind, id),
    {
        let lap = self.lap;
        self.events.push(RaceEvent { t_us, kind, gate_id: id, lap });
    }

    fn update(&mut self, inside: bool, t_us: u64, crossings: &Vec<GateCrossing>)
        requires
            race_wf(old(self)@),
            crossings_valid(old(self)@.gates, crossings@),
        ensures
            final(self)@ == update_step(old(self)@, inside, t_us, crossings@),
            race_wf(final(self)@),
    {
        let ghost before = self@;
        if inside != self.inside {
            self.inside = inside;
            if !inside {
                self.exited = true;
            }
            self.emit(t_us, if inside { RaceEventKind::EnteredArea } else { RaceEventKind::ExitedArea }, None);
        }
        if !self.enabled || self.finished {
            return;
        }
        let ghost start = self@;
        let ghost target = crossings_step(start, crossings@, t_us);
        assert(start == area_step(before, inside, t_us));
        assert(crossings@.skip(0) =~= crossings@);
        assert(target == update_step(before, inside, t_us, crossings@));
        let mut i: usize = 0;
        while i < crossings.len()
            invariant
                i <= crossings.len(),
                race_wf(self@),
                !self@.finished,
                self@.gates == start.gates,
                crossings_valid(start.gates, crossings@),
                crossings_step(self@, crossings@.skip(i as int), t_us) == target,
                target == update_step(before, inside, t_us, crossings@),
                before == old(self)@,
            decreases crossings.len() - i,
        {
            let c = crossings[i];
            proof {
                assert(crossings@[i as int].gate < start.gates.len());
                assert(crossings@.skip(i as int).drop_first() =~= crossings@.skip(i + 1));
                assert(crossings@.skip(i as int)[0] == c);
                lemma_crossing_step_wf(self@, c, t_us);
            }
            self.apply_crossing(c, t_us);
            i = i + 1;
            if self.finished {
                proof {
                    assert(crossings_step(self@, crossings@.skip(i as int), t_us) == self@);
                }
                return;
            }
        }
        proof {
            assert(crossings@.skip(i as int).len() == 0);
        }
    }

    fn apply_crossing(&mut self, c: GateCrossing, t_us: u64)
        requires
            race_wf(old(self)@),
            !old(self)@.finished,
            c.gate < old(self)@.gates.len(),
        ensures
            final(self)@ == crossing_step(old(self)@, c, t_us),
    {
        let ghost s = self@;
        let id = self.gates[c.gate].id.clone();
        let kind = self.gates[c.gate].kind;
        if !c.forward {
            self.emit(t_us, RaceEventKind::ReverseCrossing, Some(id));
            return;
        }
        match kind {
            GateKind::Start => {
                if !self.lap_armed {
                    self.started = true;
                    self.lap_armed = true;
                    self.next = 0;
                    self.invalid_lap = false;
                    self.emit(t_us, RaceEventKind::Started, Some(id));
                }
            },
            GateKind::Checkpoint => {
                if self.started && self.lap_armed {
                    let matches = self.next < self.checkpoints.len()
                        && self.checkpoints[self.next] == id;
                    if matches {
                        self.next = self.next + 1;
                        self.emit(t_us, RaceEventKind::Checkpoint, Some(id));
                    } else {
                        self.invalid_lap = true;
                        self.emit(t_us, RaceEventKind::WrongSequence, Some(id));
                    }
                }
            },
            GateKind::Finish => {
                if self.started && self.lap_armed {
                    if self.next == self.checkpoints.len() && !self.invalid_lap {
                        self.lap = self.lap + 1;
                        self.emit(t_us, RaceEventKind::Lap, Some(id.clone()));
                        if self.lap >= self.target_laps {
                            self.finished = true;
                            self.emit(t_us, RaceEventKind::Finished, Some(id));
                            return;
                        }
                    } else {
                        self.emit(t_us, RaceEventKind::WrongSequence, Some(id));
                    }
                    self.next = 0;
                    self.invalid_lap = false;
                    self.lap_armed = false;
                }
            },
        }
    }
}

proof fn lemma_single_update(s: RaceView, t: u64, c: GateCrossing)
    requires
        s.enabled,
        !s.finished,
    ensures
        update_step(s, s.inside, t, seq![c]) == crossing_step(s, c, t),
{
    assert(seq![c].drop_first() =~= Seq::<GateCrossing>::empty());
    assert(seq![c][0] == c);
    let r = crossing_step(s, c, t);
    assert(crossings_step(r, Seq::<GateCrossing>::empty(), t) == r);
}

/// A one-lap race run cleanly: in an enabled race with one lap to run and a
/// single checkpoint, that is not yet under way, three movements that do
/// not change the area and cross the start gate, then the checkpoint, then
/// a finish gate, all forward, record exactly Started, Checkpoint, Lap and
/// Finished, in that order, count one lap, finish the race, and leave the
/// run to stop because the race is finished (unless the robot had left the
/// area with exits stopping the run).
pub proof fn lemma_one_lap_race_events(
    s: RaceView,
    start: usize,
    check: usize,
    finish: usize,
    t1: u64,
    t2: u64,
    t3: u64,
)
    requires
        race_wf(s),
        s.enabled,
        !s.finished,
        !s.lap_armed,
        s.target_laps == 1,
        start < s.gates.len(),
        check < s.gates.len(),
        finish < s.gates.len(),
        s.gates[start as int].kind == GateKind::Start,
        s.gates[check as int].kind == GateKind::Checkpoint,
        s.gates[finish as int].kind == GateKind::Finish,
        s.checkpoints.len() == 1,
        s.checkpoints[0]@ == s.gates[check as int].id@,
    ensures
        ({
            let s1 = update_step(s, s.inside, t1, forward_only(start));
            let s2 = update_step(s1, s.inside, t2, forward_only(check));
            let s3 = update_step(s2, s.inside, t3, forward_only(finish));
            &&& s3.events == s.events + seq![
                gate_event(t1, RaceEventKind::Started, s.gates[start as int], 0),
                gate_event(t2, RaceEventKind::Checkpoint, s.gates[check as int], 0),
                gate_event(t3, RaceEventKind::Lap, s.gates[finish as int], 1),
                gate_event(t3, RaceEventKind::Finished, s.gates[finish as int], 1),
            ]
            &&& s3.lap == 1
            &&& s3.finished
            &&& !(s.stop_on_exit && s.exited) ==> termination_of(s3) == Some("race_finished"@)
        }),
{
    let s1 = update_step(s, s.inside, t1, forward_only(start));
    lemma_single_update(s, t1, GateCrossing { gate: start, forward: true });
    assert(s1.started && s1.lap_armed && s1.next == 0 && !s1.invalid_lap && s1.lap == 0);
    let s2 = update_step(s1, s.inside, t2, forward_only(check));
    lemma_single_update(s1, t2, GateCrossing { gate: check, forward: true });
    assert(s2.next == 1 && !s2.invalid_lap && s2.lap_armed && s2.started);
    let s3 = update_step(s2, s.inside, t3, forward_only(finish));
    lemma_single_update(s2, t3, GateCrossing { gate: finish, forward: true });
    assert(s3.events =~= s.events + seq![
        gate_event(t1, RaceEventKind::Started, s.gates[start as int], 0),
        gate_event(t2, RaceEventKind::Checkpoint, s.gates[check as int], 0),
        gate_event(t3, RaceEventKind::Lap, s.gates[finish as int], 1),
        gate_event(t3, RaceEventKind::Finished, s.gates[finish as int], 1),
    ]);
}

/// A skipped checkpoint spoils the lap: in an enabled race that is not yet
/// under way and has checkpoints, crossing the start gate and then a finish
/// gate forward records Started and then WrongSequence, and counts no lap.
pub proof fn lemma_skipped_checkpoint_counts_no_lap(
    s: RaceView,
    start: usize,
    finish: usize,
    t1: u64,
    t2: u64,
)
    requires
        race_wf(s),
        s.enabled,
        !s.finished,
        !s.lap_armed,
        start < s.gates.len(),
        finish < s.gates.len(),
        s.gates[start as int].kind == GateKind::Start,
        s.gates[finish as int].kind == GateKind::Finish,
        s.checkpoints.len() > 0,
    ensures
        ({
            let s1 = update_step(s, s.inside, t1, forward_only(start));
            let s2 = update_step(s1, s.inside, t2, forward_only(finish));
            &&& s2.events == s.events + seq![
                gate_event(t1, RaceEventKind::Started, s.gates[start as int], s.lap),
                gate_event(t2, RaceEventKind::WrongSequence, s.gates[finish as int], s.lap),
            ]
            &&& s2.lap == s.lap
            &&& !s2.finished
        }),
{
    let s1 = update_step(s, s.inside, t1, forward_only(start));
    lemma_single_update(s, t1, GateCrossing { gate: start, forward: true });
    let s2 = update_step(s1, s.inside, t2, forward_only(finish));
    lemma_single_update(s1, t2, GateCrossing { gate: finish, forward: true });
    assert(s2.events =~= s.events + seq![
        gate_event(t1, RaceEventKind::Started, s.gates[start as int], s.lap),
        gate_event(t2, RaceEventKind::WrongSequence, s.gates[finish as int], s.lap),
    ]);
}

impl Clone for RaceState {
    /// A copy of the race.
    fn clone(&self) -> (r: Self)
        ensures
            r@ == self@,
    {
        proof {
            use_type_invariant(self);
        }
        let c = &self.core;
        let r = RaceState {
            core: RaceCore {
                enabled: c.enabled,
                stop_on_exit: c.stop_on_exit,
                target_laps: c.target_laps,
                gates: c.gates.clone(),
                checkpoints: c.checkpoints.clone(),
                next: c.next,
                started: c.started,
                lap_armed: c.lap_armed,
                invalid_lap: c.invalid_lap,
                lap: c.lap,
                finished: c.finished,
                inside: c.inside,
                exited: c.exited,
                events: c.events.clone(),
            },
        };
        proof {
            assert(r.core.gates@ =~= c.gates@);
            assert(r.core.checkpoints@ =~= c.checkpoints@);
            assert(r.core.events@ =~= c.events@);
        }
        r
    }
}

impl RaceState {
    #[verifier::type_invariant]
    spec fn inv(self) -> bool {
        race_wf(self.core@)
    }

    /// A race over `gates` (in track order), with `target_laps` laps to run.
    /// A robot that starts outside the allowed area is recorded as having
    /// left it at time zero.
    pub fn new(gates: Vec<RaceGate>, enabled: bool, stop_on_exit: bool, target_laps: u32, inside: bool) -> (s: Self)
        ensures
            s@.enabled == enabled,
            s@.stop_on_exit == stop_on_exit,
            s@.target_laps == target_laps,
            s@.gates == gates@,
            s@.checkpoints == checkpoint_ids(gates@),
            s@.next == 0,
            !s@.started,
            !s@.lap_armed,
            !s@.invalid_lap,
            s@.lap == 0,
            !s@.finished,
            s@.inside == inside,
            s@.exited == !inside,
            s@.events == (if inside {
                Seq::<RaceEvent>::empty()
            } else {
                seq![RaceEvent { t_us: 0, kind: RaceEventKind::ExitedArea, gate_id: None, lap: 0 }]
            }),
            race_wf(s@),
    {
        RaceState { core: RaceCore::new(gates, enabled, stop_on_exit, target_laps, inside) }
    }

    /// The race's gates, in track order.
    pub fn gates(&self) -> (r: &[RaceGate])
        ensures
            r@ == self@.gates,
    {
        self.core.gates.as_slice()
    }

    /// The events recorded so far, oldest first.
    pub fn events(&self) -> (r: &[RaceEvent])
        ensures
            r@ == self@.events,
    {
        self.core.events.as_slice()
    }

    /// Completed laps.
    pub fn laps(&self) -> (r: u32)
        ensures
            r == self@.lap,
    {
        self.core.lap
    }

    /// Whether the start gate has been crossed.
    pub fn started(&self) -> (r: bool)
        ensures
            r == self@.started,
    {
        self.core.started
    }

    /// Why the run should stop, if it should: the robot left the area while
    /// exits stop the run, or an enabled race was finished.
    pub fn termination(&self) -> (r: Option<&'static str>)
        ensures
            (match r {
                Some(m) => Some(m@),
                None => None,
            }) == termination_of(self@),
    {
        if self.core.stop_on_exit && self.core.exited {
            Some("area_exit")
        } else if self.core.enabled && self.core.finished {
            Some("race_finished")
        } else {
            None
        }
    }

    /// Records one movement of the robot: whether it ends inside the allowed
    /// area, and the gates it crossed, in the order they were crossed.
    pub fn update(&mut self, inside: bool, t_us: u64, crossings: &Vec<GateCrossing>)
        requires
            crossings_valid(old(self)@.gates, crossings@),
        ensures
            final(self)@ == update_step(old(self)@, inside, t_us, crossings@),
            race_wf(final(self)@),
    {
        proof {
            use_type_invariant(&*self);
        }
        let mut core = RaceCore::new(Vec::new(), false, false, 0, true);
        std::mem::swap(&mut core, &mut self.core);
        core.update(inside, t_us, crossings);
        self.core = core;
    }
}

} // verus!
