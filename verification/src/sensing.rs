//! Acquisition timing of optical sensors: every optical setting must name a
//! sensor, sit on the physics grid and fit its period, and sensors sharing a
//! multiplexer group must use the same period with disjoint conversion
//! slots.
use vstd::prelude::*;
use crate::sim::TimeConfig;

verus! {

/// The timing of one optical sensor, in integer microseconds, as configured
/// for the sensor `id`. A period of zero means the run's sensor period.
/// `response_valid` says whether the sensor's filter constant, threshold and
/// hysteresis are in range.
#[derive(Debug)]
pub struct OpticalTiming {
    pub id: String,
    pub period_us: u64,
    pub phase_us: u64,
    pub mux_group: u32,
    pub conversion_us: u64,
    pub latency_us: u64,
    pub area_samples: u32,
    pub response_valid: bool,
}

impl Clone for OpticalTiming {
    fn clone(&self) -> (r: Self)
        ensures
            r == *self,
    {
        OpticalTiming {
            id: self.id.clone(),
            period_us: self.period_us,
            phase_us: self.phase_us,
            mux_group: self.mux_group,
            conversion_us: self.conversion_us,
            latency_us: self.latency_us,
            area_samples: self.area_samples,
            response_valid: self.response_valid,
        }
    }
}

/// A sensor mounted on the robot.
#[derive(Debug, Clone)]
pub struct SensorPresence {
    pub id: String,
    pub enabled: bool,
}

/// The period of a setting.
pub open spec fn period_of(a: OpticalTiming, time: TimeConfig) -> u64 {
    if a.period_us == 0 {
        time.sensor_period_us
    } else {
        a.period_us
    }
}

/// Whether `n` lies on the physics grid.
pub open spec fn on_grid(n: u64, time: TimeConfig) -> bool {
    n % time.physics_dt_us == 0
}

/// Whether some mounted sensor has this id (`enabled_only`: and is enabled).
pub open spec fn has_sensor(sensors: Seq<SensorPresence>, id: Seq<char>, enabled_only: bool) -> bool {
    exists|i: int| 0 <= i < sensors.len() && (#[trigger] sensors[i]).id@ == id && (!enabled_only || sensors[i].enabled)
}

/// Whether a setting's timing is unusable.
pub open spec fn timing_invalid(a: OpticalTiming, time: TimeConfig) -> bool {
    let period = period_of(a, time);
    ||| !on_grid(period, time)
    ||| !on_grid(a.phase_us, time)
    ||| !on_grid(a.conversion_us, time)
    ||| !on_grid(a.latency_us, time)
    ||| a.phase_us >= period
    ||| a.conversion_us > period
    ||| a.conversion_us + a.latency_us > u64::MAX
    ||| a.latency_us / period > 10000
    ||| !(1 <= a.area_samples <= 64)
    ||| !a.response_valid
}

/// The complaint about one setting, if any.
pub open spec fn setting_error(a: OpticalTiming, sensors: Seq<SensorPresence>, time: TimeConfig) -> Option<Seq<char>> {
    if !has_sensor(sensors, a.id@, false) {
        Some("unknown optical ID "@ + a.id@)
    } else if timing_invalid(a, time) {
        Some("invalid optical timing/response for "@ + a.id@)
    } else {
        None
    }
}

/// The complaint about the first faulty setting.
pub open spec fn first_setting_error(es: Seq<OpticalTiming>, sensors: Seq<SensorPresence>, time: TimeConfig) -> Option<Seq<char>>
    decreases es.len(),
{
    if es.len() == 0 {
        None
    } else {
        match first_setting_error(es.drop_last(), sensors, time) {
            Some(m) => Some(m),
            None => setting_error(es.last(), sensors, time),
        }
    }
}

/// The settings that take part in multiplexing: a nonzero group and an
/// enabled sensor.
pub open spec fn multiplexed(es: Seq<OpticalTiming>, sensors: Seq<SensorPresence>) -> Seq<OpticalTiming>
    decreases es.len(),
{
    if es.len() == 0 {
        Seq::empty()
    } else {
        let rest = multiplexed(es.drop_last(), sensors);
        let a = es.last();
        if a.mux_group > 0 && has_sensor(sensors, a.id@, true) {
            rest.push(a)
        } else {
            rest
        }
    }
}

/// Whether a multiplexed conversion does not fit in its slot.
pub open spec fn slot_invalid(a: OpticalTiming, time: TimeConfig) -> bool {
    a.conversion_us == 0 || a.phase_us + a.conversion_us > u64::MAX || a.phase_us + a.conversion_us
        > period_of(a, time)
}

/// `x + y`, saturated at `u64::MAX`.
pub open spec fn saturating(x: u64, y: u64) -> int {
    if x + y > u64::MAX {
        u64::MAX as int
    } else {
        x + y
    }
}

/// Whether two settings of one group clash: different periods or
/// overlapping conversion slots.
pub open spec fn clash(a: OpticalTiming, b: OpticalTiming, time: TimeConfig) -> bool {
    a.mux_group == b.mux_group && (period_of(a, time) != period_of(b, time) || (a.phase_us
        < saturating(b.phase_us, b.conversion_us) && b.phase_us < saturating(
        a.phase_us,
        a.conversion_us,
    )))
}

/// The first clash of setting `i` with a later setting from `j` on.
pub open spec fn clash_from(act: Seq<OpticalTiming>, i: int, j: int, time: TimeConfig) -> Option<Seq<char>>
    decreases act.len() - j,
{
    if j < 0 || j >= act.len() {
        None
    } else if clash(act[i], act[j], time) {
        Some("multiplexer slots overlap or periods differ: "@ + act[i].id@ + ", "@ + act[j].id@)
    } else {
        clash_from(act, i, j + 1, time)
    }
}

/// The first multiplexing complaint from setting `i` on: for each setting
/// in turn, its slot, then its clashes with the settings after it.
pub open spec fn mux_error_from(act: Seq<OpticalTiming>, i: int, time: TimeConfig) -> Option<Seq<char>>
    decreases act.len() - i,
{
    if i < 0 || i >= act.len() {
        None
    } else if slot_invalid(act[i], time) {
        Some("multiplexer "@ + act[i].id@ + ": conversion must fit its slot"@)
    } else {
        match clash_from(act, i, i + 1, time) {
            Some(m) => Some(m),
            None => mux_error_from(act, i + 1, time),
        }
    }
}

/// The complaint about the optical settings, if any: first a faulty
/// setting, then a multiplexing conflict.
pub open spec fn optical_error(es: Seq<OpticalTiming>, sensors: Seq<SensorPresence>, time: TimeConfig) -> Option<Seq<char>> {
    match first_setting_error(es, sensors, time) {
        Some(m) => Some(m),
        None => mux_error_from(multiplexed(es, sensors), 0, time),
    }
}

/// Whether text `a` sorts strictly before text `b`, character by character,
/// as the configuration's ordered map of optical settings sorts its keys.
pub open spec fn text_before(a: Seq<char>, b: Seq<char>) -> bool
    decreases a.len(),
{
    if a.len() == 0 {
        b.len() > 0
    } else if b.len() == 0 {
        false
    } else if a[0] != b[0] {
        (a[0] as u32) < (b[0] as u32)
    } else {
        text_before(a.drop_first(), b.drop_first())
    }
}

/// The optical settings come in strictly increasing order of their sensor
/// ids, each id at most once.
pub open spec fn ids_in_order(es: Seq<OpticalTiming>) -> bool {
    forall|i: int, j: int| 0 <= i < j < es.len() ==> text_before(#[trigger] es[i].id@, #[trigger] es[j].id@)
}

/// The inputs on which the optical check would divide by a zero physics
/// step: the step is zero and the first setting names a mounted sensor, so
/// that its timing is tested against the grid.
pub open spec fn optical_divides_by_zero(es: Seq<OpticalTiming>, sensors: Seq<SensorPresence>, time: TimeConfig) -> bool {
    time.physics_dt_us == 0 && es.len() > 0 && has_sensor(sensors, es[0].id@, false)
}

proof fn lemma_clash_from_none(act: Seq<OpticalTiming>, i: int, j: int, time: TimeConfig)
    requires
        0 <= i < act.len(),
        0 <= j,
        clash_from(act, i, j, time) is None,
    ensures
        forall|k: int| j <= k < act.len() ==> !clash(act[i], #[trigger] act[k], time),
    decreases act.len() - j,
{
    if j < act.len() {
        lemma_clash_from_none(act, i, j + 1, time);
    }
}

proof fn lemma_mux_from_none(act: Seq<OpticalTiming>, i: int, time: TimeConfig)
    requires
        0 <= i,
        mux_error_from(act, i, time) is None,
    ensures
        forall|a: int| i <= a < act.len() ==> !slot_invalid(#[trigger] act[a], time),
        forall|a: int, b: int| i <= a < b < act.len() ==> !clash(#[trigger] act[a], #[trigger] act[b], time),
    decreases act.len() - i,
{
    if i < act.len() {
        lemma_clash_from_none(act, i, i + 1, time);
        lemma_mux_from_none(act, i + 1, time);
    }
}

/// Accepted settings never share a multiplexer slot: whenever the optical
/// settings pass the check, any two multiplexed sensors of the same group
/// use the same period, and their conversion windows `[phase, phase +
/// conversion)` are disjoint and lie within that period.
pub proof fn lemma_accepted_slots_disjoint(es: Seq<OpticalTiming>, sensors: Seq<SensorPresence>, time: TimeConfig)
    requires
        optical_error(es, sensors, time) is None,
    ensures
        forall|a: int|
            0 <= a < multiplexed(es, sensors).len() ==> {
                let x = #[trigger] multiplexed(es, sensors)[a];
                x.conversion_us > 0 && x.phase_us + x.conversion_us <= period_of(x, time)
            },
        forall|a: int, b: int|
            0 <= a < b < multiplexed(es, sensors).len() && (#[trigger] multiplexed(es, sensors)[a]).mux_group
                == (#[trigger] multiplexed(es, sensors)[b]).mux_group ==> {
                let x = multiplexed(es, sensors)[a];
                let y = multiplexed(es, sensors)[b];
                &&& period_of(x, time) == period_of(y, time)
                &&& (x.phase_us + x.conversion_us <= y.phase_us || y.phase_us + y.conversion_us <= x.phase_us)
            },
{
    let act = multiplexed(es, sensors);
    lemma_mux_from_none(act, 0, time);
    assert forall|a: int, b: int|
        0 <= a < b < act.len() && (#[trigger] act[a]).mux_group == (#[trigger] act[b]).mux_group implies {
            &&& period_of(act[a], time) == period_of(act[b], time)
            &&& (act[a].phase_us + act[a].conversion_us <= act[b].phase_us || act[b].phase_us
                + act[b].conversion_us <= act[a].phase_us)
        } by {
        assert(!clash(act[a], act[b], time));
        assert(!slot_invalid(act[a], time));
        assert(!slot_invalid(act[b], time));
    }
}

fn find_sensor(sensors: &Vec<SensorPresence>, id: &String, enabled_only: bool) -> (r: bool)
    ensures
        r == has_sensor(sensors@, id@, enabled_only),
{
    let mut i: usize = 0;
    while i < sensors.len()
        invariant
            i <= sensors.len(),
            forall|k: int| 0 <= k < i ==> !((#[trigger] sensors@[k]).id@ == id@ && (!enabled_only || sensors@[k].enabled)),
        decreases sensors.len() - i,
    {
        if sensors[i].id == *id && (!enabled_only || sensors[i].enabled) {
            assert(sensors@[i as int].id@ == id@);
            return true;
        }
        i = i + 1;
    }
    false
}

fn period(a: &OpticalTiming, time: TimeConfig) -> (r: u64)
    ensures
        r == period_of(*a, time),
{
    if a.period_us == 0 {
        time.sensor_period_us
    } else {
        a.period_us
    }
}

fn message(prefix: &str, id: &String, suffix: &str) -> (r: String)
    ensures
        r@ == prefix@ + id@ + suffix@,
{
    let mut s = prefix.to_owned();
    s.append(id.as_str());
    s.append(suffix);
    s
}

fn check_setting(a: &OpticalTiming, sensors: &Vec<SensorPresence>, time: TimeConfig) -> (r: Result<(), String>)
    requires
        time.physics_dt_us > 0 || !has_sensor(sensors@, a.id@, false),
    ensures
        r is Ok <==> setting_error(*a, sensors@, time) is None,
        r matches Err(e) ==> setting_error(*a, sensors@, time) == Some(e@),
{
    proof {
        reveal_strlit("");
    }
    if !find_sensor(sensors, &a.id, false) {
        return Err(message("unknown optical ID ", &a.id, ""));
    }
    let p = period(a, time);
    let dt = time.physics_dt_us;
    let bad = p % dt != 0 || a.phase_us % dt != 0 || a.conversion_us % dt != 0 || a.latency_us % dt
        != 0 || a.phase_us >= p || a.conversion_us > p || a.conversion_us.checked_add(a.latency_us).is_none()
        || a.latency_us / p > 10000 || !(1 <= a.area_samples && a.area_samples <= 64)
        || !a.response_valid;
    if bad {
        return Err(message("invalid optical timing/response for ", &a.id, ""));
    }
    proof {
        reveal_strlit("");
    }
    Ok(())
}

fn saturating_sum(x: u64, y: u64) -> (r: u64)
    ensures
        r == saturating(x, y),
{
    x.saturating_add(y)
}

/// Checks the optical acquisition settings (`optical`, in the order of
/// their sensor ids) against the mounted `sensors` and the run's timing:
/// each setting must name a mounted sensor and have usable timing, and the
/// settings that share a multiplexer group must use the same period with
/// disjoint conversion slots. The first complaint is returned.
pub fn validate_optical(optical: &Vec<OpticalTiming>, sensors: &Vec<SensorPresence>, time: TimeConfig) -> (r: Result<(), String>)
    requires
        ids_in_order(optical@),
        !optical_divides_by_zero(optical@, sensors@, time),
    ensures
        r is Ok <==> optical_error(optical@, sensors@, time) is None,
        r matches Err(e) ==> optical_error(optical@, sensors@, time) == Some(e@),
{
    let mut i: usize = 0;
    while i < optical.len()
        invariant
            i <= optical.len(),
            i > 0 ==> time.physics_dt_us > 0,
            !optical_divides_by_zero(optical@, sensors@, time),
            first_setting_error(optical@.take(i as int), sensors@, time) is None,
        decreases optical.len() - i,
    {
        proof {
            assert(optical@.take(i + 1).drop_last() =~= optical@.take(i as int));
        }
        match check_setting(&optical[i], sensors, time) {
            Ok(()) => {},
            Err(e) => {
                proof {
                    lemma_first_error_prefix(optical@, sensors@, time, i + 1);
                }
                return Err(e);
            },
        }
        i = i + 1;
    }
    assert(optical@.take(optical.len() as int) =~= optical@);
    let mut active: Vec<OpticalTiming> = Vec::new();
    let mut k: usize = 0;
    while k < optical.len()
        invariant
            k <= optical.len(),
            active@ == multiplexed(optical@.take(k as int), sensors@),
        decreases optical.len() - k,
    {
        proof {
            assert(optical@.take(k + 1).drop_last() =~= optical@.take(k as int));
        }
        if optical[k].mux_group > 0 && find_sensor(sensors, &optical[k].id, true) {
            active.push(optical[k].clone());
        }
        k = k + 1;
    }
    assert(optical@.take(optical.len() as int) =~= optical@);
    let ghost act = active@;
    let mut a: usize = 0;
    while a < active.len()
        invariant
            a <= active.len(),
            act == active@,
            mux_error_from(act, 0, time) == mux_error_from(act, a as int, time),
            first_setting_error(optical@, sensors@, time) is None,
            act == multiplexed(optical@, sensors@),
        decreases active.len() - a,
    {
        let x = &active[a];
        let px = period(x, time);
        let fits = x.conversion_us != 0 && match x.phase_us.checked_add(x.conversion_us) {
            Some(end) => end <= px,
            None => false,
        };
        assert(*x == act[a as int]);
        if !fits {
            assert(slot_invalid(act[a as int], time));
            return Err(message("multiplexer ", &x.id, ": conversion must fit its slot"));
        }
        assert(!slot_invalid(act[a as int], time));
        let mut b: usize = a + 1;
        while b < active.len()
            invariant
                a < b <= active.len(),
                act == active@,
                clash_from(act, a as int, a + 1, time) == clash_from(act, a as int, b as int, time),
                mux_error_from(act, 0, time) == mux_error_from(act, a as int, time),
                !slot_invalid(act[a as int], time),
                *x == act[a as int],
                px == period_of(*x, time),
                first_setting_error(optical@, sensors@, time) is None,
                act == multiplexed(optical@, sensors@),
            decreases active.len() - b,
        {
            let y = &active[b];
            assert(*y == act[b as int]);
            if x.mux_group == y.mux_group {
                let py = period(y, time);
                if px != py || (x.phase_us < saturating_sum(y.phase_us, y.conversion_us) && y.phase_us
                    < saturating_sum(x.phase_us, x.conversion_us)) {
                    let mut e = message("multiplexer slots overlap or periods differ: ", &x.id, ", ");
                    e.append(y.id.as_str());
                    return Err(e);
                }
            }
            b = b + 1;
        }
        assert(clash_from(act, a as int, b as int, time) is None);
        a = a + 1;
    }
    Ok(())
}

proof fn lemma_first_error_prefix(es: Seq<OpticalTiming>, sensors: Seq<SensorPresence>, time: TimeConfig, k: int)
    requires
        0 <= k <= es.len(),
        first_setting_error(es.take(k), sensors, time) is Some,
    ensures
        first_setting_error(es, sensors, time) == first_setting_error(es.take(k), sensors, time),
    decreases es.len() - k,
{
    if k < es.len() {
        assert(es.take(k + 1).drop_last() =~= es.take(k));
        lemma_first_error_prefix(es, sensors, time, k + 1);
    } else {
        assert(es.take(k) =~= es);
    }
}


/// What validation reads of the encoder settings: the quadrature factor,
/// the latency, the encoder's ticks per revolution, and whether the shaft
/// ratio (in `(0, 10000]`), the loss probability and the filter constant
/// are in range.
#[derive(Debug, Clone, Copy)]
pub struct EncoderCheck {
    pub quadrature: u32,
    pub latency_us: u64,
    pub ticks_per_rev: u32,
    pub ratio_valid: bool,
    pub response_valid: bool,
}

/// What validation reads of the IMU settings: the latency, and whether the
/// filter constant, drift, noise and acceleration limit are in range.
#[derive(Debug, Clone, Copy)]
pub struct ImuCheck {
    pub latency_us: u64,
    pub values_valid: bool,
}

/// What validation reads of the control settings: the integer switches and
/// counts, and whether the gains, limits and fractions are in range.
#[derive(Debug, Clone, Copy)]
pub struct ControlCheck {
    pub speed_mode: u32,
    pub profile_enabled: u32,
    pub mark_min_channels: u32,
    pub values_valid: bool,
}

/// What validation reads of a sensing configuration. `replay` is `None`
/// without a replay file, else the outcome of reading it: an error, or
/// whether the replayed commands need a coupled powertrain. `all_finite`
/// says whether every numeric setting is finite.
#[derive(Debug, Clone)]
pub struct SensingCheck {
    pub replay: Option<Result<bool, String>>,
    pub has_powertrain: bool,
    pub optical: Vec<OpticalTiming>,
    pub sensors: Vec<SensorPresence>,
    pub encoder: EncoderCheck,
    pub imu: ImuCheck,
    pub control: ControlCheck,
    pub all_finite: bool,
}

/// Whether the encoder's ratio, quadrature, tick count or response are
/// unusable, whatever the run's timing.
pub open spec fn encoder_values_invalid(e: EncoderCheck) -> bool {
    ||| !e.ratio_valid
    ||| !(e.quadrature == 1 || e.quadrature == 2 || e.quadrature == 4)
    ||| e.ticks_per_rev * e.quadrature > u32::MAX
    ||| !e.response_valid
}

/// Whether the encoder settings are unusable.
pub open spec fn encoder_invalid(e: EncoderCheck, time: TimeConfig) -> bool {
    ||| encoder_values_invalid(e)
    ||| !on_grid(e.latency_us, time)
    ||| e.latency_us / time.encoder_period_us > 10000
}

/// Whether the IMU settings are unusable.
pub open spec fn imu_invalid(i: ImuCheck, time: TimeConfig) -> bool {
    !on_grid(i.latency_us, time) || i.latency_us / time.imu_period_us > 10000 || !i.values_valid
}

/// Whether the control settings are unusable.
pub open spec fn control_invalid(c: ControlCheck) -> bool {
    c.speed_mode > 1 || c.profile_enabled > 1 || (c.profile_enabled == 1 && c.speed_mode != 1)
        || c.mark_min_channels == 0 || !c.values_valid
}

/// The complaint about a sensing configuration, if any, in the order of
/// the checks: replay, optical settings, encoder, IMU, control, finiteness.
pub open spec fn sensing_error(c: SensingCheck, time: TimeConfig) -> Option<Seq<char>> {
    match c.replay {
        Some(Err(e)) => Some(e@),
        _ => if (c.replay matches Some(Ok(needs)) && needs) && !c.has_powertrain {
            Some("brake/coast replay requires coupled powertrain"@)
        } else if optical_error(c.optical@, c.sensors@, time) is Some {
            optical_error(c.optical@, c.sensors@, time)
        } else if encoder_invalid(c.encoder, time) {
            Some("invalid encoder settings"@)
        } else if imu_invalid(c.imu, time) {
            Some("invalid IMU settings"@)
        } else if control_invalid(c.control) {
            Some("invalid control settings"@)
        } else if !c.all_finite {
            Some("non-finite sensing setting"@)
        } else {
            None
        },
    }
}

/// Whether the replay part of the check lets the rest run.
pub open spec fn replay_passes(c: SensingCheck) -> bool {
    !(c.replay matches Some(Err(_))) && !((c.replay matches Some(Ok(needs)) && needs) && !c.has_powertrain)
}

/// The inputs on which the sensing check would divide by a zero period: in
/// the optical settings; in the encoder's grid test (a zero physics step)
/// or latency test (a zero encoder period); or in the IMU's latency test (a
/// zero IMU period), each reached only when the checks before it passed.
pub open spec fn sensing_divides_by_zero(c: SensingCheck, time: TimeConfig) -> bool {
    &&& replay_passes(c)
    &&& {
        ||| optical_divides_by_zero(c.optical@, c.sensors@, time)
        ||| optical_error(c.optical@, c.sensors@, time) is None && !encoder_values_invalid(c.encoder) && (
            time.physics_dt_us == 0 || (on_grid(c.encoder.latency_us, time) && time.encoder_period_us == 0))
        ||| optical_error(c.optical@, c.sensors@, time) is None && !encoder_invalid(c.encoder, time)
            && time.imu_period_us == 0 && on_grid(c.imu.latency_us, time)
    }
}

/// Checks a sensing configuration (see `sensing_error`).
pub fn validate_sensing(c: &SensingCheck, time: TimeConfig) -> (r: Result<(), String>)
    requires
        ids_in_order(c.optical@),
        !sensing_divides_by_zero(*c, time),
    ensures
        r is Ok <==> sensing_error(*c, time) is None,
        r matches Err(e) ==> sensing_error(*c, time) == Some(e@),
{
    match &c.replay {
        Some(Err(e)) => {
            return Err(e.clone());
        },
        Some(Ok(needs)) => {
            if *needs && !c.has_powertrain {
                return Err("brake/coast replay requires coupled powertrain".to_owned());
            }
        },
        None => {},
    }
    validate_optical(&c.optical, &c.sensors, time)?;
    let e = c.encoder;
    let dt = time.physics_dt_us;
    if !e.ratio_valid || !(e.quadrature == 1 || e.quadrature == 2 || e.quadrature == 4)
        || e.ticks_per_rev.checked_mul(e.quadrature).is_none() || !e.response_valid || e.latency_us
        % dt != 0 || e.latency_us / time.encoder_period_us > 10000 {
        return Err("invalid encoder settings".to_owned());
    }
    let i = c.imu;
    if i.latency_us % dt != 0 || i.latency_us / time.imu_period_us > 10000 || !i.values_valid {
        return Err("invalid IMU settings".to_owned());
    }
    let k = c.control;
    if k.speed_mode > 1 || k.profile_enabled > 1 || (k.profile_enabled == 1 && k.speed_mode != 1)
        || k.mark_min_channels == 0 || !k.values_valid {
        return Err("invalid control settings".to_owned());
    }
    if !c.all_finite {
        return Err("non-finite sensing setting".to_owned());
    }
    Ok(())
}

proof fn lemma_settings_pass(es: Seq<OpticalTiming>, sensors: Seq<SensorPresence>, time: TimeConfig)
    requires
        first_setting_error(es, sensors, time) is None,
    ensures
        forall|i: int| 0 <= i < es.len() ==> setting_error(#[trigger] es[i], sensors, time) is None,
    decreases es.len(),
{
    if es.len() > 0 {
        lemma_settings_pass(es.drop_last(), sensors, time);
        assert forall|i: int| 0 <= i < es.len() implies setting_error(#[trigger] es[i], sensors, time) is None by {
            if i < es.len() - 1 {
                assert(es.drop_last()[i] == es[i]);
            }
        }
    }
}

/// What every accepted sensing configuration satisfies, on every input the
/// check takes: the physics step and the encoder and IMU periods are
/// positive; a replay file was read, and needs a coupled powertrain only
/// where there is one; every optical setting names a mounted sensor, has
/// its period (its own, or the run's sensor period for zero), phase,
/// conversion and latency on the physics grid, its phase inside and its
/// conversion within the period, a latency of at most 10000 periods, 1 to
/// 64 area samples and a valid response; the encoder has a valid ratio and
/// response, a quadrature of 1, 2 or 4 whose product with the ticks per
/// revolution fits 32 bits, and a latency on the grid of at most 10000
/// encoder periods; the IMU latency lies on the physics grid and is at most
/// 10000 IMU periods, with valid IMU values; the control switches are 0 or
/// 1, profiles only in speed mode, at least one mark channel, valid control
/// values; every number is finite.
pub proof fn lemma_accepted_sensing(c: SensingCheck, time: TimeConfig)
    requires
        !sensing_divides_by_zero(c, time),
        sensing_error(c, time) is None,
    ensures
        time.physics_dt_us > 0,
        time.encoder_period_us > 0,
        time.imu_period_us > 0,
        c.replay matches Some(r) ==> (r matches Ok(needs) && (needs ==> c.has_powertrain)),
        forall|i: int|
            0 <= i < c.optical@.len() ==> {
                let a = #[trigger] c.optical@[i];
                let period = if a.period_us == 0 { time.sensor_period_us } else { a.period_us };
                &&& exists|j: int| 0 <= j < c.sensors@.len() && (#[trigger] c.sensors@[j]).id@ == a.id@
                &&& period % time.physics_dt_us == 0
                &&& a.phase_us % time.physics_dt_us == 0
                &&& a.conversion_us % time.physics_dt_us == 0
                &&& a.latency_us % time.physics_dt_us == 0
                &&& a.phase_us < period
                &&& a.conversion_us <= period
                &&& a.conversion_us + a.latency_us <= u64::MAX
                &&& a.latency_us / period <= 10000
                &&& 1 <= a.area_samples <= 64
                &&& a.response_valid
            },
        c.encoder.ratio_valid,
        c.encoder.response_valid,
        c.encoder.quadrature == 1 || c.encoder.quadrature == 2 || c.encoder.quadrature == 4,
        c.encoder.ticks_per_rev * c.encoder.quadrature <= u32::MAX,
        c.encoder.latency_us % time.physics_dt_us == 0,
        c.encoder.latency_us / time.encoder_period_us <= 10000,
        c.imu.latency_us % time.physics_dt_us == 0,
        c.imu.latency_us / time.imu_period_us <= 10000,
        c.imu.values_valid,
        c.control.speed_mode <= 1,
        c.control.profile_enabled <= 1,
        c.control.profile_enabled == 1 ==> c.control.speed_mode == 1,
        c.control.mark_min_channels > 0,
        c.control.values_valid,
        c.all_finite,
{
    lemma_settings_pass(c.optical@, c.sensors@, time);
    assert forall|i: int| 0 <= i < c.optical@.len() implies exists|j: int|
        0 <= j < c.sensors@.len() && (#[trigger] c.sensors@[j]).id@ == (#[trigger] c.optical@[i]).id@ by {
        assert(setting_error(c.optical@[i], c.sensors@, time) is None);
        assert(has_sensor(c.sensors@, c.optical@[i].id@, false));
    }
}

/// An IMU latency off the physics grid is refused: when the replay, the
/// optical settings and the encoder pass and the physics step is positive,
/// an IMU latency that is not a multiple of the step gives
/// "invalid IMU settings".
pub proof fn lemma_imu_latency_off_grid_refused(c: SensingCheck, time: TimeConfig)
    requires
        replay_passes(c),
        optical_error(c.optical@, c.sensors@, time) is None,
        !encoder_invalid(c.encoder, time),
        time.physics_dt_us > 0,
        c.imu.latency_us % time.physics_dt_us != 0,
    ensures
        sensing_error(c, time) == Some("invalid IMU settings"@),
{
}

/// What every accepted list of optical settings satisfies: each setting
/// names a mounted sensor, and has its period (its own, or the run's sensor
/// period for zero), phase, conversion and latency on the physics grid, its
/// phase inside and its conversion within the period, a latency of at most
/// 10000 periods, 1 to 64 area samples and a valid response.
pub proof fn lemma_accepted_optical(es: Seq<OpticalTiming>, sensors: Seq<SensorPresence>, time: TimeConfig)
    requires
        !optical_divides_by_zero(es, sensors, time),
        optical_error(es, sensors, time) is None,
    ensures
        es.len() > 0 ==> time.physics_dt_us > 0,
        forall|i: int|
            0 <= i < es.len() ==> {
                let a = #[trigger] es[i];
                let period = if a.period_us == 0 { time.sensor_period_us } else { a.period_us };
                &&& exists|j: int| 0 <= j < sensors.len() && (#[trigger] sensors[j]).id@ == a.id@
                &&& period % time.physics_dt_us == 0
                &&& a.phase_us % time.physics_dt_us == 0
                &&& a.conversion_us % time.physics_dt_us == 0
                &&& a.latency_us % time.physics_dt_us == 0
                &&& a.phase_us < period
                &&& a.conversion_us <= period
                &&& a.conversion_us + a.latency_us <= u64::MAX
                &&& a.latency_us / period <= 10000
                &&& 1 <= a.area_samples <= 64
                &&& a.response_valid
            },
{
    lemma_settings_pass(es, sensors, time);
    if es.len() > 0 {
        assert(setting_error(es[0], sensors, time) is None);
    }
    assert forall|i: int| 0 <= i < es.len() implies exists|j: int|
        0 <= j < sensors.len() && (#[trigger] sensors[j]).id@ == (#[trigger] es[i]).id@ by {
        assert(setting_error(es[i], sensors, time) is None);
        assert(has_sensor(sensors, es[i].id@, false));
    }
}

} // verus!
