//! Run configuration records and the checks made before a run starts.
use vstd::prelude::*;
use crate::text::{decimal, push_decimal};
use crate::track_rules::{Severity, TrackRulesMode, TrackValidationIssue};

verus! {

/// The engine version written into run metadata.
pub const ENGINE_VERSION: &'static str = "0.6.0";

/// Fixed-step timing of a run, in integer microseconds.
#[derive(Debug, Clone, Copy, PartialEq, Eq, Structural)]
pub struct TimeConfig {
    pub physics_dt_us: u64,
    pub controller_period_us: u64,
    pub sensor_period_us: u64,
    pub encoder_period_us: u64,
    pub imu_period_us: u64,
    pub log_period_us: u64,
    pub render_period_us: u64,
}

/// Configuration actually used by a run, including command-line overrides
/// and runtime seeds.
#[derive(Debug, Clone, PartialEq)]
pub struct EffectiveRunConfig {
    pub run_id: String,
    pub sensing_model: String,
    pub controller_model: String,
    pub power_model: String,
    pub physics_model: String,
    pub time: TimeConfig,
    pub duration_us: u64,
    pub line_sensor_seed: u64,
    pub gyro_seed: u64,
    pub physics_dt_override_us: Option<u64>,
}

/// Number of acquisitions and controller calls, including one
/// initialization at t=0.
#[derive(Debug, Clone, Copy, PartialEq, Eq, Structural)]
pub struct EventCounts {
    pub sensor: u64,
    pub encoder: u64,
    pub imu: u64,
    pub controller: u64,
}

/// The JSON text of an optional override: the number, or `null`.
pub open spec fn optional_number_text(v: Option<u64>) -> Seq<char> {
    match v {
        Some(n) => decimal(n as nat),
        None => "null"@,
    }
}

/// The metadata document of a run, as written next to its outputs.
pub open spec fn run_config_text(c: EffectiveRunConfig) -> Seq<char> {
    "{\n  \"schema\": \"rtsim-run-time-v1\",\n"@ + "  \"engine_version\": \""@ + ENGINE_VERSION@
        + "\",\n  \"run_id\": \""@ + c.run_id@ + "\",\n  \"physics_model\": \""@ + c.physics_model@
        + "\",\n  \"power_model\": \""@ + c.power_model@ + "\",\n  \"sensing_model\": \""@
        + c.sensing_model@ + "\",\n  \"controller_model\": \""@ + c.controller_model@
        + "\",\n  \"duration_us\": "@ + decimal(c.duration_us as nat)
        + ",\n  \"physics_dt_override_us\": "@ + optional_number_text(c.physics_dt_override_us)
        + ",\n  \"time\": {\n    \"physics_dt_us\": "@ + decimal(c.time.physics_dt_us as nat)
        + ",\n    \"controller_period_us\": "@ + decimal(c.time.controller_period_us as nat)
        + ",\n    \"sensor_period_us\": "@ + decimal(c.time.sensor_period_us as nat)
        + ",\n    \"encoder_period_us\": "@ + decimal(c.time.encoder_period_us as nat)
        + ",\n    \"imu_period_us\": "@ + decimal(c.time.imu_period_us as nat)
        + ",\n    \"log_period_us\": "@ + decimal(c.time.log_period_us as nat)
        + ",\n    \"render_period_us\": "@ + decimal(c.time.render_period_us as nat)
        + "\n  },\n  \"line_sensor_seed\": "@ + decimal(c.line_sensor_seed as nat)
        + ",\n  \"gyro_seed\": "@ + decimal(c.gyro_seed as nat)
        + ",\n  \"sample_phase\": \"state_at_t_after_zero_latency_acquisition_and_control\",\n"@
        + "  \"physics_outputs_phase\": \"previous_interval; at t=0 initialized normal and battery, other outputs zero\",\n"@
        + "  \"duration_policy\": \"reject_off_grid\",\n"@ + "  \"terminal_sample\": true\n}\n"@
}

/// The gyro seed a run uses when its robot declares none.
pub const DEFAULT_GYRO_SEED: u64 = 0x9E37_79B9_7F4A_7C15;

/// What the run's model and seed choices depend on: whether commands are
/// replayed from a file, whether the robot has a coupled powertrain, the
/// contact model of its per-wheel physics (if it has them), the seed of its
/// first line sensor (if it has one), and its declared gyro seed (zero for
/// none).
#[derive(Debug, Clone)]
pub struct RunChoices {
    pub has_replay: bool,
    pub has_powertrain: bool,
    pub contact_model: Option<String>,
    pub first_sensor_seed: Option<u64>,
    pub gyro_seed: u64,
}

impl EffectiveRunConfig {
    /// The configuration of a run with these choices: the sensing model is
    /// always the individual timed one; commands come from the replay or the
    /// PID controller; power from the coupled or the simple model; physics
    /// from the per-wheel model of the declared contact law, or the planar
    /// impulse model; the line seed is the first sensor's, or zero; and a
    /// zero gyro seed is replaced by the default.
    pub fn for_run(
        run_id: String,
        choices: &RunChoices,
        time: TimeConfig,
        duration_us: u64,
        physics_dt_override_us: Option<u64>,
    ) -> (r: Self)
        ensures
            r.run_id@ == run_id@,
            r.sensing_model@ == "individual-area-timed-v1"@,
            r.controller_model@ == (if choices.has_replay { "replay-v1"@ } else { "observable-pid-v1"@ }),
            r.power_model@ == (if choices.has_powertrain { "coupled-dc-v1"@ } else { "staggered-simple-v1"@ }),
            r.physics_model@ == (match choices.contact_model {
                Some(c) => "per-wheel-v1/"@ + c@,
                None => "planar-impulse-v2"@,
            }),
            r.time == time,
            r.duration_us == duration_us,
            r.line_sensor_seed == (match choices.first_sensor_seed {
                Some(seed) => seed,
                None => 0,
            }),
            r.gyro_seed == (if choices.gyro_seed == 0 { DEFAULT_GYRO_SEED } else { choices.gyro_seed }),
            r.physics_dt_override_us == physics_dt_override_us,
    {
        let physics_model = match &choices.contact_model {
            Some(c) => {
                let mut m = "per-wheel-v1/".to_owned();
                m.append(c.as_str());
                m
            },
            None => "planar-impulse-v2".to_owned(),
        };
        EffectiveRunConfig {
            run_id,
            sensing_model: "individual-area-timed-v1".to_owned(),
            controller_model: if choices.has_replay {
                "replay-v1".to_owned()
            } else {
                "observable-pid-v1".to_owned()
            },
            power_model: if choices.has_powertrain {
                "coupled-dc-v1".to_owned()
            } else {
                "staggered-simple-v1".to_owned()
            },
            physics_model,
            time,
            duration_us,
            line_sensor_seed: match choices.first_sensor_seed {
                Some(seed) => seed,
                None => 0,
            },
            gyro_seed: if choices.gyro_seed == 0 {
                DEFAULT_GYRO_SEED
            } else {
                choices.gyro_seed
            },
            physics_dt_override_us,
        }
    }

    /// The run's metadata document, embedded in replays and mirrored in JSON
    /// sidecar files. Names are written as they are, without escaping.
    pub fn to_json(&self) -> (r: String)
        ensures
            r@ == run_config_text(*self),
    {
        let mut s = String::new();
        s.append("{\n  \"schema\": \"rtsim-run-time-v1\",\n");
        s.append("  \"engine_version\": \"");
        s.append(ENGINE_VERSION);
        s.append("\",\n  \"run_id\": \"");
        s.append(self.run_id.as_str());
        s.append("\",\n  \"physics_model\": \"");
        s.append(self.physics_model.as_str());
        s.append("\",\n  \"power_model\": \"");
        s.append(self.power_model.as_str());
        s.append("\",\n  \"sensing_model\": \"");
        s.append(self.sensing_model.as_str());
        s.append("\",\n  \"controller_model\": \"");
        s.append(self.controller_model.as_str());
        s.append("\",\n  \"duration_us\": ");
        push_decimal(&mut s, self.duration_us);
        s.append(",\n  \"physics_dt_override_us\": ");
        match self.physics_dt_override_us {
            Some(v) => push_decimal(&mut s, v),
            None => s.append("null"),
        }
        s.append(",\n  \"time\": {\n    \"physics_dt_us\": ");
        push_decimal(&mut s, self.time.physics_dt_us);
        s.append(",\n    \"controller_period_us\": ");
        push_decimal(&mut s, self.time.controller_period_us);
        s.append(",\n    \"sensor_period_us\": ");
        push_decimal(&mut s, self.time.sensor_period_us);
        s.append(",\n    \"encoder_period_us\": ");
        push_decimal(&mut s, self.time.encoder_period_us);
        s.append(",\n    \"imu_period_us\": ");
        push_decimal(&mut s, self.time.imu_period_us);
        s.append(",\n    \"log_period_us\": ");
        push_decimal(&mut s, self.time.log_period_us);
        s.append(",\n    \"render_period_us\": ");
        push_decimal(&mut s, self.time.render_period_us);
        s.append("\n  },\n  \"line_sensor_seed\": ");
        push_decimal(&mut s, self.line_sensor_seed);
        s.append(",\n  \"gyro_seed\": ");
        push_decimal(&mut s, self.gyro_seed);
        s.append(",\n  \"sample_phase\": \"state_at_t_after_zero_latency_acquisition_and_control\",\n");
        s.append(
            "  \"physics_outputs_phase\": \"previous_interval; at t=0 initialized normal and battery, other outputs zero\",\n",
        );
        s.append("  \"duration_policy\": \"reject_off_grid\",\n");
        s.append("  \"terminal_sample\": true\n}\n");
        s
    }
}

/// The messages of the error findings, in order.
pub open spec fn error_messages(issues: Seq<TrackValidationIssue>) -> Seq<Seq<char>>
    decreases issues.len(),
{
    if issues.len() == 0 {
        Seq::empty()
    } else {
        let rest = error_messages(issues.drop_last());
        if issues.last().severity == Severity::Error {
            rest.push(issues.last().message@)
        } else {
            rest
        }
    }
}

/// Texts joined by `"; "`.
pub open spec fn joined(ms: Seq<Seq<char>>) -> Seq<char>
    decreases ms.len(),
{
    if ms.len() == 0 {
        Seq::empty()
    } else if ms.len() == 1 {
        ms[0]
    } else {
        joined(ms.drop_last()) + "; "@ + ms.last()
    }
}

/// The message that blocks a strict-mode run: the first three error
/// messages, joined.
pub open spec fn blocked_message(issues: Seq<TrackValidationIssue>) -> Seq<char> {
    let errs = error_messages(issues);
    "track validation blocked simulation in strict mode: "@ + joined(
        if errs.len() > 3 { errs.take(3) } else { errs },
    )
}

/// A run may start unless the parametric track (whose rule mode is `mode`,
/// `None` when the track is a plain polyline) is in strict mode and its
/// validation `issues` hold an error; the refusal quotes at most three
/// error messages.
pub fn validate_track_for_simulation(mode: Option<TrackRulesMode>, issues: &Vec<TrackValidationIssue>) -> (r: Result<(), String>)
    ensures
        mode != Some(TrackRulesMode::Strict) ==> r is Ok,
        mode == Some(TrackRulesMode::Strict) && error_messages(issues@).len() == 0 ==> r is Ok,
        mode == Some(TrackRulesMode::Strict) && error_messages(issues@).len() > 0 ==> (r matches Err(
            e,
        ) && e@ == blocked_message(issues@)),
{
    match mode {
        Some(TrackRulesMode::Strict) => {},
        _ => return Ok(()),
    }
    let mut count: usize = 0;
    let mut text = String::new();
    let mut i: usize = 0;
    while i < issues.len()
        invariant
            i <= issues.len(),
            count == error_messages(issues@.take(i as int)).len(),
            count <= i,
            text@ == joined(
                if count > 3 {
                    error_messages(issues@.take(i as int)).take(3)
                } else {
                    error_messages(issues@.take(i as int))
                },
            ),
        decreases issues.len() - i,
    {
        let ghost prev = error_messages(issues@.take(i as int));
        proof {
            assert(issues@.take(i + 1).drop_last() =~= issues@.take(i as int));
        }
        if issues[i].severity == Severity::Error {
            let ghost next = prev.push(issues@[i as int].message@);
            assert(error_messages(issues@.take(i + 1)) == next);
            if count < 3 {
                if count > 0 {
                    text.append("; ");
                }
                text.append(issues[i].message.as_str());
                proof {
                    if count > 0 {
                        assert(next.drop_last() =~= prev);
                    }
                }
            } else {
                assert(next.take(3) =~= (if count > 3 { prev.take(3) } else { prev }));
            }
            count = count + 1;
        }
        i = i + 1;
    }
    proof {
        assert(issues@.take(i as int) =~= issues@);
    }
    if count == 0 {
        Ok(())
    } else {
        let mut e = "track validation blocked simulation in strict mode: ".to_owned();
        e.append(text.as_str());
        Err(e)
    }
}

proof fn lemma_error_messages_present(issues: Seq<TrackValidationIssue>)
    ensures
        (error_messages(issues).len() > 0) == (exists|i: int|
            0 <= i < issues.len() && (#[trigger] issues[i]).severity == Severity::Error),
    decreases issues.len(),
{
    if issues.len() > 0 {
        let rest = issues.drop_last();
        lemma_error_messages_present(rest);
        if issues.last().severity == Severity::Error {
            assert(issues[issues.len() - 1].severity == Severity::Error);
        } else {
            if exists|i: int| 0 <= i < issues.len() && (#[trigger] issues[i]).severity == Severity::Error {
                let i = choose|i: int| 0 <= i < issues.len() && (#[trigger] issues[i]).severity == Severity::Error;
                assert(rest[i] == issues[i]);
            }
            if exists|i: int| 0 <= i < rest.len() && (#[trigger] rest[i]).severity == Severity::Error {
                let i = choose|i: int| 0 <= i < rest.len() && (#[trigger] rest[i]).severity == Severity::Error;
                assert(rest[i] == issues[i]);
            }
        }
    }
}

proof fn lemma_first_error_message(issues: Seq<TrackValidationIssue>, i: int)
    requires
        0 <= i < issues.len(),
        issues[i].severity == Severity::Error,
        forall|j: int| 0 <= j < i ==> (#[trigger] issues[j]).severity != Severity::Error,
    ensures
        error_messages(issues).len() > 0,
        error_messages(issues)[0] == issues[i].message@,
    decreases issues.len(),
{
    let rest = issues.drop_last();
    if i < issues.len() - 1 {
        assert forall|j: int| 0 <= j < i implies (#[trigger] rest[j]).severity != Severity::Error by {
            assert(rest[j] == issues[j]);
        }
        assert(rest[i] == issues[i]);
        lemma_first_error_message(rest, i);
    } else {
        lemma_error_messages_present(rest);
        if exists|k: int| 0 <= k < rest.len() && (#[trigger] rest[k]).severity == Severity::Error {
            let k = choose|k: int| 0 <= k < rest.len() && (#[trigger] rest[k]).severity == Severity::Error;
            assert(rest[k] == issues[k]);
        }
    }
}

/// A strict-mode run is refused exactly when some finding is an error, and
/// the refusal quotes first the message of the first error finding.
pub proof fn lemma_errors_block_exactly(issues: Seq<TrackValidationIssue>)
    ensures
        (error_messages(issues).len() > 0) == (exists|i: int|
            0 <= i < issues.len() && (#[trigger] issues[i]).severity == Severity::Error),
        forall|i: int|
            0 <= i < issues.len() && (#[trigger] issues[i]).severity == Severity::Error && (forall|j: int|
                0 <= j < i ==> issues[j].severity != Severity::Error) ==> error_messages(issues)[0]
                == issues[i].message@,
{
    lemma_error_messages_present(issues);
    assert forall|i: int|
        0 <= i < issues.len() && (#[trigger] issues[i]).severity == Severity::Error && (forall|j: int|
            0 <= j < i ==> issues[j].severity != Severity::Error) implies error_messages(issues)[0]
        == issues[i].message@ by {
        lemma_first_error_message(issues, i);
    }
}

} // verus!
