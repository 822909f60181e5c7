//! Consistency of a robot assembly: component ids, wheel roles and motor
//! associations, and the mass elements that account for components.
use vstd::prelude::*;
use crate::models::WheelKind;
use crate::text::{blank, lemma_trim_empty_iff_blank, trim, trimmed};

verus! {

/// The ids that always name a component of the robot.
pub open spec fn reserved_ids() -> Seq<Seq<char>> {
    seq![
        "chassis"@,
        "battery"@,
        "motor:left"@,
        "motor:right"@,
        "driver"@,
        "controller"@,
        "encoder"@,
        "gyro"@,
    ]
}

/// What validation reads of a wheel: its id, role, motor, material and
/// tire model name, and whether its geometry and inertia, and its tire
/// coefficients, are valid.
#[derive(Debug, Clone)]
pub struct WheelCheck {
    pub id: String,
    pub kind: WheelKind,
    pub motor: Option<String>,
    pub material: String,
    pub tire_model: String,
    pub geometry_valid: bool,
    pub tire_values_valid: bool,
}

/// What validation reads of a mass element: its id, the component it
/// accounts for, and whether its mass, inertia, height and position are
/// valid.
#[derive(Debug, Clone)]
pub struct MassCheck {
    pub id: String,
    pub component: Option<String>,
    pub values_valid: bool,
}

/// What validation reads of a sensor: its id and whether its height is
/// valid.
#[derive(Debug, Clone)]
pub struct SensorCheck {
    pub id: String,
    pub height_valid: bool,
}

/// What validation reads of a robot assembly. The mass properties, the
/// support polygon and the fit to the four-wheel solver are computed in
/// floating point; their outcomes are given here.
#[derive(Debug)]
pub struct AssemblyCheck {
    pub sensors: Vec<SensorCheck>,
    pub fans: Vec<String>,
    pub wheels: Vec<WheelCheck>,
    pub masses: Vec<MassCheck>,
    pub com_height_valid: bool,
    pub mass_properties: Result<(), String>,
    pub has_physics: bool,
    pub support_polygon_len: usize,
    pub com_outside_support: bool,
    pub solver_geometry: Result<(), String>,
}

/// The ids of the mounted components, in checking order: sensors, fans,
/// wheels.
pub open spec fn component_ids(c: AssemblyCheck) -> Seq<Seq<char>> {
    c.sensors@.map_values(|s: SensorCheck| s.id@) + c.fans@.map_values(|f: String| f@)
        + c.wheels@.map_values(|w: WheelCheck| w.id@)
}

/// The index of the first component id that is blank or already taken
/// (by a reserved id or an earlier component).
pub open spec fn first_bad_id(ids: Seq<Seq<char>>) -> Option<int>
    decreases ids.len(),
{
    if ids.len() == 0 {
        None
    } else {
        match first_bad_id(ids.drop_last()) {
            Some(k) => Some(k),
            None => {
                let id = ids.last();
                if trim(id).len() == 0 || reserved_ids().contains(id) || ids.drop_last().contains(id) {
                    Some(ids.len() - 1)
                } else {
                    None
                }
            },
        }
    }
}

/// Whether a wheel's motor association fits its role: a driven wheel on
/// one of the two motors, or a passive wheel or caster without a motor.
pub open spec fn motor_fits(w: WheelCheck) -> bool {
    match w.motor {
        Some(m) => w.kind == WheelKind::Driven && (m@ == "motor:left"@ || m@ == "motor:right"@),
        None => w.kind == WheelKind::Passive || w.kind == WheelKind::Caster,
    }
}

/// The complaint about one wheel, if any.
pub open spec fn wheel_error(w: WheelCheck) -> Option<Seq<char>> {
    if !w.geometry_valid {
        Some(w.id@ + ": invalid geometry/inertia"@)
    } else if trim(w.material@).len() == 0 {
        Some(w.id@ + ": material name required"@)
    } else if !(w.tire_model@ == "SlipRatioWheel"@ || w.tire_model@ == "CoulombFrictionWheel"@) {
        Some(w.id@ + ": unknown tire model"@)
    } else if !w.tire_values_valid {
        Some(w.id@ + ": invalid tire"@)
    } else if !motor_fits(w) {
        Some(w.id@ + ": invalid motor association"@)
    } else {
        None
    }
}

/// The complaint about the first faulty wheel, if any.
pub open spec fn wheels_error(ws: Seq<WheelCheck>) -> Option<Seq<char>>
    decreases ws.len(),
{
    if ws.len() == 0 {
        None
    } else {
        match wheels_error(ws.drop_last()) {
            Some(m) => Some(m),
            None => wheel_error(ws.last()),
        }
    }
}

/// The complaint about one mass element after the elements `prior`, given
/// the component ids `known`.
pub open spec fn mass_error(prior: Seq<MassCheck>, e: MassCheck, known: Seq<Seq<char>>) -> Option<Seq<char>> {
    if trim(e.id@).len() == 0 || (exists|j: int| 0 <= j < prior.len() && (#[trigger] prior[j]).id@ == e.id@) {
        Some("assembly: duplicate mass ID"@)
    } else if !e.values_valid {
        Some(e.id@ + ": invalid mass properties"@)
    } else {
        match e.component {
            Some(id) => if !known.contains(id@) || (exists|j: int|
                0 <= j < prior.len() && ((#[trigger] prior[j]).component matches Some(p) && p@ == id@)) {
                Some(e.id@ + ": absent or multiply counted component "@ + id@)
            } else {
                None
            },
            None => None,
        }
    }
}

/// The complaint about the first faulty mass element, if any.
pub open spec fn masses_error(ms: Seq<MassCheck>, known: Seq<Seq<char>>) -> Option<Seq<char>>
    decreases ms.len(),
{
    if ms.len() == 0 {
        None
    } else {
        match masses_error(ms.drop_last(), known) {
            Some(m) => Some(m),
            None => mass_error(ms.drop_last(), ms.last(), known),
        }
    }
}

/// The complaint about the first sensor with an invalid height, if any.
pub open spec fn sensor_height_error(ss: Seq<SensorCheck>) -> Option<Seq<char>>
    decreases ss.len(),
{
    if ss.len() == 0 {
        None
    } else {
        match sensor_height_error(ss.drop_last()) {
            Some(m) => Some(m),
            None => if !ss.last().height_valid {
                Some(ss.last().id@ + ": invalid sensor height"@)
            } else {
                None
            },
        }
    }
}

/// The first warning of every accepted assembly, on what the solver models.
pub open spec fn solver_note(has_physics: bool) -> Seq<char> {
    if has_physics {
        "Per-wheel planar solver: COM height enters quasi-static load transfer; no pitch/roll or optical height dynamics. Shared motors use equal torque split and mean shaft speed."@
    } else {
        "Planar reference solver: heights are metadata; no pitch/roll or optical height effect."@
    }
}

/// The verdict on an assembly: the first complaint, or the warnings.
pub open spec fn assembly_result(c: AssemblyCheck) -> Result<Seq<Seq<char>>, Seq<char>> {
    let ids = component_ids(c);
    if first_bad_id(ids) is Some {
        Err("assembly: duplicate/empty component ID "@ + ids[first_bad_id(ids)->0])
    } else if c.wheels@.len() == 0 {
        Err("assembly: at least one support is required"@)
    } else if wheels_error(c.wheels@) is Some {
        Err(wheels_error(c.wheels@)->0)
    } else if masses_error(c.masses@, reserved_ids() + ids) is Some {
        Err(masses_error(c.masses@, reserved_ids() + ids)->0)
    } else if !c.com_height_valid {
        Err("assembly: invalid COM height"@)
    } else if sensor_height_error(c.sensors@) is Some {
        Err(sensor_height_error(c.sensors@)->0)
    } else if c.mass_properties is Err {
        Err(c.mass_properties->Err_0@)
    } else if c.support_polygon_len < 3 {
        Err("assembly: degenerate support polygon"@)
    } else {
        let w1 = seq![solver_note(c.has_physics)];
        let w2 = if c.com_outside_support {
            w1.push("COM projection is outside support polygon; tipping requires a vertical solver."@)
        } else {
            w1
        };
        Ok(
            if !c.has_physics && c.solver_geometry is Err {
                w2.push(c.solver_geometry->Err_0@)
            } else {
                w2
            },
        )
    }
}

fn contains_text(v: &Vec<String>, t: &String) -> (r: bool)
    ensures
        r == v@.map_values(|s: String| s@).contains(t@),
{
    let mut j: usize = 0;
    while j < v.len()
        invariant
            j <= v.len(),
            forall|i: int| 0 <= i < j ==> v@[i]@ != t@,
        decreases v.len() - j,
    {
        if v[j] == *t {
            assert(v@.map_values(|s: String| s@)[j as int] == t@);
            return true;
        }
        j = j + 1;
    }
    proof {
        if v@.map_values(|s: String| s@).contains(t@) {
            let m = v@.map_values(|s: String| s@);
            let i = choose|i: int| 0 <= i < m.len() && #[trigger] m[i] == t@;
            assert(v@[i]@ == t@);
        }
    }
    false
}

fn labelled(head: &String, tail: &str) -> (r: String)
    ensures
        r@ == head@ + tail@,
{
    let mut s = head.clone();
    s.append(tail);
    s
}

fn reserved() -> (r: Vec<String>)
    ensures
        r@.map_values(|s: String| s@) == reserved_ids(),
{
    let r = vec![
        "chassis".to_owned(),
        "battery".to_owned(),
        "motor:left".to_owned(),
        "motor:right".to_owned(),
        "driver".to_owned(),
        "controller".to_owned(),
        "encoder".to_owned(),
        "gyro".to_owned(),
    ];
    assert(r@.map_values(|s: String| s@) =~= reserved_ids());
    r
}

proof fn lemma_first_bad_prefix(ids: Seq<Seq<char>>, k: int)
    requires
        0 <= k <= ids.len(),
        first_bad_id(ids.take(k)) is Some,
    ensures
        first_bad_id(ids) == first_bad_id(ids.take(k)),
    decreases ids.len() - k,
{
    if k < ids.len() {
        assert(ids.take(k + 1).drop_last() =~= ids.take(k));
        lemma_first_bad_prefix(ids, k + 1);
    } else {
        assert(ids.take(k) =~= ids);
    }
}

/// The component ids in checking order, as strings.
fn collect_ids(c: &AssemblyCheck) -> (r: Vec<String>)
    ensures
        r@.map_values(|s: String| s@) == component_ids(*c),
{
    let ghost all = component_ids(*c);
    let ns = c.sensors.len();
    let nf = c.fans.len();
    let mut r: Vec<String> = Vec::new();
    let mut i: usize = 0;
    while i < ns
        invariant
            ns == c.sensors@.len(),
            nf == c.fans@.len(),
            all == component_ids(*c),
            i <= ns,
            r@.len() == i,
            forall|j: int| 0 <= j < i ==> (#[trigger] r@[j])@ == all[j],
        decreases ns - i,
    {
        r.push(c.sensors[i].id.clone());
        assert(all[i as int] == c.sensors@[i as int].id@);
        i = i + 1;
    }
    let mut i: usize = 0;
    while i < nf
        invariant
            ns == c.sensors@.len(),
            nf == c.fans@.len(),
            all == component_ids(*c),
            i <= nf,
            r@.len() == ns + i,
            forall|j: int| 0 <= j < ns + i ==> (#[trigger] r@[j])@ == all[j],
        decreases nf - i,
    {
        r.push(c.fans[i].clone());
        assert(all[ns + i] == c.fans@[i as int]@);
        i = i + 1;
    }
    let mut i: usize = 0;
    while i < c.wheels.len()
        invariant
            ns == c.sensors@.len(),
            nf == c.fans@.len(),
            all == component_ids(*c),
            i <= c.wheels@.len(),
            r@.len() == ns + nf + i,
            forall|j: int| 0 <= j < ns + nf + i ==> (#[trigger] r@[j])@ == all[j],
        decreases c.wheels.len() - i,
    {
        r.push(c.wheels[i].id.clone());
        assert(all[ns + nf + i] == c.wheels@[i as int].id@);
        i = i + 1;
    }
    assert(r@.map_values(|s: String| s@) =~= all);
    r
}

fn check_ids(ids: &Vec<String>, res: &Vec<String>) -> (r: Result<(), String>)
    requires
        res@.map_values(|s: String| s@) == reserved_ids(),
    ensures
        r is Ok <==> first_bad_id(ids@.map_values(|s: String| s@)) is None,
        r matches Err(e) ==> e@ == "assembly: duplicate/empty component ID "@ + ids@.map_values(
            |s: String| s@,
        )[first_bad_id(ids@.map_values(|s: String| s@))->0],
{
    let ghost all = ids@.map_values(|s: String| s@);
    let mut seen: Vec<String> = Vec::new();
    let mut i: usize = 0;
    while i < ids.len()
        invariant
            i <= ids.len(),
            all == ids@.map_values(|s: String| s@),
            res@.map_values(|s: String| s@) == reserved_ids(),
            seen@.map_values(|s: String| s@) == all.take(i as int),
            first_bad_id(all.take(i as int)) is None,
        decreases ids.len() - i,
    {
        let id = &ids[i];
        assert(all.take(i + 1).drop_last() =~= all.take(i as int));
        assert(all.take(i + 1).last() == id@);
        if trimmed(id.as_str()).len() == 0 || contains_text(res, id) || contains_text(&seen, id) {
            proof {
                lemma_first_bad_prefix(all, i + 1);
            }
            let mut e = "assembly: duplicate/empty component ID ".to_owned();
            e.append(id.as_str());
            return Err(e);
        }
        seen.push(id.clone());
        i = i + 1;
        assert(seen@.map_values(|s: String| s@) =~= all.take(i as int));
    }
    assert(all.take(i as int) =~= all);
    Ok(())
}

fn check_wheel(w: &WheelCheck) -> (r: Result<(), String>)
    ensures
        r is Ok <==> wheel_error(*w) is None,
        r matches Err(e) ==> wheel_error(*w) == Some(e@),
{
    if !w.geometry_valid {
        return Err(labelled(&w.id, ": invalid geometry/inertia"));
    }
    if trimmed(w.material.as_str()).len() == 0 {
        return Err(labelled(&w.id, ": material name required"));
    }
    let slip = "SlipRatioWheel".to_owned();
    let coulomb = "CoulombFrictionWheel".to_owned();
    if !(w.tire_model == slip || w.tire_model == coulomb) {
        return Err(labelled(&w.id, ": unknown tire model"));
    }
    if !w.tire_values_valid {
        return Err(labelled(&w.id, ": invalid tire"));
    }
    let left = "motor:left".to_owned();
    let right = "motor:right".to_owned();
    let fits = match &w.motor {
        Some(m) => w.kind == WheelKind::Driven && (*m == left || *m == right),
        None => w.kind == WheelKind::Passive || w.kind == WheelKind::Caster,
    };
    if !fits {
        return Err(labelled(&w.id, ": invalid motor association"));
    }
    Ok(())
}

proof fn lemma_wheels_error_prefix(ws: Seq<WheelCheck>, k: int)
    requires
        0 <= k <= ws.len(),
        wheels_error(ws.take(k)) is Some,
    ensures
        wheels_error(ws) == wheels_error(ws.take(k)),
    decreases ws.len() - k,
{
    if k < ws.len() {
        assert(ws.take(k + 1).drop_last() =~= ws.take(k));
        lemma_wheels_error_prefix(ws, k + 1);
    } else {
        assert(ws.take(k) =~= ws);
    }
}

proof fn lemma_masses_error_prefix(ms: Seq<MassCheck>, known: Seq<Seq<char>>, k: int)
    requires
        0 <= k <= ms.len(),
        masses_error(ms.take(k), known) is Some,
    ensures
        masses_error(ms, known) == masses_error(ms.take(k), known),
    decreases ms.len() - k,
{
    if k < ms.len() {
        assert(ms.take(k + 1).drop_last() =~= ms.take(k));
        lemma_masses_error_prefix(ms, known, k + 1);
    } else {
        assert(ms.take(k) =~= ms);
    }
}

proof fn lemma_heights_error_prefix(ss: Seq<SensorCheck>, k: int)
    requires
        0 <= k <= ss.len(),
        sensor_height_error(ss.take(k)) is Some,
    ensures
        sensor_height_error(ss) == sensor_height_error(ss.take(k)),
    decreases ss.len() - k,
{
    if k < ss.len() {
        assert(ss.take(k + 1).drop_last() =~= ss.take(k));
        lemma_heights_error_prefix(ss, k + 1);
    } else {
        assert(ss.take(k) =~= ss);
    }
}

fn check_masses(ms: &Vec<MassCheck>, known: &Vec<String>) -> (r: Result<(), String>)
    ensures
        r is Ok <==> masses_error(ms@, known@.map_values(|s: String| s@)) is None,
        r matches Err(e) ==> masses_error(ms@, known@.map_values(|s: String| s@)) == Some(e@),
{
    let ghost kn = known@.map_values(|s: String| s@);
    let mut i: usize = 0;
    while i < ms.len()
        invariant
            i <= ms.len(),
            kn == known@.map_values(|s: String| s@),
            masses_error(ms@.take(i as int), kn) is None,
        decreases ms.len() - i,
    {
        let e = &ms[i];
        let ghost prior = ms@.take(i as int);
        assert(ms@.take(i + 1).drop_last() =~= prior);
        assert(ms@.take(i + 1).last() == *e);
        let mut dup = false;
        let mut ref_taken = false;
        let mut j: usize = 0;
        while j < i
            invariant
                j <= i < ms.len(),
                prior == ms@.take(i as int),
                *e == ms@[i as int],
                dup == exists|q: int| 0 <= q < j && (#[trigger] prior[q]).id@ == e.id@,
                ref_taken == (e.component matches Some(id) && exists|q: int|
                    0 <= q < j && ((#[trigger] prior[q]).component matches Some(p) && p@ == id@)),
            decreases i - j,
        {
            assert(prior[j as int] == ms@[j as int]);
            if ms[j].id == e.id {
                dup = true;
            }
            match (&e.component, &ms[j].component) {
                (Some(id), Some(p)) => {
                    if *p == *id {
                        ref_taken = true;
                    }
                },
                _ => {},
            }
            j = j + 1;
        }
        if trimmed(e.id.as_str()).len() == 0 || dup {
            proof {
                lemma_masses_error_prefix(ms@, kn, i + 1);
            }
            return Err("assembly: duplicate mass ID".to_owned());
        }
        if !e.values_valid {
            proof {
                lemma_masses_error_prefix(ms@, kn, i + 1);
            }
            return Err(labelled(&e.id, ": invalid mass properties"));
        }
        match &e.component {
            Some(id) => {
                if !contains_text(known, id) || ref_taken {
                    proof {
                        lemma_masses_error_prefix(ms@, kn, i + 1);
                    }
                    let mut m = labelled(&e.id, ": absent or multiply counted component ");
                    m.append(id.as_str());
                    return Err(m);
                }
            },
            None => {},
        }
        i = i + 1;
    }
    assert(ms@.take(i as int) =~= ms@);
    Ok(())
}

/// Validates a robot assembly: component ids must be non-blank and unique
/// (the reserved ids included), there must be a wheel, each wheel needs
/// valid geometry, a material, a known tire model, valid tire coefficients
/// and a motor association fitting its role; mass elements need unique ids
/// and valid values and each may account for one known component, never
/// counted twice; then the COM height, the sensor heights, the mass
/// properties and the support polygon. Returns the warnings, or the first
/// complaint.
#[verifier::loop_isolation(false)]
pub fn validate_assembly(c: &AssemblyCheck) -> (r: Result<Vec<String>, String>)
    ensures
        r matches Ok(w) ==> assembly_result(*c) == Ok::<Seq<Seq<char>>, Seq<char>>(w@.map_values(
            |s: String| s@,
        )),
        r matches Err(e) ==> assembly_result(*c) == Err::<Seq<Seq<char>>, Seq<char>>(e@),
{
    let res = reserved();
    let ids = collect_ids(c);
    assert(res@.len() == 8) by {
        assert(res@.map_values(|s: String| s@).len() == 8);
    }
    assert forall|j: int| 0 <= j < 8 implies (#[trigger] res@[j])@ == reserved_ids()[j] by {
        assert(res@.map_values(|s: String| s@)[j] == res@[j]@);
    }
    check_ids(&ids, &res)?;
    if c.wheels.len() == 0 {
        return Err("assembly: at least one support is required".to_owned());
    }
    let mut i: usize = 0;
    while i < c.wheels.len()
        invariant
            i <= c.wheels.len(),
            wheels_error(c.wheels@.take(i as int)) is None,
        decreases c.wheels.len() - i,
    {
        assert(c.wheels@.take(i + 1).drop_last() =~= c.wheels@.take(i as int));
        assert(c.wheels@.take(i + 1).last() == c.wheels@[i as int]);
        match check_wheel(&c.wheels[i]) {
            Ok(()) => {},
            Err(e) => {
                proof {
                    lemma_wheels_error_prefix(c.wheels@, i + 1);
                }
                return Err(e);
            },
        }
        i = i + 1;
    }
    assert(c.wheels@.take(i as int) =~= c.wheels@);
    let ghost kn = reserved_ids() + component_ids(*c);
    let mut known = res;
    let mut k: usize = 0;
    while k < ids.len()
        invariant
            k <= ids.len(),
            known@.len() == 8 + k,
            forall|j: int| 0 <= j < 8 + k ==> (#[trigger] known@[j])@ == kn[j],
        decreases ids.len() - k,
    {
        assert(kn[8 + k] == ids@.map_values(|s: String| s@)[k as int]);
        known.push(ids[k].clone());
        k = k + 1;
    }
    assert(known@.map_values(|s: String| s@) =~= kn);
    check_masses(&c.masses, &known)?;
    if !c.com_height_valid {
        return Err("assembly: invalid COM height".to_owned());
    }
    let mut s: usize = 0;
    while s < c.sensors.len()
        invariant
            s <= c.sensors.len(),
            sensor_height_error(c.sensors@.take(s as int)) is None,
        decreases c.sensors.len() - s,
    {
        assert(c.sensors@.take(s + 1).drop_last() =~= c.sensors@.take(s as int));
        assert(c.sensors@.take(s + 1).last() == c.sensors@[s as int]);
        if !c.sensors[s].height_valid {
            proof {
                lemma_heights_error_prefix(c.sensors@, s + 1);
            }
            return Err(labelled(&c.sensors[s].id, ": invalid sensor height"));
        }
        s = s + 1;
    }
    assert(c.sensors@.take(s as int) =~= c.sensors@);
    match &c.mass_properties {
        Err(e) => {
            return Err(e.clone());
        },
        Ok(()) => {},
    }
    let mut warnings: Vec<String> = Vec::new();
    if c.has_physics {
        warnings.push(
            "Per-wheel planar solver: COM height enters quasi-static load transfer; no pitch/roll or optical height dynamics. Shared motors use equal torque split and mean shaft speed.".to_owned(),
        );
    } else {
        warnings.push(
            "Planar reference solver: heights are metadata; no pitch/roll or optical height effect.".to_owned(),
        );
    }
    if c.support_polygon_len < 3 {
        return Err("assembly: degenerate support polygon".to_owned());
    }
    if c.com_outside_support {
        warnings.push(
            "COM projection is outside support polygon; tipping requires a vertical solver.".to_owned(),
        );
    }
    if !c.has_physics {
        match &c.solver_geometry {
            Err(e) => {
                warnings.push(e.clone());
            },
            Ok(()) => {},
        }
    }
    proof {
        let w1 = seq![solver_note(c.has_physics)];
        let w2 = if c.com_outside_support {
            w1.push("COM projection is outside support polygon; tipping requires a vertical solver."@)
        } else {
            w1
        };
        let w3 = if !c.has_physics && c.solver_geometry is Err {
            w2.push(c.solver_geometry->Err_0@)
        } else {
            w2
        };
        assert(warnings@.map_values(|s: String| s@) =~= w3);
    }
    Ok(warnings)
}

/// In an accepted assembly, every component id is non-blank, differs from
/// the reserved ids and from every other component id.
pub proof fn lemma_accepted_component_ids_unique(c: AssemblyCheck)
    requires
        assembly_result(c) is Ok,
    ensures
        forall|k: int|
            0 <= k < component_ids(c).len() ==> trim(#[trigger] component_ids(c)[k]).len() > 0
                && !reserved_ids().contains(component_ids(c)[k]),
        forall|i: int, k: int|
            0 <= i < k < component_ids(c).len() ==> #[trigger] component_ids(c)[i]
                != #[trigger] component_ids(c)[k],
{
    lemma_no_bad_id(component_ids(c));
    let ids = component_ids(c);
    assert forall|i: int, k: int| 0 <= i < k < ids.len() implies #[trigger] ids[i] != #[trigger] ids[k] by {
        assert(ids.take(k)[i] == ids[i]);
        assert(ids.take(k).contains(ids[i]));
    }
}

proof fn lemma_no_bad_id(ids: Seq<Seq<char>>)
    requires
        first_bad_id(ids) is None,
    ensures
        forall|k: int|
            0 <= k < ids.len() ==> trim(#[trigger] ids[k]).len() > 0 && !reserved_ids().contains(ids[k])
                && !ids.take(k).contains(ids[k]),
    decreases ids.len(),
{
    if ids.len() > 0 {
        lemma_no_bad_id(ids.drop_last());
        assert forall|k: int| 0 <= k < ids.len() implies trim(#[trigger] ids[k]).len() > 0
            && !reserved_ids().contains(ids[k]) && !ids.take(k).contains(ids[k]) by {
            if k < ids.len() - 1 {
                assert(ids.drop_last().take(k) =~= ids.take(k));
                assert(ids.drop_last()[k] == ids[k]);
            } else {
                assert(ids.drop_last() =~= ids.take(k));
            }
        }
    }
}

proof fn lemma_wheels_pass(ws: Seq<WheelCheck>)
    requires
        wheels_error(ws) is None,
    ensures
        forall|i: int| 0 <= i < ws.len() ==> wheel_error(#[trigger] ws[i]) is None,
    decreases ws.len(),
{
    if ws.len() > 0 {
        lemma_wheels_pass(ws.drop_last());
        assert forall|i: int| 0 <= i < ws.len() implies wheel_error(#[trigger] ws[i]) is None by {
            if i < ws.len() - 1 {
                assert(ws.drop_last()[i] == ws[i]);
            }
        }
    }
}

proof fn lemma_wheels_prefix_error(ws: Seq<WheelCheck>, i: int)
    requires
        0 <= i < ws.len(),
        forall|j: int| 0 <= j < i ==> wheel_error(#[trigger] ws[j]) is None,
    ensures
        wheels_error(ws.take(i)) is None,
        wheels_error(ws.take(i + 1)) == wheel_error(ws[i]),
    decreases i,
{
    if i > 0 {
        lemma_wheels_prefix_error(ws, i - 1);
        assert(ws.take(i).drop_last() =~= ws.take(i - 1));
    } else {
        assert(ws.take(0).len() == 0);
    }
    assert(ws.take(i + 1).drop_last() =~= ws.take(i));
    assert(ws.take(i + 1).last() == ws[i]);
}

proof fn lemma_wheels_error_extends(ws: Seq<WheelCheck>, k: int)
    requires
        0 <= k <= ws.len(),
        wheels_error(ws.take(k)) is Some,
    ensures
        wheels_error(ws) == wheels_error(ws.take(k)),
    decreases ws.len() - k,
{
    if k < ws.len() {
        assert(ws.take(k + 1).drop_last() =~= ws.take(k));
        lemma_wheels_error_extends(ws, k + 1);
    } else {
        assert(ws.take(k) =~= ws);
    }
}

proof fn lemma_masses_pass(ms: Seq<MassCheck>, known: Seq<Seq<char>>)
    requires
        masses_error(ms, known) is None,
    ensures
        forall|i: int| 0 <= i < ms.len() ==> (#[trigger] ms[i]).values_valid,
    decreases ms.len(),
{
    if ms.len() > 0 {
        lemma_masses_pass(ms.drop_last(), known);
        assert forall|i: int| 0 <= i < ms.len() implies (#[trigger] ms[i]).values_valid by {
            if i < ms.len() - 1 {
                assert(ms.drop_last()[i] == ms[i]);
            }
        }
    }
}

proof fn lemma_sensors_pass(ss: Seq<SensorCheck>)
    requires
        sensor_height_error(ss) is None,
    ensures
        forall|i: int| 0 <= i < ss.len() ==> (#[trigger] ss[i]).height_valid,
    decreases ss.len(),
{
    if ss.len() > 0 {
        lemma_sensors_pass(ss.drop_last());
        assert forall|i: int| 0 <= i < ss.len() implies (#[trigger] ss[i]).height_valid by {
            if i < ss.len() - 1 {
                assert(ss.drop_last()[i] == ss[i]);
            }
        }
    }
}

/// What every accepted assembly satisfies: it has a wheel; every wheel has
/// valid geometry, a non-blank material, a known tire model with valid
/// coefficients, and a motor exactly when it is driven, that motor being
/// `motor:left` or `motor:right`; every mass element and sensor height is
/// valid; the COM height and mass properties are valid; the support
/// polygon has at least three corners. Its first warning describes the
/// solver, then come the tipping warning when the COM lies outside the
/// support polygon, and the solver-fit note of a planar robot that does not
/// fit the four-wheel solver, and nothing else.
pub proof fn lemma_accepted_assembly(c: AssemblyCheck)
    requires
        assembly_result(c) is Ok,
    ensures
        c.wheels@.len() > 0,
        forall|i: int|
            0 <= i < c.wheels@.len() ==> {
                let w = #[trigger] c.wheels@[i];
                &&& w.geometry_valid
                &&& !blank(w.material@)
                &&& (w.tire_model@ == "SlipRatioWheel"@ || w.tire_model@ == "CoulombFrictionWheel"@)
                &&& w.tire_values_valid
                &&& (w.motor matches Some(m) ==> w.kind == WheelKind::Driven && (m@ == "motor:left"@
                    || m@ == "motor:right"@))
                &&& (w.motor is None ==> w.kind != WheelKind::Driven)
            },
        forall|i: int| 0 <= i < c.masses@.len() ==> (#[trigger] c.masses@[i]).values_valid,
        forall|i: int| 0 <= i < c.sensors@.len() ==> (#[trigger] c.sensors@[i]).height_valid,
        c.com_height_valid,
        c.mass_properties is Ok,
        c.support_polygon_len >= 3,
        (assembly_result(c)->Ok_0)[0] == solver_note(c.has_physics),
        c.com_outside_support ==> (assembly_result(c)->Ok_0)[1]
            == "COM projection is outside support polygon; tipping requires a vertical solver."@,
        (assembly_result(c)->Ok_0).len() == 1 + (if c.com_outside_support { 1int } else { 0int }) + (if !c.has_physics
            && c.solver_geometry is Err { 1int } else { 0int }),
{
    let ids = component_ids(c);
    lemma_wheels_pass(c.wheels@);
    lemma_masses_pass(c.masses@, reserved_ids() + ids);
    lemma_sensors_pass(c.sensors@);
    assert forall|i: int| 0 <= i < c.wheels@.len() implies !blank((#[trigger] c.wheels@[i]).material@) by {
        lemma_trim_empty_iff_blank(c.wheels@[i].material@);
    }
}

/// A wheel whose motor does not fit its role is refused by name: when the
/// component ids are sound, the wheels before it pass, and the wheel's own
/// geometry, material and tire are valid, but it has a motor without being
/// driven, or a motor other than `motor:left` and `motor:right`, or no motor
/// though it is driven, the assembly is refused with
/// "<id>: invalid motor association".
pub proof fn lemma_motor_mismatch_refused(c: AssemblyCheck, i: int)
    requires
        first_bad_id(component_ids(c)) is None,
        0 <= i < c.wheels@.len(),
        forall|j: int| 0 <= j < i ==> wheel_error(#[trigger] c.wheels@[j]) is None,
        c.wheels@[i].geometry_valid,
        !blank(c.wheels@[i].material@),
        c.wheels@[i].tire_model@ == "SlipRatioWheel"@ || c.wheels@[i].tire_model@ == "CoulombFrictionWheel"@,
        c.wheels@[i].tire_values_valid,
        match c.wheels@[i].motor {
            Some(m) => c.wheels@[i].kind != WheelKind::Driven || !(m@ == "motor:left"@ || m@ == "motor:right"@),
            None => c.wheels@[i].kind == WheelKind::Driven,
        },
    ensures
        assembly_result(c) == Err::<Seq<Seq<char>>, Seq<char>>(c.wheels@[i].id@ + ": invalid motor association"@),
{
    let ws = c.wheels@;
    lemma_trim_empty_iff_blank(ws[i].material@);
    lemma_wheels_prefix_error(ws, i);
    lemma_wheels_error_extends(ws, i + 1);
}

proof fn lemma_masses_each_pass(ms: Seq<MassCheck>, known: Seq<Seq<char>>)
    requires
        masses_error(ms, known) is None,
    ensures
        forall|k: int| 0 <= k < ms.len() ==> mass_error(ms.take(k), #[trigger] ms[k], known) is None,
    decreases ms.len(),
{
    if ms.len() > 0 {
        lemma_masses_each_pass(ms.drop_last(), known);
        assert forall|k: int| 0 <= k < ms.len() implies mass_error(ms.take(k), #[trigger] ms[k], known) is None by {
            if k < ms.len() - 1 {
                assert(ms.drop_last().take(k) =~= ms.take(k));
                assert(ms.drop_last()[k] == ms[k]);
            } else {
                assert(ms.drop_last() =~= ms.take(k));
            }
        }
    }
}

/// The ids and accounting of an accepted assembly: every sensor, fan and
/// wheel id is non-blank, none is one of the fixed component names
/// (chassis, battery, the two motors, driver, controller, encoder, gyro),
/// and no two are alike; every mass element has a non-blank id of its own,
/// accounts for at most one component, which is a fixed one or a mounted
/// sensor, fan or wheel, and no component is accounted for twice.
pub proof fn lemma_accepted_assembly_ids(c: AssemblyCheck)
    requires
        assembly_result(c) is Ok,
    ensures
        ({
            let fixed = seq![
                "chassis"@,
                "battery"@,
                "motor:left"@,
                "motor:right"@,
                "driver"@,
                "controller"@,
                "encoder"@,
                "gyro"@,
            ];
            let ids = c.sensors@.map_values(|s: SensorCheck| s.id@) + c.fans@.map_values(|f: String| f@)
                + c.wheels@.map_values(|w: WheelCheck| w.id@);
            let ms = c.masses@;
            &&& forall|k: int| 0 <= k < ids.len() ==> !blank(#[trigger] ids[k]) && !fixed.contains(ids[k])
            &&& forall|i: int, k: int| 0 <= i < k < ids.len() ==> #[trigger] ids[i] != #[trigger] ids[k]
            &&& forall|k: int| 0 <= k < ms.len() ==> !blank((#[trigger] ms[k]).id@)
            &&& forall|i: int, k: int| 0 <= i < k < ms.len() ==> (#[trigger] ms[i]).id@ != (#[trigger] ms[k]).id@
            &&& forall|k: int|
                0 <= k < ms.len() ==> ((#[trigger] ms[k]).component matches Some(x) ==> fixed.contains(x@)
                    || ids.contains(x@))
            &&& forall|i: int, k: int|
                0 <= i < k < ms.len() ==> ((#[trigger] ms[k]).component matches Some(x) ==> !((#[trigger] ms[i]).component matches Some(y) && y@ == x@))
        }),
{
    lemma_accepted_component_ids_unique(c);
    let ids = component_ids(c);
    assert forall|k: int| 0 <= k < ids.len() implies !blank(#[trigger] ids[k]) by {
        lemma_trim_empty_iff_blank(ids[k]);
    }
    let ms = c.masses@;
    let known = reserved_ids() + ids;
    lemma_masses_each_pass(ms, known);
    assert forall|k: int| 0 <= k < ms.len() implies !blank((#[trigger] ms[k]).id@) by {
        assert(mass_error(ms.take(k), ms[k], known) is None);
        lemma_trim_empty_iff_blank(ms[k].id@);
    }
    assert forall|i: int, k: int| 0 <= i < k < ms.len() implies (#[trigger] ms[i]).id@ != (#[trigger] ms[k]).id@ by {
        assert(mass_error(ms.take(k), ms[k], known) is None);
        assert(ms.take(k)[i] == ms[i]);
    }
    assert forall|k: int|
        0 <= k < ms.len() implies ((#[trigger] ms[k]).component matches Some(x) ==> reserved_ids().contains(x@)
            || ids.contains(x@)) by {
        assert(mass_error(ms.take(k), ms[k], known) is None);
        if ms[k].component is Some {
            let x = ms[k].component->0;
            let j = choose|j: int| 0 <= j < known.len() && known[j] == x@;
            if j < 8 {
                assert(reserved_ids()[j] == x@);
            } else {
                assert(ids[j - 8] == x@);
            }
        }
    }
    assert forall|i: int, k: int|
        0 <= i < k < ms.len() implies ((#[trigger] ms[k]).component matches Some(x) ==> !((#[trigger] ms[i]).component matches Some(y) && y@ == x@)) by {
        assert(mass_error(ms.take(k), ms[k], known) is None);
        assert(ms.take(k)[i] == ms[i]);
    }
}

} // verus!
