//! Explicit choice of physical models: presets and the consistency of a
//! chosen combination of contact law, normal-load model and refinements.
use vstd::prelude::*;
use crate::text::chars_equal;

verus! {

/// The models that a physics preset selects.
#[derive(Debug, Clone, Copy)]
pub struct PresetModels {
    pub contact: &'static str,
    pub normal: &'static str,
    pub rolling: bool,
}

/// The contact law, normal-load model and rolling switch of a named preset:
/// `ideal`, `simplified` or `realistic`.
pub open spec fn preset_of(name: Seq<char>) -> Option<(Seq<char>, Seq<char>, bool)> {
    if name == "ideal"@ {
        Some(("ideal"@, "static"@, false))
    } else if name == "simplified"@ {
        Some(("coulomb"@, "quasi_static"@, true))
    } else if name == "realistic"@ {
        Some(("brush"@, "quasi_static"@, true))
    } else {
        None
    }
}

/// The models of the preset `name`, or an error naming the unknown preset.
pub fn preset_models(name: &str) -> (r: Result<PresetModels, String>)
    ensures
        preset_of(name@) matches Some((c, n, roll)) ==> (r matches Ok(m) && m.contact@ == c && m.normal@
            == n && m.rolling == roll),
        preset_of(name@) is None ==> (r matches Err(e) && e@ == "unknown physics preset: "@ + name@),
{
    let v = crate::text::chars_of(name);
    if chars_equal(&v, "ideal") {
        Ok(PresetModels { contact: "ideal", normal: "static", rolling: false })
    } else if chars_equal(&v, "simplified") {
        Ok(PresetModels { contact: "coulomb", normal: "quasi_static", rolling: true })
    } else if chars_equal(&v, "realistic") {
        Ok(PresetModels { contact: "brush", normal: "quasi_static", rolling: true })
    } else {
        let mut e = "unknown physics preset: ".to_owned();
        e.append(name);
        Err(e)
    }
}

/// What validation reads of a physics configuration: the preset, contact
/// and normal model names and the rolling switch, with the verdicts on its
/// numbers. `positive_valid` holds, in order, whether `reference_load_n`,
/// `longitudinal_stiffness`, `lateral_stiffness` and `caster_trail_m` are
/// positive and finite; `nonnegative_valid` whether `load_exponent`,
/// `relaxation_s` and `radial_stiffness_n_m` are nonnegative and finite;
/// `refinements_zero` whether those three are all zero.
#[derive(Debug, Clone)]
pub struct FidelityCheck {
    pub preset: String,
    pub contact: String,
    pub normal: String,
    pub rolling: bool,
    pub positive_valid: [bool; 4],
    pub nonnegative_valid: [bool; 3],
    pub load_exponent_at_most_one: bool,
    pub refinements_zero: bool,
}

/// The names of the parameters that must be positive, in checking order.
pub open spec fn positive_names() -> Seq<Seq<char>> {
    seq!["reference_load_n"@, "longitudinal_stiffness"@, "lateral_stiffness"@, "caster_trail_m"@]
}

/// The names of the parameters that must be nonnegative, in checking order.
pub open spec fn nonnegative_names() -> Seq<Seq<char>> {
    seq!["load_exponent"@, "relaxation_s"@, "radial_stiffness_n_m"@]
}

/// The index of the first `false` in `v`, if any.
pub open spec fn first_false(v: Seq<bool>) -> Option<int>
    decreases v.len(),
{
    if v.len() == 0 {
        None
    } else {
        match first_false(v.drop_last()) {
            Some(k) => Some(k),
            None => if !v.last() {
                Some(v.len() - 1)
            } else {
                None
            },
        }
    }
}

/// The complaint about a physics configuration, if any.
pub open spec fn fidelity_error(c: FidelityCheck) -> Option<Seq<char>> {
    let contact = c.contact@;
    let normal = c.normal@;
    if preset_of(c.preset@) is None {
        Some("unknown physics preset: "@ + c.preset@)
    } else if !(contact == "ideal"@ || contact == "coulomb"@ || contact == "brush"@) || !(normal
        == "static"@ || normal == "quasi_static"@) {
        Some("unknown contact/normal model"@)
    } else if first_false(c.positive_valid@) is Some {
        Some("physics."@ + positive_names()[first_false(c.positive_valid@)->0] + " must be positive and finite"@)
    } else if first_false(c.nonnegative_valid@) is Some {
        Some("physics."@ + nonnegative_names()[first_false(c.nonnegative_valid@)->0]
            + " must be nonnegative and finite"@)
    } else if !c.load_exponent_at_most_one {
        Some("load_exponent must be <= 1"@)
    } else if contact != "brush"@ && !c.refinements_zero {
        Some("tire refinements require brush contact"@)
    } else if contact == "ideal"@ && (c.rolling || normal != "static"@) {
        Some("ideal kinematics requires static normal and rolling disabled"@)
    } else {
        None
    }
}

proof fn lemma_first_false_prefix(v: Seq<bool>, k: int)
    requires
        0 <= k <= v.len(),
        first_false(v.take(k)) is Some,
    ensures
        first_false(v) == first_false(v.take(k)),
    decreases v.len() - k,
{
    if k < v.len() {
        assert(v.take(k + 1).drop_last() =~= v.take(k));
        lemma_first_false_prefix(v, k + 1);
    } else {
        assert(v.take(k) =~= v);
    }
}

/// The index of the first `false` among `v`.
fn find_false(v: &[bool]) -> (r: Option<usize>)
    ensures
        r matches Some(k) ==> first_false(v@) == Some(k as int) && k < v@.len(),
        r is None ==> first_false(v@) is None,
{
    let mut i: usize = 0;
    while i < v.len()
        invariant
            i <= v@.len(),
            first_false(v@.take(i as int)) is None,
        decreases v.len() - i,
    {
        assert(v@.take(i + 1).drop_last() =~= v@.take(i as int));
        if !v[i] {
            proof {
                lemma_first_false_prefix(v@, i + 1);
            }
            return Some(i);
        }
        i = i + 1;
    }
    assert(v@.take(i as int) =~= v@);
    None
}

fn param_message(name: &str, tail: &str) -> (r: String)
    ensures
        r@ == "physics."@ + name@ + tail@,
{
    let mut s = "physics.".to_owned();
    s.append(name);
    s.append(tail);
    s
}

/// Checks a physics configuration: a known preset, known contact and normal
/// models, positive stiffnesses, load and trail, nonnegative refinements
/// with a load exponent of at most one, refinements only with brush
/// contact, and ideal kinematics only with static normal loads and without
/// rolling resistance.
pub fn validate_fidelity(c: &FidelityCheck) -> (r: Result<(), String>)
    ensures
        r is Ok <==> fidelity_error(*c) is None,
        r matches Err(e) ==> fidelity_error(*c) == Some(e@),
{
    preset_models(c.preset.as_str())?;
    let contact = crate::text::chars_of(c.contact.as_str());
    let normal = crate::text::chars_of(c.normal.as_str());
    let is_ideal = chars_equal(&contact, "ideal");
    let is_brush = chars_equal(&contact, "brush");
    let is_static = chars_equal(&normal, "static");
    if !(is_ideal || chars_equal(&contact, "coulomb") || is_brush) || !(is_static || chars_equal(
        &normal,
        "quasi_static",
    )) {
        return Err("unknown contact/normal model".to_owned());
    }
    match find_false(&c.positive_valid) {
        Some(k) => {
            let names = ["reference_load_n", "longitudinal_stiffness", "lateral_stiffness", "caster_trail_m"];
            assert(names@.map_values(|s: &str| s@) =~= positive_names());
            assert(names@[k as int]@ == positive_names()[k as int]) by {
                assert(names@.map_values(|s: &str| s@)[k as int] == names@[k as int]@);
            }
            return Err(param_message(names[k], " must be positive and finite"));
        },
        None => {},
    }
    match find_false(&c.nonnegative_valid) {
        Some(k) => {
            let names = ["load_exponent", "relaxation_s", "radial_stiffness_n_m"];
            assert(names@.map_values(|s: &str| s@) =~= nonnegative_names());
            assert(names@[k as int]@ == nonnegative_names()[k as int]) by {
                assert(names@.map_values(|s: &str| s@)[k as int] == names@[k as int]@);
            }
            return Err(param_message(names[k], " must be nonnegative and finite"));
        },
        None => {},
    }
    if !c.load_exponent_at_most_one {
        return Err("load_exponent must be <= 1".to_owned());
    }
    if !is_brush && !c.refinements_zero {
        return Err("tire refinements require brush contact".to_owned());
    }
    if is_ideal && (c.rolling || !is_static) {
        return Err("ideal kinematics requires static normal and rolling disabled".to_owned());
    }
    Ok(())
}

/// Every preset is itself a consistent choice: its contact and normal
/// models are known, and the ideal preset has static loads and no rolling.
pub proof fn lemma_presets_are_consistent(name: Seq<char>)
    requires
        preset_of(name) is Some,
    ensures
        ({
            let (c, n, roll) = preset_of(name)->0;
            &&& (c == "ideal"@ || c == "coulomb"@ || c == "brush"@)
            &&& (n == "static"@ || n == "quasi_static"@)
            &&& c == "ideal"@ ==> (!roll && n == "static"@)
        }),
{
    reveal_strlit("ideal");
    reveal_strlit("coulomb");
    reveal_strlit("brush");
    reveal_strlit("static");
    reveal_strlit("quasi_static");
    assert("brush"@[0] != "ideal"@[0]);
}

proof fn lemma_no_false(v: Seq<bool>)
    requires
        first_false(v) is None,
    ensures
        forall|i: int| 0 <= i < v.len() ==> #[trigger] v[i],
    decreases v.len(),
{
    if v.len() > 0 {
        lemma_no_false(v.drop_last());
        assert forall|i: int| 0 <= i < v.len() implies #[trigger] v[i] by {
            if i < v.len() - 1 {
                assert(v.drop_last()[i] == v[i]);
            }
        }
    }
}

/// What every accepted physics configuration satisfies: its preset is
/// `ideal`, `simplified` or `realistic`; its contact law is `ideal`,
/// `coulomb` or `brush` and its normal model `static` or `quasi_static`;
/// every parameter that must be positive is, every one that must be
/// nonnegative is, the load exponent is at most one; tire refinements are
/// zero unless the contact is `brush`; ideal contact has a static normal
/// model and no rolling.
pub proof fn lemma_accepted_fidelity(c: FidelityCheck)
    requires
        fidelity_error(c) is None,
    ensures
        c.preset@ == "ideal"@ || c.preset@ == "simplified"@ || c.preset@ == "realistic"@,
        c.contact@ == "ideal"@ || c.contact@ == "coulomb"@ || c.contact@ == "brush"@,
        c.normal@ == "static"@ || c.normal@ == "quasi_static"@,
        forall|i: int| 0 <= i < 4 ==> #[trigger] c.positive_valid@[i],
        forall|i: int| 0 <= i < 3 ==> #[trigger] c.nonnegative_valid@[i],
        c.load_exponent_at_most_one,
        c.contact@ != "brush"@ ==> c.refinements_zero,
        c.contact@ == "ideal"@ ==> !c.rolling && c.normal@ == "static"@,
{
    lemma_no_false(c.positive_valid@);
    lemma_no_false(c.nonnegative_valid@);
}

} // verus!
