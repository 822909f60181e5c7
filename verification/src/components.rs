//! The components of a robot as the editor lists, finds, duplicates and
//! removes them: the wheels of its assembly, its sensors and its fans, found
//! by id, with the masses and optical settings that refer to them. A robot
//! without an explicit assembly has the one derived from its legacy
//! drivetrain: four driven wheels and the masses of its chassis, battery,
//! motors and fans; editing a component makes that assembly explicit.
use vstd::prelude::*;

verus! {

/// A part of the robot with its id and whatever else it carries.
#[derive(Debug, Clone)]
pub struct Part<T> {
    pub id: String,
    pub data: T,
}

/// A point mass of the assembly, attached to the component it belongs to
/// (if any).
#[derive(Debug, Clone)]
pub struct MassPart<T> {
    pub id: String,
    pub component: Option<String>,
    pub data: T,
}

/// The wheels and point masses of an assembly.
#[derive(Debug, Clone)]
pub struct Assembly<W, M> {
    pub wheels: Vec<Part<W>>,
    pub masses: Vec<MassPart<M>>,
}

/// What the legacy drivetrain gives the wheels and masses of a derived
/// assembly: the data of its four wheels, of the chassis mass, and of the
/// massless placeholders for the battery, the motors and the fans.
#[derive(Debug, Clone, Copy)]
pub struct LegacyParts<W, M> {
    pub left_front: W,
    pub left_rear: W,
    pub right_front: W,
    pub right_rear: W,
    pub chassis_mass: M,
    pub placeholder_mass: M,
}

/// The parts of a robot that carry component ids: its explicit assembly
/// (if any) and what a derived one is made from, its sensors, the optical
/// settings kept per sensor id, and its fans.
#[derive(Debug, Clone)]
pub struct RobotParts<W, M, S, O, F> {
    pub assembly: Option<Assembly<W, M>>,
    pub legacy: LegacyParts<W, M>,
    pub sensors: Vec<Part<S>>,
    pub optical: Vec<Part<O>>,
    pub fans: Vec<Part<F>>,
}

/// The ids of a list of parts, in order.
pub open spec fn ids_of<T>(parts: Seq<Part<T>>) -> Seq<Seq<char>> {
    parts.map_values(|p: Part<T>| p.id@)
}

/// A list of parts as (id, data) pairs.
pub open spec fn part_entries<T>(parts: Seq<Part<T>>) -> Seq<(Seq<char>, T)> {
    parts.map_values(|p: Part<T>| (p.id@, p.data))
}

/// The component a mass is attached to, as text.
pub open spec fn attachment(m: MassPart<impl Sized>) -> Option<Seq<char>> {
    match m.component {
        Some(c) => Some(c@),
        None => None,
    }
}

/// A list of masses as (id, attachment, data) triples.
pub open spec fn mass_entries<T>(masses: Seq<MassPart<T>>) -> Seq<(Seq<char>, Option<Seq<char>>, T)> {
    masses.map_values(|m: MassPart<T>| (m.id@, attachment(m), m.data))
}

/// The wheels of the assembly derived from the legacy drivetrain: left
/// front, left rear, right front, right rear.
pub open spec fn legacy_wheel_entries<W, M>(l: LegacyParts<W, M>) -> Seq<(Seq<char>, W)> {
    seq![
        ("wheel:left:front"@, l.left_front),
        ("wheel:left:rear"@, l.left_rear),
        ("wheel:right:front"@, l.right_front),
        ("wheel:right:rear"@, l.right_rear),
    ]
}

/// The masses of the assembly derived from the legacy drivetrain: the
/// chassis, then massless placeholders for the battery, the two motors and
/// each fan, each attached to its component.
pub open spec fn legacy_mass_entries<W, M>(l: LegacyParts<W, M>, fan_ids: Seq<Seq<char>>) -> Seq<(Seq<char>, Option<Seq<char>>, M)> {
    seq![
        ("mass:chassis"@, Some("chassis"@), l.chassis_mass),
        ("mass:battery"@, Some("battery"@), l.placeholder_mass),
        ("mass:motor:left"@, Some("motor:left"@), l.placeholder_mass),
        ("mass:motor:right"@, Some("motor:right"@), l.placeholder_mass),
    ] + fan_ids.map_values(|f: Seq<char>| ("mass:"@ + f, Some(f), l.placeholder_mass))
}

/// The wheels of the robot's effective assembly: the explicit one, or the
/// one derived from the legacy drivetrain.
pub open spec fn effective_wheel_entries<W, M, S, O, F>(r: RobotParts<W, M, S, O, F>) -> Seq<(Seq<char>, W)> {
    match r.assembly {
        Some(a) => part_entries(a.wheels@),
        None => legacy_wheel_entries(r.legacy),
    }
}

/// The masses of the robot's effective assembly.
pub open spec fn effective_mass_entries<W, M, S, O, F>(r: RobotParts<W, M, S, O, F>) -> Seq<(Seq<char>, Option<Seq<char>>, M)> {
    match r.assembly {
        Some(a) => mass_entries(a.masses@),
        None => legacy_mass_entries(r.legacy, ids_of(r.fans@)),
    }
}

/// The ids of the robot's effective wheels.
pub open spec fn effective_wheel_ids<W, M, S, O, F>(r: RobotParts<W, M, S, O, F>) -> Seq<Seq<char>> {
    effective_wheel_entries(r).map_values(|e: (Seq<char>, W)| e.0)
}

/// The ids of the robot's components: its effective wheels, then its
/// sensors, then its fans.
pub open spec fn all_component_ids<W, M, S, O, F>(r: RobotParts<W, M, S, O, F>) -> Seq<Seq<char>> {
    effective_wheel_ids(r) + ids_of(r.sensors@) + ids_of(r.fans@)
}

/// The (id, data) pairs whose id is not `id`, in their order.
pub open spec fn entries_without<T>(es: Seq<(Seq<char>, T)>, id: Seq<char>) -> Seq<(Seq<char>, T)>
    decreases es.len(),
{
    if es.len() == 0 {
        es
    } else {
        let rest = entries_without(es.drop_last(), id);
        if es.last().0 == id {
            rest
        } else {
            rest.push(es.last())
        }
    }
}

/// The masses not attached to component `id`, in their order.
pub open spec fn mass_entries_without<T>(es: Seq<(Seq<char>, Option<Seq<char>>, T)>, id: Seq<char>) -> Seq<(Seq<char>, Option<Seq<char>>, T)>
    decreases es.len(),
{
    if es.len() == 0 {
        es
    } else {
        let rest = mass_entries_without(es.drop_last(), id);
        if es.last().1 == Some(id) {
            rest
        } else {
            rest.push(es.last())
        }
    }
}

/// The parts whose id is not `id`, in their order.
pub open spec fn without<T>(parts: Seq<Part<T>>, id: Seq<char>) -> Seq<Part<T>>
    decreases parts.len(),
{
    if parts.len() == 0 {
        parts
    } else {
        let rest = without(parts.drop_last(), id);
        if parts.last().id@ == id {
            rest
        } else {
            rest.push(parts.last())
        }
    }
}

/// The masses not attached to component `id`, in their order.
pub open spec fn masses_without<T>(masses: Seq<MassPart<T>>, id: Seq<char>) -> Seq<MassPart<T>>
    decreases masses.len(),
{
    if masses.len() == 0 {
        masses
    } else {
        let rest = masses_without(masses.drop_last(), id);
        if masses.last().component matches Some(c) && c@ == id {
            rest
        } else {
            rest.push(masses.last())
        }
    }
}

fn push_ids<T>(out: &mut Vec<String>, parts: &Vec<Part<T>>)
    ensures
        final(out)@.map_values(|s: String| s@) == old(out)@.map_values(|s: String| s@) + ids_of(parts@),
{
    let mut i: usize = 0;
    while i < parts.len()
        invariant
            i <= parts.len(),
            out@.map_values(|s: String| s@) == old(out)@.map_values(|s: String| s@) + ids_of(parts@.take(i as int)),
        decreases parts.len() - i,
    {
        let ghost before = out@;
        out.push(parts[i].id.clone());
        proof {
            assert(parts@.take(i + 1) =~= parts@.take(i as int).push(parts@[i as int]));
            assert(out@ =~= before.push(parts@[i as int].id));
            assert(ids_of(parts@.take(i + 1)) =~= ids_of(parts@.take(i as int)).push(parts@[i as int].id@));
            assert(out@.map_values(|s: String| s@) =~= before.map_values(|s: String| s@).push(parts@[i as int].id@));
        }
        i = i + 1;
        assert(out@.map_values(|s: String| s@) =~= old(out)@.map_values(|s: String| s@) + ids_of(
            parts@.take(i as int),
        ));
    }
    assert(parts@.take(parts.len() as int) =~= parts@);
}

/// The ids of the wheels of the assembly derived from the legacy drivetrain.
fn push_legacy_wheel_ids(out: &mut Vec<String>)
    ensures
        final(out)@.map_values(|s: String| s@) == old(out)@.map_values(|s: String| s@) + seq![
            "wheel:left:front"@,
            "wheel:left:rear"@,
            "wheel:right:front"@,
            "wheel:right:rear"@,
        ],
{
    out.push("wheel:left:front".to_owned());
    out.push("wheel:left:rear".to_owned());
    out.push("wheel:right:front".to_owned());
    out.push("wheel:right:rear".to_owned());
    assert(final(out)@.map_values(|s: String| s@) =~= old(out)@.map_values(|s: String| s@) + seq![
        "wheel:left:front"@,
        "wheel:left:rear"@,
        "wheel:right:front"@,
        "wheel:right:rear"@,
    ]);
}

/// The ids of the robot's components: the wheels of its effective assembly
/// (for a robot without an explicit one, the four wheels of the legacy
/// drivetrain), then its sensors, then its fans, each in their order.
pub fn component_ids<W, M, S, O, F>(robot: &RobotParts<W, M, S, O, F>) -> (r: Vec<String>)
    ensures
        r@.map_values(|s: String| s@) == all_component_ids(*robot),
{
    let mut r: Vec<String> = Vec::new();
    assert(r@.map_values(|s: String| s@) =~= Seq::<Seq<char>>::empty());
    match &robot.assembly {
        Some(a) => {
            push_ids(&mut r, &a.wheels);
            assert(ids_of(a.wheels@) =~= effective_wheel_ids(*robot));
        },
        None => {
            push_legacy_wheel_ids(&mut r);
            assert(effective_wheel_ids(*robot) =~= seq![
                "wheel:left:front"@,
                "wheel:left:rear"@,
                "wheel:right:front"@,
                "wheel:right:rear"@,
            ]);
        },
    }
    push_ids(&mut r, &robot.sensors);
    push_ids(&mut r, &robot.fans);
    assert(r@.map_values(|s: String| s@) =~= all_component_ids(*robot));
    r
}

fn prefixed(prefix: &str, id: &String) -> (r: String)
    ensures
        r@ == prefix@ + id@,
{
    let mut r = prefix.to_owned();
    r.append(id.as_str());
    r
}

/// The assembly derived from the legacy drivetrain: its four wheels, the
/// chassis mass and massless placeholders for the battery, the motors and
/// each of `fans`.
pub fn legacy_assembly<W: Copy, M: Copy, F>(legacy: &LegacyParts<W, M>, fans: &Vec<Part<F>>) -> (a: Assembly<W, M>)
    ensures
        part_entries(a.wheels@) == legacy_wheel_entries(*legacy),
        mass_entries(a.masses@) == legacy_mass_entries(*legacy, ids_of(fans@)),
{
    let mut wheels: Vec<Part<W>> = Vec::new();
    wheels.push(Part { id: "wheel:left:front".to_owned(), data: legacy.left_front });
    wheels.push(Part { id: "wheel:left:rear".to_owned(), data: legacy.left_rear });
    wheels.push(Part { id: "wheel:right:front".to_owned(), data: legacy.right_front });
    wheels.push(Part { id: "wheel:right:rear".to_owned(), data: legacy.right_rear });
    assert(part_entries(wheels@) =~= legacy_wheel_entries(*legacy));
    let mut masses: Vec<MassPart<M>> = Vec::new();
    masses.push(MassPart { id: "mass:chassis".to_owned(), component: Some("chassis".to_owned()), data: legacy.chassis_mass });
    masses.push(MassPart { id: "mass:battery".to_owned(), component: Some("battery".to_owned()), data: legacy.placeholder_mass });
    masses.push(MassPart { id: "mass:motor:left".to_owned(), component: Some("motor:left".to_owned()), data: legacy.placeholder_mass });
    masses.push(MassPart { id: "mass:motor:right".to_owned(), component: Some("motor:right".to_owned()), data: legacy.placeholder_mass });
    let ghost fixed = mass_entries(masses@);
    assert(fixed =~= legacy_mass_entries(*legacy, Seq::empty()));
    let mut i: usize = 0;
    while i < fans.len()
        invariant
            i <= fans.len(),
            fixed == legacy_mass_entries(*legacy, Seq::empty()),
            mass_entries(masses@) == legacy_mass_entries(*legacy, ids_of(fans@.take(i as int))),
        decreases fans.len() - i,
    {
        let ghost before = masses@;
        let f = &fans[i];
        masses.push(MassPart { id: prefixed("mass:", &f.id), component: Some(f.id.clone()), data: legacy.placeholder_mass });
        proof {
            assert(ids_of(fans@.take(i + 1)) =~= ids_of(fans@.take(i as int)).push(f.id@));
            assert(mass_entries(masses@) =~= mass_entries(before).push(("mass:"@ + f.id@, Some(f.id@), legacy.placeholder_mass)));
            assert(legacy_mass_entries(*legacy, ids_of(fans@.take(i + 1))) =~= legacy_mass_entries(
                *legacy,
                ids_of(fans@.take(i as int)),
            ).push(("mass:"@ + f.id@, Some(f.id@), legacy.placeholder_mass)));
        }
        i = i + 1;
    }
    assert(fans@.take(fans.len() as int) =~= fans@);
    Assembly { wheels, masses }
}

proof fn lemma_entries_without<T>(parts: Seq<Part<T>>, id: Seq<char>)
    ensures
        part_entries(without(parts, id)) == entries_without(part_entries(parts), id),
    decreases parts.len(),
{
    if parts.len() > 0 {
        lemma_entries_without(parts.drop_last(), id);
        assert(part_entries(parts).drop_last() =~= part_entries(parts.drop_last()));
        let rest = without(parts.drop_last(), id);
        assert(part_entries(rest.push(parts.last())) =~= part_entries(rest).push(part_entries(parts).last()));
    }
}

proof fn lemma_mass_entries_without<T>(masses: Seq<MassPart<T>>, id: Seq<char>)
    ensures
        mass_entries(masses_without(masses, id)) == mass_entries_without(mass_entries(masses), id),
    decreases masses.len(),
{
    if masses.len() > 0 {
        lemma_mass_entries_without(masses.drop_last(), id);
        assert(mass_entries(masses).drop_last() =~= mass_entries(masses.drop_last()));
        let rest = masses_without(masses.drop_last(), id);
        assert(mass_entries(rest.push(masses.last())) =~= mass_entries(rest).push(mass_entries(masses).last()));
    }
}

fn same_id(a: &String, b: &str) -> (r: bool)
    ensures
        r == (a@ == b@),
{
    let other = b.to_owned();
    *a == other
}

fn is_known(robot_ids: &Vec<String>, id: &str) -> (r: bool)
    ensures
        r == robot_ids@.map_values(|s: String| s@).contains(id@),
{
    let mut i: usize = 0;
    while i < robot_ids.len()
        invariant
            i <= robot_ids.len(),
            forall|k: int| 0 <= k < i ==> robot_ids@[k]@ != id@,
        decreases robot_ids.len() - i,
    {
        if same_id(&robot_ids[i], id) {
            assert(robot_ids@.map_values(|s: String| s@)[i as int] == id@);
            return true;
        }
        i = i + 1;
    }
    proof {
        let ids = robot_ids@.map_values(|s: String| s@);
        if ids.contains(id@) {
            let k = choose|k: int| 0 <= k < ids.len() && ids[k] == id@;
            assert(robot_ids@[k]@ == id@);
        }
    }
    false
}

proof fn lemma_without_prefix<T>(parts: Seq<Part<T>>, id: Seq<char>, j: int)
    requires
        0 <= j < parts.len(),
    ensures
        without(parts.take(j + 1), id) == (if parts[j].id@ == id {
            without(parts.take(j), id)
        } else {
            without(parts.take(j), id).push(parts[j])
        }),
{
    assert(parts.take(j + 1).drop_last() =~= parts.take(j));
}

fn remove_parts<T>(parts: &mut Vec<Part<T>>, id: &str)
    ensures
        final(parts)@ == without(old(parts)@, id@),
{
    let ghost orig = parts@;
    let initial_len: usize = parts.len();
    let mut i: usize = 0;
    let mut j: usize = 0;
    while i < parts.len()
        invariant
            j <= orig.len(),
            orig.len() == initial_len,
            i <= parts@.len(),
            parts@.len() - i == orig.len() - j,
            parts@.take(i as int) == without(orig.take(j as int), id@),
            parts@.skip(i as int) == orig.skip(j as int),
        decreases parts.len() - i,
    {
        proof {
            assert(parts@[i as int] == orig[j as int]) by {
                assert(parts@.skip(i as int)[0] == orig.skip(j as int)[0]);
            }
            lemma_without_prefix(orig, id@, j as int);
        }
        if same_id(&parts[i].id, id) {
            let ghost before = parts@;
            let _ = parts.remove(i);
            proof {
                assert(parts@.take(i as int) =~= before.take(i as int));
                assert(before.skip(i as int).drop_first() =~= before.skip(i + 1));
                assert(orig.skip(j as int).drop_first() =~= orig.skip(j + 1));
                assert(parts@.skip(i as int) =~= before.skip(i + 1));
                assert(parts@.skip(i as int) =~= orig.skip(j + 1));
            }
        } else {
            let ghost before = parts@;
            i = i + 1;
            proof {
                assert(parts@.take(i as int) =~= before.take(i - 1).push(orig[j as int]));
                assert(before.skip(i - 1).drop_first() =~= before.skip(i as int));
                assert(orig.skip(j as int).drop_first() =~= orig.skip(j + 1));
                assert(parts@.skip(i as int) =~= orig.skip(j + 1));
            }
        }
        j = j + 1;
    }
    proof {
        assert(orig.skip(j as int).len() == 0);
        assert(j == orig.len());
        assert(orig.take(j as int) =~= orig);
        assert(parts@.take(i as int) =~= parts@);
    }
}

proof fn lemma_masses_prefix<T>(masses: Seq<MassPart<T>>, id: Seq<char>, j: int)
    requires
        0 <= j < masses.len(),
    ensures
        masses_without(masses.take(j + 1), id) == (if masses[j].component matches Some(c) && c@ == id {
            masses_without(masses.take(j), id)
        } else {
            masses_without(masses.take(j), id).push(masses[j])
        }),
{
    assert(masses.take(j + 1).drop_last() =~= masses.take(j));
}

fn attached(m: &MassPart<impl Sized>, id: &str) -> (r: bool)
    ensures
        r == (m.component matches Some(c) && c@ == id@),
{
    match &m.component {
        Some(c) => same_id(c, id),
        None => false,
    }
}

fn remove_masses<T>(masses: &mut Vec<MassPart<T>>, id: &str)
    ensures
        final(masses)@ == masses_without(old(masses)@, id@),
{
    let ghost orig = masses@;
    let initial_len: usize = masses.len();
    let mut i: usize = 0;
    let mut j: usize = 0;
    while i < masses.len()
        invariant
            j <= orig.len(),
            orig.len() == initial_len,
            i <= masses@.len(),
            masses@.len() - i == orig.len() - j,
            masses@.take(i as int) == masses_without(orig.take(j as int), id@),
            masses@.skip(i as int) == orig.skip(j as int),
        decreases masses.len() - i,
    {
        proof {
            assert(masses@[i as int] == orig[j as int]) by {
                assert(masses@.skip(i as int)[0] == orig.skip(j as int)[0]);
            }
            lemma_masses_prefix(orig, id@, j as int);
        }
        if attached(&masses[i], id) {
            let ghost before = masses@;
            let _ = masses.remove(i);
            proof {
                assert(masses@.take(i as int) =~= before.take(i as int));
                assert(before.skip(i as int).drop_first() =~= before.skip(i + 1));
                assert(orig.skip(j as int).drop_first() =~= orig.skip(j + 1));
                assert(masses@.skip(i as int) =~= before.skip(i + 1));
                assert(masses@.skip(i as int) =~= orig.skip(j + 1));
            }
        } else {
            let ghost before = masses@;
            i = i + 1;
            proof {
                assert(masses@.take(i as int) =~= before.take(i - 1).push(orig[j as int]));
                assert(before.skip(i - 1).drop_first() =~= before.skip(i as int));
                assert(orig.skip(j as int).drop_first() =~= orig.skip(j + 1));
                assert(masses@.skip(i as int) =~= orig.skip(j + 1));
            }
        }
        j = j + 1;
    }
    proof {
        assert(orig.skip(j as int).len() == 0);
        assert(orig.take(j as int) =~= orig);
        assert(masses@.take(i as int) =~= masses@);
    }
}

/// Takes the robot's assembly out, making it explicit first: the assembly
/// derived from the legacy drivetrain where the robot has none.
fn take_assembly<W: Copy, M: Copy, S, O, F>(robot: &mut RobotParts<W, M, S, O, F>) -> (a: Assembly<W, M>)
    ensures
        part_entries(a.wheels@) == effective_wheel_entries(*old(robot)),
        mass_entries(a.masses@) == effective_mass_entries(*old(robot)),
        final(robot).assembly is None,
        final(robot).legacy == old(robot).legacy,
        final(robot).sensors == old(robot).sensors,
        final(robot).optical == old(robot).optical,
        final(robot).fans == old(robot).fans,
{
    match robot.assembly.take() {
        Some(a) => a,
        None => legacy_assembly(&robot.legacy, &robot.fans),
    }
}

proof fn lemma_without_excludes<T>(parts: Seq<Part<T>>, id: Seq<char>)
    ensures
        !ids_of(without(parts, id)).contains(id),
    decreases parts.len(),
{
    if parts.len() > 0 {
        lemma_without_excludes(parts.drop_last(), id);
        let rest = without(parts.drop_last(), id);
        if parts.last().id@ != id {
            let r = rest.push(parts.last());
            if ids_of(r).contains(id) {
                let k = choose|k: int| 0 <= k < ids_of(r).len() && ids_of(r)[k] == id;
                if k < rest.len() {
                    assert(ids_of(rest)[k] == id);
                }
            }
        }
    }
}

proof fn lemma_entries_without_excludes<T>(es: Seq<(Seq<char>, T)>, id: Seq<char>)
    ensures
        forall|i: int| 0 <= i < entries_without(es, id).len() ==> (#[trigger] entries_without(es, id)[i]).0 != id,
    decreases es.len(),
{
    if es.len() > 0 {
        lemma_entries_without_excludes(es.drop_last(), id);
        let rest = entries_without(es.drop_last(), id);
        if es.last().0 != id {
            assert forall|i: int| 0 <= i < rest.push(es.last()).len() implies (#[trigger] rest.push(es.last())[i]).0 != id by {
                if i < rest.len() {
                    assert(rest.push(es.last())[i] == rest[i]);
                }
            }
        }
    }
}

proof fn lemma_mass_entries_without_excludes<T>(es: Seq<(Seq<char>, Option<Seq<char>>, T)>, id: Seq<char>)
    ensures
        forall|i: int|
            0 <= i < mass_entries_without(es, id).len() ==> (#[trigger] mass_entries_without(es, id)[i]).1 != Some(id),
    decreases es.len(),
{
    if es.len() > 0 {
        lemma_mass_entries_without_excludes(es.drop_last(), id);
        let rest = mass_entries_without(es.drop_last(), id);
        if es.last().1 != Some(id) {
            assert forall|i: int| 0 <= i < rest.push(es.last()).len() implies (#[trigger] rest.push(es.last())[i]).1 != Some(id) by {
                if i < rest.len() {
                    assert(rest.push(es.last())[i] == rest[i]);
                }
            }
        }
    }
}

/// Removes component `id`: the wheel, sensor or fan of that id, the masses
/// attached to it and its optical settings; the robot's assembly is explicit
/// afterwards. An id that names no component is refused and nothing
/// changes.
pub fn remove_component<W: Copy, M: Copy, S, O, F>(robot: &mut RobotParts<W, M, S, O, F>, id: &str) -> (r: Result<(), String>)
    ensures
        r is Ok <==> all_component_ids(*old(robot)).contains(id@),
        r matches Err(e) ==> e@ == "unknown component "@ + id@ && *final(robot) == *old(robot),
        r is Ok ==> (final(robot).assembly matches Some(a) && {
            &&& part_entries(a.wheels@) == entries_without(effective_wheel_entries(*old(robot)), id@)
            &&& mass_entries(a.masses@) == mass_entries_without(effective_mass_entries(*old(robot)), id@)
        }),
        r is Ok ==> !all_component_ids(*final(robot)).contains(id@),
        r is Ok ==> !attachments(effective_mass_entries(*final(robot))).contains(Some(id@)),
        r is Ok ==> !ids_of(final(robot).optical@).contains(id@),
        r is Ok ==> {
            &&& final(robot).legacy == old(robot).legacy
            &&& final(robot).sensors@ == without(old(robot).sensors@, id@)
            &&& final(robot).optical@ == without(old(robot).optical@, id@)
            &&& final(robot).fans@ == without(old(robot).fans@, id@)
        },
{
    let ids = component_ids(robot);
    if !is_known(&ids, id) {
        let mut e = "unknown component ".to_owned();
        e.append(id);
        return Err(e);
    }
    let mut a = take_assembly(robot);
    let ghost wheels0 = a.wheels@;
    let ghost masses0 = a.masses@;
    remove_parts(&mut a.wheels, id);
    remove_masses(&mut a.masses, id);
    proof {
        lemma_entries_without(wheels0, id@);
        lemma_mass_entries_without(masses0, id@);
    }
    robot.assembly = Some(a);
    remove_parts(&mut robot.sensors, id);
    remove_parts(&mut robot.optical, id);
    remove_parts(&mut robot.fans, id);
    proof {
        let fr = *robot;
        let we = entries_without(effective_wheel_entries(*old(robot)), id@);
        lemma_entries_without_excludes(effective_wheel_entries(*old(robot)), id@);
        lemma_without_excludes(old(robot).sensors@, id@);
        lemma_without_excludes(old(robot).fans@, id@);
        lemma_without_excludes(old(robot).optical@, id@);
        let me = mass_entries_without(effective_mass_entries(*old(robot)), id@);
        lemma_mass_entries_without_excludes(effective_mass_entries(*old(robot)), id@);
        let att = attachments(effective_mass_entries(fr));
        if att.contains(Some(id@)) {
            let k = choose|k: int| 0 <= k < att.len() && att[k] == Some(id@);
            assert(me[k].1 == Some(id@));
        }
        let w = effective_wheel_ids(fr);
        assert(w =~= we.map_values(|e: (Seq<char>, W)| e.0));
        let all = all_component_ids(fr);
        if all.contains(id@) {
            let k = choose|k: int| 0 <= k < all.len() && all[k] == id@;
            if k < w.len() {
                assert(we[k].0 == id@);
            } else if k < w.len() + ids_of(fr.sensors@).len() {
                assert(ids_of(fr.sensors@)[k - w.len()] == id@);
            } else {
                assert(ids_of(fr.fans@)[k - w.len() - ids_of(fr.sensors@).len()] == id@);
            }
        }
    }
    Ok(())
}

/// Where a component stands: the index of a wheel of the assembly, of a
/// sensor or of a fan.
#[derive(Debug, Clone, Copy, PartialEq, Eq, Structural)]
pub enum ComponentRef {
    Wheel(usize),
    Sensor(usize),
    Fan(usize),
}

/// `i` is the first position of `x` in `xs`.
pub open spec fn first_match<A>(xs: Seq<A>, x: A, i: int) -> bool {
    &&& 0 <= i < xs.len()
    &&& xs[i] == x
    &&& forall|k: int| 0 <= k < i ==> xs[k] != x
}

/// Where component `id` stands in the robot: the first wheel of its
/// effective assembly with that id, else the first such sensor, else the
/// first such fan.
pub open spec fn located<W, M, S, O, F>(r: RobotParts<W, M, S, O, F>, id: Seq<char>, c: Option<ComponentRef>) -> bool {
    match c {
        Some(ComponentRef::Wheel(i)) => first_match(effective_wheel_ids(r), id, i as int),
        Some(ComponentRef::Sensor(i)) => !effective_wheel_ids(r).contains(id) && first_match(ids_of(r.sensors@), id, i as int),
        Some(ComponentRef::Fan(i)) => !effective_wheel_ids(r).contains(id) && !ids_of(r.sensors@).contains(id)
            && first_match(ids_of(r.fans@), id, i as int),
        None => !all_component_ids(r).contains(id),
    }
}

fn first_index(ids: &Vec<String>, id: &str) -> (r: Option<usize>)
    ensures
        r matches Some(i) ==> first_match(ids@.map_values(|s: String| s@), id@, i as int),
        r is None ==> !ids@.map_values(|s: String| s@).contains(id@),
{
    let ghost v = ids@.map_values(|s: String| s@);
    let mut i: usize = 0;
    while i < ids.len()
        invariant
            i <= ids.len(),
            v == ids@.map_values(|s: String| s@),
            forall|k: int| 0 <= k < i ==> v[k] != id@,
        decreases ids.len() - i,
    {
        if same_id(&ids[i], id) {
            return Some(i);
        }
        i = i + 1;
    }
    proof {
        if v.contains(id@) {
            let k = choose|k: int| 0 <= k < v.len() && v[k] == id@;
            assert(v[k] != id@);
        }
    }
    None
}

fn effective_wheel_count<W, M, S, O, F>(robot: &RobotParts<W, M, S, O, F>) -> (n: usize)
    ensures
        n == effective_wheel_ids(*robot).len(),
{
    match &robot.assembly {
        Some(a) => a.wheels.len(),
        None => 4,
    }
}

/// Finds component `id`: the first wheel of the effective assembly with
/// that id, else the first such sensor, else the first such fan; `None`
/// when no component has that id.
pub fn find_component<W, M, S, O, F>(robot: &RobotParts<W, M, S, O, F>, id: &str) -> (r: Option<ComponentRef>)
    ensures
        located(*robot, id@, r),
{
    let ids = component_ids(robot);
    let nw = effective_wheel_count(robot);
    let ns = robot.sensors.len();
    let ghost w = effective_wheel_ids(*robot);
    let ghost sv = ids_of(robot.sensors@);
    let ghost fv = ids_of(robot.fans@);
    let ghost all = ids@.map_values(|s: String| s@);
    assert(all == w + sv + fv);
    match first_index(&ids, id) {
        None => None,
        Some(j) => {
            proof {
                assert forall|k: int| 0 <= k < w.len() && k < j implies w[k] != id@ by {
                    assert(all[k] == w[k]);
                }
            }
            if j < nw {
                assert(all[j as int] == w[j as int]);
                Some(ComponentRef::Wheel(j))
            } else if j - nw < ns {
                proof {
                    if w.contains(id@) {
                        let k = choose|k: int| 0 <= k < w.len() && w[k] == id@;
                        assert(all[k] == w[k]);
                    }
                    assert(all[j as int] == sv[j - nw]);
                    assert forall|k: int| 0 <= k < j - nw implies sv[k] != id@ by {
                        assert(all[k + nw] == sv[k]);
                    }
                }
                Some(ComponentRef::Sensor(j - nw))
            } else {
                proof {
                    if w.contains(id@) {
                        let k = choose|k: int| 0 <= k < w.len() && w[k] == id@;
                        assert(all[k] == w[k]);
                    }
                    if sv.contains(id@) {
                        let k = choose|k: int| 0 <= k < sv.len() && sv[k] == id@;
                        assert(all[k + nw] == sv[k]);
                    }
                    assert(all[j as int] == fv[j - nw - ns]);
                    assert forall|k: int| 0 <= k < j - nw - ns implies fv[k] != id@ by {
                        assert(all[k + nw + ns] == fv[k]);
                    }
                }
                Some(ComponentRef::Fan(j - nw - ns))
            }
        },
    }
}

/// Makes the robot's assembly explicit and finds component `id` in it, for
/// an edit of that component; an id that names no component is refused
/// (the assembly is explicit either way).
pub fn component_for_edit<W: Copy, M: Copy, S, O, F>(robot: &mut RobotParts<W, M, S, O, F>, id: &str) -> (r: Result<ComponentRef, String>)
    ensures
        final(robot).assembly matches Some(a) && {
            &&& part_entries(a.wheels@) == effective_wheel_entries(*old(robot))
            &&& mass_entries(a.masses@) == effective_mass_entries(*old(robot))
        },
        final(robot).legacy == old(robot).legacy,
        final(robot).sensors == old(robot).sensors,
        final(robot).optical == old(robot).optical,
        final(robot).fans == old(robot).fans,
        r is Err <==> !all_component_ids(*old(robot)).contains(id@),
        r matches Ok(c) ==> located(*old(robot), id@, Some(c)),
        r matches Err(e) ==> e@ == "unknown component "@ + id@,
{
    let a = take_assembly(robot);
    robot.assembly = Some(a);
    proof {
        assert(effective_wheel_ids(*robot) =~= effective_wheel_ids(*old(robot)));
        assert(all_component_ids(*robot) =~= all_component_ids(*old(robot)));
    }
    match find_component(robot, id) {
        Some(c) => {
            proof {
                lemma_located_is_component(*robot, id@, c);
            }
            Ok(c)
        },
        None => {
            let mut e = "unknown component ".to_owned();
            e.append(id);
            Err(e)
        },
    }
}

fn find_part<T>(parts: &Vec<Part<T>>, id: &str) -> (r: Option<usize>)
    ensures
        r matches Some(i) ==> first_match(ids_of(parts@), id@, i as int),
        r is None ==> !ids_of(parts@).contains(id@),
{
    let mut i: usize = 0;
    while i < parts.len()
        invariant
            i <= parts.len(),
            forall|k: int| 0 <= k < i ==> ids_of(parts@)[k] != id@,
        decreases parts.len() - i,
    {
        if same_id(&parts[i].id, id) {
            return Some(i);
        }
        i = i + 1;
    }
    proof {
        let v = ids_of(parts@);
        if v.contains(id@) {
            let k = choose|k: int| 0 <= k < v.len() && v[k] == id@;
            assert(v[k] != id@);
        }
    }
    None
}

/// What the masses are attached to, in order.
pub open spec fn attachments<T>(es: Seq<(Seq<char>, Option<Seq<char>>, T)>) -> Seq<Option<Seq<char>>> {
    es.map_values(|e: (Seq<char>, Option<Seq<char>>, T)| e.1)
}

fn find_attached<T>(masses: &Vec<MassPart<T>>, id: &str) -> (r: Option<usize>)
    ensures
        r matches Some(i) ==> first_match(attachments(mass_entries(masses@)), Some(id@), i as int),
        r is None ==> !attachments(mass_entries(masses@)).contains(Some(id@)),
{
    let ghost v = attachments(mass_entries(masses@));
    let mut i: usize = 0;
    while i < masses.len()
        invariant
            i <= masses.len(),
            v == attachments(mass_entries(masses@)),
            forall|k: int| 0 <= k < i ==> v[k] != Some(id@),
        decreases masses.len() - i,
    {
        if attached(&masses[i], id) {
            return Some(i);
        }
        i = i + 1;
    }
    proof {
        if v.contains(Some(id@)) {
            let k = choose|k: int| 0 <= k < v.len() && v[k] == Some(id@);
            assert(v[k] != Some(id@));
        }
    }
    None
}

/// `parts` with the data `data` stored under `id`, as a map keyed by id
/// stores it: replacing the data of the first entry with that id, or
/// adding an entry at the end.
pub open spec fn stored_under<T>(parts: Seq<Part<T>>, id: String, data: T) -> Seq<Part<T>> {
    if ids_of(parts).contains(id@) {
        let k = choose|k: int| first_match(ids_of(parts), id@, k);
        parts.update(k, Part { id, data })
    } else {
        parts.push(Part { id, data })
    }
}

proof fn lemma_first_match_unique<A>(xs: Seq<A>, x: A, i: int, j: int)
    requires
        first_match(xs, x, i),
        first_match(xs, x, j),
    ensures
        i == j,
{
    if i < j {
        assert(xs[i] != x);
    } else if j < i {
        assert(xs[j] != x);
    }
}

fn store_under<T>(parts: &mut Vec<Part<T>>, id: String, data: T)
    ensures
        final(parts)@ == stored_under(old(parts)@, id, data),
{
    match find_part(parts, id.as_str()) {
        Some(k) => {
            proof {
                let c = choose|c: int| first_match(ids_of(old(parts)@), id@, c);
                lemma_first_match_unique(ids_of(old(parts)@), id@, c, k as int);
            }
            parts.set(k, Part { id, data });
        },
        None => {
            parts.push(Part { id, data });
        },
    }
}

proof fn lemma_located_is_component<W, M, S, O, F>(r: RobotParts<W, M, S, O, F>, id: Seq<char>, c: ComponentRef)
    requires
        located(r, id, Some(c)),
    ensures
        all_component_ids(r).contains(id),
{
    let w = effective_wheel_ids(r);
    let sv = ids_of(r.sensors@);
    let fv = ids_of(r.fans@);
    let all = all_component_ids(r);
    match c {
        ComponentRef::Wheel(i) => {
            assert(all[i as int] == w[i as int]);
        },
        ComponentRef::Sensor(i) => {
            assert(all[w.len() + i] == sv[i as int]);
        },
        ComponentRef::Fan(i) => {
            assert(all[w.len() + sv.len() + i] == fv[i as int]);
        },
    }
}

/// `parts` with a copy of the first part with id `id` added under
/// `new_id`, when there is one.
pub open spec fn copied<T>(parts: Seq<Part<T>>, id: Seq<char>, new_id: String) -> Seq<Part<T>> {
    if ids_of(parts).contains(id) {
        let i = choose|i: int| first_match(ids_of(parts), id, i);
        parts.push(Part { id: new_id, data: parts[i].data })
    } else {
        parts
    }
}

/// (id, data) pairs with a copy of the first entry with id `id` added
/// under `new_id`, when there is one.
pub open spec fn copied_entries<T>(es: Seq<(Seq<char>, T)>, id: Seq<char>, new_id: Seq<char>) -> Seq<(Seq<char>, T)> {
    let ids = es.map_values(|e: (Seq<char>, T)| e.0);
    if ids.contains(id) {
        let i = choose|i: int| first_match(ids, id, i);
        es.push((new_id, es[i].1))
    } else {
        es
    }
}

/// Masses with a copy of the first mass attached to `id` added under
/// `new_mass_id`, attached to `new_id`, when there is one.
pub open spec fn copied_masses<T>(
    es: Seq<(Seq<char>, Option<Seq<char>>, T)>,
    id: Seq<char>,
    new_id: Seq<char>,
    new_mass_id: Seq<char>,
) -> Seq<(Seq<char>, Option<Seq<char>>, T)> {
    if attachments(es).contains(Some(id)) {
        let j = choose|j: int| first_match(attachments(es), Some(id), j);
        es.push((new_mass_id, Some(new_id), es[j].2))
    } else {
        es
    }
}

/// The optical settings after sensor `id` is copied as `new_id`: the
/// sensor's settings, if it has any, are stored under the new id too.
pub open spec fn copied_optical<T>(optical: Seq<Part<T>>, id: Seq<char>, new_id: String) -> Seq<Part<T>> {
    if ids_of(optical).contains(id) {
        let k = choose|k: int| first_match(ids_of(optical), id, k);
        stored_under(optical, new_id, optical[k].data)
    } else {
        optical
    }
}

proof fn lemma_chosen<A>(xs: Seq<A>, x: A, i: int)
    requires
        first_match(xs, x, i),
    ensures
        xs.contains(x),
        (choose|k: int| first_match(xs, x, k)) == i,
{
    assert(xs[i] == x);
    let k = choose|k: int| first_match(xs, x, k);
    lemma_first_match_unique(xs, x, i, k);
}

/// Duplicates component `id` under `new_id`: the first wheel of the
/// effective assembly with that id, else the first such sensor (with its
/// optical settings, if any), else the first such fan, is copied to the end
/// of its list; the first mass attached to it, if any, is copied as
/// `new_mass_id`, attached to the copy. The assembly is explicit afterwards,
/// and `new_id` is returned. An id that names no component is refused, and
/// only the assembly is made explicit.
pub fn duplicate_component<W: Copy, M: Copy, S: Copy, O: Copy, F: Copy>(
    robot: &mut RobotParts<W, M, S, O, F>,
    id: &str,
    new_id: String,
    new_mass_id: String,
) -> (r: Result<String, String>)
    ensures
        r is Err <==> !all_component_ids(*old(robot)).contains(id@),
        r matches Err(e) ==> e@ == "unknown component "@ + id@,
        r matches Ok(n) ==> n == new_id,
        final(robot).legacy == old(robot).legacy,
        final(robot).assembly matches Some(a) && {
            &&& r is Err ==> part_entries(a.wheels@) == effective_wheel_entries(*old(robot))
            &&& r is Err ==> mass_entries(a.masses@) == effective_mass_entries(*old(robot))
            &&& r is Ok ==> part_entries(a.wheels@) == copied_entries(effective_wheel_entries(*old(robot)), id@, new_id@)
            &&& r is Ok ==> mass_entries(a.masses@) == copied_masses(effective_mass_entries(*old(robot)), id@, new_id@, new_mass_id@)
        },
        r is Err || effective_wheel_ids(*old(robot)).contains(id@) ==> {
            &&& final(robot).sensors == old(robot).sensors
            &&& final(robot).optical == old(robot).optical
        },
        r is Ok && !effective_wheel_ids(*old(robot)).contains(id@) ==> {
            &&& final(robot).sensors@ == copied(old(robot).sensors@, id@, new_id)
            &&& final(robot).optical@ == (if ids_of(old(robot).sensors@).contains(id@) {
                copied_optical(old(robot).optical@, id@, new_id)
            } else {
                old(robot).optical@
            })
        },
        r is Ok && !effective_wheel_ids(*old(robot)).contains(id@) && !ids_of(old(robot).sensors@).contains(id@)
            ==> final(robot).fans@ == copied(old(robot).fans@, id@, new_id),
        r is Err || effective_wheel_ids(*old(robot)).contains(id@) || ids_of(old(robot).sensors@).contains(id@)
            ==> final(robot).fans == old(robot).fans,
{
    let ghost o = *old(robot);
    let mut a = take_assembly(robot);
    let ghost w0 = a.wheels@;
    let ghost m0 = a.masses@;
    proof {
        assert(ids_of(w0) =~= effective_wheel_ids(o));
        assert(part_entries(w0).map_values(|e: (Seq<char>, W)| e.0) =~= ids_of(w0));
    }
    match find_part(&a.wheels, id) {
        Some(i) => {
            let d = a.wheels[i].data;
            a.wheels.push(Part { id: new_id.clone(), data: d });
            proof {
                lemma_chosen(ids_of(w0), id@, i as int);
                lemma_located_is_component(o, id@, ComponentRef::Wheel(i));
                assert(part_entries(a.wheels@) =~= part_entries(w0).push((new_id@, d)));
            }
        },
        None => {
            assert(part_entries(a.wheels@) =~= copied_entries(effective_wheel_entries(o), id@, new_id@));
            match find_part(&robot.sensors, id) {
                Some(i) => {
                    let d = robot.sensors[i].data;
                    proof {
                        lemma_chosen(ids_of(o.sensors@), id@, i as int);
                        lemma_located_is_component(o, id@, ComponentRef::Sensor(i));
                    }
                    match find_part(&robot.optical, id) {
                        Some(k) => {
                            let od = robot.optical[k].data;
                            proof {
                                lemma_chosen(ids_of(o.optical@), id@, k as int);
                            }
                            store_under(&mut robot.optical, new_id.clone(), od);
                        },
                        None => {},
                    }
                    robot.sensors.push(Part { id: new_id.clone(), data: d });
                },
                None => {
                    match find_part(&robot.fans, id) {
                        Some(i) => {
                            let d = robot.fans[i].data;
                            proof {
                                lemma_chosen(ids_of(o.fans@), id@, i as int);
                                lemma_located_is_component(o, id@, ComponentRef::Fan(i));
                            }
                            robot.fans.push(Part { id: new_id.clone(), data: d });
                        },
                        None => {
                            robot.assembly = Some(a);
                            proof {
                                let all = all_component_ids(o);
                                if all.contains(id@) {
                                    let k = choose|k: int| 0 <= k < all.len() && all[k] == id@;
                                    let w = effective_wheel_ids(o);
                                    let sv = ids_of(o.sensors@);
                                    if k < w.len() {
                                        assert(w[k] == id@);
                                    } else if k < w.len() + sv.len() {
                                        assert(sv[k - w.len()] == id@);
                                    } else {
                                        assert(ids_of(o.fans@)[k - w.len() - sv.len()] == id@);
                                    }
                                }
                            }
                            let mut e = "unknown component ".to_owned();
                            e.append(id);
                            return Err(e);
                        },
                    }
                },
            }
        },
    }
    match find_attached(&a.masses, id) {
        Some(j) => {
            let md = a.masses[j].data;
            proof {
                lemma_chosen(attachments(mass_entries(m0)), Some(id@), j as int);
            }
            a.masses.push(MassPart { id: new_mass_id, component: Some(new_id.clone()), data: md });
            assert(mass_entries(a.masses@) =~= mass_entries(m0).push((new_mass_id@, Some(new_id@), md)));
        },
        None => {},
    }
    robot.assembly = Some(a);
    Ok(new_id)
}

} // verus!
