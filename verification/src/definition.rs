//! Track definitions: optical mark kinds, start-pose sources, reordering of
//! editor lists, named or hexadecimal display colors, and the validation of
//! a definition's ids, references and switches.
use vstd::prelude::*;
use crate::text::{
    ascii_lower_seq, blank, chars_equal, chars_of, lemma_trim_empty_iff_blank, lower_ascii_in_place, trim,
    trimmed,
};

verus! {

/// An optical mark adds paint or cuts a gap in the line.
#[derive(Debug, Clone, Copy, PartialEq, Eq, Structural)]
pub enum MarkKind {
    Paint,
    Gap,
}

/// Where the robot's start pose comes from.
#[derive(Debug, Clone, Copy, PartialEq, Eq, Structural)]
pub enum StartSource {
    Project,
    Track,
}

/// The pose at which a run starts. With the project as start source, or
/// without a parametric track (`track_start` is `None`), it is the
/// project's pose; otherwise it is the start pose resolved from the track's
/// start marking (`track_start` is `Some(None)` when there is no valid
/// marking, which is an error).
pub fn effective_start_pose<P>(source: StartSource, track_start: Option<Option<P>>, project_pose: P) -> (r: Result<P, String>)
    ensures
        (source == StartSource::Project || track_start is None) ==> r == Ok::<P, String>(project_pose),
        source == StartSource::Track ==> (track_start matches Some(Some(p)) ==> r == Ok::<P, String>(p)),
        source == StartSource::Track ==> (track_start == Some(None::<P>) ==> (r matches Err(e) && e@
            == "Track start selected but no valid start marking exists; choose Project source"@)),
{
    if source == StartSource::Project {
        return Ok(project_pose);
    }
    match track_start {
        None => Ok(project_pose),
        Some(Some(p)) => Ok(p),
        Some(None) => Err(
            "Track start selected but no valid start marking exists; choose Project source".to_owned(),
        ),
    }
}

/// The list after moving the item at `from` to position `to`.
pub open spec fn moved<T>(items: Seq<T>, from: int, to: int) -> Seq<T> {
    items.remove(from).insert(to, items[from])
}

/// Moves an item by index without changing its identity or any reference
/// to it; both indexes must name existing items.
pub fn move_item<T>(items: &mut Vec<T>, from: usize, to: usize) -> (r: Result<(), String>)
    ensures
        from < old(items)@.len() && to < old(items)@.len() ==> r is Ok && final(items)@ == moved(
            old(items)@,
            from as int,
            to as int,
        ),
        !(from < old(items)@.len() && to < old(items)@.len()) ==> (r matches Err(e) && e@
            == "invalid reorder index"@) && final(items)@ == old(items)@,
{
    if from >= items.len() || to >= items.len() {
        return Err("invalid reorder index".to_owned());
    }
    let value = items.remove(from);
    items.insert(to, value);
    Ok(())
}

/// Moving an item back to where it came from restores the list.
pub proof fn lemma_move_back<T>(items: Seq<T>, from: int, to: int)
    requires
        0 <= from < items.len(),
        0 <= to < items.len(),
    ensures
        moved(moved(items, from, to), to, from) == items,
{
    let m = moved(items, from, to);
    assert(m[to] == items[from]);
    assert(m.remove(to) =~= items.remove(from));
    assert(items.remove(from).insert(from, items[from]) =~= items);
}

/// Moving keeps the number of items.
pub proof fn lemma_move_keeps_length<T>(items: Seq<T>, from: int, to: int)
    requires
        0 <= from < items.len(),
        0 <= to < items.len(),
    ensures
        moved(items, from, to).len() == items.len(),
        moved(items, from, to)[to] == items[from],
{
}

/// The value of a hexadecimal digit character.
pub open spec fn hex_digit_value(c: char) -> int {
    if '0' <= c <= '9' {
        c as int - '0' as int
    } else if 'a' <= c <= 'f' {
        c as int - 'a' as int + 10
    } else if 'A' <= c <= 'F' {
        c as int - 'A' as int + 10
    } else {
        -1
    }
}

pub open spec fn is_hex_digit(c: char) -> bool {
    hex_digit_value(c) >= 0
}

/// The number that a sequence of hexadecimal digits denotes.
pub open spec fn hex_value(s: Seq<char>) -> nat
    decreases s.len(),
{
    if s.len() == 0 {
        0
    } else {
        (hex_value(s.drop_last()) * 16 + hex_digit_value(s.last())) as nat
    }
}

pub open spec fn all_hex(s: Seq<char>) -> bool {
    forall|i: int| 0 <= i < s.len() ==> is_hex_digit(#[trigger] s[i])
}

/// Whether `u32::from_str_radix(h, 16)` accepts a six-byte text `h`: six
/// hexadecimal digits, or a plus sign and five of them.
pub open spec fn six_hex(h: Seq<char>) -> bool {
    h.len() == 6 && (all_hex(h) || (h[0] == '+' && all_hex(h.drop_first())))
}

/// The number that a text accepted by `six_hex` denotes.
pub open spec fn six_hex_value(h: Seq<char>) -> nat {
    if h[0] == '+' {
        hex_value(h.drop_first())
    } else {
        hex_value(h)
    }
}

/// The three bytes of a 24-bit color number, red first.
pub open spec fn rgb_of(n: nat) -> Seq<u8> {
    seq![((n / 65536) % 256) as u8, ((n / 256) % 256) as u8, (n % 256) as u8]
}

/// The display color of a color name: five named colors (ASCII case
/// ignored), `#` followed by a six-byte hexadecimal number, or gray.
pub open spec fn display_color_of(name: Seq<char>) -> Seq<u8> {
    let l = ascii_lower_seq(name);
    if l == "white"@ {
        seq![245u8, 245u8, 245u8]
    } else if l == "black"@ {
        seq![8u8, 8u8, 8u8]
    } else if l == "red"@ {
        seq![220u8, 40u8, 40u8]
    } else if l == "blue"@ {
        seq![40u8, 70u8, 220u8]
    } else if l == "green"@ {
        seq![40u8, 180u8, 70u8]
    } else if name.len() > 0 && name[0] == '#' && six_hex(name.drop_first()) {
        rgb_of(six_hex_value(name.drop_first()))
    } else {
        seq![128u8, 128u8, 128u8]
    }
}

fn hex_digit(c: char) -> (r: Option<u32>)
    ensures
        is_hex_digit(c) ==> r == Some(hex_digit_value(c) as u32),
        !is_hex_digit(c) ==> r is None,
{
    if '0' <= c && c <= '9' {
        Some((c as u32) - ('0' as u32))
    } else if 'a' <= c && c <= 'f' {
        Some((c as u32) - ('a' as u32) + 10)
    } else if 'A' <= c && c <= 'F' {
        Some((c as u32) - ('A' as u32) + 10)
    } else {
        None
    }
}

/// 16 to the power `k`.
pub open spec fn pow16(k: nat) -> nat
    decreases k,
{
    if k == 0 {
        1
    } else {
        16 * pow16((k - 1) as nat)
    }
}

/// The hexadecimal value of `v[from..]`, all of whose characters must be
/// hexadecimal digits, or `None`.
fn parse_hex(v: &Vec<char>, from: usize) -> (r: Option<u32>)
    requires
        from <= v@.len(),
        v@.len() - from <= 6,
    ensures
        all_hex(v@.skip(from as int)) ==> (r matches Some(n) && n == hex_value(v@.skip(from as int))),
        !all_hex(v@.skip(from as int)) ==> r is None,
        r matches Some(n) ==> n < 16777216,
{
    let mut n: u32 = 0;
    let mut i: usize = from;
    while i < v.len()
        invariant
            from <= i <= v@.len(),
            v@.len() - from <= 6,
            all_hex(v@.subrange(from as int, i as int)),
            n == hex_value(v@.subrange(from as int, i as int)),
            n < pow16((i - from) as nat),
        decreases v@.len() - i,
    {
        match hex_digit(v[i]) {
            Some(d) => {
                let ghost prev = v@.subrange(from as int, i as int);
                assert(pow16((i - from + 1) as nat) == 16 * pow16((i - from) as nat));
                assert(pow16((i - from) as nat) <= pow16(5)) by {
                    lemma_pow16_mono((i - from) as nat, 5);
                }
                assert(pow16(5) == 1048576) by {
                    reveal_with_fuel(pow16, 6);
                }
                n = n * 16 + d;
                i = i + 1;
                assert(v@.subrange(from as int, i as int).drop_last() =~= prev);
            },
            None => {
                assert(v@.skip(from as int)[i - from] == v@[i as int]);
                return None;
            },
        }
    }
    assert(v@.subrange(from as int, i as int) =~= v@.skip(from as int));
    assert(pow16((i - from) as nat) <= pow16(6)) by {
        lemma_pow16_mono((i - from) as nat, 6);
    }
    assert(pow16(6) == 16777216) by {
        reveal_with_fuel(pow16, 7);
    }
    Some(n)
}

proof fn lemma_pow16_mono(a: nat, b: nat)
    requires
        a <= b,
    ensures
        pow16(a) <= pow16(b),
    decreases b,
{
    if a < b {
        lemma_pow16_mono(a, (b - 1) as nat);
    }
}

/// The color with which a named or `#rrggbb` color is drawn; unknown
/// names are gray.
pub fn display_color(name: &str) -> (r: [u8; 3])
    ensures
        r@ == display_color_of(name@),
{
    let chars = chars_of(name);
    let mut lower = chars_of(name);
    lower_ascii_in_place(&mut lower);
    if chars_equal(&lower, "white") {
        return [245, 245, 245];
    } else if chars_equal(&lower, "black") {
        return [8, 8, 8];
    } else if chars_equal(&lower, "red") {
        return [220, 40, 40];
    } else if chars_equal(&lower, "blue") {
        return [40, 70, 220];
    } else if chars_equal(&lower, "green") {
        return [40, 180, 70];
    }
    let gray: [u8; 3] = [128, 128, 128];
    if chars.len() != 7 || chars[0] != '#' {
        proof {
            if name@.len() > 0 && name@[0] == '#' {
                assert(name@.drop_first().len() != 6);
            }
        }
        return gray;
    }
    let ghost h = name@.drop_first();
    let parsed = if chars[1] == '+' {
        assert(chars@.skip(2) =~= h.drop_first());
        parse_hex(&chars, 2)
    } else {
        assert(chars@.skip(1) =~= h);
        proof {
            if all_hex(h) {
            } else {
                assert(h[0] != '+');
            }
        }
        parse_hex(&chars, 1)
    };
    match parsed {
        Some(n) => {
            proof {
                if h[0] == '+' {
                    assert(!is_hex_digit(h[0]));
                    assert(!all_hex(h));
                } else {
                    assert(six_hex(h));
                }
                assert(six_hex(h));
                assert(n == six_hex_value(h));
                assert(name@.len() > 0 && name@[0] == '#');
                assert((n / 65536) % 256 == n / 65536);
            }
            let out: [u8; 3] = [(n / 65536) as u8, ((n / 256) % 256) as u8, (n % 256) as u8];
            assert(out@ =~= rgb_of(n as nat));
            out
        },
        None => {
            proof {
                if h[0] == '+' {
                    assert(!is_hex_digit(h[0]));
                } else {
                    assert(!(h[0] == '+'));
                }
            }
            gray
        },
    }
}


/// What validation reads of a surface region, optical mark or race gate:
/// its id, and whether its other fields (area, material, coefficients,
/// geometry) are valid.
#[derive(Debug, Clone)]
pub struct ItemCheck {
    pub id: String,
    pub fields_valid: bool,
}

/// What validation reads of a parametric segment: its id, whether it is a
/// straight, whether its length or radius and sweep are valid, and whether
/// the configured start/finish marking fits on it.
#[derive(Debug, Clone)]
pub struct SegmentCheck {
    pub id: String,
    pub is_straight: bool,
    pub shape_valid: bool,
    pub start_finish_fits: bool,
}

/// What validation reads of a parametric track.
#[derive(Debug, Clone)]
pub struct ParametricCheck {
    /// Source and edition of the rule profile.
    pub rules_source: String,
    pub rules_edition: String,
    /// The length unit of the definition.
    pub units: String,
    /// Area sizes positive and finite, origin finite.
    pub area_origin_valid: bool,
    /// Every resolved numeric rule finite and nonnegative.
    pub rules_valid: bool,
    /// Line width positive and finite, closure tolerances finite and nonnegative.
    pub width_closure_valid: bool,
    pub segments: Vec<SegmentCheck>,
    /// Total centerline length at most 5 000 000 mm.
    pub length_within_budget: bool,
    /// Start/finish numbers finite, margin nonnegative, distance positive.
    pub start_finish_numbers_valid: bool,
    pub start_finish_enabled: bool,
    /// The id of the straight that carries the start/finish marking.
    pub start_finish_segment: String,
    /// Base and line reflectance finite and within `[0, 1]`.
    pub reflectance_valid: bool,
    /// Surface friction finite and nonnegative.
    pub friction_valid: bool,
}

/// What validation reads of a track definition: the numeric verdicts that
/// only floating-point arithmetic can give, with the names, ids, counts and
/// switches on which the rest of the validation decides.
#[derive(Debug, Clone)]
pub struct DefinitionCheck {
    /// Outside friction and reflectance finite and nonnegative.
    pub outside_surface_valid: bool,
    pub outside_material: String,
    pub outside_reflectance_at_most_one: bool,
    pub laps: u32,
    pub regions: Vec<ItemCheck>,
    pub marks: Vec<ItemCheck>,
    pub gates: Vec<ItemCheck>,
    pub relief_enabled: bool,
    /// Some region has a nonzero height or roughness.
    pub regions_have_relief: bool,
    /// The parametric track, if the definition has one.
    pub parametric: Option<ParametricCheck>,
    /// Without a parametric track: at least two finite centerline points
    /// and a positive finite line width.
    pub polyline_geometry_valid: bool,
    /// Without a parametric track: reflectances finite within `[0, 1]`,
    /// friction finite and nonnegative.
    pub polyline_surface_valid: bool,
}

/// Whether an item is rejected after the items `prior`: its id repeats one
/// of theirs or is blank, or its other fields are invalid.
pub open spec fn item_rejected(prior: Seq<ItemCheck>, it: ItemCheck) -> bool {
    (exists|j: int| 0 <= j < prior.len() && (#[trigger] prior[j]).id@ == it.id@) || trim(it.id@).len()
        == 0 || !it.fields_valid
}

/// The index of the first rejected item, if any.
pub open spec fn first_rejected_item(items: Seq<ItemCheck>) -> Option<int>
    decreases items.len(),
{
    if items.len() == 0 {
        None
    } else {
        match first_rejected_item(items.drop_last()) {
            Some(k) => Some(k),
            None => if item_rejected(items.drop_last(), items.last()) {
                Some(items.len() - 1)
            } else {
                None
            },
        }
    }
}

/// The complaint about the regions, marks and gates, which share one id
/// space: the first rejected one of them, in that order.
pub open spec fn items_error(c: DefinitionCheck) -> Option<Seq<char>> {
    let all = c.regions@ + c.marks@ + c.gates@;
    match first_rejected_item(all) {
        Some(k) => Some(
            if k < c.regions@.len() {
                "invalid region "@ + all[k].id@
            } else if k < c.regions@.len() + c.marks@.len() {
                "invalid optical mark "@ + all[k].id@
            } else {
                "invalid race gate "@ + all[k].id@
            },
        ),
        None => None,
    }
}

/// Whether a segment is rejected after the segments `prior`.
pub open spec fn segment_id_rejected(prior: Seq<SegmentCheck>, s: SegmentCheck) -> bool {
    trim(s.id@).len() == 0 || exists|j: int| 0 <= j < prior.len() && (#[trigger] prior[j]).id@ == s.id@
}

/// The complaint about the first faulty segment, if any.
pub open spec fn segments_error(segs: Seq<SegmentCheck>) -> Option<Seq<char>>
    decreases segs.len(),
{
    if segs.len() == 0 {
        None
    } else {
        match segments_error(segs.drop_last()) {
            Some(m) => Some(m),
            None => {
                let s = segs.last();
                if segment_id_rejected(segs.drop_last(), s) {
                    Some("duplicate/empty segment ID"@)
                } else if !s.shape_valid {
                    Some(
                        if s.is_straight {
                            "invalid straight length"@
                        } else {
                            "arc needs positive radius and nonzero sweep <= 360 degrees"@
                        },
                    )
                } else {
                    None
                }
            },
        }
    }
}

/// The index of the first straight named `id`, if any.
pub open spec fn straight_named(segs: Seq<SegmentCheck>, id: Seq<char>) -> Option<int>
    decreases segs.len(),
{
    if segs.len() == 0 {
        None
    } else {
        match straight_named(segs.drop_last(), id) {
            Some(k) => Some(k),
            None => if segs.last().id@ == id && segs.last().is_straight {
                Some(segs.len() - 1)
            } else {
                None
            },
        }
    }
}

/// The warning about a rule profile without source or edition.
pub open spec fn rules_warning(p: ParametricCheck) -> Seq<Seq<char>> {
    if trim(p.rules_source@).len() == 0 || trim(p.rules_edition@).len() == 0 {
        seq!["Rule profile has no source/edition; no official compliance claim."@]
    } else {
        Seq::empty()
    }
}

/// The verdict on a parametric track, given the warnings so far.
pub open spec fn parametric_result(p: ParametricCheck, warnings: Seq<Seq<char>>) -> Result<Seq<Seq<char>>, Seq<char>> {
    let segs = p.segments@;
    if p.units@ != "mm"@ || !p.area_origin_valid {
        Err("invalid parametric area/origin/units"@)
    } else if !p.rules_valid {
        Err("invalid numeric track rule"@)
    } else if !p.width_closure_valid {
        Err("invalid track width/closure tolerance"@)
    } else if segs.len() == 0 {
        Err("track needs segments"@)
    } else if segments_error(segs) is Some {
        Err(segments_error(segs)->0)
    } else if !p.length_within_budget || segs.len() > 100000 {
        Err("track exceeds bounded geometry cache budget"@)
    } else if !p.start_finish_numbers_valid {
        Err("invalid start/finish numeric configuration"@)
    } else if p.start_finish_enabled && straight_named(segs, p.start_finish_segment@) is None {
        Err("invalid start/finish segment reference"@)
    } else if p.start_finish_enabled && !segs[straight_named(segs, p.start_finish_segment@)->0].start_finish_fits {
        Err("start/finish must lie on the referenced straight"@)
    } else if !p.reflectance_valid {
        Err("invalid reflectance"@)
    } else if !p.friction_valid {
        Err("invalid friction"@)
    } else {
        Ok(warnings + rules_warning(p))
    }
}

/// The verdict on a track definition: the first complaint, or the list of
/// warnings.
pub open spec fn definition_result(c: DefinitionCheck) -> Result<Seq<Seq<char>>, Seq<char>> {
    if !c.outside_surface_valid {
        Err("invalid outside surface"@)
    } else if trim(c.outside_material@).len() == 0 || !c.outside_reflectance_at_most_one || c.laps == 0 {
        Err("invalid outside material/reflectance/laps"@)
    } else if items_error(c) is Some {
        Err(items_error(c)->0)
    } else if c.relief_enabled {
        Err("vertical relief is not supported by planar-impulse-v2; disable relief to preserve it as metadata"@)
    } else {
        let warnings = if c.regions_have_relief {
            seq!["Height/roughness stored as metadata; vertical forces are disabled."@]
        } else {
            Seq::empty()
        };
        match c.parametric {
            Some(p) => parametric_result(p, warnings),
            None => if !c.polyline_geometry_valid {
                Err("invalid polyline geometry"@)
            } else if !c.polyline_surface_valid {
                Err("invalid polyline surface"@)
            } else {
                Ok(warnings)
            },
        }
    }
}

proof fn lemma_no_rejected_item(items: Seq<ItemCheck>)
    requires
        first_rejected_item(items) is None,
    ensures
        forall|k: int| 0 <= k < items.len() ==> !item_rejected(items.take(k), #[trigger] items[k]),
    decreases items.len(),
{
    if items.len() > 0 {
        lemma_no_rejected_item(items.drop_last());
        assert forall|k: int| 0 <= k < items.len() implies !item_rejected(items.take(k), #[trigger] items[k]) by {
            if k < items.len() - 1 {
                assert(items.drop_last().take(k) =~= items.take(k));
                assert(items.drop_last()[k] == items[k]);
            } else {
                assert(items.drop_last() =~= items.take(k));
            }
        }
    }
}

/// In an accepted definition, the regions, marks and gates have non-blank
/// ids, no two of them alike.
pub proof fn lemma_accepted_item_ids_unique(c: DefinitionCheck)
    requires
        definition_result(c) is Ok,
    ensures
        ({
            let all = c.regions@ + c.marks@ + c.gates@;
            &&& forall|k: int| 0 <= k < all.len() ==> trim((#[trigger] all[k]).id@).len() > 0
            &&& forall|i: int, k: int| 0 <= i < k < all.len() ==> (#[trigger] all[i]).id@ != (#[trigger] all[k]).id@
        }),
{
    let all = c.regions@ + c.marks@ + c.gates@;
    lemma_no_rejected_item(all);
    assert forall|i: int, k: int| 0 <= i < k < all.len() implies (#[trigger] all[i]).id@ != (#[trigger] all[k]).id@ by {
        assert(!item_rejected(all.take(k), all[k]));
        assert(all.take(k)[i] == all[i]);
    }
}

proof fn lemma_no_segment_error(segs: Seq<SegmentCheck>)
    requires
        segments_error(segs) is None,
    ensures
        forall|k: int| 0 <= k < segs.len() ==> !segment_id_rejected(segs.take(k), #[trigger] segs[k]),
    decreases segs.len(),
{
    if segs.len() > 0 {
        lemma_no_segment_error(segs.drop_last());
        assert forall|k: int| 0 <= k < segs.len() implies !segment_id_rejected(segs.take(k), #[trigger] segs[k]) by {
            if k < segs.len() - 1 {
                assert(segs.drop_last().take(k) =~= segs.take(k));
                assert(segs.drop_last()[k] == segs[k]);
            } else {
                assert(segs.drop_last() =~= segs.take(k));
            }
        }
    }
}

/// In an accepted parametric definition, the segments have non-blank ids,
/// no two of them alike.
pub proof fn lemma_accepted_segment_ids_unique(c: DefinitionCheck)
    requires
        definition_result(c) is Ok,
        c.parametric is Some,
    ensures
        ({
            let segs = c.parametric->0.segments@;
            &&& forall|k: int| 0 <= k < segs.len() ==> trim((#[trigger] segs[k]).id@).len() > 0
            &&& forall|i: int, k: int| 0 <= i < k < segs.len() ==> (#[trigger] segs[i]).id@ != (#[trigger] segs[k]).id@
        }),
{
    let segs = c.parametric->0.segments@;
    lemma_no_segment_error(segs);
    assert forall|i: int, k: int| 0 <= i < k < segs.len() implies (#[trigger] segs[i]).id@ != (#[trigger] segs[k]).id@ by {
        assert(!segment_id_rejected(segs.take(k), segs[k]));
        assert(segs.take(k)[i] == segs[i]);
    }
}

/// The texts of a list of strings.
pub open spec fn texts(v: Seq<String>) -> Seq<Seq<char>> {
    v.map_values(|s: String| s@)
}

fn is_blank(s: &String) -> (r: bool)
    ensures
        r == (trim(s@).len() == 0),
{
    trimmed(s.as_str()).len() == 0
}

fn contains_id(seen: &Vec<String>, id: &String) -> (r: bool)
    ensures
        r == exists|j: int| 0 <= j < seen@.len() && (#[trigger] seen@[j])@ == id@,
{
    let mut j: usize = 0;
    while j < seen.len()
        invariant
            j <= seen.len(),
            forall|i: int| 0 <= i < j ==> seen@[i]@ != id@,
        decreases seen.len() - j,
    {
        if seen[j] == *id {
            return true;
        }
        j = j + 1;
    }
    false
}

fn labelled(label: &str, id: &String) -> (r: String)
    ensures
        r@ == label@ + id@,
{
    let mut s = label.to_owned();
    s.append(id.as_str());
    s
}

fn text(s: &str) -> (r: String)
    ensures
        r@ == s@,
{
    s.to_owned()
}

/// Checks the regions, marks and gates of the environment, which share one
/// id space, in that order.
fn check_items(c: &DefinitionCheck) -> (r: Result<(), String>)
    ensures
        r is Ok <==> items_error(*c) is None,
        r matches Err(e) ==> items_error(*c) == Some(e@),
{
    let ghost all = c.regions@ + c.marks@ + c.gates@;
    let mut seen: Vec<String> = Vec::new();
    let mut part: usize = 0;
    while part < 3
        invariant
            part <= 3,
            all == c.regions@ + c.marks@ + c.gates@,
            seen@.len() == (if part == 0 { 0 } else if part == 1 { c.regions@.len() } else if part == 2 {
                c.regions@.len() + c.marks@.len()
            } else {
                all.len()
            }),
            seen@.len() <= all.len(),
            forall|j: int| 0 <= j < seen@.len() ==> (#[trigger] seen@[j])@ == all[j].id@,
            first_rejected_item(all.take(seen@.len() as int)) is None,
        decreases 3 - part,
    {
        let items = if part == 0 {
            &c.regions
        } else if part == 1 {
            &c.marks
        } else {
            &c.gates
        };
        let label = if part == 0 {
            "invalid region "
        } else if part == 1 {
            "invalid optical mark "
        } else {
            "invalid race gate "
        };
        let ghost base = seen@.len() as int;
        assert(all.subrange(base, base + items@.len()) =~= items@);
        let mut i: usize = 0;
        while i < items.len()
            invariant
                i <= items.len(),
                all == c.regions@ + c.marks@ + c.gates@,
                base + items@.len() <= all.len(),
                all.subrange(base, base + items@.len()) == items@,
                seen@.len() == base + i,
                forall|j: int| 0 <= j < seen@.len() ==> (#[trigger] seen@[j])@ == all[j].id@,
                first_rejected_item(all.take(seen@.len() as int)) is None,
                part < 3,
                base == (if part == 0 { 0int } else if part == 1 { c.regions@.len() as int } else {
                    (c.regions@.len() + c.marks@.len()) as int
                }),
                items@ == (if part == 0 { c.regions@ } else if part == 1 { c.marks@ } else { c.gates@ }),
                label@ == (if part == 0 { "invalid region "@ } else if part == 1 {
                    "invalid optical mark "@
                } else {
                    "invalid race gate "@
                }),
            decreases items.len() - i,
        {
            let it = &items[i];
            let k = seen.len();
            assert(all[k as int] == *it);
            assert(all.take(k + 1).drop_last() =~= all.take(k as int));
            let dup = contains_id(&seen, &it.id);
            proof {
                let prior = all.take(k as int);
                if dup {
                    let j = choose|j: int| 0 <= j < seen@.len() && (#[trigger] seen@[j])@ == it.id@;
                    assert(prior[j].id@ == it.id@);
                }
                if exists|j: int| 0 <= j < prior.len() && (#[trigger] prior[j]).id@ == it.id@ {
                    let j = choose|j: int| 0 <= j < prior.len() && (#[trigger] prior[j]).id@ == it.id@;
                    assert(seen@[j]@ == it.id@);
                }
            }
            if dup || is_blank(&it.id) || !it.fields_valid {
                proof {
                    assert(item_rejected(all.take(k as int), *it));
                    assert(first_rejected_item(all.take(k + 1)) == Some(k as int));
                    lemma_first_rejected_prefix(all, k + 1);
                }
                return Err(labelled(label, &it.id));
            }
            seen.push(it.id.clone());
            i = i + 1;
        }
        part = part + 1;
    }
    assert(all.take(all.len() as int) =~= all);
    Ok(())
}

proof fn lemma_first_rejected_prefix(all: Seq<ItemCheck>, k: int)
    requires
        0 <= k <= all.len(),
        first_rejected_item(all.take(k)) is Some,
    ensures
        first_rejected_item(all) == first_rejected_item(all.take(k)),
    decreases all.len() - k,
{
    if k < all.len() {
        assert(all.take(k + 1).drop_last() =~= all.take(k));
        lemma_first_rejected_prefix(all, k + 1);
    } else {
        assert(all.take(k) =~= all);
    }
}

proof fn lemma_segments_error_prefix(segs: Seq<SegmentCheck>, k: int)
    requires
        0 <= k <= segs.len(),
        segments_error(segs.take(k)) is Some,
    ensures
        segments_error(segs) == segments_error(segs.take(k)),
    decreases segs.len() - k,
{
    if k < segs.len() {
        assert(segs.take(k + 1).drop_last() =~= segs.take(k));
        lemma_segments_error_prefix(segs, k + 1);
    } else {
        assert(segs.take(k) =~= segs);
    }
}

fn check_segments(segs: &Vec<SegmentCheck>) -> (r: Result<(), String>)
    ensures
        r is Ok <==> segments_error(segs@) is None,
        r matches Err(e) ==> segments_error(segs@) == Some(e@),
{
    let mut seen: Vec<String> = Vec::new();
    let mut i: usize = 0;
    while i < segs.len()
        invariant
            i <= segs.len(),
            seen@.len() == i,
            forall|j: int| 0 <= j < i ==> (#[trigger] seen@[j])@ == segs@[j].id@,
            segments_error(segs@.take(i as int)) is None,
        decreases segs.len() - i,
    {
        let s = &segs[i];
        assert(segs@.take(i + 1).drop_last() =~= segs@.take(i as int));
        assert(segs@.take(i + 1).last() == *s);
        let dup = contains_id(&seen, &s.id);
        proof {
            let prior = segs@.take(i as int);
            if dup {
                let j = choose|j: int| 0 <= j < seen@.len() && (#[trigger] seen@[j])@ == s.id@;
                assert(prior[j].id@ == s.id@);
            }
            if exists|j: int| 0 <= j < prior.len() && (#[trigger] prior[j]).id@ == s.id@ {
                let j = choose|j: int| 0 <= j < prior.len() && (#[trigger] prior[j]).id@ == s.id@;
                assert(seen@[j]@ == s.id@);
            }
        }
        if is_blank(&s.id) || dup {
            proof {
                lemma_segments_error_prefix(segs@, i + 1);
            }
            return Err(text("duplicate/empty segment ID"));
        }
        if !s.shape_valid {
            proof {
                lemma_segments_error_prefix(segs@, i + 1);
            }
            if s.is_straight {
                return Err(text("invalid straight length"));
            } else {
                return Err(text("arc needs positive radius and nonzero sweep <= 360 degrees"));
            }
        }
        seen.push(s.id.clone());
        i = i + 1;
    }
    assert(segs@.take(segs.len() as int) =~= segs@);
    Ok(())
}

fn find_straight(segs: &Vec<SegmentCheck>, id: &String) -> (r: Option<usize>)
    ensures
        r matches Some(k) ==> straight_named(segs@, id@) == Some(k as int) && k < segs@.len(),
        r is None ==> straight_named(segs@, id@) is None,
{
    let mut i: usize = 0;
    while i < segs.len()
        invariant
            i <= segs.len(),
            straight_named(segs@.take(i as int), id@) is None,
        decreases segs.len() - i,
    {
        assert(segs@.take(i + 1).drop_last() =~= segs@.take(i as int));
        if segs[i].id == *id && segs[i].is_straight {
            proof {
                lemma_straight_named_prefix(segs@, id@, i + 1);
            }
            return Some(i);
        }
        i = i + 1;
    }
    assert(segs@.take(segs.len() as int) =~= segs@);
    None
}

proof fn lemma_straight_named_prefix(segs: Seq<SegmentCheck>, id: Seq<char>, k: int)
    requires
        0 <= k <= segs.len(),
        straight_named(segs.take(k), id) is Some,
    ensures
        straight_named(segs, id) == straight_named(segs.take(k), id),
    decreases segs.len() - k,
{
    if k < segs.len() {
        assert(segs.take(k + 1).drop_last() =~= segs.take(k));
        lemma_straight_named_prefix(segs, id, k + 1);
    } else {
        assert(segs.take(k) =~= segs);
    }
}

/// Validates a track definition: the outside surface and lap count, the
/// regions, marks and gates (whose ids must be unique and not blank), the
/// relief switch, and then either the parametric track (units, rules,
/// segments with unique ids, start/finish placement, surface) or the plain
/// polyline. Returns the warnings, or the first complaint.
pub fn validate_definition(c: &DefinitionCheck) -> (r: Result<Vec<String>, String>)
    ensures
        r matches Ok(w) ==> definition_result(*c) == Ok::<Seq<Seq<char>>, Seq<char>>(texts(w@)),
        r matches Err(e) ==> definition_result(*c) == Err::<Seq<Seq<char>>, Seq<char>>(e@),
{
    if !c.outside_surface_valid {
        return Err(text("invalid outside surface"));
    }
    if is_blank(&c.outside_material) || !c.outside_reflectance_at_most_one || c.laps == 0 {
        return Err(text("invalid outside material/reflectance/laps"));
    }
    check_items(c)?;
    if c.relief_enabled {
        return Err(
            text(
                "vertical relief is not supported by planar-impulse-v2; disable relief to preserve it as metadata",
            ),
        );
    }
    let mut warnings: Vec<String> = Vec::new();
    if c.regions_have_relief {
        warnings.push(text("Height/roughness stored as metadata; vertical forces are disabled."));
    }
    let ghost w0 = texts(warnings@);
    assert(w0 =~= (if c.regions_have_relief {
        seq!["Height/roughness stored as metadata; vertical forces are disabled."@]
    } else {
        Seq::<Seq<char>>::empty()
    }));
    match &c.parametric {
        Some(p) => {
            if is_blank(&p.rules_source) || is_blank(&p.rules_edition) {
                warnings.push(text("Rule profile has no source/edition; no official compliance claim."));
            }
            assert(texts(warnings@) =~= w0 + rules_warning(*p));
            let mm = chars_of(p.units.as_str());
            if !chars_equal(&mm, "mm") || !p.area_origin_valid {
                return Err(text("invalid parametric area/origin/units"));
            }
            if !p.rules_valid {
                return Err(text("invalid numeric track rule"));
            }
            if !p.width_closure_valid {
                return Err(text("invalid track width/closure tolerance"));
            }
            if p.segments.len() == 0 {
                return Err(text("track needs segments"));
            }
            check_segments(&p.segments)?;
            if !p.length_within_budget || p.segments.len() > 100000 {
                return Err(text("track exceeds bounded geometry cache budget"));
            }
            if !p.start_finish_numbers_valid {
                return Err(text("invalid start/finish numeric configuration"));
            }
            if p.start_finish_enabled {
                match find_straight(&p.segments, &p.start_finish_segment) {
                    None => {
                        return Err(text("invalid start/finish segment reference"));
                    },
                    Some(k) => {
                        if !p.segments[k].start_finish_fits {
                            return Err(text("start/finish must lie on the referenced straight"));
                        }
                    },
                }
            }
            if !p.reflectance_valid {
                return Err(text("invalid reflectance"));
            }
            if !p.friction_valid {
                return Err(text("invalid friction"));
            }
            Ok(warnings)
        },
        None => {
            if !c.polyline_geometry_valid {
                return Err(text("invalid polyline geometry"));
            }
            if !c.polyline_surface_valid {
                return Err(text("invalid polyline surface"));
            }
            Ok(warnings)
        },
    }
}

proof fn lemma_segments_shape(segs: Seq<SegmentCheck>)
    requires
        segments_error(segs) is None,
    ensures
        forall|k: int| 0 <= k < segs.len() ==> (#[trigger] segs[k]).shape_valid,
    decreases segs.len(),
{
    if segs.len() > 0 {
        lemma_segments_shape(segs.drop_last());
        assert forall|k: int| 0 <= k < segs.len() implies (#[trigger] segs[k]).shape_valid by {
            if k < segs.len() - 1 {
                assert(segs.drop_last()[k] == segs[k]);
            }
        }
    }
}

proof fn lemma_straight_named(segs: Seq<SegmentCheck>, id: Seq<char>)
    ensures
        straight_named(segs, id) matches Some(k) ==> {
            &&& 0 <= k < segs.len()
            &&& segs[k].id@ == id
            &&& segs[k].is_straight
            &&& forall|j: int| 0 <= j < k ==> !((#[trigger] segs[j]).id@ == id && segs[j].is_straight)
        },
        straight_named(segs, id) is None ==> forall|j: int|
            0 <= j < segs.len() ==> !((#[trigger] segs[j]).id@ == id && segs[j].is_straight),
    decreases segs.len(),
{
    if segs.len() > 0 {
        lemma_straight_named(segs.drop_last(), id);
        assert forall|j: int| 0 <= j < segs.len() - 1 implies segs.drop_last()[j] == #[trigger] segs[j] by {}
    }
}

/// The warning given for a rule profile that lacks a source or an edition.
pub open spec fn no_profile_warning() -> Seq<char> {
    "Rule profile has no source/edition; no official compliance claim."@
}

/// The warning given for regions with height or roughness.
pub open spec fn relief_metadata_warning() -> Seq<char> {
    "Height/roughness stored as metadata; vertical forces are disabled."@
}

/// What every accepted definition satisfies: a valid outside surface with
/// a non-blank material, at least one lap, no relief; every region, mark
/// and gate valid; for a parametric track, millimetre units, valid area,
/// rules, width and closure, at least one segment and every segment of
/// valid shape, within the geometry budget, valid start/finish numbers,
/// reflectance and friction, and, when start/finish is enabled, a straight
/// carrying the marking whose first occurrence fits it; for a polyline
/// track, valid geometry and surface. Its warnings are: the relief note
/// first when some region has relief, then, for a parametric track whose
/// rule profile has a blank source or a blank edition, the profile
/// warning, and nothing else.
pub proof fn lemma_accepted_definition(c: DefinitionCheck)
    requires
        definition_result(c) is Ok,
    ensures
        c.outside_surface_valid,
        !blank(c.outside_material@),
        c.outside_reflectance_at_most_one,
        c.laps > 0,
        !c.relief_enabled,
        ({
            let all = c.regions@ + c.marks@ + c.gates@;
            forall|k: int| 0 <= k < all.len() ==> (#[trigger] all[k]).fields_valid
        }),
        c.parametric matches Some(p) ==> {
            let segs = p.segments@;
            &&& p.units@ == "mm"@
            &&& p.area_origin_valid
            &&& p.rules_valid
            &&& p.width_closure_valid
            &&& segs.len() > 0
            &&& segs.len() <= 100000
            &&& forall|k: int| 0 <= k < segs.len() ==> (#[trigger] segs[k]).shape_valid
            &&& p.length_within_budget
            &&& p.start_finish_numbers_valid
            &&& p.reflectance_valid
            &&& p.friction_valid
            &&& p.start_finish_enabled ==> exists|k: int|
                0 <= k < segs.len() && (#[trigger] segs[k]).id@ == p.start_finish_segment@ && segs[k].is_straight
                    && segs[k].start_finish_fits && forall|j: int|
                    0 <= j < k ==> !((#[trigger] segs[j]).id@ == p.start_finish_segment@ && segs[j].is_straight)
        },
        c.parametric is None ==> c.polyline_geometry_valid && c.polyline_surface_valid,
        ({
            let w = definition_result(c)->Ok_0;
            let profile_missing = c.parametric matches Some(p) && (blank(p.rules_source@) || blank(
                p.rules_edition@,
            ));
            &&& w.len() == (if c.regions_have_relief { 1int } else { 0int }) + (if profile_missing {
                1int
            } else {
                0int
            })
            &&& c.regions_have_relief ==> w[0] == relief_metadata_warning()
            &&& profile_missing ==> w.last() == no_profile_warning()
        }),
{
    lemma_trim_empty_iff_blank(c.outside_material@);
    let all = c.regions@ + c.marks@ + c.gates@;
    lemma_no_rejected_item(all);
    assert forall|k: int| 0 <= k < all.len() implies (#[trigger] all[k]).fields_valid by {
        assert(!item_rejected(all.take(k), all[k]));
    }
    match c.parametric {
        Some(p) => {
            let segs = p.segments@;
            lemma_segments_shape(segs);
            lemma_straight_named(segs, p.start_finish_segment@);
            lemma_trim_empty_iff_blank(p.rules_source@);
            lemma_trim_empty_iff_blank(p.rules_edition@);
            if p.start_finish_enabled {
                let k = straight_named(segs, p.start_finish_segment@)->0;
                assert(segs[k].id@ == p.start_finish_segment@);
            }
        },
        None => {},
    }
}

} // verus!
