//! Vocabulary of the parametric track: rule modes, start/exit direction,
//! marker sides, validation issues and segment naming.
use vstd::prelude::*;
use crate::text::{
    ascii_lower, ascii_lower_seq, chars_equal, decimal, is_ws, normalize, normalized, push_decimal,
    strip_end, strip_start, trim,
};

verus! {

/// How strictly track rules are enforced.
#[derive(Debug, Clone, Copy, PartialEq, Eq, Structural)]
pub enum TrackRulesMode {
    Strict,
    Warning,
    Free,
}

/// The direction in which the robot leaves the start area.
#[derive(Debug, Clone, Copy, PartialEq, Eq, Structural)]
pub enum StartExitDirection {
    ToIncreasingS,
    ToDecreasingS,
}

/// Settings of the corner markers.
#[derive(Debug, Clone)]
pub struct TrackCornerMarkersConfig {
    pub auto_generate: bool,
}

/// The side of the line on which a marker stands.
#[derive(Debug, Clone, Copy, PartialEq, Eq, Structural)]
pub enum MarkerSide {
    Left,
    Right,
    Center,
}

/// Severity of a track validation finding.
#[derive(Debug, Clone, Copy, PartialEq, Eq, Structural)]
pub enum Severity {
    Error,
    Warning,
    Info,
}

/// One finding of the track validator.
#[derive(Debug, Clone)]
pub struct TrackValidationIssue {
    pub severity: Severity,
    pub rule_id: String,
    pub segment_id: Option<String>,
    pub message: String,
}

/// The persisted name of a rule mode.
pub open spec fn rules_mode_name(m: TrackRulesMode) -> Seq<char> {
    match m {
        TrackRulesMode::Strict => "strict"@,
        TrackRulesMode::Warning => "warning"@,
        TrackRulesMode::Free => "free"@,
    }
}

/// The rule mode that a text names: `strict` and `free`, compared after
/// trimming and ASCII lower-casing; anything else means `Warning`.
pub open spec fn rules_mode_of(value: Seq<char>) -> TrackRulesMode {
    if normalized(value) == "strict"@ {
        TrackRulesMode::Strict
    } else if normalized(value) == "free"@ {
        TrackRulesMode::Free
    } else {
        TrackRulesMode::Warning
    }
}

impl TrackRulesMode {
    /// The persisted name of this mode.
    pub fn as_str(self) -> (r: &'static str)
        ensures
            r@ == rules_mode_name(self),
    {
        match self {
            TrackRulesMode::Strict => "strict",
            TrackRulesMode::Warning => "warning",
            TrackRulesMode::Free => "free",
        }
    }

    /// Reads a mode leniently: unknown names mean `Warning`.
    pub fn from_str(value: &str) -> (r: Self)
        ensures
            r == rules_mode_of(value@),
    {
        let v = normalize(value);
        if chars_equal(&v, "strict") {
            TrackRulesMode::Strict
        } else if chars_equal(&v, "free") {
            TrackRulesMode::Free
        } else {
            TrackRulesMode::Warning
        }
    }
}

/// A name made of lower-case ASCII letters and underscores is its own
/// normalized form.
pub proof fn lemma_plain_name_normalized(s: Seq<char>)
    requires
        forall|i: int| 0 <= i < s.len() ==> ('a' <= #[trigger] s[i] <= 'z' || s[i] == '_'),
    ensures
        normalized(s) == s,
{
    let p = |c: char| is_ws(c);
    if s.len() > 0 {
        assert(!is_ws(s[0]));
        assert(!is_ws(s.last()));
    }
    assert(strip_start(s, p) == s);
    assert(strip_end(s, p) == s);
    assert(trim(s) == s);
    assert(ascii_lower_seq(s) =~= s);
}

/// Reading back the persisted name of a rule mode gives the same mode.
pub proof fn lemma_rules_mode_roundtrip(m: TrackRulesMode)
    ensures
        rules_mode_of(rules_mode_name(m)) == m,
{
    reveal_strlit("strict");
    reveal_strlit("warning");
    reveal_strlit("free");
    lemma_plain_name_normalized(rules_mode_name(m));
}

/// The persisted name of an exit direction.
pub open spec fn exit_direction_name(d: StartExitDirection) -> Seq<char> {
    match d {
        StartExitDirection::ToIncreasingS => "to_increasing_s"@,
        StartExitDirection::ToDecreasingS => "to_decreasing_s"@,
    }
}

/// The exit direction that a text names: the names of the decreasing
/// direction (`to_decreasing_s`, `decreasing`, `decreasing_s`, `left`,
/// `esquerda`), compared after trimming and ASCII lower-casing; anything else
/// means the increasing direction.
pub open spec fn exit_direction_of(value: Seq<char>) -> StartExitDirection {
    let v = normalized(value);
    if v == "to_decreasing_s"@ || v == "decreasing"@ || v == "decreasing_s"@ || v == "left"@ || v
        == "esquerda"@ {
        StartExitDirection::ToDecreasingS
    } else {
        StartExitDirection::ToIncreasingS
    }
}

impl StartExitDirection {
    /// The persisted name of this direction.
    pub fn as_str(self) -> (r: &'static str)
        ensures
            r@ == exit_direction_name(self),
    {
        match self {
            StartExitDirection::ToIncreasingS => "to_increasing_s",
            StartExitDirection::ToDecreasingS => "to_decreasing_s",
        }
    }

    /// Reads a direction leniently: unknown names mean increasing `s`.
    pub fn from_str(value: &str) -> (r: Self)
        ensures
            r == exit_direction_of(value@),
    {
        let v = normalize(value);
        if chars_equal(&v, "to_decreasing_s") || chars_equal(&v, "decreasing") || chars_equal(
            &v,
            "decreasing_s",
        ) || chars_equal(&v, "left") || chars_equal(&v, "esquerda") {
            StartExitDirection::ToDecreasingS
        } else {
            StartExitDirection::ToIncreasingS
        }
    }

    /// Whether the robot leaves towards increasing arc length.
    pub fn is_increasing_s(self) -> (r: bool)
        ensures
            r == (self == StartExitDirection::ToIncreasingS),
    {
        self == StartExitDirection::ToIncreasingS
    }

    /// The label shown for this direction in the editor.
    pub fn ui_label(self) -> (r: &'static str)
        ensures
            self == StartExitDirection::ToIncreasingS ==> r@ == "sair para a direita (+s)"@,
            self == StartExitDirection::ToDecreasingS ==> r@ == "sair para a esquerda (-s)"@,
    {
        match self {
            StartExitDirection::ToIncreasingS => "sair para a direita (+s)",
            StartExitDirection::ToDecreasingS => "sair para a esquerda (-s)",
        }
    }
}

/// Reading back the persisted name of an exit direction gives the same
/// direction.
pub proof fn lemma_exit_direction_roundtrip(d: StartExitDirection)
    ensures
        exit_direction_of(exit_direction_name(d)) == d,
{
    reveal_strlit("to_increasing_s");
    reveal_strlit("to_decreasing_s");
    reveal_strlit("decreasing");
    reveal_strlit("decreasing_s");
    reveal_strlit("left");
    reveal_strlit("esquerda");
    assert("to_increasing_s"@[3] != "to_decreasing_s"@[3]);
    lemma_plain_name_normalized(exit_direction_name(d));
}

/// The persisted name of a marker side.
pub open spec fn marker_side_name(m: MarkerSide) -> Seq<char> {
    match m {
        MarkerSide::Left => "left"@,
        MarkerSide::Right => "right"@,
        MarkerSide::Center => "center"@,
    }
}

/// The side that a text names: `left`/`esquerda` and
/// `center`/`centre`/`centro`, compared after trimming and ASCII
/// lower-casing; anything else means `Right`.
pub open spec fn marker_side_of(value: Seq<char>) -> MarkerSide {
    let v = normalized(value);
    if v == "left"@ || v == "esquerda"@ {
        MarkerSide::Left
    } else if v == "center"@ || v == "centre"@ || v == "centro"@ {
        MarkerSide::Center
    } else {
        MarkerSide::Right
    }
}

impl MarkerSide {
    /// The persisted name of this side.
    pub fn as_str(self) -> (r: &'static str)
        ensures
            r@ == marker_side_name(self),
    {
        match self {
            MarkerSide::Left => "left",
            MarkerSide::Right => "right",
            MarkerSide::Center => "center",
        }
    }

    /// Reads a side leniently: unknown names mean `Right`.
    pub fn from_str(value: &str) -> (r: Self)
        ensures
            r == marker_side_of(value@),
    {
        let v = normalize(value);
        if chars_equal(&v, "left") || chars_equal(&v, "esquerda") {
            MarkerSide::Left
        } else if chars_equal(&v, "center") || chars_equal(&v, "centre") || chars_equal(&v, "centro") {
            MarkerSide::Center
        } else {
            MarkerSide::Right
        }
    }
}

/// Reading back the persisted name of a marker side gives the same side.
pub proof fn lemma_marker_side_roundtrip(m: MarkerSide)
    ensures
        marker_side_of(marker_side_name(m)) == m,
{
    reveal_strlit("left");
    reveal_strlit("right");
    reveal_strlit("center");
    reveal_strlit("esquerda");
    reveal_strlit("centre");
    reveal_strlit("centro");
    lemma_plain_name_normalized(marker_side_name(m));
}

/// The severity with which a rule violation is reported in each mode.
pub open spec fn severity_of(mode: TrackRulesMode) -> Severity {
    match mode {
        TrackRulesMode::Strict => Severity::Error,
        TrackRulesMode::Warning => Severity::Warning,
        TrackRulesMode::Free => Severity::Info,
    }
}

/// Strict mode reports rule violations as errors, warning mode as warnings
/// and free mode as information.
pub fn rule_severity(mode: TrackRulesMode) -> (r: Severity)
    ensures
        r == severity_of(mode),
{
    match mode {
        TrackRulesMode::Strict => Severity::Error,
        TrackRulesMode::Warning => Severity::Warning,
        TrackRulesMode::Free => Severity::Info,
    }
}

/// Adds a finding at the end of `issues`.
pub fn push_issue(
    issues: &mut Vec<TrackValidationIssue>,
    severity: Severity,
    rule_id: &str,
    segment_id: Option<&str>,
    message: &str,
)
    ensures
        final(issues)@.len() == old(issues)@.len() + 1,
        final(issues)@.take(old(issues)@.len() as int) == old(issues)@,
        final(issues)@.last().severity == severity,
        final(issues)@.last().rule_id@ == rule_id@,
        final(issues)@.last().message@ == message@,
        segment_id is None ==> final(issues)@.last().segment_id is None,
        segment_id matches Some(s) ==> (final(issues)@.last().segment_id matches Some(t) && t@ == s@),
{
    let seg = match segment_id {
        Some(s) => Some(s.to_owned()),
        None => None,
    };
    issues.push(
        TrackValidationIssue {
            severity,
            rule_id: rule_id.to_owned(),
            segment_id: seg,
            message: message.to_owned(),
        },
    );
    assert(issues@.take(old(issues)@.len() as int) =~= old(issues)@);
}

/// The ids in use, as texts.
pub open spec fn id_texts(ids: Seq<String>) -> Seq<Seq<char>> {
    ids.map_values(|s: String| s@)
}

/// The name made of `prefix` and the number `k`.
pub open spec fn numbered(prefix: Seq<char>, k: nat) -> Seq<char> {
    prefix + decimal(k)
}

/// The first number from `k` up to 9999 whose name is not in use, or 0 when
/// every one of them is taken.
pub open spec fn first_free(used: Seq<Seq<char>>, prefix: Seq<char>, k: nat) -> nat
    decreases 10000 - k,
{
    if k >= 10000 {
        0
    } else if !used.contains(numbered(prefix, k)) {
        k
    } else {
        first_free(used, prefix, k + 1)
    }
}

proof fn lemma_first_free_range(used: Seq<Seq<char>>, prefix: Seq<char>, k: nat)
    ensures
        first_free(used, prefix, k) == 0 || (k <= first_free(used, prefix, k) < 10000
            && !used.contains(numbered(prefix, first_free(used, prefix, k)))),
    decreases 10000 - k,
{
    if k < 10000 && used.contains(numbered(prefix, k)) {
        lemma_first_free_range(used, prefix, k + 1);
    }
}

fn contains_text(ids: &Vec<String>, name: &String) -> (r: bool)
    ensures
        r == id_texts(ids@).contains(name@),
{
    let mut j: usize = 0;
    while j < ids.len()
        invariant
            j <= ids.len(),
            forall|i: int| 0 <= i < j ==> ids@[i]@ != name@,
        decreases ids.len() - j,
    {
        if ids[j] == *name {
            assert(id_texts(ids@)[j as int] == name@);
            return true;
        }
        j = j + 1;
    }
    proof {
        if id_texts(ids@).contains(name@) {
            let i = choose|i: int| 0 <= i < id_texts(ids@).len() && id_texts(ids@)[i] == name@;
            assert(ids@[i]@ == name@);
        }
    }
    false
}

fn numbered_name(prefix: &str, k: u64) -> (r: String)
    ensures
        r@ == numbered(prefix@, k as nat),
{
    let mut s = prefix.to_owned();
    push_decimal(&mut s, k);
    s
}

/// A fresh segment id: `prefix` followed by the smallest number from 1 up to
/// 9999 whose name is not among `ids`; when all of those are taken, `prefix`
/// followed by one more than the number of ids.
pub fn next_segment_id(ids: &Vec<String>, prefix: &str) -> (r: String)
    requires
        ids@.len() < usize::MAX,
    ensures
        first_free(id_texts(ids@), prefix@, 1) != 0 ==> r@ == numbered(
            prefix@,
            first_free(id_texts(ids@), prefix@, 1),
        ),
        first_free(id_texts(ids@), prefix@, 1) == 0 ==> r@ == numbered(prefix@, ids@.len() + 1),
        first_free(id_texts(ids@), prefix@, 1) != 0 ==> !id_texts(ids@).contains(r@),
{
    let ghost used = id_texts(ids@);
    proof {
        lemma_first_free_range(used, prefix@, 1);
    }
    let mut idx: u64 = 1;
    while idx < 10000
        invariant
            1 <= idx <= 10000,
            used == id_texts(ids@),
            first_free(used, prefix@, 1) == first_free(used, prefix@, idx as nat),
        decreases 10000 - idx,
    {
        let candidate = numbered_name(prefix, idx);
        if !contains_text(ids, &candidate) {
            return candidate;
        }
        idx = idx + 1;
    }
    let n = (ids.len() + 1) as u64;
    numbered_name(prefix, n)
}

proof fn lemma_first_free_from(used: Seq<Seq<char>>, prefix: Seq<char>, k: nat)
    requires
        1 <= k,
    ensures
        first_free(used, prefix, k) != 0 ==> forall|j: nat|
            k <= j < first_free(used, prefix, k) ==> used.contains(#[trigger] numbered(prefix, j)),
        first_free(used, prefix, k) == 0 ==> forall|j: nat| k <= j < 10000 ==> used.contains(#[trigger] numbered(prefix, j)),
    decreases 10000 - k,
{
    if k < 10000 && used.contains(numbered(prefix, k)) {
        lemma_first_free_from(used, prefix, k + 1);
    }
}

/// The id chosen for a new segment is the smallest free one: when some
/// name `prefix` + n with 1 <= n <= 9999 is not among `ids`, the result is
/// such a name that no id has, and every such name with a smaller number is
/// taken; when all of them are taken, it is `prefix` followed by one more
/// than the number of ids.
pub proof fn lemma_next_segment_id_is_smallest_free(ids: Seq<String>, prefix: Seq<char>)
    ensures
        ({
            let used = id_texts(ids);
            let f = first_free(used, prefix, 1);
            &&& f != 0 ==> 1 <= f <= 9999 && !used.contains(prefix + decimal(f)) && forall|j: nat|
                1 <= j < f ==> used.contains(prefix + #[trigger] decimal(j))
            &&& f == 0 ==> forall|j: nat| 1 <= j <= 9999 ==> used.contains(prefix + #[trigger] decimal(j))
        }),
{
    let used = id_texts(ids);
    lemma_first_free_range(used, prefix, 1);
    lemma_first_free_from(used, prefix, 1);
    let f = first_free(used, prefix, 1);
    assert forall|j: nat| 1 <= j < f && f != 0 implies used.contains(prefix + #[trigger] decimal(j)) by {
        assert(used.contains(numbered(prefix, j)));
    }
    assert forall|j: nat| 1 <= j <= 9999 && f == 0 implies used.contains(prefix + #[trigger] decimal(j)) by {
        assert(used.contains(numbered(prefix, j)));
    }
}

} // verus!
