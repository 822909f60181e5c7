//! File names made from user-given names: JSON document names and asset
//! file names, and the change flags of the track panel.
use vstd::prelude::*;
use crate::text::{
    ascii_lower, ascii_lower_seq, chars_of, is_cc, is_control, is_whitespace, is_ws,
    lemma_strip_end_take, lemma_strip_shape, lemma_strip_start_skip, string_of, strip, to_ascii_lower,
    trim, trimmed,
};

verus! {

/// What the track panel changed in one frame.
#[derive(Debug, Default, Clone, Copy)]
pub struct TrackPanelChanges {
    pub track_changed: bool,
    pub surface_changed: bool,
}

impl TrackPanelChanges {
    /// Whether anything changed.
    pub fn any(self) -> (r: bool)
        ensures
            r == (self.track_changed || self.surface_changed),
    {
        self.track_changed || self.surface_changed
    }
}

/// Characters that cannot stand in a file name on common systems.
pub open spec fn forbidden_in_name(c: char) -> bool {
    c == '<' || c == '>' || c == ':' || c == '"' || c == '/' || c == '\\' || c == '|' || c == '?'
        || c == '*' || is_cc(c)
}

/// The character that stands for `c` in a file name.
pub open spec fn name_char(c: char) -> char {
    if forbidden_in_name(c) {
        '_'
    } else {
        c
    }
}

/// Whether a name ends in `.json`, regardless of letter case.
pub open spec fn ends_with_json(s: Seq<char>) -> bool {
    s.len() >= 5 && ascii_lower_seq(s.subrange(s.len() - 5, s.len() as int)) == ".json"@
}

/// The file name for a JSON document named `name`: the trimmed name with
/// characters unfit for file names replaced by `_`, without spaces and dots
/// at either end; `fallback` when nothing is left; `.json` appended unless
/// it already ends so, in any letter case.
pub open spec fn json_file_name(name: Seq<char>, fallback: Seq<char>) -> Seq<char> {
    let mapped = trim(name).map_values(|c: char| name_char(c));
    let cleaned = strip(mapped, |c: char| c == ' ' || c == '.');
    let base = if cleaned.len() == 0 { fallback } else { cleaned };
    if ends_with_json(base) {
        base
    } else {
        base + ".json"@
    }
}

fn is_strip_char(c: char, dot_space: bool) -> (r: bool)
    ensures
        r == (if dot_space { c == ' ' || c == '.' } else { c == '_' }),
{
    if dot_space {
        c == ' ' || c == '.'
    } else {
        c == '_'
    }
}

/// `v` without spaces and dots at either end (`dot_space`), or without
/// underscores at either end (otherwise).
fn strip_chars(v: &Vec<char>, dot_space: bool) -> (r: Vec<char>)
    ensures
        dot_space ==> r@ == strip(v@, |c: char| c == ' ' || c == '.'),
        !dot_space ==> r@ == strip(v@, |c: char| c == '_'),
{
    let ghost p = if dot_space {
        |c: char| c == ' ' || c == '.'
    } else {
        |c: char| c == '_'
    };
    let n = v.len();
    let mut start: usize = 0;
    while start < n && is_strip_char(v[start], dot_space)
        invariant
            n == v@.len(),
            start <= n,
            forall|j: int|
                0 <= j < start ==> (if dot_space {
                    #[trigger] v@[j] == ' ' || v@[j] == '.'
                } else {
                    v@[j] == '_'
                }),
        decreases n - start,
    {
        start = start + 1;
    }
    let mut end: usize = n;
    while end > start && is_strip_char(v[end - 1], dot_space)
        invariant
            n == v@.len(),
            start <= end <= n,
            forall|j: int|
                end <= j < n ==> (if dot_space {
                    #[trigger] v@[j] == ' ' || v@[j] == '.'
                } else {
                    v@[j] == '_'
                }),
        decreases end - start,
    {
        end = end - 1;
    }
    let mut out: Vec<char> = Vec::new();
    let mut i: usize = start;
    while i < end
        invariant
            n == v@.len(),
            start <= i <= end <= n,
            out@ == v@.subrange(start as int, i as int),
        decreases end - i,
    {
        out.push(v[i]);
        i = i + 1;
        assert(out@ =~= v@.subrange(start as int, i as int));
    }
    proof {
        assert forall|j: int| 0 <= j < start implies p(#[trigger] v@[j]) by {}
        lemma_strip_start_skip(v@, p, start as int);
        let rest = v@.skip(start as int);
        assert forall|j: int| end - start <= j < rest.len() implies p(#[trigger] rest[j]) by {
            assert(rest[j] == v@[start + j]);
        }
        if end > start {
            assert(rest[end - start - 1] == v@[end - 1]);
        }
        lemma_strip_end_take(rest, p, end - start);
        assert(out@ =~= rest.take(end - start));
    }
    out
}

/// A file name for a JSON document named `name` (see `json_file_name`).
pub fn json_file_name_from_name(name: &str, fallback: &str) -> (r: String)
    ensures
        r@ == json_file_name(name@, fallback@),
{
    let t = trimmed(name);
    let mut mapped: Vec<char> = Vec::new();
    let mut i: usize = 0;
    while i < t.len()
        invariant
            i <= t.len(),
            mapped@ == t@.take(i as int).map_values(|c: char| name_char(c)),
        decreases t.len() - i,
    {
        let c = t[i];
        let m = if c == '<' || c == '>' || c == ':' || c == '"' || c == '/' || c == '\\' || c
            == '|' || c == '?' || c == '*' || is_control(c) {
            '_'
        } else {
            c
        };
        mapped.push(m);
        i = i + 1;
        assert(mapped@ =~= t@.take(i as int).map_values(|c: char| name_char(c)));
    }
    assert(t@.take(t.len() as int) =~= t@);
    let cleaned = strip_chars(&mapped, true);
    let mut base = if cleaned.len() == 0 {
        chars_of(fallback)
    } else {
        cleaned
    };
    let n = base.len();
    let mut has_ext = false;
    if n >= 5 {
        let mut tail: Vec<char> = Vec::new();
        let mut k: usize = n - 5;
        while k < n
            invariant
                n == base@.len(),
                n >= 5,
                n - 5 <= k <= n,
                tail@ == ascii_lower_seq(base@.subrange(n - 5, k as int)),
            decreases n - k,
        {
            tail.push(to_ascii_lower(base[k]));
            k = k + 1;
            assert(tail@ =~= ascii_lower_seq(base@.subrange(n - 5, k as int)));
        }
        has_ext = tail.len() == 5 && tail[0] == '.' && tail[1] == 'j' && tail[2] == 's' && tail[3]
            == 'o' && tail[4] == 'n';
        proof {
            reveal_strlit(".json");
            if has_ext {
                assert(tail@ =~= ".json"@);
            } else {
                assert(tail@ != ".json"@);
            }
        }
    }
    if !has_ext {
        base.push('.');
        base.push('j');
        base.push('s');
        base.push('o');
        base.push('n');
        proof {
            reveal_strlit(".json");
        }
    }
    let r = string_of(&base);
    proof {
        if !has_ext {
            assert(r@ =~= (if cleaned@.len() == 0 { fallback@ } else { cleaned@ }) + ".json"@);
        }
    }
    r
}

/// Whether `c` separates words in an asset name.
pub open spec fn is_name_separator(c: char) -> bool {
    is_ws(c) || c == '-' || c == '_' || c == '.'
}

pub open spec fn is_ascii_alnum(c: char) -> bool {
    ('0' <= c <= '9') || ('a' <= c <= 'z') || ('A' <= c <= 'Z')
}

/// The name with ASCII letters and digits kept in lower case, each run of
/// separators turned into one `_`, and every other character dropped.
pub open spec fn asset_name_chars(s: Seq<char>) -> Seq<char>
    decreases s.len(),
{
    if s.len() == 0 {
        Seq::empty()
    } else {
        let r = asset_name_chars(s.drop_last());
        let c = s.last();
        if is_ascii_alnum(c) {
            r.push(ascii_lower(c))
        } else if is_name_separator(c) {
            if r.len() > 0 && r.last() == '_' {
                r
            } else {
                r.push('_')
            }
        } else {
            r
        }
    }
}

/// A safe asset file stem for `name`: `asset_name_chars` without `_` at
/// either end, or `surface_profile` when nothing is left.
pub open spec fn asset_file_name(name: Seq<char>) -> Seq<char> {
    let s = strip(asset_name_chars(name), |c: char| c == '_');
    if s.len() == 0 {
        "surface_profile"@
    } else {
        s
    }
}

/// A safe asset file stem for `name` (see `asset_file_name`).
pub fn sanitize_asset_filename(name: &str) -> (r: String)
    ensures
        r@ == asset_file_name(name@),
{
    let chars = chars_of(name);
    let mut out: Vec<char> = Vec::new();
    let mut i: usize = 0;
    while i < chars.len()
        invariant
            i <= chars.len(),
            out@ == asset_name_chars(chars@.take(i as int)),
        decreases chars.len() - i,
    {
        let ch = chars[i];
        proof {
            assert(chars@.take(i + 1).drop_last() =~= chars@.take(i as int));
        }
        if ('0' <= ch && ch <= '9') || ('a' <= ch && ch <= 'z') || ('A' <= ch && ch <= 'Z') {
            out.push(to_ascii_lower(ch));
        } else if is_whitespace(ch) || ch == '-' || ch == '_' || ch == '.' {
            let ends_with_sep = out.len() > 0 && out[out.len() - 1] == '_';
            if !ends_with_sep {
                out.push('_');
            }
        }
        i = i + 1;
    }
    assert(chars@.take(chars.len() as int) =~= chars@);
    let stripped = strip_chars(&out, false);
    if stripped.len() == 0 {
        "surface_profile".to_owned()
    } else {
        string_of(&stripped)
    }
}

/// A character that a file name may hold: none of `<>:"/\\|?*` and no
/// control character.
pub open spec fn fit_for_file_name(c: char) -> bool {
    !(c == '<' || c == '>' || c == ':' || c == '"' || c == '/' || c == '\\' || c == '|' || c == '?' || c == '*'
        || is_cc(c))
}

/// A JSON document's file name always ends in `.json` (in some letter
/// case), and, when the fallback name is fit for a file name, holds only
/// characters fit for a file name, whatever the given name.
pub proof fn lemma_json_file_name_is_safe(name: Seq<char>, fallback: Seq<char>)
    ensures
        ({
            let r = json_file_name(name, fallback);
            &&& r.len() >= 5
            &&& ascii_lower_seq(r.subrange(r.len() - 5, r.len() as int)) == ".json"@
            &&& (forall|i: int| 0 <= i < fallback.len() ==> fit_for_file_name(#[trigger] fallback[i]))
                ==> forall|i: int| 0 <= i < r.len() ==> fit_for_file_name(#[trigger] r[i])
        }),
{
    let mapped = trim(name).map_values(|c: char| name_char(c));
    let p = |c: char| c == ' ' || c == '.';
    let cleaned = strip(mapped, p);
    lemma_strip_shape(mapped, p);
    let t = crate::text::strip_start(mapped, p);
    assert forall|i: int| 0 <= i < cleaned.len() implies fit_for_file_name(#[trigger] cleaned[i]) by {
        assert(cleaned[i] == t[i]);
        assert(t[i] == mapped[mapped.len() - t.len() + i]);
    }
    let base = if cleaned.len() == 0 { fallback } else { cleaned };
    reveal_strlit(".json");
    let r = json_file_name(name, fallback);
    if !ends_with_json(base) {
        assert(r.subrange(r.len() - 5, r.len() as int) =~= ".json"@);
        assert(ascii_lower_seq(".json"@) =~= ".json"@);
        if forall|i: int| 0 <= i < fallback.len() ==> fit_for_file_name(#[trigger] fallback[i]) {
            assert forall|i: int| 0 <= i < r.len() implies fit_for_file_name(#[trigger] r[i]) by {
                if i < base.len() {
                    assert(r[i] == base[i]);
                } else {
                    assert(r[i] == ".json"@[i - base.len()]);
                }
            }
        }
    }
}

proof fn lemma_asset_chars_shape(s: Seq<char>)
    ensures
        ({
            let r = asset_name_chars(s);
            &&& forall|i: int| 0 <= i < r.len() ==> ('0' <= #[trigger] r[i] <= '9') || ('a' <= r[i] <= 'z') || r[i] == '_'
            &&& forall|i: int| 0 <= i < r.len() - 1 ==> !(#[trigger] r[i] == '_' && r[i + 1] == '_')
        }),
    decreases s.len(),
{
    if s.len() > 0 {
        lemma_asset_chars_shape(s.drop_last());
        let r0 = asset_name_chars(s.drop_last());
        let c = s.last();
        let r = asset_name_chars(s);
        if is_ascii_alnum(c) {
            let l = ascii_lower(c);
            if 'A' <= c <= 'Z' {
                assert('a' <= l <= 'z');
            }
            assert(r == r0.push(l));
            assert forall|i: int| 0 <= i < r.len() - 1 implies !(#[trigger] r[i] == '_' && r[i + 1] == '_') by {
                assert(r[i] == r0[i]);
                if i < r0.len() - 1 {
                    assert(r[i + 1] == r0[i + 1]);
                }
            }
        } else if is_name_separator(c) && !(r0.len() > 0 && r0.last() == '_') {
            assert(r == r0.push('_'));
            assert forall|i: int| 0 <= i < r.len() - 1 implies !(#[trigger] r[i] == '_' && r[i + 1] == '_') by {
                assert(r[i] == r0[i]);
                if i < r0.len() - 1 {
                    assert(r[i + 1] == r0[i + 1]);
                }
            }
        }
    }
}

/// An asset file stem is never empty and holds only ASCII digits, lower
/// case letters and single underscores, never at either end.
pub proof fn lemma_asset_file_name_is_safe(name: Seq<char>)
    ensures
        ({
            let r = asset_file_name(name);
            &&& r.len() > 0
            &&& forall|i: int| 0 <= i < r.len() ==> ('0' <= #[trigger] r[i] <= '9') || ('a' <= r[i] <= 'z') || r[i] == '_'
            &&& forall|i: int| 0 <= i < r.len() - 1 ==> !(#[trigger] r[i] == '_' && r[i + 1] == '_')
            &&& r[0] != '_'
            &&& r.last() != '_'
        }),
{
    let a = asset_name_chars(name);
    lemma_asset_chars_shape(name);
    let p = |c: char| c == '_';
    lemma_strip_shape(a, p);
    let t = crate::text::strip_start(a, p);
    let st = strip(a, p);
    let off = a.len() - t.len();
    reveal_strlit("surface_profile");
    let r = asset_file_name(name);
    if st.len() > 0 {
        assert forall|i: int| 0 <= i < st.len() implies st[i] == a[off + i] by {
            assert(st[i] == t[i]);
        }
        assert forall|i: int| 0 <= i < st.len() implies ('0' <= #[trigger] st[i] <= '9') || ('a' <= st[i] <= 'z') || st[i] == '_' by {
            assert(st[i] == a[off + i]);
        }
        assert forall|i: int| 0 <= i < st.len() - 1 implies !(#[trigger] st[i] == '_' && st[i + 1] == '_') by {
            assert(st[i] == a[off + i]);
            assert(st[i + 1] == a[off + i + 1]);
        }
    }
}

} // verus!
