//! Keeping the widget theme settings in step with the built-in defaults:
//! transparent themes are dropped, missing default themes are added, and
//! widgets without a theme get their default one.

use vstd::prelude::*;

use crate::common::owned;
use crate::text::{chars_equal, chars_of, ends_with, has_suffix};

verus! {

/// Where a theme of the synced settings comes from: the settings' own list
/// or the defaults, by index.
#[derive(Debug, Clone, Copy)]
pub enum ThemeSource {
    Existing(usize),
    Default(usize),
}

/// A theme of the settings is kept unless its id ends in `-transparent`.
pub open spec fn theme_kept(id: Seq<char>) -> bool {
    !ends_with(id, "-transparent"@)
}

/// The settings' themes that are kept, in order.
pub open spec fn kept_sources(ids: Seq<Seq<char>>) -> Seq<ThemeSource>
    decreases ids.len(),
{
    if ids.len() == 0 {
        Seq::empty()
    } else {
        let prev = kept_sources(ids.drop_last());
        if theme_kept(ids.last()) {
            prev.push(ThemeSource::Existing((ids.len() - 1) as usize))
        } else {
            prev
        }
    }
}

/// The id of a theme by its source.
pub open spec fn source_id(s: ThemeSource, ids: Seq<Seq<char>>, defaults: Seq<Seq<char>>) -> Seq<char> {
    match s {
        ThemeSource::Existing(i) => ids[i as int],
        ThemeSource::Default(j) => defaults[j as int],
    }
}

/// Whether a theme with the id is among those planned.
pub open spec fn plan_has_id(plan: Seq<ThemeSource>, ids: Seq<Seq<char>>, defaults: Seq<Seq<char>>, id: Seq<char>) -> bool {
    exists|k: int| 0 <= k < plan.len() && source_id(#[trigger] plan[k], ids, defaults) == id
}

/// The plan with the first `n` default themes added, each unless a theme
/// with its id is already there.
pub open spec fn add_defaults(plan: Seq<ThemeSource>, ids: Seq<Seq<char>>, defaults: Seq<Seq<char>>, n: nat) -> Seq<ThemeSource>
    decreases n,
{
    if n == 0 {
        plan
    } else {
        let prev = add_defaults(plan, ids, defaults, (n - 1) as nat);
        if plan_has_id(prev, ids, defaults, defaults[n - 1]) {
            prev
        } else {
            prev.push(ThemeSource::Default((n - 1) as usize))
        }
    }
}

/// The themes of the synced settings: the kept ones, then the missing
/// default ones.
pub open spec fn theme_plan(ids: Seq<Seq<char>>, defaults: Seq<Seq<char>>) -> Seq<ThemeSource> {
    add_defaults(kept_sources(ids), ids, defaults, defaults.len())
}

/// A theme: its id and the rest of its settings.
pub struct ThemeEntry<T> {
    pub id: String,
    pub body: T,
}

/// The ids of a list of themes.
pub open spec fn theme_ids<T>(themes: Seq<ThemeEntry<T>>) -> Seq<Seq<char>> {
    themes.map_values(|t: ThemeEntry<T>| t.id@)
}

/// The theme a planned source stands for.
pub open spec fn source_theme<T>(s: ThemeSource, themes: Seq<ThemeEntry<T>>, defaults: Seq<ThemeEntry<T>>) -> ThemeEntry<T> {
    match s {
        ThemeSource::Existing(i) => themes[i as int],
        ThemeSource::Default(j) => defaults[j as int],
    }
}

/// Whether `out` holds the themes that `plan` stands for, in order.
pub open spec fn themes_follow_plan<T>(
    out: Seq<ThemeEntry<T>>,
    plan: Seq<ThemeSource>,
    themes: Seq<ThemeEntry<T>>,
    defaults: Seq<ThemeEntry<T>>,
) -> bool {
    &&& out.len() == plan.len()
    &&& forall|k: int| 0 <= k < out.len() ==> #[trigger] out[k] == source_theme(plan[k], themes, defaults)
}

/// Whether one of the themes has the id.
fn has_theme_id<T>(themes: &Vec<ThemeEntry<T>>, id: &String) -> (r: bool)
    ensures
        r == theme_ids(themes@).contains(id@),
{
    let target = chars_of(id.as_str());
    let mut k: usize = 0;
    while k < themes.len()
        invariant
            k <= themes@.len(),
            target@ == id@,
            forall|m: int| 0 <= m < k ==> themes@[m].id@ != id@,
        decreases themes@.len() - k,
    {
        if chars_equal(&chars_of(themes[k].id.as_str()), &target) {
            assert(theme_ids(themes@)[k as int] == id@);
            return true;
        }
        k += 1;
    }
    proof {
        if theme_ids(themes@).contains(id@) {
            let m = choose|m: int| 0 <= m < theme_ids(themes@).len() && theme_ids(themes@)[m] == id@;
            assert(themes@[m].id@ == id@);
        }
    }
    false
}

/// The themes of the synced settings (see `theme_plan`): the settings' own
/// themes but those whose id ends in `-transparent`, in order, then each
/// default theme whose id is not among them yet.
fn sync_themes<T>(themes: Vec<ThemeEntry<T>>, defaults: Vec<ThemeEntry<T>>) -> (r: Vec<ThemeEntry<T>>)
    ensures
        themes_follow_plan(r@, theme_plan(theme_ids(themes@), theme_ids(defaults@)), themes@, defaults@),
{
    let ghost orig = themes@;
    let ghost defs = defaults@;
    let ghost ids = theme_ids(orig);
    let ghost dids = theme_ids(defs);
    let mut rest = themes;
    let mut out: Vec<ThemeEntry<T>> = Vec::new();
    let n = rest.len();
    let mut i: usize = 0;
    while i < n
        invariant
            i <= n,
            n == orig.len(),
            ids == theme_ids(orig),
            rest@ == orig.subrange(i as int, n as int),
            themes_follow_plan(out@, kept_sources(ids.subrange(0, i as int)), orig, defs),
            forall|k: int| 0 <= k < out@.len() ==> ((#[trigger] kept_sources(ids.subrange(0, i as int))[k]) matches ThemeSource::Existing(x) && x < i),
        decreases n - i,
    {
        assert(ids.subrange(0, i + 1).drop_last() =~= ids.subrange(0, i as int));
        let t = rest.remove(0);
        assert(t == orig[i as int]);
        assert(ids.subrange(0, i + 1).last() == t.id@);
        if !has_suffix(&chars_of(t.id.as_str()), &chars_of("-transparent")) {
            out.push(t);
        }
        i += 1;
        assert(rest@ =~= orig.subrange(i as int, n as int));
    }
    assert(ids.subrange(0, n as int) =~= ids);
    let ghost kept = kept_sources(ids);
    let mut drest = defaults;
    let m = drest.len();
    let mut j: usize = 0;
    while j < m
        invariant
            j <= m,
            m == defs.len(),
            ids == theme_ids(orig),
            dids == theme_ids(defs),
            kept == kept_sources(ids),
            drest@ == defs.subrange(j as int, m as int),
            themes_follow_plan(out@, add_defaults(kept, ids, dids, j as nat), orig, defs),
            forall|k: int|
                0 <= k < out@.len() ==> match #[trigger] add_defaults(kept, ids, dids, j as nat)[k] {
                    ThemeSource::Existing(x) => x < ids.len(),
                    ThemeSource::Default(y) => y < j,
                },
        decreases m - j,
    {
        let ghost plan = add_defaults(kept, ids, dids, j as nat);
        let d = drest.remove(0);
        assert(d == defs[j as int]);
        let present = has_theme_id(&out, &d.id);
        proof {
            if present {
                let q = choose|q: int| 0 <= q < theme_ids(out@).len() && theme_ids(out@)[q] == d.id@;
                assert(out@[q] == source_theme(plan[q], orig, defs));
                assert(source_id(plan[q], ids, dids) == dids[j as int]);
            } else {
                assert forall|k: int| 0 <= k < plan.len() implies source_id(#[trigger] plan[k], ids, dids) != dids[j as int] by {
                    assert(out@[k] == source_theme(plan[k], orig, defs));
                    assert(theme_ids(out@)[k] == out@[k].id@);
                }
            }
        }
        if !present {
            out.push(d);
        }
        j += 1;
        assert(drest@ =~= defs.subrange(j as int, m as int));
    }
    out
}

/// The widget theme settings in step with the defaults: the themes of
/// `theme_plan` (kept settings themes, then missing default themes), and the
/// assignments of `sync_assignments_spec` (each widget with a default whose
/// theme is missing or empty gets its default).
pub fn sync_theme_config<T>(
    themes: Vec<ThemeEntry<T>>,
    assignments: Vec<(String, String)>,
    default_themes: Vec<ThemeEntry<T>>,
    default_assignments: &Vec<(String, String)>,
) -> (r: (Vec<ThemeEntry<T>>, Vec<(String, String)>))
    requires
        keys_distinct(pair_texts(assignments@)),
    ensures
        themes_follow_plan(r.0@, theme_plan(theme_ids(themes@), theme_ids(default_themes@)), themes@, default_themes@),
        theme_ids(r.0@) == theme_plan(theme_ids(themes@), theme_ids(default_themes@)).map_values(
            |s: ThemeSource| source_id(s, theme_ids(themes@), theme_ids(default_themes@)),
        ),
        pair_texts(r.1@) == sync_assignments_spec(
            pair_texts(assignments@),
            pair_texts(default_assignments@),
            default_assignments@.len() as nat,
        ),
        keys_distinct(pair_texts(r.1@)),
{
    let ghost t0 = themes@;
    let ghost d0 = default_themes@;
    let out = sync_themes(themes, default_themes);
    proof {
        let plan = theme_plan(theme_ids(t0), theme_ids(d0));
        lemma_plan_in_range(theme_ids(t0), theme_ids(d0));
        assert forall|k: int| 0 <= k < out@.len() implies #[trigger] theme_ids(out@)[k] == plan.map_values(
            |s: ThemeSource| source_id(s, theme_ids(t0), theme_ids(d0)),
        )[k] by {
            assert(out@[k] == source_theme(plan[k], t0, d0));
        }
        assert(theme_ids(out@) =~= plan.map_values(|s: ThemeSource| source_id(s, theme_ids(t0), theme_ids(d0))));
    }
    let synced = sync_assignments(assignments, default_assignments);
    (out, synced)
}

/// Every source in the plan points into its list.
pub proof fn lemma_plan_in_range(ids: Seq<Seq<char>>, defaults: Seq<Seq<char>>)
    ensures
        forall|k: int|
            0 <= k < theme_plan(ids, defaults).len() ==> match #[trigger] theme_plan(ids, defaults)[k] {
                ThemeSource::Existing(x) => x < ids.len(),
                ThemeSource::Default(y) => y < defaults.len(),
            },
{
    lemma_kept_in_range(ids);
    lemma_add_defaults_in_range(kept_sources(ids), ids, defaults, defaults.len());
}

proof fn lemma_kept_in_range(ids: Seq<Seq<char>>)
    ensures
        forall|k: int|
            0 <= k < kept_sources(ids).len() ==> ((#[trigger] kept_sources(ids)[k]) matches ThemeSource::Existing(x) && x < ids.len()),
    decreases ids.len(),
{
    if ids.len() > 0 {
        lemma_kept_in_range(ids.drop_last());
    }
}

proof fn lemma_add_defaults_in_range(plan: Seq<ThemeSource>, ids: Seq<Seq<char>>, defaults: Seq<Seq<char>>, n: nat)
    requires
        n <= defaults.len(),
        forall|k: int| 0 <= k < plan.len() ==> ((#[trigger] plan[k]) matches ThemeSource::Existing(x) && x < ids.len()),
    ensures
        forall|k: int|
            0 <= k < add_defaults(plan, ids, defaults, n).len() ==> match #[trigger] add_defaults(plan, ids, defaults, n)[k] {
                ThemeSource::Existing(x) => x < ids.len(),
                ThemeSource::Default(y) => y < defaults.len(),
            },
    decreases n,
{
    if n > 0 {
        lemma_add_defaults_in_range(plan, ids, defaults, (n - 1) as nat);
    }
}

/// A text colour of a theme: its name, its colour and its opacity in percent.
pub struct TextColor {
    pub name: String,
    pub value: String,
    pub opacity_percent: u32,
}

/// The texts and opacity of a text colour.
pub open spec fn text_color_view(c: TextColor) -> (Seq<char>, Seq<char>, u32) {
    (c.name@, c.value@, c.opacity_percent)
}

/// The text-colour fields of a stored theme: the single colour of the old
/// format (where it is a string) and the list of the current format.
pub struct LegacyThemeFields {
    pub text_color: Option<String>,
    pub text_colors: Option<Vec<TextColor>>,
}

/// The text colours that a single old-format colour becomes: `Main Text` in
/// that colour at full opacity, and `Sub Text` in `#94a3b8` at 60%.
pub open spec fn legacy_text_colors(color: Seq<char>) -> Seq<(Seq<char>, Seq<char>, u32)> {
    seq![("Main Text"@, color, 100u32), ("Sub Text"@, "#94a3b8"@, 60u32)]
}

/// Moves a theme from the old format, one text colour, to the current one,
/// a list of text colours: where the theme has an old-format colour, it is
/// replaced by the list of `legacy_text_colors`; otherwise the theme is
/// unchanged.
pub fn migrate_legacy_text_color(theme: LegacyThemeFields) -> (r: LegacyThemeFields)
    ensures
        match theme.text_color {
            Some(c) => r.text_color is None && (r.text_colors matches Some(v) && v@.map_values(
                |t: TextColor| text_color_view(t),
            ) == legacy_text_colors(c@)),
            None => r == theme,
        },
{
    match theme.text_color {
        None => theme,
        Some(c) => {
            let main = TextColor { name: owned("Main Text"), value: c, opacity_percent: 100 };
            let sub = TextColor { name: owned("Sub Text"), value: owned("#94a3b8"), opacity_percent: 60 };
            let v = vec![main, sub];
            assert(v@.map_values(|t: TextColor| text_color_view(t)) =~= legacy_text_colors(c@));
            LegacyThemeFields { text_color: None, text_colors: Some(v) }
        },
    }
}

/// The key's entry in a list of `(key, value)` entries, if any.
pub open spec fn entry_index(entries: Seq<(Seq<char>, Seq<char>)>, key: Seq<char>) -> Option<int> {
    if exists|k: int| 0 <= k < entries.len() && (#[trigger] entries[k]).0 == key {
        Some(choose|k: int| 0 <= k < entries.len() && (#[trigger] entries[k]).0 == key)
    } else {
        None
    }
}

/// No key occurs twice.
pub open spec fn keys_distinct(entries: Seq<(Seq<char>, Seq<char>)>) -> bool {
    forall|k: int, l: int| 0 <= k < l < entries.len() ==> (#[trigger] entries[k]).0 != (#[trigger] entries[l]).0
}

/// The widget-to-theme assignments after the first `n` defaults: a default
/// is set where the widget has no theme or an empty one.
pub open spec fn sync_assignments_spec(
    entries: Seq<(Seq<char>, Seq<char>)>,
    defaults: Seq<(Seq<char>, Seq<char>)>,
    n: nat,
) -> Seq<(Seq<char>, Seq<char>)>
    decreases n,
{
    if n == 0 {
        entries
    } else {
        let prev = sync_assignments_spec(entries, defaults, (n - 1) as nat);
        let d = defaults[n - 1];
        match entry_index(prev, d.0) {
            None => prev.push(d),
            Some(i) => if prev[i].1.len() == 0 {
                prev.update(i, d)
            } else {
                prev
            },
        }
    }
}

/// The texts of a list of string pairs.
pub open spec fn pair_texts(v: Seq<(String, String)>) -> Seq<(Seq<char>, Seq<char>)> {
    v.map_values(|p: (String, String)| (p.0@, p.1@))
}

/// The position of the entry with the key, if any.
fn entry_position(entries: &Vec<(String, String)>, key: &String) -> (r: Option<usize>)
    ensures
        match r {
            Some(p) => p < entries@.len() && entries@[p as int].0@ == key@,
            None => forall|m: int| 0 <= m < entries@.len() ==> entries@[m].0@ != key@,
        },
{
    let target = chars_of(key.as_str());
    let mut k: usize = 0;
    while k < entries.len()
        invariant
            k <= entries@.len(),
            target@ == key@,
            forall|m: int| 0 <= m < k ==> entries@[m].0@ != key@,
        decreases entries@.len() - k,
    {
        if chars_equal(&chars_of(entries[k].0.as_str()), &target) {
            return Some(k);
        }
        k += 1;
    }
    None
}

/// The assignments of widgets to themes after syncing with the defaults
/// (see `sync_assignments_spec`); keys stay distinct.
pub fn sync_assignments(assignments: Vec<(String, String)>, defaults: &Vec<(String, String)>) -> (r: Vec<(String, String)>)
    requires
        keys_distinct(pair_texts(assignments@)),
    ensures
        pair_texts(r@) == sync_assignments_spec(
            pair_texts(assignments@),
            pair_texts(defaults@),
            defaults@.len() as nat,
        ),
        keys_distinct(pair_texts(r@)),
{
    let ghost orig = pair_texts(assignments@);
    let ghost defs = pair_texts(defaults@);
    let mut r = assignments;
    let mut j: usize = 0;
    while j < defaults.len()
        invariant
            j <= defaults@.len(),
            defs == pair_texts(defaults@),
            pair_texts(r@) == sync_assignments_spec(orig, defs, j as nat),
            keys_distinct(pair_texts(r@)),
        decreases defaults@.len() - j,
    {
        let found = entry_position(&r, &defaults[j].0);
        let ghost prev = pair_texts(r@);
        assert(defs[j as int] == (defaults@[j as int].0@, defaults@[j as int].1@));
        match found {
            None => {
                proof {
                    assert(entry_index(prev, defs[j as int].0) is None) by {
                        if exists|m: int| 0 <= m < prev.len() && (#[trigger] prev[m]).0 == defs[j as int].0 {
                            let m = choose|m: int| 0 <= m < prev.len() && (#[trigger] prev[m]).0 == defs[j as int].0;
                            assert(r@[m].0@ == prev[m].0);
                        }
                    }
                }
                r.push((defaults[j].0.clone(), defaults[j].1.clone()));
                assert(pair_texts(r@) =~= prev.push(defs[j as int]));
            },
            Some(p) => {
                proof {
                    assert(prev[p as int].0 == defs[j as int].0);
                    let e = entry_index(prev, defs[j as int].0);
                    let q = e.unwrap();
                    assert(prev[q].0 == defs[j as int].0);
                    assert(q == p as int);
                }
                if r[p].1.as_str().is_empty() {
                    r.set(p, (defaults[j].0.clone(), defaults[j].1.clone()));
                    assert(pair_texts(r@) =~= prev.update(p as int, defs[j as int]));
                }
            },
        }
        j += 1;
    }
    r
}

} // verus!
