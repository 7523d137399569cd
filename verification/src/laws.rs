//! Properties that hold across the library's operations, proved over the
//! specifications their contracts use.

use vstd::prelude::*;

use crate::arxiv::{unique_keywords_state, first_with_id, is_seen, merge_all, merge_one, unseen_papers, ArxivPaper, PaperView};
use crate::common::clamp_spec;
use crate::deadlines::{
    ccf_of, conference_shown, confs_views, core_of, is_prioritized, item_views, limit_deadlines_spec,
    opt_str, opt_texts, passes_rank_filters, regular_count, rename_dm, PaperConfig, PaperDeadlineInfo,
    YamlConfItem,
};
use crate::hotkey::{
    clean_parts, hotkey_fold, hotkey_parts, index_of_char, modifier_of, parse_hotkey_spec, push_unique_spec, split_on,
    MOD_WIN,
};
use crate::text::{ascii_upper_seq, trim_ws};
use crate::monitor::{absorb_page_spec, in_window};
use crate::arxiv::{clean_text, parse_events, parse_step, ParseView, XmlEventView};
use crate::arxiv::updated_instant;
use crate::deadline_time::{
    instant_le, localize_spec, naive_datetime_parse, normalize_deadline, parse_deadline_spec, rfc3339_instant,
};
use vstd::utf8::{encode_scalar, encode_utf8};
use crate::ota::{asset_ok, first_with_suffix, select_asset_spec, GithubAsset};
use crate::text::{ends_with, replace_all};
use crate::text::dedup_seq;
use crate::theme_config::{
    add_defaults, entry_index, kept_sources, plan_has_id, source_id, sync_assignments_spec,
    theme_kept, theme_plan, ThemeSource,
};

verus! {

/// A clamped polling interval lies within the bounds (when they are in
/// order), a value within the bounds is kept, and clamping twice is
/// clamping once.
pub proof fn lemma_clamp_bounds(value: int, minimum: int, maximum: int)
    ensures
        minimum <= maximum ==> minimum <= clamp_spec(value, minimum, maximum) <= maximum,
        minimum <= value <= maximum ==> clamp_spec(value, minimum, maximum) == value,
        clamp_spec(clamp_spec(value, minimum, maximum), minimum, maximum) == clamp_spec(value, minimum, maximum),
{
}

/// No item occurs twice.
pub open spec fn no_repeats<A>(s: Seq<A>) -> bool {
    forall|i: int, j: int| 0 <= i < j < s.len() ==> s[i] != s[j]
}

/// What `dedup_seq` keeps: each item of `s` once, nothing else, no repeats.
pub proof fn lemma_dedup_props<A>(s: Seq<A>)
    ensures
        no_repeats(dedup_seq(s)),
        forall|x: A| dedup_seq(s).contains(x) <==> s.contains(x),
        dedup_seq(s).len() <= s.len(),
    decreases s.len(),
{
    if s.len() > 0 {
        lemma_dedup_props(s.drop_last());
        let prev = dedup_seq(s.drop_last());
        let last = s.last();
        assert forall|x: A| dedup_seq(s).contains(x) <==> s.contains(x) by {
            if s.contains(x) {
                let k = choose|k: int| 0 <= k < s.len() && s[k] == x;
                if k < s.len() - 1 {
                    assert(s.drop_last()[k] == x);
                }
            }
            if s.drop_last().contains(x) {
                let k = choose|k: int| 0 <= k < s.drop_last().len() && s.drop_last()[k] == x;
                assert(s[k] == x);
            }
            if x == last {
                assert(s[s.len() - 1] == x);
            }
            if !prev.contains(last) {
                let d = prev.push(last);
                assert(dedup_seq(s) == d);
                if d.contains(x) {
                    let k = choose|k: int| 0 <= k < d.len() && d[k] == x;
                    if k < prev.len() {
                        assert(prev[k] == x);
                    }
                }
                if prev.contains(x) {
                    let k = choose|k: int| 0 <= k < prev.len() && prev[k] == x;
                    assert(d[k] == x);
                }
                if x == last {
                    assert(d[prev.len() as int] == x);
                }
            }
        }
        if !prev.contains(last) {
            let d = prev.push(last);
            assert forall|i: int, j: int| 0 <= i < j < d.len() implies d[i] != d[j] by {
                if j == prev.len() {
                    assert(d[i] == prev[i]);
                    if d[i] == d[j] {
                        assert(prev.contains(last));
                    }
                } else {
                    assert(d[i] == prev[i] && d[j] == prev[j]);
                }
            }
        }
    }
}

/// A list without repeats is its own `dedup_seq`.
pub proof fn lemma_dedup_no_repeats<A>(s: Seq<A>)
    requires
        no_repeats(s),
    ensures
        dedup_seq(s) == s,
    decreases s.len(),
{
    if s.len() > 0 {
        assert(no_repeats(s.drop_last()));
        lemma_dedup_no_repeats(s.drop_last());
        assert(!s.drop_last().contains(s.last())) by {
            if s.drop_last().contains(s.last()) {
                let k = choose|k: int| 0 <= k < s.drop_last().len() && s.drop_last()[k] == s.last();
                assert(s[k] == s[s.len() - 1]);
            }
        }
        assert(s.drop_last().push(s.last()) =~= s);
    }
}

/// The subject filter after normalization (`DM` renamed `DB`, repeats
/// removed) holds no `DM` and no repeats, and normalizing it again changes
/// nothing.
pub proof fn lemma_sub_filter_normal_form(s: Seq<Seq<char>>)
    ensures
        !dedup_seq(rename_dm(s)).contains("DM"@),
        no_repeats(dedup_seq(rename_dm(s))),
        dedup_seq(rename_dm(dedup_seq(rename_dm(s)))) == dedup_seq(rename_dm(s)),
{
    let t = dedup_seq(rename_dm(s));
    lemma_dedup_props(rename_dm(s));
    assert("DB"@ != "DM"@) by {
        reveal_strlit("DM");
        reveal_strlit("DB");
        assert("DB"@[1] != "DM"@[1]);
    }
    assert(!rename_dm(s).contains("DM"@)) by {
        if rename_dm(s).contains("DM"@) {
            let k = choose|k: int| 0 <= k < rename_dm(s).len() && rename_dm(s)[k] == "DM"@;
            assert(rename_dm(s)[k] == if s[k] == "DM"@ { "DB"@ } else { s[k] });
        }
    }
    assert(rename_dm(t) =~= t) by {
        assert forall|k: int| 0 <= k < t.len() implies rename_dm(t)[k] == t[k] by {
            if t[k] == "DM"@ {
                assert(t.contains("DM"@));
            }
        }
    }
    lemma_dedup_no_repeats(t);
}

/// Limiting deadlines keeps every prioritized (pinned or subscribed) one,
/// keeps at most `max` others, and keeps them in order (a subsequence).
pub proof fn lemma_limit_keeps_prioritized(s: Seq<PaperDeadlineInfo>, config: PaperConfig, max: usize)
    ensures
        forall|i: int|
            0 <= i < s.len() && is_prioritized(#[trigger] s[i], config) ==> limit_deadlines_spec(
                s,
                config,
                max,
            ).contains(s[i]),
        regular_count(limit_deadlines_spec(s, config, max), config) <= max || regular_count(
            limit_deadlines_spec(s, config, max),
            config,
        ) == 0,
        limit_deadlines_spec(s, config, max).len() <= s.len(),
    decreases s.len(),
{
    if s.len() > 0 {
        let prev = limit_deadlines_spec(s.drop_last(), config, max);
        lemma_limit_keeps_prioritized(s.drop_last(), config, max);
        let cur = limit_deadlines_spec(s, config, max);
        assert forall|i: int|
            0 <= i < s.len() && is_prioritized(#[trigger] s[i], config) implies cur.contains(s[i]) by {
            if i == s.len() - 1 {
                assert(cur == prev.push(s.last()));
                assert(cur[cur.len() - 1] == s[i]);
            } else {
                assert(s.drop_last()[i] == s[i]);
                assert(prev.contains(s[i]));
                let k = choose|k: int| 0 <= k < prev.len() && prev[k] == s[i];
                if cur == prev.push(s.last()) {
                    assert(cur[k] == s[i]);
                }
            }
        }
        if cur == prev.push(s.last()) {
            assert(cur.drop_last() =~= prev);
        }
    }
}

/// No paper left after removing the seen ones was seen, and every unseen
/// paper is left.
pub proof fn lemma_unseen_papers(papers: Seq<ArxivPaper>, seen: Seq<Seq<char>>)
    ensures
        forall|k: int|
            0 <= k < unseen_papers(papers, seen).len() ==> !is_seen(#[trigger] unseen_papers(papers, seen)[k], seen),
        forall|i: int|
            0 <= i < papers.len() && !is_seen(#[trigger] papers[i], seen) ==> unseen_papers(papers, seen).contains(
                papers[i],
            ),
    decreases papers.len(),
{
    if papers.len() > 0 {
        let prev = unseen_papers(papers.drop_last(), seen);
        lemma_unseen_papers(papers.drop_last(), seen);
        let cur = unseen_papers(papers, seen);
        assert forall|i: int|
            0 <= i < papers.len() && !is_seen(#[trigger] papers[i], seen) implies cur.contains(papers[i]) by {
            if i == papers.len() - 1 {
                assert(cur[cur.len() - 1] == papers[i]);
            } else {
                assert(papers.drop_last()[i] == papers[i]);
                let k = choose|k: int| 0 <= k < prev.len() && prev[k] == papers[i];
                if !is_seen(papers.last(), seen) {
                    assert(cur[k] == papers[i]);
                }
            }
        }
        assert forall|k: int| 0 <= k < cur.len() implies !is_seen(#[trigger] cur[k], seen) by {
            if k < prev.len() {
                if !is_seen(papers.last(), seen) {
                    assert(cur[k] == prev[k]);
                }
            }
        }
    }
}

/// A shortcut that reads has at least one modifier flag set.
pub proof fn lemma_hotkey_has_modifier(raw: Seq<char>)
    ensures
        parse_hotkey_spec(raw) matches Ok((d, m, k)) ==> m != 0,
{
}

/// After syncing, every default theme id is among the themes, and every
/// theme taken from the settings is one whose id does not end in
/// `-transparent`.
pub proof fn lemma_theme_plan_complete(ids: Seq<Seq<char>>, defaults: Seq<Seq<char>>)
    requires
        ids.len() <= usize::MAX,
        defaults.len() <= usize::MAX,
    ensures
        forall|j: int| 0 <= j < defaults.len() ==> plan_has_id(theme_plan(ids, defaults), ids, defaults, #[trigger] defaults[j]),
        forall|k: int|
            0 <= k < theme_plan(ids, defaults).len() ==> match #[trigger] theme_plan(ids, defaults)[k] {
                ThemeSource::Existing(i) => 0 <= i < ids.len() && theme_kept(ids[i as int]),
                ThemeSource::Default(j) => 0 <= j < defaults.len(),
            },
{
    lemma_kept_sources(ids);
    lemma_add_defaults(kept_sources(ids), ids, defaults, defaults.len());
}

proof fn lemma_kept_sources(ids: Seq<Seq<char>>)
    requires
        ids.len() <= usize::MAX,
    ensures
        forall|k: int|
            0 <= k < kept_sources(ids).len() ==> match #[trigger] kept_sources(ids)[k] {
                ThemeSource::Existing(i) => 0 <= i < ids.len() && theme_kept(ids[i as int]),
                ThemeSource::Default(_) => false,
            },
    decreases ids.len(),
{
    if ids.len() > 0 {
        lemma_kept_sources(ids.drop_last());
        let prev = kept_sources(ids.drop_last());
        let cur = kept_sources(ids);
        let n = ids.len() - 1;
        if theme_kept(ids.last()) {
            assert(cur == prev.push(ThemeSource::Existing(n as usize)));
        } else {
            assert(cur == prev);
        }
        assert forall|k: int| 0 <= k < cur.len() implies match #[trigger] cur[k] {
            ThemeSource::Existing(i) => 0 <= i < ids.len() && theme_kept(ids[i as int]),
            ThemeSource::Default(_) => false,
        } by {
            if k < prev.len() {
                assert(cur[k] == prev[k]);
                match prev[k] {
                    ThemeSource::Existing(i) => {
                        assert(ids.drop_last()[i as int] == ids[i as int]);
                    },
                    ThemeSource::Default(_) => {},
                }
            } else {
                assert(cur[k] == ThemeSource::Existing(n as usize));
                assert(ids[n] == ids.last());
            }
        }
    }
}

proof fn lemma_add_defaults(plan: Seq<ThemeSource>, ids: Seq<Seq<char>>, defaults: Seq<Seq<char>>, n: nat)
    requires
        n <= defaults.len(),
        defaults.len() <= usize::MAX,
        forall|k: int|
            0 <= k < plan.len() ==> match #[trigger] plan[k] {
                ThemeSource::Existing(i) => 0 <= i < ids.len() && theme_kept(ids[i as int]),
                ThemeSource::Default(_) => false,
            },
    ensures
        forall|j: int| 0 <= j < n ==> plan_has_id(add_defaults(plan, ids, defaults, n), ids, defaults, #[trigger] defaults[j]),
        forall|k: int|
            0 <= k < add_defaults(plan, ids, defaults, n).len() ==> match #[trigger] add_defaults(plan, ids, defaults, n)[k] {
                ThemeSource::Existing(i) => 0 <= i < ids.len() && theme_kept(ids[i as int]),
                ThemeSource::Default(j) => 0 <= j < n,
            },
    decreases n,
{
    if n > 0 {
        lemma_add_defaults(plan, ids, defaults, (n - 1) as nat);
        let prev = add_defaults(plan, ids, defaults, (n - 1) as nat);
        let cur = add_defaults(plan, ids, defaults, n);
        assert forall|j: int| 0 <= j < n implies plan_has_id(cur, ids, defaults, #[trigger] defaults[j]) by {
            if j < n - 1 {
                let k = choose|k: int| 0 <= k < prev.len() && source_id(#[trigger] prev[k], ids, defaults) == defaults[j];
                assert(cur[k] == prev[k]);
            } else if !plan_has_id(prev, ids, defaults, defaults[n - 1]) {
                assert(cur == prev.push(ThemeSource::Default((n - 1) as usize)));
                assert(cur[cur.len() - 1] == ThemeSource::Default((n - 1) as usize));
                assert(source_id(cur[cur.len() - 1], ids, defaults) == defaults[j]);
            }
        }
        assert forall|k: int| 0 <= k < cur.len() implies match #[trigger] cur[k] {
            ThemeSource::Existing(i) => 0 <= i < ids.len() && theme_kept(ids[i as int]),
            ThemeSource::Default(j) => 0 <= j < n,
        } by {
            if k < prev.len() {
                assert(cur[k] == prev[k]);
            }
        }
    }
}

/// After syncing the assignments, every widget with a default has a theme.
pub proof fn lemma_sync_assignments_covers(
    entries: Seq<(Seq<char>, Seq<char>)>,
    defaults: Seq<(Seq<char>, Seq<char>)>,
    n: nat,
)
    requires
        n <= defaults.len(),
    ensures
        forall|j: int| 0 <= j < n ==> (#[trigger] entry_index(sync_assignments_spec(entries, defaults, n), defaults[j].0)) is Some,
    decreases n,
{
    if n > 0 {
        lemma_sync_assignments_covers(entries, defaults, (n - 1) as nat);
        let prev = sync_assignments_spec(entries, defaults, (n - 1) as nat);
        let cur = sync_assignments_spec(entries, defaults, n);
        let d = defaults[n - 1];
        assert forall|j: int| 0 <= j < n implies (#[trigger] entry_index(cur, defaults[j].0)) is Some by {
            let key = defaults[j].0;
            if j < n - 1 {
                assert(entry_index(prev, key) is Some);
                let k = choose|k: int| 0 <= k < prev.len() && (#[trigger] prev[k]).0 == key;
                match entry_index(prev, d.0) {
                    None => {
                        assert(cur[k] == prev[k]);
                    },
                    Some(i) => {
                        if prev[i].1.len() == 0 {
                            if k == i {
                                assert(cur[k].0 == d.0);
                                assert(prev[i].0 == d.0);
                            } else {
                                assert(cur[k] == prev[k]);
                            }
                        }
                    },
                }
                assert(exists|m: int| 0 <= m < cur.len() && (#[trigger] cur[m]).0 == key);
            } else {
                match entry_index(prev, d.0) {
                    None => {
                        assert(cur[cur.len() - 1].0 == key);
                    },
                    Some(i) => {
                        assert(cur[i].0 == key);
                    },
                }
            }
        }
    }
}

/// No two papers share an id.
pub open spec fn ids_distinct(s: Seq<PaperView>) -> bool {
    forall|i: int, j: int| 0 <= i < j < s.len() ==> (#[trigger] s[i]).id != (#[trigger] s[j]).id
}

/// Some paper has the id.
pub open spec fn has_id(s: Seq<PaperView>, id: Seq<char>) -> bool {
    exists|k: int| 0 <= k < s.len() && (#[trigger] s[k]).id == id
}

proof fn lemma_first_with_id_props(s: Seq<PaperView>, id: Seq<char>)
    ensures
        match first_with_id(s, id) {
            Some(k) => 0 <= k < s.len() && s[k].id == id,
            None => !has_id(s, id),
        },
    decreases s.len(),
{
    if s.len() > 0 && s[0].id != id {
        lemma_first_with_id_props(s.drop_first(), id);
        if first_with_id(s.drop_first(), id) is None {
            assert forall|k: int| 0 <= k < s.len() implies (#[trigger] s[k]).id != id by {
                if k > 0 {
                    assert(s.drop_first()[k - 1] == s[k]);
                }
            }
        }
    }
}

proof fn lemma_merge_one_ids(t: Seq<PaperView>, p: PaperView)
    requires
        ids_distinct(t),
    ensures
        ids_distinct(merge_one(t, p)),
        has_id(merge_one(t, p), p.id),
        forall|id: Seq<char>| has_id(t, id) ==> has_id(merge_one(t, p), id),
{
    lemma_first_with_id_props(t, p.id);
    let m = merge_one(t, p);
    match first_with_id(t, p.id) {
        Some(k) => {
            assert(m[k].id == p.id);
            assert forall|i: int| 0 <= i < m.len() implies (#[trigger] m[i]).id == t[i].id by {}
            assert forall|id: Seq<char>| has_id(t, id) implies has_id(m, id) by {
                let j = choose|j: int| 0 <= j < t.len() && (#[trigger] t[j]).id == id;
                assert(m[j].id == id);
            }
        },
        None => {
            assert(m[t.len() as int].id == p.id);
            assert forall|i: int, j: int| 0 <= i < j < m.len() implies (#[trigger] m[i]).id != (#[trigger] m[j]).id by {
                if j == t.len() {
                    assert(m[i] == t[i]);
                } else {
                    assert(m[i] == t[i] && m[j] == t[j]);
                }
            }
            assert forall|id: Seq<char>| has_id(t, id) implies has_id(m, id) by {
                let j = choose|j: int| 0 <= j < t.len() && (#[trigger] t[j]).id == id;
                assert(m[j] == t[j]);
            }
        },
    }
}

/// Merging papers into a list whose ids are distinct keeps them distinct,
/// keeps every paper already there, and holds a paper for every merged one.
pub proof fn lemma_merge_keeps_ids_distinct(target: Seq<PaperView>, source: Seq<PaperView>)
    requires
        ids_distinct(target),
    ensures
        ids_distinct(merge_all(target, source)),
        forall|k: int| 0 <= k < source.len() ==> has_id(merge_all(target, source), (#[trigger] source[k]).id),
        forall|id: Seq<char>| has_id(target, id) ==> has_id(merge_all(target, source), id),
    decreases source.len(),
{
    if source.len() > 0 {
        let first = merge_one(target, source[0]);
        lemma_merge_one_ids(target, source[0]);
        lemma_merge_keeps_ids_distinct(first, source.drop_first());
        assert forall|k: int| 0 <= k < source.len() implies has_id(merge_all(target, source), (#[trigger] source[k]).id) by {
            if k > 0 {
                assert(source.drop_first()[k - 1] == source[k]);
            }
        }
    }
}

/// The keywords kept for querying are as many as the normalized forms
/// recorded for them, and those forms are non-empty and distinct.
pub proof fn lemma_unique_keywords(ks: Seq<Seq<char>>)
    ensures
        unique_keywords_state(ks).0.len() == unique_keywords_state(ks).1.len(),
        no_repeats(unique_keywords_state(ks).1),
        forall|k: int|
            0 <= k < unique_keywords_state(ks).1.len() ==> (#[trigger] unique_keywords_state(ks).1[k]).len() > 0,
    decreases ks.len(),
{
    if ks.len() > 0 {
        lemma_unique_keywords(ks.drop_last());
        let (kept, seen) = unique_keywords_state(ks.drop_last());
        let (kept2, seen2) = unique_keywords_state(ks);
        if seen2 != seen {
            assert forall|i: int, j: int| 0 <= i < j < seen2.len() implies seen2[i] != seen2[j] by {
                if j == seen.len() {
                    assert(seen2[i] == seen[i]);
                    if seen2[i] == seen2[j] {
                        assert(seen.contains(seen2[j]));
                    }
                } else {
                    assert(seen2[i] == seen[i] && seen2[j] == seen[j]);
                }
            }
            assert forall|k: int| 0 <= k < seen2.len() implies (#[trigger] seen2[k]).len() > 0 by {
                if k < seen.len() {
                    assert(seen2[k] == seen[k]);
                }
            }
        }
    }
}

/// Reading a shortcut's parts lists each modifier name once, and sets
/// modifier flags exactly when it lists a modifier.
pub proof fn lemma_hotkey_fold_modifiers(parts: Seq<Seq<char>>)
    ensures
        hotkey_fold(parts) matches Ok((m, d, k)) ==> no_repeats(d) && (m == 0 <==> d.len() == 0),
    decreases parts.len(),
{
    if parts.len() > 0 {
        lemma_hotkey_fold_modifiers(parts.drop_last());
        if let Ok((m, d, k)) = hotkey_fold(parts.drop_last()) {
            if let Some((flag, name)) = modifier_of(parts.last()) {
                let d2 = push_unique_spec(d, name);
                assert(flag != 0);
                assert((m | flag) != 0) by (bit_vector)
                    requires
                        flag != 0u32,
                ;
                if !d.contains(name) {
                    assert forall|i: int, j: int| 0 <= i < j < d2.len() implies d2[i] != d2[j] by {
                        if j == d.len() {
                            assert(d2[i] == d[i]);
                            if d2[i] == d2[j] {
                                assert(d.contains(name));
                            }
                        } else {
                            assert(d2[i] == d[i] && d2[j] == d[j]);
                        }
                    }
                } else {
                    assert(d.len() > 0);
                }
            }
        }
    }
}

/// The asset picked for installation is an acceptable installer whose name
/// ends in `.exe` or `.msi`.
pub proof fn lemma_selected_asset_ok(assets: Seq<GithubAsset>)
    ensures
        select_asset_spec(assets) matches Some(i) ==> 0 <= i < assets.len() && asset_ok(assets[i])
            && (ends_with(assets[i].name@, ".exe"@) || ends_with(assets[i].name@, ".msi"@)),
{
    lemma_first_with_suffix(assets, "_x64-setup.exe"@, 0);
    lemma_first_with_suffix(assets, "-setup.exe"@, 0);
    lemma_first_with_suffix(assets, ".exe"@, 0);
    lemma_first_with_suffix(assets, ".msi"@, 0);
    reveal_strlit("_x64-setup.exe");
    reveal_strlit("-setup.exe");
    reveal_strlit(".exe");
    reveal_strlit(".msi");
    assert("_x64-setup.exe"@.subrange(10, 14) =~= ".exe"@);
    assert("-setup.exe"@.subrange(6, 10) =~= ".exe"@);
    if let Some(i) = first_with_suffix(assets, "_x64-setup.exe"@, 0) {
        lemma_suffix_of_suffix(assets[i].name@, "_x64-setup.exe"@, ".exe"@);
    } else if let Some(i) = first_with_suffix(assets, "-setup.exe"@, 0) {
        lemma_suffix_of_suffix(assets[i].name@, "-setup.exe"@, ".exe"@);
    }
}

proof fn lemma_first_with_suffix(assets: Seq<GithubAsset>, suffix: Seq<char>, i: int)
    ensures
        first_with_suffix(assets, suffix, i) matches Some(k) ==> 0 <= k < assets.len() && asset_ok(assets[k])
            && ends_with(assets[k].name@, suffix),
    decreases assets.len() - i,
{
    if 0 <= i < assets.len() && !(asset_ok(assets[i]) && ends_with(assets[i].name@, suffix)) {
        lemma_first_with_suffix(assets, suffix, i + 1);
    }
}

/// A text that ends with `a` ends with every ending `b` of `a`.
proof fn lemma_suffix_of_suffix(s: Seq<char>, a: Seq<char>, b: Seq<char>)
    requires
        ends_with(s, a),
        ends_with(a, b),
    ensures
        ends_with(s, b),
{
    let sb = s.subrange(s.len() - b.len(), s.len() as int);
    let sa = s.subrange(s.len() - a.len(), s.len() as int);
    let ab = a.subrange(a.len() - b.len(), a.len() as int);
    assert forall|k: int| 0 <= k < b.len() implies #[trigger] sb[k] == b[k] by {
        assert(sb[k] == s[s.len() - b.len() + k]);
        assert(sa[a.len() - b.len() + k] == s[s.len() - b.len() + k]);
        assert(ab[k] == a[a.len() - b.len() + k]);
    }
    assert(sb =~= b);
}

/// A page scan (of a day that starts before it ends) never keeps a paper
/// updated after the day, and without a minimum it keeps only papers updated
/// within the day; what was kept stays, in order.
pub proof fn lemma_scan_keeps_window(
    kept: Seq<ArxivPaper>,
    page: Seq<ArxivPaper>,
    lo: (i64, u32),
    hi: (i64, u32),
    minimum_count: Option<usize>,
)
    requires
        instant_le(lo, hi),
    ensures
        ({
            let r = absorb_page_spec(kept, page, lo, hi, minimum_count).0;
            &&& kept.len() <= r.len()
            &&& r.subrange(0, kept.len() as int) == kept
            &&& forall|k: int|
                kept.len() <= k < r.len() ==> (updated_instant(#[trigger] r[k]) matches Some(t) && !instant_le(hi, t)
                    && (minimum_count is None ==> in_window(t, lo, hi)))
        }),
    decreases page.len(),
{
    if page.len() > 0 {
        let p = page[0];
        let rest = page.drop_first();
        let r = absorb_page_spec(kept, page, lo, hi, minimum_count).0;
        match updated_instant(p) {
            Some(t) => {
                if in_window(t, lo, hi) {
                    lemma_scan_keeps_window(kept.push(p), rest, lo, hi, minimum_count);
                    let r2 = absorb_page_spec(kept.push(p), rest, lo, hi, minimum_count).0;
                    assert(r == r2);
                    assert forall|k: int| kept.len() <= k < r.len() implies (updated_instant(#[trigger] r[k]) matches Some(t)
                        && !instant_le(hi, t) && (minimum_count is None ==> in_window(t, lo, hi))) by {
                        if k == kept.len() {
                            assert(r.subrange(0, kept.len() as int + 1)[k] == r[k]);
                            assert(kept.push(p)[k] == p);
                        }
                    }
                    assert(r.subrange(0, kept.len() as int) =~= kept.push(p).subrange(0, kept.len() as int)) by {
                        assert forall|k: int| 0 <= k < kept.len() implies r[k] == kept.push(p)[k] by {
                            assert(r.subrange(0, kept.len() as int + 1)[k] == r[k]);
                        }
                    }
                    assert(kept.push(p).subrange(0, kept.len() as int) =~= kept);
                } else if !instant_le(lo, t) {
                    let k2 = if minimum_count matches Some(m) && kept.len() < m { kept.push(p) } else { kept };
                    assert(!instant_le(hi, t)) by {
                        assert(!instant_le(lo, t));
                        if instant_le(hi, t) {
                            assert(!in_window(t, lo, hi));
                        }
                    }
                    if k2.len() > kept.len() {
                        assert(k2 == kept.push(p));
                        assert(k2.subrange(0, kept.len() as int) =~= kept);
                    } else {
                        assert(k2 == kept);
                    }
                    if !(match minimum_count { Some(m) => k2.len() >= m, None => true }) {
                        lemma_scan_keeps_window(k2, rest, lo, hi, minimum_count);
                        let r2 = absorb_page_spec(k2, rest, lo, hi, minimum_count).0;
                        assert(r == r2);
                        assert(r.subrange(0, kept.len() as int) =~= kept) by {
                            assert forall|k: int| 0 <= k < kept.len() implies r[k] == kept[k] by {
                                assert(r.subrange(0, k2.len() as int)[k] == r[k]);
                                assert(k2[k] == kept[k]);
                            }
                        }
                        assert forall|k: int| kept.len() <= k < r.len() implies (updated_instant(#[trigger] r[k]) matches Some(t)
                            && !instant_le(hi, t) && (minimum_count is None ==> in_window(t, lo, hi))) by {
                            if k < k2.len() {
                                assert(r.subrange(0, k2.len() as int)[k] == r[k]);
                                assert(k2[k] == p);
                            }
                        }
                    } else {
                        assert(r == k2);
                        if k2.len() > kept.len() {
                            assert(k2[kept.len() as int] == p);
                        }
                    }
                } else {
                    lemma_scan_keeps_window(kept, rest, lo, hi, minimum_count);
                }
            },
            None => {
                lemma_scan_keeps_window(kept, rest, lo, hi, minimum_count);
            },
        }
    } else {
        assert(kept.subrange(0, kept.len() as int) =~= kept);
    }
}


/// With both a CCF and a CORE rank filter set, matching either keeps a
/// conference: one whose CCF rank is in `filter_by_rank`, or whose CORE rank
/// is in `filter_by_core`, passes the rank filters, and (where its subject is
/// not filtered out) every deadline of its editions is built.
pub proof fn lemma_either_rank_filter_keeps(
    item: YamlConfItem,
    config: PaperConfig,
    subs: Option<Seq<Seq<char>>>,
    now: (i64, u32),
)
    requires
        opt_texts(config.filter_by_rank) matches Some(ranks) && ranks.len() > 0,
        opt_texts(config.filter_by_core) matches Some(cores) && cores.len() > 0,
        (ccf_of(item) matches Some(c) && opt_texts(config.filter_by_rank).unwrap().contains(c))
            || (core_of(item) matches Some(c) && opt_texts(config.filter_by_core).unwrap().contains(c)),
    ensures
        passes_rank_filters(item, config),
        (subs is None || subs.unwrap().contains(match opt_str(item.sub) { Some(x) => x, None => "Unknown"@ }))
            ==> item_views(item, config, subs, now) == match item.confs {
            Some(c) => confs_views(item, c@, config, now),
            None => Seq::<crate::deadlines::DeadlineView>::empty(),
        },
{
}

/// With only one rank filter set, a conference passes the rank filters
/// exactly when its rank (`N` when it has none) is in that filter.
pub proof fn lemma_single_rank_filter(item: YamlConfItem, config: PaperConfig)
    ensures
        (opt_texts(config.filter_by_rank) matches Some(ranks) && ranks.len() > 0) && !(opt_texts(config.filter_by_core) matches Some(cores) && cores.len() > 0)
            ==> (passes_rank_filters(item, config) <==> opt_texts(config.filter_by_rank).unwrap().contains(
            match ccf_of(item) { Some(c) => c, None => "N"@ },
        )),
        (opt_texts(config.filter_by_core) matches Some(cores) && cores.len() > 0) && !(opt_texts(config.filter_by_rank) matches Some(ranks) && ranks.len() > 0)
            ==> (passes_rank_filters(item, config) <==> opt_texts(config.filter_by_core).unwrap().contains(
            match core_of(item) { Some(c) => c, None => "N"@ },
        )),
        !(opt_texts(config.filter_by_rank) matches Some(ranks) && ranks.len() > 0) && !(opt_texts(config.filter_by_core) matches Some(cores) && cores.len() > 0)
            ==> passes_rank_filters(item, config),
{
}


/// Whether an asset may be installed and its name ends in `suffix`.
pub open spec fn installer_with_suffix(a: GithubAsset, suffix: Seq<char>) -> bool {
    asset_ok(a) && ends_with(a.name@, suffix)
}

/// Whether `i` is the first asset that may be installed whose name ends in `suffix`.
pub open spec fn first_installer_with_suffix(assets: Seq<GithubAsset>, suffix: Seq<char>, i: int) -> bool {
    &&& 0 <= i < assets.len()
    &&& installer_with_suffix(assets[i], suffix)
    &&& forall|j: int| 0 <= j < i ==> !installer_with_suffix(#[trigger] assets[j], suffix)
}

/// Whether some asset that may be installed has a name ending in `suffix`.
pub open spec fn some_installer_with_suffix(assets: Seq<GithubAsset>, suffix: Seq<char>) -> bool {
    exists|j: int| 0 <= j < assets.len() && installer_with_suffix(#[trigger] assets[j], suffix)
}

/// The installer chosen among a release's assets, by preference: the first
/// acceptable one ending in `_x64-setup.exe`; where there is none, the first
/// ending in `-setup.exe`; then in `.exe`; then in `.msi`; and none when no
/// acceptable asset has any of these endings.
pub proof fn lemma_installer_preference(assets: Seq<GithubAsset>)
    ensures
        some_installer_with_suffix(assets, "_x64-setup.exe"@) ==> (select_asset_spec(assets) matches Some(i)
            && first_installer_with_suffix(assets, "_x64-setup.exe"@, i)),
        !some_installer_with_suffix(assets, "_x64-setup.exe"@) && some_installer_with_suffix(assets, "-setup.exe"@)
            ==> (select_asset_spec(assets) matches Some(i) && first_installer_with_suffix(assets, "-setup.exe"@, i)),
        !some_installer_with_suffix(assets, "_x64-setup.exe"@) && !some_installer_with_suffix(assets, "-setup.exe"@)
            && some_installer_with_suffix(assets, ".exe"@) ==> (select_asset_spec(assets) matches Some(i)
            && first_installer_with_suffix(assets, ".exe"@, i)),
        !some_installer_with_suffix(assets, "_x64-setup.exe"@) && !some_installer_with_suffix(assets, "-setup.exe"@)
            && !some_installer_with_suffix(assets, ".exe"@) && some_installer_with_suffix(assets, ".msi"@)
            ==> (select_asset_spec(assets) matches Some(i) && first_installer_with_suffix(assets, ".msi"@, i)),
        !some_installer_with_suffix(assets, "_x64-setup.exe"@) && !some_installer_with_suffix(assets, "-setup.exe"@)
            && !some_installer_with_suffix(assets, ".exe"@) && !some_installer_with_suffix(assets, ".msi"@)
            ==> select_asset_spec(assets) is None,
{
    lemma_first_with_suffix_is_first(assets, "_x64-setup.exe"@, 0);
    lemma_first_with_suffix_is_first(assets, "-setup.exe"@, 0);
    lemma_first_with_suffix_is_first(assets, ".exe"@, 0);
    lemma_first_with_suffix_is_first(assets, ".msi"@, 0);
}

/// `first_with_suffix` from `i` finds the first acceptable asset at or after
/// `i` with the ending, and none when there is none.
proof fn lemma_first_with_suffix_is_first(assets: Seq<GithubAsset>, suffix: Seq<char>, i: int)
    requires
        0 <= i,
    ensures
        first_with_suffix(assets, suffix, i) matches Some(k) ==> i <= k < assets.len()
            && installer_with_suffix(assets[k], suffix) && forall|j: int|
            i <= j < k ==> !installer_with_suffix(#[trigger] assets[j], suffix),
        first_with_suffix(assets, suffix, i) is None ==> forall|j: int|
            i <= j < assets.len() ==> !installer_with_suffix(#[trigger] assets[j], suffix),
    decreases assets.len() - i,
{
    if i < assets.len() && !installer_with_suffix(assets[i], suffix) {
        lemma_first_with_suffix_is_first(assets, suffix, i + 1);
    }
}


/// The events of an entry holding only a title: `<entry><title>t</title></entry>`.
pub open spec fn title_only_entry(a_entry: Seq<(Seq<char>, Seq<char>)>, a_title: Seq<(Seq<char>, Seq<char>)>, t: Seq<char>) -> Seq<XmlEventView> {
    seq![
        XmlEventView::Start("entry"@, a_entry),
        XmlEventView::Start("title"@, a_title),
        XmlEventView::Text(t),
        XmlEventView::End("title"@),
        XmlEventView::End("entry"@),
    ]
}


/// The tag names the reading of an entry tells apart are distinct.
proof fn lemma_tag_names_distinct()
    ensures
        "title"@ != "entry"@,
        "title"@ != "id"@,
        "title"@ != "author"@,
        "title"@ != "name"@,
        "title"@ != "link"@,
        "entry"@ != "author"@,
        "entry"@ != "name"@,
        "entry"@ != "link"@,
        "entry"@ != "id"@,
        "entry"@ != "summary"@,
        "entry"@ != "published"@,
        "entry"@ != "updated"@,
{
    reveal_strlit("title");
    reveal_strlit("entry");
    reveal_strlit("author");
    reveal_strlit("name");
    reveal_strlit("link");
    reveal_strlit("id");
    reveal_strlit("summary");
    reveal_strlit("published");
    reveal_strlit("updated");
    assert("title"@[0] != "entry"@[0]);
}

/// Inside an entry, the text of a `<title>` element is added to the paper's
/// title with line breaks made spaces and double spaces made single (one
/// pass), and nothing else of the paper changes.
pub proof fn lemma_title_text_recorded(st: ParseView, a: Seq<(Seq<char>, Seq<char>)>, t: Seq<char>, keywords: Seq<Seq<char>>)
    requires
        st.in_entry,
    ensures
        ({
            let s2 = parse_step(parse_step(st, XmlEventView::Start("title"@, a), keywords), XmlEventView::Text(t), keywords);
            &&& s2.current.title == st.current.title + clean_text(t)
            &&& s2.current.id == st.current.id
            &&& s2.current.summary == st.current.summary
            &&& s2.current.updated == st.current.updated
            &&& s2.current.published == st.current.published
            &&& s2.current.link == st.current.link
            &&& s2.current.authors == st.current.authors
            &&& s2.papers == st.papers
        }),
{
    lemma_tag_names_distinct();
}

/// An entry's title is recorded: after `<entry><title>t</title></entry>`
/// one paper more is read, whose title is `t` with line breaks made spaces
/// and double spaces made single (one pass), and which has a title whenever
/// `t` is not empty; reading goes on from there.
pub proof fn lemma_entry_title_recorded(
    st: ParseView,
    a_entry: Seq<(Seq<char>, Seq<char>)>,
    a_title: Seq<(Seq<char>, Seq<char>)>,
    t: Seq<char>,
    rest: Seq<XmlEventView>,
    keywords: Seq<Seq<char>>,
)
    ensures
        ({
            let es = title_only_entry(a_entry, a_title, t);
            let s5 = parse_step(parse_step(parse_step(parse_step(parse_step(st, es[0], keywords), es[1], keywords), es[2], keywords), es[3], keywords), es[4], keywords);
            &&& s5.papers.len() == st.papers.len() + 1
            &&& s5.papers.drop_last() == st.papers
            &&& s5.papers.last().title == clean_text(t)
            &&& (t.len() > 0 ==> s5.papers.last().title.len() > 0)
            &&& parse_events(st, es + rest, keywords) == parse_events(s5, rest, keywords)
        }),
{
    lemma_tag_names_distinct();
    let es = title_only_entry(a_entry, a_title, t);
    let s1 = parse_step(st, es[0], keywords);
    let s2 = parse_step(s1, es[1], keywords);
    let s3 = parse_step(s2, es[2], keywords);
    let s4 = parse_step(s3, es[3], keywords);
    let s5 = parse_step(s4, es[4], keywords);
    assert(s1.current.title == Seq::<char>::empty());
    assert(s3.current.title =~= clean_text(t));
    lemma_clean_text_nonempty(t);
    assert((es + rest).drop_first() =~= es.drop_first() + rest);
    assert((es.drop_first() + rest).drop_first() =~= es.drop_first().drop_first() + rest);
    assert((es.drop_first().drop_first() + rest).drop_first() =~= es.drop_first().drop_first().drop_first() + rest);
    assert((es.drop_first().drop_first().drop_first() + rest).drop_first() =~= es.drop_first().drop_first().drop_first().drop_first() + rest);
    assert((es.drop_first().drop_first().drop_first().drop_first() + rest).drop_first() =~= rest);
    assert((es + rest)[0] == es[0]);
    assert((es.drop_first() + rest)[0] == es[1]);
    assert((es.drop_first().drop_first() + rest)[0] == es[2]);
    assert((es.drop_first().drop_first().drop_first() + rest)[0] == es[3]);
    assert((es.drop_first().drop_first().drop_first().drop_first() + rest)[0] == es[4]);
    let r0 = es + rest;
    let r1 = es.drop_first() + rest;
    let r2 = es.drop_first().drop_first() + rest;
    let r3 = es.drop_first().drop_first().drop_first() + rest;
    let r4 = es.drop_first().drop_first().drop_first().drop_first() + rest;
    assert(parse_events(s4, r4, keywords) == parse_events(s5, rest, keywords));
    assert(parse_events(s3, r3, keywords) == parse_events(s4, r4, keywords));
    assert(parse_events(s2, r2, keywords) == parse_events(s3, r3, keywords));
    assert(parse_events(s1, r1, keywords) == parse_events(s2, r2, keywords));
    assert(parse_events(st, r0, keywords) == parse_events(s1, r1, keywords));
    assert(s4.current.title == s3.current.title);
    assert(s5.papers =~= s4.papers.push(s5.papers.last()));
    assert(s4.papers == st.papers);
}

/// Cleaning a text that is not empty leaves a text that is not empty.
proof fn lemma_clean_text_nonempty(t: Seq<char>)
    ensures
        t.len() > 0 ==> clean_text(t).len() > 0,
{
    reveal_strlit("\n");
    reveal_strlit(" ");
    reveal_strlit("  ");
    lemma_replace_nonempty(t, "\n"@, " "@);
    lemma_replace_nonempty(replace_all(t, "\n"@, " "@), "  "@, " "@);
}

/// Replacing with a text that is not empty keeps a text that is not empty.
proof fn lemma_replace_nonempty(s: Seq<char>, pat: Seq<char>, rep: Seq<char>)
    requires
        rep.len() > 0,
    ensures
        s.len() > 0 ==> replace_all(s, pat, rep).len() > 0,
{
}


/// The UTF-8 encoding of joined texts is the joined encodings.
proof fn lemma_encode_utf8_append(a: Seq<char>, b: Seq<char>)
    ensures
        encode_utf8(a + b) == encode_utf8(a) + encode_utf8(b),
    decreases a.len(),
{
    if a.len() > 0 {
        assert((a + b).drop_first() =~= a.drop_first() + b);
        assert((a + b)[0] == a[0]);
        lemma_encode_utf8_append(a.drop_first(), b);
        assert(encode_utf8(a + b) =~= encode_scalar(a[0] as u32) + (encode_utf8(a.drop_first()) + encode_utf8(b)));
    }
}

/// A deadline written with hours and minutes only (`YYYY-MM-DD HH:MM`,
/// sixteen bytes) reads as the same instant as the same deadline with
/// `:00` seconds, in the same time zone: where chrono reads neither as RFC
/// 3339, does not read the short form with seconds, and reads the long form
/// with seconds as the short one without, both are the short form's
/// wall-clock time placed in the zone.
pub proof fn lemma_minutes_read_as_zero_seconds(d: Seq<char>, d2: Seq<char>, tz: Seq<char>, w: (i64, u32))
    requires
        normalize_deadline(d2) == normalize_deadline(d) + ":00"@,
        encode_utf8(normalize_deadline(d)).len() == 16,
        rfc3339_instant(normalize_deadline(d)) is None,
        rfc3339_instant(normalize_deadline(d2)) is None,
        naive_datetime_parse(normalize_deadline(d), "%Y-%m-%dT%H:%M:%S"@) is None,
        naive_datetime_parse(normalize_deadline(d), "%Y-%m-%dT%H:%M"@) == Some(w),
        naive_datetime_parse(normalize_deadline(d2), "%Y-%m-%dT%H:%M:%S"@) == Some(w),
    ensures
        parse_deadline_spec(d, tz) == localize_spec(w, tz),
        parse_deadline_spec(d2, tz) == localize_spec(w, tz),
{
    reveal_strlit(":00");
    lemma_encode_utf8_append(normalize_deadline(d), ":00"@);
    assert(encode_utf8(":00"@).len() == 3) by {
        let c = ":00"@;
        assert(c.len() == 3 && c[0] == ':' && c[1] == '0' && c[2] == '0');
        assert(c.drop_first().drop_first().drop_first() =~= Seq::<char>::empty());
        assert(encode_scalar(':' as u32).len() == 1);
        assert(encode_scalar('0' as u32).len() == 1);
        assert(encode_utf8(c.drop_first().drop_first().drop_first()).len() == 0);
        assert(encode_utf8(c.drop_first().drop_first()).len() == 1);
        assert(encode_utf8(c.drop_first()).len() == 2);
    }
}


/// A part naming the Windows key: `WIN`, `WINDOWS`, `META`, `CMD` or `COMMAND`
/// (parts are compared in ASCII uppercase).
pub open spec fn win_key_name(p: Seq<char>) -> bool {
    p == "WIN"@ || p == "WINDOWS"@ || p == "META"@ || p == "CMD"@ || p == "COMMAND"@
}

/// Each name of the Windows key is a modifier that sets `MOD_WIN` and is shown as `Win`.
pub proof fn lemma_win_key_names_are_win(p: Seq<char>)
    requires
        win_key_name(p),
    ensures
        modifier_of(p) == Some((MOD_WIN, "Win"@)),
        p.len() > 0,
{
    reveal_strlit("WIN");
    reveal_strlit("WINDOWS");
    reveal_strlit("META");
    reveal_strlit("CMD");
    reveal_strlit("COMMAND");
    reveal_strlit("CTRL");
    reveal_strlit("CONTROL");
    reveal_strlit("ALT");
    reveal_strlit("OPTION");
    reveal_strlit("SHIFT");
    assert("WIN"@[0] != "ALT"@[0]);
    assert("WIN"@ != "ALT"@);
    assert("WINDOWS"@[0] != "CONTROL"@[0]);
    assert("WINDOWS"@ != "CONTROL"@);
    assert("META"@[0] != "CTRL"@[0]);
    assert("META"@ != "CTRL"@);
    assert("CMD"@[0] != "ALT"@[0]);
    assert("CMD"@ != "ALT"@);
    assert("COMMAND"@[2] != "CONTROL"@[2]);
    assert("COMMAND"@ != "CONTROL"@);
    assert("WIN"@.len() == 3 && "WINDOWS"@.len() == 7 && "META"@.len() == 4 && "CMD"@.len() == 3);
    assert("COMMAND"@.len() == 7 && "CTRL"@.len() == 4 && "CONTROL"@.len() == 7 && "ALT"@.len() == 3);
    assert("OPTION"@.len() == 6 && "SHIFT"@.len() == 5);
    assert(p != "CTRL"@);
    assert(p != "CONTROL"@);
    assert(p != "ALT"@);
    assert(p != "OPTION"@);
    assert(p != "SHIFT"@);
}

/// Every name of the Windows key, in any ASCII case, with or without white
/// space around it, makes the same shortcut in front of the same rest:
/// `Cmd+K`, `command+K`, `Meta+K` and `Win+K` read alike.
pub proof fn lemma_win_key_names_read_alike(a1: Seq<char>, a2: Seq<char>, k: Seq<char>)
    requires
        !a1.contains('+'),
        !a2.contains('+'),
        win_key_name(ascii_upper_seq(trim_ws(a1))),
        win_key_name(ascii_upper_seq(trim_ws(a2))),
    ensures
        parse_hotkey_spec(a1 + "+"@ + k) == parse_hotkey_spec(a2 + "+"@ + k),
{
    let p1 = ascii_upper_seq(trim_ws(a1));
    let p2 = ascii_upper_seq(trim_ws(a2));
    lemma_win_key_names_are_win(p1);
    lemma_win_key_names_are_win(p2);
    lemma_parts_after_first(a1, k);
    lemma_parts_after_first(a2, k);
    let rest = hotkey_parts(k);
    lemma_fold_same_first_modifier(p1, p2, rest);
}

/// The parts of `a+k`, where `a` holds no `+` and is not blank: `a`'s part,
/// then the parts of `k`.
proof fn lemma_parts_after_first(a: Seq<char>, k: Seq<char>)
    requires
        !a.contains('+'),
        ascii_upper_seq(trim_ws(a)).len() > 0,
    ensures
        hotkey_parts(a + "+"@ + k) == seq![ascii_upper_seq(trim_ws(a))] + hotkey_parts(k),
{
    reveal_strlit("+");
    let s = a + "+"@ + k;
    assert(s[a.len() as int] == '+');
    assert(s.subrange(0, a.len() as int) =~= a);
    lemma_index_past_prefix(s, a, 0);
    assert(s.subrange(a.len() as int + 1, s.len() as int) =~= k);
    assert(split_on(s, '+') == seq![a] + split_on(k, '+'));
    lemma_clean_parts_append(seq![a], split_on(k, '+'));
    assert(seq![a].drop_last() =~= Seq::<Seq<char>>::empty());
    assert(ascii_upper_seq(trim_ws(a)).len() == trim_ws(a).len());
    assert(seq![a].last() == a);
    assert(clean_parts(Seq::<Seq<char>>::empty()) =~= Seq::<Seq<char>>::empty());
    assert(clean_parts(seq![a]) =~= seq![ascii_upper_seq(trim_ws(a))]);
}

/// In `a+k`, with no `+` in `a`, the first `+` from `i` (at most `a`'s length) is at `a`'s end.
proof fn lemma_index_past_prefix(s: Seq<char>, a: Seq<char>, i: int)
    requires
        !a.contains('+'),
        0 <= i <= a.len(),
        a.len() < s.len(),
        s.subrange(0, a.len() as int) == a,
        s[a.len() as int] == '+',
    ensures
        index_of_char(s, '+', i) == a.len(),
    decreases a.len() - i,
{
    if i < a.len() {
        assert(s[i] == a[i]);
        assert(s[i] != '+') by {
            if s[i] == '+' {
                assert(a.contains('+'));
            }
        }
        lemma_index_past_prefix(s, a, i + 1);
    }
}

/// Cleaning joined lists of pieces is joining their cleaned lists.
proof fn lemma_clean_parts_append(x: Seq<Seq<char>>, y: Seq<Seq<char>>)
    ensures
        clean_parts(x + y) == clean_parts(x) + clean_parts(y),
    decreases y.len(),
{
    if y.len() == 0 {
        assert(x + y =~= x);
        assert(clean_parts(x) + clean_parts(y) =~= clean_parts(x));
    } else {
        assert((x + y).drop_last() =~= x + y.drop_last());
        assert((x + y).last() == y.last());
        lemma_clean_parts_append(x, y.drop_last());
        let t = trim_ws(y.last());
        if t.len() > 0 {
            assert(clean_parts(x) + clean_parts(y) =~= (clean_parts(x) + clean_parts(y.drop_last())).push(ascii_upper_seq(t)));
        }
    }
}

/// Two first parts that are the same modifier read the same with any rest.
proof fn lemma_fold_same_first_modifier(p: Seq<char>, q: Seq<char>, rest: Seq<Seq<char>>)
    requires
        modifier_of(p) is Some,
        modifier_of(p) == modifier_of(q),
    ensures
        hotkey_fold(seq![p] + rest) == hotkey_fold(seq![q] + rest),
    decreases rest.len(),
{
    if rest.len() == 0 {
        assert(seq![p] + rest =~= seq![p]);
        assert(seq![q] + rest =~= seq![q]);
        assert(seq![p].drop_last() =~= Seq::<Seq<char>>::empty());
        assert(seq![q].drop_last() =~= Seq::<Seq<char>>::empty());
    } else {
        lemma_fold_same_first_modifier(p, q, rest.drop_last());
        assert((seq![p] + rest).drop_last() =~= seq![p] + rest.drop_last());
        assert((seq![q] + rest).drop_last() =~= seq![q] + rest.drop_last());
        assert((seq![p] + rest).last() == rest.last());
        assert((seq![q] + rest).last() == rest.last());
    }
}

} // verus!
