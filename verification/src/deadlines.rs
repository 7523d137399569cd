//! Conference deadlines: the widget's settings, which conferences and
//! deadlines it shows, and in which order.

use vstd::prelude::*;
use vstd::utf8::encode_utf8;

use crate::common::{clamp_poll_interval_secs, clamp_spec, join5, owned};
use crate::deadline_time::{instant_le, parse_deadline_spec, parse_deadline_utc, eq_ignore_ascii_case, rfc3339_text, str_eq_ignore_ascii_case, UtcDateTime};
use crate::sort::{is_stable_order, le_of, permuted, stable_sort_by, Preorder};
use crate::protobuf::bytes_range;
use crate::text::{bytes_lt, lemma_lex_order, lex_lt, 
    chars_of, contains_string, dedup_seq, dedup_strings, string_of_range, texts, to_lowercase,
    trim, trim_ws, unicode_lowercase,
};

verus! {

/// The smallest polling interval of the deadline feed, in seconds.
pub const MIN_DEADLINE_POLL_INTERVAL_SECS: u64 = 60;

/// The largest polling interval of the deadline feed, in seconds.
pub const MAX_DEADLINE_POLL_INTERVAL_SECS: u64 = 86_400;

/// The settings of the deadline widget.
#[derive(Debug, Default)]
pub struct PaperConfig {
    pub update_interval: Option<u64>,
    pub max_deadlines: Option<usize>,
    pub show_past_deadlines: Option<bool>,
    pub filter_by_rank: Option<Vec<String>>,
    pub filter_by_core: Option<Vec<String>>,
    pub filter_by_sub: Option<Vec<String>>,
    pub subscribed_titles: Option<Vec<String>>,
    pub pinned_titles: Option<Vec<String>>,
    pub pinned_deadline_ids: Option<Vec<String>>,
}

/// One deadline as the widget shows it.
#[derive(Debug)]
pub struct PaperDeadlineInfo {
    pub title: String,
    pub year: String,
    pub deadline_utc: String,
    pub timezone: String,
    pub rank: String,
    pub sub: String,
    pub place: String,
    pub link: String,
    pub ccf: Option<String>,
    pub core: Option<String>,
}

/// The texts of an optional list of `String`s.
pub open spec fn opt_texts(v: Option<Vec<String>>) -> Option<Seq<Seq<char>>> {
    match v {
        Some(x) => Some(texts(x@)),
        None => None,
    }
}

/// `DM` is the old name of the `DB` subject area.
pub open spec fn rename_dm(s: Seq<Seq<char>>) -> Seq<Seq<char>> {
    s.map_values(|x: Seq<char>| if x == "DM"@ { "DB"@ } else { x })
}

/// Normalizes the settings: the polling interval (3600 s when unset) is
/// clamped into [60, 86400], and the subject filter has `DM` renamed `DB`
/// and repeats removed, keeping the first of each.
pub fn normalize_paper_config(config: &mut PaperConfig)
    ensures
        final(config).update_interval == Some(
            clamp_spec(
                match old(config).update_interval {
                    Some(v) => v as int,
                    None => 3600,
                },
                60,
                86400,
            ) as u64,
        ),
        opt_texts(final(config).filter_by_sub) == match opt_texts(old(config).filter_by_sub) {
            Some(s) => Some(dedup_seq(rename_dm(s))),
            None => None,
        },
        final(config).max_deadlines == old(config).max_deadlines,
        final(config).show_past_deadlines == old(config).show_past_deadlines,
        final(config).filter_by_rank == old(config).filter_by_rank,
        final(config).filter_by_core == old(config).filter_by_core,
        final(config).subscribed_titles == old(config).subscribed_titles,
        final(config).pinned_titles == old(config).pinned_titles,
        final(config).pinned_deadline_ids == old(config).pinned_deadline_ids,
{
    let interval = match config.update_interval {
        Some(v) => v,
        None => 3600,
    };
    config.update_interval = Some(
        clamp_poll_interval_secs(
            interval,
            MIN_DEADLINE_POLL_INTERVAL_SECS,
            MAX_DEADLINE_POLL_INTERVAL_SECS,
        ),
    );
    if let Some(subs) = config.filter_by_sub.take() {
        config.filter_by_sub = Some(normalize_sub_filter(&subs));
    }
}

/// The subject filter with `DM` renamed `DB` and repeats removed.
pub fn normalize_sub_filter(subs: &Vec<String>) -> (r: Vec<String>)
    ensures
        texts(r@) == dedup_seq(rename_dm(texts(subs@))),
{
    let mut renamed: Vec<String> = Vec::new();
    let mut i: usize = 0;
    while i < subs.len()
        invariant
            i <= subs@.len(),
            texts(renamed@) == rename_dm(texts(subs@.subrange(0, i as int))),
        decreases subs@.len() - i,
    {
        assert(texts(subs@.subrange(0, i + 1)) =~= texts(subs@.subrange(0, i as int)).push(
            subs@[i as int]@,
        ));
        let ghost next_text = if subs@[i as int]@ == "DM"@ { "DB"@ } else { subs@[i as int]@ };
        assert(rename_dm(texts(subs@.subrange(0, i + 1))) =~= rename_dm(
            texts(subs@.subrange(0, i as int)),
        ).push(next_text));
        if subs[i] == owned("DM") {
            renamed.push(owned("DB"));
        } else {
            renamed.push(subs[i].clone());
        }
        assert(texts(renamed@) =~= rename_dm(texts(subs@.subrange(0, i as int))).push(next_text));
        i += 1;
    }
    assert(subs@.subrange(0, subs@.len() as int) =~= subs@);
    dedup_strings(renamed)
}

/// A title as titles are compared: trimmed and lowercased.
pub open spec fn normalize_title_spec(title: Seq<char>) -> Seq<char> {
    unicode_lowercase(trim_ws(title))
}

/// A title as titles are compared: trimmed and lowercased.
pub fn normalize_title(title: &str) -> (r: String)
    ensures
        r@ == normalize_title_spec(title@),
{
    to_lowercase(trim(title).as_str())
}

/// Whether some text of `list` normalizes to `target`.
pub open spec fn any_title_matches(list: Option<Seq<Seq<char>>>, target: Seq<char>) -> bool {
    list matches Some(l) && title_in(l, target)
}

/// Whether some text of `l` normalizes to `target`.
pub open spec fn title_in(l: Seq<Seq<char>>, target: Seq<char>) -> bool {
    exists|k: int| 0 <= k < l.len() && normalize_title_spec(#[trigger] l[k]) == target
}

/// Whether any title of `list` normalizes to `normalized`.
fn list_has_title(list: &Option<Vec<String>>, normalized: &String) -> (r: bool)
    ensures
        r == any_title_matches(opt_texts(*list), normalized@),
{
    match list {
        None => false,
        Some(items) => {
            let mut i: usize = 0;
            while i < items.len()
                invariant
                    i <= items@.len(),
                    opt_texts(*list) == Some(texts(items@)),
                    forall|k: int| 0 <= k < i ==> normalize_title_spec(#[trigger] texts(items@)[k]) != normalized@,
                decreases items@.len() - i,
            {
                if normalize_title(items[i].as_str()) == *normalized {
                    let ghost l = texts(items@);
                    assert(normalize_title_spec(l[i as int]) == normalized@);
                    assert(0 <= i < l.len());
                    assert(title_in(l, normalized@));
                    return true;
                }
                i += 1;
            }
            false
        },
    }
}

/// Whether the title is one the user subscribed to.
pub open spec fn is_subscribed_title_spec(title: Seq<char>, config: PaperConfig) -> bool {
    any_title_matches(opt_texts(config.subscribed_titles), normalize_title_spec(title))
}

/// Whether the title is one the user subscribed to (compared normalized).
pub fn is_subscribed_title(title: &str, config: &PaperConfig) -> (r: bool)
    ensures
        r == is_subscribed_title_spec(title@, *config),
{
    let normalized = normalize_title(title);
    list_has_title(&config.subscribed_titles, &normalized)
}

/// The text before the first `|` (all of it when there is none).
pub open spec fn before_bar(s: Seq<char>) -> Seq<char>
    decreases s.len(),
{
    if s.len() == 0 {
        s
    } else if s[0] == '|' {
        Seq::empty()
    } else {
        seq![s[0]] + before_bar(s.drop_first())
    }
}

/// The text of `v` before its first `|`.
fn first_bar_field(v: &Vec<char>) -> (r: String)
    ensures
        r@ == before_bar(v@),
{
    let mut i: usize = 0;
    while i < v.len() && v[i] != '|'
        invariant
            i <= v@.len(),
            forall|k: int| 0 <= k < i ==> v@[k] != '|',
        decreases v@.len() - i,
    {
        i += 1;
    }
    proof {
        lemma_before_bar(v@, i as int);
    }
    string_of_range(v, 0, i)
}

proof fn lemma_before_bar(s: Seq<char>, i: int)
    requires
        0 <= i <= s.len(),
        forall|k: int| 0 <= k < i ==> s[k] != '|',
        i == s.len() || s[i] == '|',
    ensures
        before_bar(s) == s.subrange(0, i),
    decreases s.len(),
{
    if s.len() > 0 && s[0] != '|' {
        lemma_before_bar(s.drop_first(), i - 1);
        assert(s =~= seq![s[0]] + s.drop_first());
        assert(s.subrange(0, i) =~= seq![s[0]] + s.drop_first().subrange(0, i - 1));
    } else if s.len() > 0 {
        assert(s.subrange(0, i) =~= Seq::<char>::empty());
    } else {
        assert(s.subrange(0, i) =~= s);
    }
}

/// Whether some conference deadline of this title is pinned: by title, or
/// by a pinned deadline id whose first field is the title.
pub open spec fn has_pinned_deadline_for_title_spec(title: Seq<char>, config: PaperConfig) -> bool {
    let normalized = normalize_title_spec(title);
    any_title_matches(opt_texts(config.pinned_titles), normalized) || (opt_texts(
        config.pinned_deadline_ids,
    ) matches Some(ids) && id_title_in(ids, normalized))
}

/// Whether the first `|` field of some id of `ids` normalizes to `target`.
pub open spec fn id_title_in(ids: Seq<Seq<char>>, target: Seq<char>) -> bool {
    exists|k: int| 0 <= k < ids.len() && normalize_title_spec(before_bar(#[trigger] ids[k])) == target
}

/// Whether a deadline of this conference title is pinned.
pub fn has_pinned_deadline_for_title(title: &str, config: &PaperConfig) -> (r: bool)
    ensures
        r == has_pinned_deadline_for_title_spec(title@, *config),
{
    let normalized = normalize_title(title);
    if list_has_title(&config.pinned_titles, &normalized) {
        return true;
    }
    match &config.pinned_deadline_ids {
        None => false,
        Some(ids) => {
            let mut i: usize = 0;
            while i < ids.len()
                invariant
                    i <= ids@.len(),
                    opt_texts(config.pinned_deadline_ids) == Some(texts(ids@)),
                    normalized@ == normalize_title_spec(title@),
                    forall|k: int| 0 <= k < i ==> normalize_title_spec(before_bar(#[trigger] texts(ids@)[k])) != normalized@,
                decreases ids@.len() - i,
            {
                let head = first_bar_field(&chars_of(ids[i].as_str()));
                if normalize_title(head.as_str()) == normalized {
                    assert(normalize_title_spec(before_bar(texts(ids@)[i as int])) == normalized@);
                    assert(id_title_in(texts(ids@), normalized@));
                    return true;
                }
                i += 1;
            }
            false
        },
    }
}

/// The id of one deadline: normalized title, normalized year and the
/// trimmed UTC deadline, joined by `|`.
pub open spec fn deadline_instance_key_spec(d: PaperDeadlineInfo) -> Seq<char> {
    normalize_title_spec(d.title@) + "|"@ + normalize_title_spec(d.year@) + "|"@ + trim_ws(d.deadline_utc@)
}

/// The id of one deadline (see `deadline_instance_key_spec`).
pub fn deadline_instance_key(deadline: &PaperDeadlineInfo) -> (r: String)
    ensures
        r@ == deadline_instance_key_spec(*deadline),
{
    let title = normalize_title(deadline.title.as_str());
    let year = normalize_title(deadline.year.as_str());
    let when = trim(deadline.deadline_utc.as_str());
    join5(title.as_str(), "|", year.as_str(), "|", when.as_str())
}

/// Whether this deadline is pinned: its id (compared trimmed, ignoring ASCII
/// case) is pinned, or its title is.
pub open spec fn is_pinned_deadline_spec(d: PaperDeadlineInfo, config: PaperConfig) -> bool {
    let key = deadline_instance_key_spec(d);
    (opt_texts(config.pinned_deadline_ids) matches Some(ids) && id_in(ids, key))
        || any_title_matches(opt_texts(config.pinned_titles), normalize_title_spec(d.title@))
}

/// Whether some id of `ids`, trimmed, equals `key` ignoring ASCII case.
pub open spec fn id_in(ids: Seq<Seq<char>>, key: Seq<char>) -> bool {
    exists|k: int| 0 <= k < ids.len() && eq_ignore_ascii_case(trim_ws(#[trigger] ids[k]), key)
}

/// Whether this deadline is pinned (see `is_pinned_deadline_spec`).
pub fn is_pinned_deadline(deadline: &PaperDeadlineInfo, config: &PaperConfig) -> (r: bool)
    ensures
        r == is_pinned_deadline_spec(*deadline, *config),
{
    let key = deadline_instance_key(deadline);
    if let Some(ids) = &config.pinned_deadline_ids {
        let mut i: usize = 0;
        while i < ids.len()
            invariant
                i <= ids@.len(),
                opt_texts(config.pinned_deadline_ids) == Some(texts(ids@)),
                key@ == deadline_instance_key_spec(*deadline),
                forall|k: int| 0 <= k < i ==> !eq_ignore_ascii_case(trim_ws(#[trigger] texts(ids@)[k]), key@),
            decreases ids@.len() - i,
        {
            let id = trim(ids[i].as_str());
            if str_eq_ignore_ascii_case(id.as_str(), key.as_str()) {
                assert(eq_ignore_ascii_case(trim_ws(texts(ids@)[i as int]), key@));
                assert(id_in(texts(ids@), key@));
                return true;
            }
            i += 1;
        }
    }
    let title = normalize_title(deadline.title.as_str());
    list_has_title(&config.pinned_titles, &title)
}


/// The UTF-8 bytes of a deadline's UTC time, which deadlines are compared by.
pub open spec fn deadline_bytes(d: PaperDeadlineInfo) -> Seq<u8> {
    encode_utf8(d.deadline_utc@)
}

/// Whether the deadline is before `now` (comparing the UTC texts bytewise).
pub open spec fn is_past(d: PaperDeadlineInfo, now: Seq<u8>) -> bool {
    lex_lt(deadline_bytes(d), now)
}

/// The order of the widget: upcoming deadlines first, soonest first; then
/// past deadlines, most recent first.
pub open spec fn deadline_le(a: PaperDeadlineInfo, b: PaperDeadlineInfo, now: Seq<u8>) -> bool {
    let ap = is_past(a, now);
    let bp = is_past(b, now);
    if !ap && !bp {
        !lex_lt(deadline_bytes(b), deadline_bytes(a))
    } else if ap && bp {
        !lex_lt(deadline_bytes(a), deadline_bytes(b))
    } else {
        !ap
    }
}

/// The widget's order of deadlines relative to the time `now_key` (RFC 3339 bytes).
pub struct DeadlineOrder {
    pub now_key: Vec<u8>,
}

impl Preorder<PaperDeadlineInfo> for DeadlineOrder {
    open spec fn le_spec(&self, a: PaperDeadlineInfo, b: PaperDeadlineInfo) -> bool {
        deadline_le(a, b, self.now_key@)
    }

    fn le(&self, a: &PaperDeadlineInfo, b: &PaperDeadlineInfo) -> (r: bool) {
        let da = a.deadline_utc.as_str().as_bytes();
        let db = b.deadline_utc.as_str().as_bytes();
        let ap = bytes_lt(da, self.now_key.as_slice());
        let bp = bytes_lt(db, self.now_key.as_slice());
        if !ap && !bp {
            !bytes_lt(db, da)
        } else if ap && bp {
            !bytes_lt(da, db)
        } else {
            !ap
        }
    }

    proof fn lemma_total(&self, a: PaperDeadlineInfo, b: PaperDeadlineInfo) {
        lemma_lex_order(deadline_bytes(a), deadline_bytes(b), deadline_bytes(b));
    }

    proof fn lemma_transitive(&self, a: PaperDeadlineInfo, b: PaperDeadlineInfo, c: PaperDeadlineInfo) {
        let (x, y, z) = (deadline_bytes(a), deadline_bytes(b), deadline_bytes(c));
        lemma_lex_order(x, y, z);
        lemma_lex_order(z, y, x);
        lemma_lex_order(x, z, y);
        lemma_lex_order(y, x, z);
        lemma_lex_order(y, z, x);
        lemma_lex_order(z, x, y);
    }
}

/// Whether the deadline is kept beyond the regular limit: pinned, or of a
/// subscribed conference.
pub open spec fn is_prioritized(d: PaperDeadlineInfo, config: PaperConfig) -> bool {
    is_pinned_deadline_spec(d, config) || is_subscribed_title_spec(d.title@, config)
}

/// The number of deadlines of `s` that are not prioritized.
pub open spec fn regular_count(s: Seq<PaperDeadlineInfo>, config: PaperConfig) -> nat
    decreases s.len(),
{
    if s.len() == 0 {
        0
    } else {
        regular_count(s.drop_last(), config) + if is_prioritized(s.last(), config) {
            0nat
        } else {
            1nat
        }
    }
}

/// `s` with every prioritized deadline and the first `max` others.
pub open spec fn limit_deadlines_spec(s: Seq<PaperDeadlineInfo>, config: PaperConfig, max: usize) -> Seq<PaperDeadlineInfo>
    decreases s.len(),
{
    if s.len() == 0 {
        Seq::empty()
    } else {
        let prev = limit_deadlines_spec(s.drop_last(), config, max);
        if is_prioritized(s.last(), config) || regular_count(prev, config) < max {
            prev.push(s.last())
        } else {
            prev
        }
    }
}

/// The deadlines as the widget lists them: in the widget's order (stable),
/// limited to `max` regular ones when the settings give a limit.
pub open spec fn sorted_limited(s: Seq<PaperDeadlineInfo>, p: Seq<int>, config: PaperConfig) -> Seq<PaperDeadlineInfo> {
    match config.max_deadlines {
        Some(m) => limit_deadlines_spec(permuted(s, p), config, m),
        None => permuted(s, p),
    }
}

/// The RFC 3339 bytes of an instant.
pub open spec fn now_bytes(now: UtcDateTime) -> Seq<u8> {
    encode_utf8(rfc3339_text(now@.0, now@.1))
}

/// Sorts the deadlines in the widget's order relative to `now` (stably) and
/// keeps, when the settings give a limit, every prioritized deadline and the
/// first `max_deadlines` others.
pub fn sort_and_limit_deadlines(deadlines: &mut Vec<PaperDeadlineInfo>, config: &PaperConfig, now: &UtcDateTime)
    ensures
        exists|p: Seq<int>|
            is_stable_order(|a: PaperDeadlineInfo, b: PaperDeadlineInfo| deadline_le(a, b, now_bytes(*now)), old(deadlines)@, p)
                && final(deadlines)@ == sorted_limited(old(deadlines)@, p, *config),
{
    let now_key = now.to_rfc3339();
    let key_bytes = now_key.as_str().as_bytes();
    let order = DeadlineOrder { now_key: bytes_range(key_bytes, 0, key_bytes.len()) };
    let mut items: Vec<PaperDeadlineInfo> = Vec::new();
    std::mem::swap(&mut items, deadlines);
    let ghost orig = items@;
    assert(order.now_key@ =~= key_bytes@);
    let sorted = stable_sort_by(items, &order);
    assert(le_of(order) =~= |a: PaperDeadlineInfo, b: PaperDeadlineInfo| deadline_le(a, b, now_bytes(*now)));
    let ghost p = choose|p: Seq<int>| is_stable_order(le_of(order), orig, p) && sorted@ == permuted(orig, p);
    let result = match config.max_deadlines {
        None => sorted,
        Some(max) => limit_deadlines(sorted, config, max),
    };
    assert(result@ == sorted_limited(orig, p, *config));
    *deadlines = result;
}

/// Keeps every prioritized deadline of `items` and the first `max` others.
fn limit_deadlines(items: Vec<PaperDeadlineInfo>, config: &PaperConfig, max: usize) -> (r: Vec<PaperDeadlineInfo>)
    ensures
        r@ == limit_deadlines_spec(items@, *config, max),
{
    let ghost orig = items@;
    let n = items.len();
    let mut rest = items;
    let mut r: Vec<PaperDeadlineInfo> = Vec::new();
    let mut regular: usize = 0;
    let mut i: usize = 0;
    while i < n
        invariant
            n == orig.len(),
            i <= n,
            rest@ == orig.subrange(i as int, n as int),
            r@ == limit_deadlines_spec(orig.subrange(0, i as int), *config, max),
            regular == regular_count(r@, *config),
            regular <= max,
        decreases n - i,
    {
        let d = rest.remove(0);
        assert(orig.subrange(0, i + 1).drop_last() =~= orig.subrange(0, i as int));
        assert(d == orig[i as int]);
        let prioritized = is_pinned_deadline(&d, config) || is_subscribed_title(d.title.as_str(), config);
        let ghost old_r = r@;
        if prioritized {
            r.push(d);
            assert(r@.drop_last() =~= old_r);
        } else if regular < max {
            r.push(d);
            regular += 1;
            assert(r@.drop_last() =~= old_r);
        }
        i += 1;
        assert(rest@ =~= orig.subrange(i as int, n as int));
    }
    assert(orig.subrange(0, n as int) =~= orig);
    r
}


/// The ranks of a conference in the feed.
#[derive(Debug)]
pub struct YamlRank {
    pub ccf: Option<String>,
    pub core: Option<String>,
}

/// One timeline entry of a conference edition.
#[derive(Debug)]
pub struct YamlTimeline {
    pub deadline: Option<String>,
}

/// One edition of a conference in the feed.
#[derive(Debug)]
pub struct YamlConf {
    pub year: String,
    pub timezone: Option<String>,
    pub place: Option<String>,
    pub link: Option<String>,
    pub timeline: Option<Vec<YamlTimeline>>,
}

/// One conference of the deadline feed.
#[derive(Debug)]
pub struct YamlConfItem {
    pub title: String,
    pub sub: Option<String>,
    pub rank: Option<YamlRank>,
    pub confs: Option<Vec<YamlConf>>,
}

/// The texts of a deadline.
pub struct DeadlineView {
    pub title: Seq<char>,
    pub year: Seq<char>,
    pub deadline_utc: Seq<char>,
    pub timezone: Seq<char>,
    pub rank: Seq<char>,
    pub sub: Seq<char>,
    pub place: Seq<char>,
    pub link: Seq<char>,
    pub ccf: Option<Seq<char>>,
    pub core: Option<Seq<char>>,
}

/// The view of an optional `String`.
pub open spec fn opt_str(s: Option<String>) -> Option<Seq<char>> {
    match s {
        Some(x) => Some(x@),
        None => None,
    }
}

/// The texts of a deadline.
pub open spec fn info_view(d: PaperDeadlineInfo) -> DeadlineView {
    DeadlineView {
        title: d.title@,
        year: d.year@,
        deadline_utc: d.deadline_utc@,
        timezone: d.timezone@,
        rank: d.rank@,
        sub: d.sub@,
        place: d.place@,
        link: d.link@,
        ccf: opt_str(d.ccf),
        core: opt_str(d.core),
    }
}

/// The texts of a list of deadlines.
pub open spec fn info_views(s: Seq<PaperDeadlineInfo>) -> Seq<DeadlineView> {
    s.map_values(|d: PaperDeadlineInfo| info_view(d))
}

/// An optional text, or the fallback.
pub open spec fn text_or(o: Option<Seq<char>>, fallback: Seq<char>) -> Seq<char> {
    match o {
        Some(x) => x,
        None => fallback,
    }
}

/// The CCF rank of a conference, when it has one.
pub open spec fn ccf_of(item: YamlConfItem) -> Option<Seq<char>> {
    match item.rank {
        Some(r) => opt_str(r.ccf),
        None => None,
    }
}

/// The CORE rank of a conference, when it has one.
pub open spec fn core_of(item: YamlConfItem) -> Option<Seq<char>> {
    match item.rank {
        Some(r) => opt_str(r.core),
        None => None,
    }
}

/// Whether an optional list is present and not empty.
pub open spec fn has_filter(o: Option<Seq<Seq<char>>>) -> bool {
    o matches Some(l) && l.len() > 0
}

/// Whether an optional list holds `x`.
pub open spec fn list_holds(o: Option<Seq<Seq<char>>>, x: Seq<char>) -> bool {
    o matches Some(l) && l.contains(x)
}

/// Whether the conference passes the rank filters: with both a CCF and a
/// CORE filter, matching either; with one, matching it; with none, always.
/// A missing rank counts as `N`.
pub open spec fn passes_rank_filters(item: YamlConfItem, config: PaperConfig) -> bool {
    let has_ccf = has_filter(opt_texts(config.filter_by_rank));
    let has_core = has_filter(opt_texts(config.filter_by_core));
    let matches_ccf = !has_ccf || list_holds(opt_texts(config.filter_by_rank), text_or(ccf_of(item), "N"@));
    let matches_core = !has_core || list_holds(opt_texts(config.filter_by_core), text_or(core_of(item), "N"@));
    if has_ccf && has_core {
        matches_ccf || matches_core
    } else {
        matches_ccf && matches_core
    }
}

/// Whether the conference is shown: pinned or subscribed conferences
/// always; others when they pass the rank filters and their subject area
/// (`Unknown` when missing) is in the normalized subject filter, if any.
pub open spec fn conference_shown(item: YamlConfItem, config: PaperConfig, subs: Option<Seq<Seq<char>>>) -> bool {
    let prioritized = is_subscribed_title_spec(item.title@, config) || has_pinned_deadline_for_title_spec(item.title@, config);
    let sub = text_or(opt_str(item.sub), "Unknown"@);
    prioritized || (passes_rank_filters(item, config) && !(has_filter(subs) && !list_holds(subs, sub)))
}

/// The deadline of one timeline entry, where it is shown: not `TBD`, read
/// (see `parse_deadline_spec`) in the edition's zone (`UTC` when missing),
/// and not past `now` unless past deadlines are shown.
pub open spec fn entry_view(item: YamlConfItem, conf: YamlConf, entry: YamlTimeline, config: PaperConfig, now: (i64, u32)) -> Option<DeadlineView> {
    let tz = text_or(opt_str(conf.timezone), "UTC"@);
    match entry.deadline {
        None => None,
        Some(dl) => if dl@ == "TBD"@ {
            None
        } else {
            match parse_deadline_spec(dl@, tz) {
                Ok(t) => if (config.show_past_deadlines == Some(true)) || instant_le(now, t) {
                    Some(DeadlineView {
                        title: item.title@,
                        year: conf.year@,
                        deadline_utc: rfc3339_text(t.0, t.1),
                        timezone: tz,
                        rank: text_or(ccf_of(item), "N"@),
                        sub: text_or(opt_str(item.sub), "Unknown"@),
                        place: text_or(opt_str(conf.place), Seq::empty()),
                        link: text_or(opt_str(conf.link), Seq::empty()),
                        ccf: ccf_of(item),
                        core: core_of(item),
                    })
                } else {
                    None
                },
                Err(_) => None,
            }
        },
    }
}

/// The deadlines of timeline entries, in order.
pub open spec fn timeline_views(item: YamlConfItem, conf: YamlConf, entries: Seq<YamlTimeline>, config: PaperConfig, now: (i64, u32)) -> Seq<DeadlineView>
    decreases entries.len(),
{
    if entries.len() == 0 {
        Seq::empty()
    } else {
        let prev = timeline_views(item, conf, entries.drop_last(), config, now);
        match entry_view(item, conf, entries.last(), config, now) {
            Some(v) => prev.push(v),
            None => prev,
        }
    }
}

/// The deadlines of a conference edition.
pub open spec fn conf_views(item: YamlConfItem, conf: YamlConf, config: PaperConfig, now: (i64, u32)) -> Seq<DeadlineView> {
    match conf.timeline {
        Some(t) => timeline_views(item, conf, t@, config, now),
        None => Seq::empty(),
    }
}

/// The deadlines of conference editions, in order.
pub open spec fn confs_views(item: YamlConfItem, confs: Seq<YamlConf>, config: PaperConfig, now: (i64, u32)) -> Seq<DeadlineView>
    decreases confs.len(),
{
    if confs.len() == 0 {
        Seq::empty()
    } else {
        confs_views(item, confs.drop_last(), config, now) + conf_views(item, confs.last(), config, now)
    }
}

/// The deadlines of a conference, where it is shown.
pub open spec fn item_views(item: YamlConfItem, config: PaperConfig, subs: Option<Seq<Seq<char>>>, now: (i64, u32)) -> Seq<DeadlineView> {
    if conference_shown(item, config, subs) {
        match item.confs {
            Some(c) => confs_views(item, c@, config, now),
            None => Seq::empty(),
        }
    } else {
        Seq::empty()
    }
}

/// The deadlines of the feed's conferences, in feed order, before sorting.
pub open spec fn feed_views(items: Seq<YamlConfItem>, config: PaperConfig, subs: Option<Seq<Seq<char>>>, now: (i64, u32)) -> Seq<DeadlineView>
    decreases items.len(),
{
    if items.len() == 0 {
        Seq::empty()
    } else {
        feed_views(items.drop_last(), config, subs, now) + item_views(items.last(), config, subs, now)
    }
}

/// The normalized subject filter of the settings.
pub open spec fn normalized_subs(config: PaperConfig) -> Option<Seq<Seq<char>>> {
    match opt_texts(config.filter_by_sub) {
        Some(s) => Some(dedup_seq(rename_dm(s))),
        None => None,
    }
}

/// A copy of an optional `String`.
fn copy_opt(o: &Option<String>) -> (r: Option<String>)
    ensures
        r == *o,
{
    match o {
        Some(s) => Some(s.clone()),
        None => None,
    }
}

/// An optional `String`, or the fallback text.
fn or_text(o: &Option<String>, fallback: &str) -> (r: String)
    ensures
        r@ == text_or(opt_str(*o), fallback@),
{
    match o {
        Some(s) => s.clone(),
        None => owned(fallback),
    }
}

/// Whether an optional list is present and not empty.
fn has_filter_exec(o: &Option<Vec<String>>) -> (r: bool)
    ensures
        r == has_filter(opt_texts(*o)),
{
    match o {
        Some(l) => l.len() > 0,
        None => false,
    }
}

/// Whether an optional list holds `x`.
fn list_holds_exec(o: &Option<Vec<String>>, x: &String) -> (r: bool)
    ensures
        r == list_holds(opt_texts(*o), x@),
{
    match o {
        Some(l) => contains_string(l, x),
        None => false,
    }
}

/// The deadlines of one conference edition (see `conf_views`).
fn conf_deadlines(item: &YamlConfItem, conf: &YamlConf, config: &PaperConfig, now: &UtcDateTime) -> (r: Vec<PaperDeadlineInfo>)
    ensures
        info_views(r@) == conf_views(*item, *conf, *config, now@),
{
    let mut r: Vec<PaperDeadlineInfo> = Vec::new();
    let timeline = match &conf.timeline {
        Some(t) => t,
        None => {
            assert(info_views(r@) =~= Seq::<DeadlineView>::empty());
            return r;
        },
    };
    let tz = or_text(&conf.timezone, "UTC");
    let ccf = match &item.rank {
        Some(rank) => copy_opt(&rank.ccf),
        None => None,
    };
    let core = match &item.rank {
        Some(rank) => copy_opt(&rank.core),
        None => None,
    };
    assert(opt_str(ccf) == ccf_of(*item));
    assert(opt_str(core) == core_of(*item));
    let mut i: usize = 0;
    assert(info_views(r@) =~= Seq::<DeadlineView>::empty());
    while i < timeline.len()
        invariant
            i <= timeline@.len(),
            conf.timeline == Some(*timeline),
            tz@ == text_or(opt_str(conf.timezone), "UTC"@),
            opt_str(ccf) == ccf_of(*item),
            opt_str(core) == core_of(*item),
            info_views(r@) == timeline_views(*item, *conf, timeline@.subrange(0, i as int), *config, now@),
        decreases timeline@.len() - i,
    {
        assert(timeline@.subrange(0, i + 1).drop_last() =~= timeline@.subrange(0, i as int));
        let entry = &timeline[i];
        let ghost before = r@;
        let ghost ev = entry_view(*item, *conf, *entry, *config, now@);
        let show_past = match config.show_past_deadlines {
            Some(b) => b,
            None => false,
        };
        assert(show_past == (config.show_past_deadlines == Some(true)));
        let mut pushed = false;
        if let Some(dl) = &entry.deadline {
            if !(*dl == owned("TBD")) {
                match parse_deadline_utc(dl.as_str(), tz.as_str()) {
                    Ok(utc) => {
                        if show_past || utc.is_at_or_after(now) {
                            let info = PaperDeadlineInfo {
                                title: item.title.clone(),
                                year: conf.year.clone(),
                                deadline_utc: utc.to_rfc3339(),
                                timezone: tz.clone(),
                                rank: or_text(&ccf, "N"),
                                sub: or_text(&item.sub, "Unknown"),
                                place: or_text(&conf.place, ""),
                                link: or_text(&conf.link, ""),
                                ccf: copy_opt(&ccf),
                                core: copy_opt(&core),
                            };
                            proof {
                                reveal_strlit("");
                            }
                            assert(info.place@ == text_or(opt_str(conf.place), Seq::empty()));
                            assert(info.link@ == text_or(opt_str(conf.link), Seq::empty()));
                            assert(ev == Some(info_view(info)));
                            r.push(info);
                            pushed = true;
                            assert(info_views(r@) =~= info_views(before).push(info_view(info)));
                        } else {
                            assert(ev is None);
                        }
                    },
                    Err(_) => {
                        assert(ev is None);
                    },
                }
            } else {
                assert(ev is None);
            }
        } else {
            assert(ev is None);
        }
        assert(timeline@.subrange(0, i + 1).last() == *entry);
        if !pushed {
            assert(info_views(r@) =~= info_views(before));
        }
        i += 1;
    }
    assert(timeline@.subrange(0, timeline@.len() as int) =~= timeline@);
    r
}

/// The deadlines of a conference (see `item_views`).
fn item_deadlines(item: &YamlConfItem, config: &PaperConfig, subs: &Option<Vec<String>>, now: &UtcDateTime) -> (r: Vec<PaperDeadlineInfo>)
    ensures
        info_views(r@) == item_views(*item, *config, opt_texts(*subs), now@),
{
    let mut r: Vec<PaperDeadlineInfo> = Vec::new();
    assert(info_views(r@) =~= Seq::<DeadlineView>::empty());
    let prioritized = is_subscribed_title(item.title.as_str(), config) || has_pinned_deadline_for_title(
        item.title.as_str(),
        config,
    );
    let rank = match &item.rank {
        Some(rk) => or_text(&rk.ccf, "N"),
        None => owned("N"),
    };
    let core_val = match &item.rank {
        Some(rk) => or_text(&rk.core, "N"),
        None => owned("N"),
    };
    let sub = or_text(&item.sub, "Unknown");
    let has_ccf = has_filter_exec(&config.filter_by_rank);
    let has_core = has_filter_exec(&config.filter_by_core);
    let matches_ccf = !has_ccf || list_holds_exec(&config.filter_by_rank, &rank);
    let matches_core = !has_core || list_holds_exec(&config.filter_by_core, &core_val);
    let keep = if has_ccf && has_core {
        matches_ccf || matches_core
    } else {
        matches_ccf && matches_core
    };
    if !prioritized && !keep {
        return r;
    }
    if !prioritized && has_filter_exec(subs) && !list_holds_exec(subs, &sub) {
        return r;
    }
    let confs = match &item.confs {
        Some(c) => c,
        None => return r,
    };
    let mut i: usize = 0;
    while i < confs.len()
        invariant
            i <= confs@.len(),
            item.confs == Some(*confs),
            info_views(r@) == confs_views(*item, confs@.subrange(0, i as int), *config, now@),
        decreases confs@.len() - i,
    {
        assert(confs@.subrange(0, i + 1).drop_last() =~= confs@.subrange(0, i as int));
        let ghost before = r@;
        let mut more = conf_deadlines(item, &confs[i], config, now);
        r.append(&mut more);
        assert(info_views(r@) =~= info_views(before) + conf_views(*item, confs@[i as int], *config, now@));
        i += 1;
    }
    assert(confs@.subrange(0, confs@.len() as int) =~= confs@);
    r
}

/// The deadlines of the feed, before sorting (see `feed_views`).
fn feed_deadlines(items: &Vec<YamlConfItem>, config: &PaperConfig, subs: &Option<Vec<String>>, now: &UtcDateTime) -> (r: Vec<PaperDeadlineInfo>)
    ensures
        info_views(r@) == feed_views(items@, *config, opt_texts(*subs), now@),
{
    let mut r: Vec<PaperDeadlineInfo> = Vec::new();
    let mut i: usize = 0;
    assert(info_views(r@) =~= Seq::<DeadlineView>::empty());
    while i < items.len()
        invariant
            i <= items@.len(),
            info_views(r@) == feed_views(items@.subrange(0, i as int), *config, opt_texts(*subs), now@),
        decreases items@.len() - i,
    {
        assert(items@.subrange(0, i + 1).drop_last() =~= items@.subrange(0, i as int));
        let ghost before = r@;
        let mut more = item_deadlines(&items[i], config, subs, now);
        r.append(&mut more);
        assert(info_views(r@) =~= info_views(before) + item_views(items@[i as int], *config, opt_texts(*subs), now@));
        i += 1;
    }
    assert(items@.subrange(0, items@.len() as int) =~= items@);
    r
}

/// The deadlines that the widget lists for the feed `items` at time `now`:
/// those of the shown conferences (see `feed_views`, under the normalized
/// subject filter), sorted and limited as `sort_and_limit_deadlines` does.
pub fn build_deadlines(items: &Vec<YamlConfItem>, config: &PaperConfig, now: &UtcDateTime) -> (r: Vec<PaperDeadlineInfo>)
    ensures
        exists|c: Seq<PaperDeadlineInfo>, p: Seq<int>|
            info_views(c) == feed_views(items@, *config, normalized_subs(*config), now@)
                && is_stable_order(|a: PaperDeadlineInfo, b: PaperDeadlineInfo| deadline_le(a, b, now_bytes(*now)), c, p)
                && r@ == sorted_limited(c, p, *config),
{
    let subs = match &config.filter_by_sub {
        Some(s) => Some(normalize_sub_filter(s)),
        None => None,
    };
    assert(opt_texts(subs) == normalized_subs(*config));
    let mut deadlines = feed_deadlines(items, config, &subs, now);
    let ghost c = deadlines@;
    sort_and_limit_deadlines(&mut deadlines, config, now);
    deadlines
}

} // verus!
