//! The decisions of the polling monitors: the back-off after failed fetches,
//! when a recent cache lets the first fetch be skipped, how long to wait
//! between polls, which arXiv queries to run, and when to stop paging
//! through a query's results.

use vstd::prelude::*;

use crate::arxiv::{
    arxiv_keyword_query, arxiv_keyword_query_spec, build_category_query, build_category_query_spec,
    get_unique_keywords, paper_updated_at, unique_keywords_state, updated_instant, ArxivPaper,
};
use crate::common::join3;
use crate::deadline_time::{instant_le, UtcDateTime};
use crate::text::texts;

verus! {

/// The first wait, in seconds, after a failed fetch.
pub const INITIAL_BACKOFF_SECS: u64 = 60;

/// The longest wait, in seconds, after failed fetches.
pub const MAX_BACKOFF_SECS: u64 = 900;

/// A cache written less than this many seconds ago spares the first fetch.
pub const FRESH_CACHE_SECS: u64 = 1800;

/// How often, in seconds, a waiting monitor checks whether it was switched off.
pub const POLL_CHECK_SECS: u64 = 5;

/// The number of results asked for per arXiv page.
pub const ARXIV_PAGE_SIZE: usize = 100;

/// The fewest papers kept per keyword, reaching back before today if needed.
pub const ARXIV_MIN_PAPERS_PER_KEYWORD: usize = 10;

/// The next wait after a failure: the wait doubled, at most 900 seconds.
pub open spec fn backoff_step(secs: int) -> int {
    if 2 * secs < MAX_BACKOFF_SECS { 2 * secs } else { MAX_BACKOFF_SECS as int }
}

/// The wait after `k` failures in a row, counted from the first wait.
pub open spec fn backoff_after_failures(k: nat) -> int
    decreases k,
{
    if k == 0 {
        INITIAL_BACKOFF_SECS as int
    } else {
        backoff_step(backoff_after_failures((k - 1) as nat))
    }
}

/// Two to the power `k`.
pub open spec fn two_pow(k: nat) -> int
    decreases k,
{
    if k == 0 { 1 } else { 2 * two_pow((k - 1) as nat) }
}

/// The back-off over failures in a row: after `k` failures the wait is
/// 60 · 2^k seconds, at most 900 (60, 120, 240, 480, 900, 900, ...), so the
/// `k`-th failure in a row sleeps min(60 · 2^(k-1), 900) seconds; a success
/// sets the wait back to 60 (`Backoff::after_success`).
pub proof fn lemma_backoff_law(k: nat)
    ensures
        backoff_after_failures(k) == if 60 * two_pow(k) < 900 { 60 * two_pow(k) } else { 900 },
    decreases k,
{
    if k > 0 {
        lemma_backoff_law((k - 1) as nat);
        lemma_two_pow_positive((k - 1) as nat);
    }
}

/// Powers of two are positive.
proof fn lemma_two_pow_positive(k: nat)
    ensures
        two_pow(k) >= 1,
    decreases k,
{
    if k > 0 {
        lemma_two_pow_positive((k - 1) as nat);
    }
}

/// The wait after failed fetches: 60 seconds at first, doubled after each
/// failure up to 900 seconds, and back to 60 after a success.
pub struct Backoff {
    secs: u64,
}

impl View for Backoff {
    type V = u64;

    closed spec fn view(&self) -> u64 {
        self.secs
    }
}

impl Backoff {
    #[verifier::type_invariant]
    closed spec fn within_bounds(self) -> bool {
        INITIAL_BACKOFF_SECS <= self.secs <= MAX_BACKOFF_SECS
    }

    /// The back-off before any failure.
    pub fn new() -> (b: Backoff)
        ensures
            b@ == INITIAL_BACKOFF_SECS,
    {
        Backoff { secs: INITIAL_BACKOFF_SECS }
    }

    /// The current wait; always between 60 and 900 seconds.
    pub fn delay_secs(&self) -> (r: u64)
        ensures
            r == self@,
            INITIAL_BACKOFF_SECS <= r <= MAX_BACKOFF_SECS,
    {
        proof {
            use_type_invariant(self);
        }
        self.secs
    }

    /// After a failed fetch: the wait to sleep now, and the next wait doubled
    /// (at most 900 seconds).
    pub fn after_failure(&mut self) -> (wait: u64)
        ensures
            wait == old(self)@,
            final(self)@ == backoff_step(old(self)@ as int),
            INITIAL_BACKOFF_SECS <= final(self)@ <= MAX_BACKOFF_SECS,
    {
        proof {
            use_type_invariant(&*self);
        }
        let wait = self.secs;
        let doubled = self.secs * 2;
        self.secs = if doubled < MAX_BACKOFF_SECS { doubled } else { MAX_BACKOFF_SECS };
        wait
    }

    /// After a successful fetch: the wait is back to 60 seconds.
    pub fn after_success(&mut self)
        ensures
            final(self)@ == INITIAL_BACKOFF_SECS,
    {
        self.secs = INITIAL_BACKOFF_SECS;
    }
}

/// Where a monitor's loop stands: its back-off, whether its first round is
/// still to come, and the poll interval of the settings last read.
pub struct MonitorState {
    pub backoff: Backoff,
    pub is_startup: bool,
    pub interval_secs: u64,
}

/// A monitor's state as plain values: the wait after the next failure,
/// whether the first round is to come, the poll interval.
pub open spec fn monitor_state_view(s: MonitorState) -> (u64, bool, u64) {
    (s.backoff@, s.is_startup, s.interval_secs)
}

impl MonitorState {
    /// A monitor before its first round: a wait of 60 seconds, an hour's interval.
    pub fn new() -> (s: MonitorState)
        ensures
            monitor_state_view(s) == (INITIAL_BACKOFF_SECS, true, 3600u64),
    {
        MonitorState { backoff: Backoff::new(), is_startup: true, interval_secs: 3600 }
    }
}

/// Whether the monitor's first round skips the fetch for a recent cache.
pub open spec fn cache_fresh_spec(age: Option<u64>) -> bool {
    age matches Some(a) && a < FRESH_CACHE_SECS
}

/// What the paper deadline monitor learns: the start of a round (its
/// switch, the poll interval of the deadline settings and how old the cache
/// file is), how many deadlines the cache gave, or how a fetch of the feed went.
pub enum PaperMonitorEvent {
    Round { enabled: Option<bool>, interval_secs: u64, cache_age_secs: Option<u64> },
    CacheLoaded { count: usize },
    FeedRead,
    FeedFailed,
}

/// What the paper deadline monitor does next.
pub enum PaperMonitorAction {
    /// Switched off: clear the deadlines, write an empty cache, show no
    /// deadlines and no error, sleep `secs`, start a new round.
    ClearAndPause { secs: u64 },
    /// Load the cached deadlines into the state.
    LoadCache,
    /// Fetch the feed.
    Fetch,
    /// Build and show the deadlines of the feed, then wait `checks` checks.
    ProcessAndWait { checks: u64 },
    /// Wait `checks` checks of `POLL_CHECK_SECS` while switched on.
    WaitInterval { checks: u64 },
    /// Show the cached deadlines with the error, sleep `secs`, start a new round.
    RestoreAndSleep { secs: u64 },
}

/// One step of the paper deadline monitor: from its state (back-off,
/// first round to come, interval) and what it learnt, the next state and
/// what it does. A round while switched off clears and pauses 5 seconds;
/// the first round with a cache younger than 30 minutes loads it and, where
/// it holds deadlines, waits instead of fetching; a read feed is shown and
/// the back-off goes back to 60 seconds; a failed fetch sleeps the back-off,
/// which doubles up to 900 seconds.
pub open spec fn paper_step(s: (u64, bool, u64), e: PaperMonitorEvent) -> ((u64, bool, u64), PaperMonitorAction) {
    let (b, startup, interval) = s;
    match e {
        PaperMonitorEvent::Round { enabled, interval_secs, cache_age_secs } => if !(enabled matches Some(false)) {
            if startup && cache_fresh_spec(cache_age_secs) {
                ((b, false, interval_secs), PaperMonitorAction::LoadCache)
            } else {
                ((b, false, interval_secs), PaperMonitorAction::Fetch)
            }
        } else {
            (s, PaperMonitorAction::ClearAndPause { secs: 5 })
        },
        PaperMonitorEvent::CacheLoaded { count } => if count > 0 {
            (s, PaperMonitorAction::WaitInterval { checks: interval / POLL_CHECK_SECS })
        } else {
            (s, PaperMonitorAction::Fetch)
        },
        PaperMonitorEvent::FeedRead => (
            (INITIAL_BACKOFF_SECS, startup, interval),
            PaperMonitorAction::ProcessAndWait { checks: interval / POLL_CHECK_SECS },
        ),
        PaperMonitorEvent::FeedFailed => (
            (backoff_step(b as int) as u64, startup, interval),
            PaperMonitorAction::RestoreAndSleep { secs: b },
        ),
    }
}

/// One step of the paper deadline monitor (see `paper_step`).
pub fn paper_monitor_step(state: MonitorState, event: PaperMonitorEvent) -> (r: (MonitorState, PaperMonitorAction))
    ensures
        (monitor_state_view(r.0), r.1) == paper_step(monitor_state_view(state), event),
{
    let mut st = state;
    match event {
        PaperMonitorEvent::Round { enabled, interval_secs, cache_age_secs } => {
            if !monitor_enabled(enabled) {
                return (st, PaperMonitorAction::ClearAndPause { secs: 5 });
            }
            let load = st.is_startup && match cache_age_secs {
                Some(a) => cache_is_fresh(a),
                None => false,
            };
            st.is_startup = false;
            st.interval_secs = interval_secs;
            if load {
                (st, PaperMonitorAction::LoadCache)
            } else {
                (st, PaperMonitorAction::Fetch)
            }
        },
        PaperMonitorEvent::CacheLoaded { count } => {
            if count > 0 {
                let checks = poll_wait_checks(st.interval_secs);
                (st, PaperMonitorAction::WaitInterval { checks })
            } else {
                (st, PaperMonitorAction::Fetch)
            }
        },
        PaperMonitorEvent::FeedRead => {
            st.backoff.after_success();
            let checks = poll_wait_checks(st.interval_secs);
            (st, PaperMonitorAction::ProcessAndWait { checks })
        },
        PaperMonitorEvent::FeedFailed => {
            let secs = st.backoff.after_failure();
            (st, PaperMonitorAction::RestoreAndSleep { secs })
        },
    }
}

/// What the arXiv monitor learns: the start of a round (its switch, the
/// poll interval of the arXiv settings and how old the cache file is), or
/// how a fetch went.
pub enum ArxivMonitorEvent {
    Round { enabled: Option<bool>, interval_secs: u64, cache_age_secs: Option<u64> },
    FetchSucceeded,
    FetchFailed,
}

/// What the arXiv monitor does next.
pub enum ArxivMonitorAction {
    /// Switched off: clear the papers, write an empty cache, show no papers,
    /// then idle up to `secs` seconds (one second at a time, until switched
    /// on), and start a new round.
    ClearAndIdle { secs: u64 },
    /// Fetch today's papers.
    Fetch,
    /// Wait `checks` checks of `POLL_CHECK_SECS`, while switched on and the
    /// arXiv settings are unchanged.
    WaitInterval { checks: u64 },
    /// Show the error and the papers held (or cached), sleep `secs`, start a
    /// new round.
    ShowCachedAndSleep { secs: u64 },
}

/// One step of the arXiv monitor: a round while switched off clears and
/// idles for the interval (and is the first round no more); the first round
/// with a cache younger than 30 minutes waits instead of fetching; a
/// successful fetch waits the interval and sets the back-off back to 60
/// seconds; a failed one sleeps the back-off, which doubles up to 900 seconds.
pub open spec fn arxiv_step(s: (u64, bool, u64), e: ArxivMonitorEvent) -> ((u64, bool, u64), ArxivMonitorAction) {
    let (b, startup, interval) = s;
    match e {
        ArxivMonitorEvent::Round { enabled, interval_secs, cache_age_secs } => if !(enabled matches Some(false)) {
            if startup && cache_fresh_spec(cache_age_secs) {
                ((b, false, interval_secs), ArxivMonitorAction::WaitInterval { checks: interval_secs / POLL_CHECK_SECS })
            } else {
                ((b, false, interval_secs), ArxivMonitorAction::Fetch)
            }
        } else {
            ((b, false, interval_secs), ArxivMonitorAction::ClearAndIdle { secs: interval_secs })
        },
        ArxivMonitorEvent::FetchSucceeded => (
            (INITIAL_BACKOFF_SECS, startup, interval),
            ArxivMonitorAction::WaitInterval { checks: interval / POLL_CHECK_SECS },
        ),
        ArxivMonitorEvent::FetchFailed => (
            (backoff_step(b as int) as u64, startup, interval),
            ArxivMonitorAction::ShowCachedAndSleep { secs: b },
        ),
    }
}

/// One step of the arXiv monitor (see `arxiv_step`).
pub fn arxiv_monitor_step(state: MonitorState, event: ArxivMonitorEvent) -> (r: (MonitorState, ArxivMonitorAction))
    ensures
        (monitor_state_view(r.0), r.1) == arxiv_step(monitor_state_view(state), event),
{
    let mut st = state;
    match event {
        ArxivMonitorEvent::Round { enabled, interval_secs, cache_age_secs } => {
            let startup = st.is_startup;
            st.is_startup = false;
            st.interval_secs = interval_secs;
            if !monitor_enabled(enabled) {
                return (st, ArxivMonitorAction::ClearAndIdle { secs: interval_secs });
            }
            let skip = startup && match cache_age_secs {
                Some(a) => cache_is_fresh(a),
                None => false,
            };
            if skip {
                let checks = poll_wait_checks(interval_secs);
                (st, ArxivMonitorAction::WaitInterval { checks })
            } else {
                (st, ArxivMonitorAction::Fetch)
            }
        },
        ArxivMonitorEvent::FetchSucceeded => {
            st.backoff.after_success();
            let checks = poll_wait_checks(st.interval_secs);
            (st, ArxivMonitorAction::WaitInterval { checks })
        },
        ArxivMonitorEvent::FetchFailed => {
            let secs = st.backoff.after_failure();
            (st, ArxivMonitorAction::ShowCachedAndSleep { secs })
        },
    }
}

/// The paper monitor's state after `k` failed fetches in a row from `s`.
pub open spec fn paper_after_failures(s: (u64, bool, u64), k: nat) -> (u64, bool, u64)
    decreases k,
{
    if k == 0 {
        s
    } else {
        paper_step(paper_after_failures(s, (k - 1) as nat), PaperMonitorEvent::FeedFailed).0
    }
}

/// The paper monitor's back-off over failures in a row: from a wait of 60
/// seconds, the `k`-th failed fetch (from 1) sleeps min(60 · 2^(k-1), 900)
/// seconds (60, 120, 240, 480, 900, ...), and a read feed sets the wait back
/// to 60.
pub proof fn lemma_paper_backoff(startup: bool, interval: u64, k: nat)
    requires
        k >= 1,
    ensures
        paper_step(paper_after_failures((INITIAL_BACKOFF_SECS, startup, interval), (k - 1) as nat), PaperMonitorEvent::FeedFailed).1
            == (PaperMonitorAction::RestoreAndSleep {
            secs: (if 60 * two_pow((k - 1) as nat) < 900 { 60 * two_pow((k - 1) as nat) } else { 900 }) as u64,
        }),
        paper_step(paper_after_failures((INITIAL_BACKOFF_SECS, startup, interval), k), PaperMonitorEvent::FeedRead).0.0
            == INITIAL_BACKOFF_SECS,
{
    lemma_paper_failures_track((INITIAL_BACKOFF_SECS, startup, interval), (k - 1) as nat);
    lemma_backoff_law((k - 1) as nat);
}

/// Failures in a row leave the rest of the paper monitor's state alone and
/// move its wait as `backoff_after_failures` does.
proof fn lemma_paper_failures_track(s: (u64, bool, u64), k: nat)
    requires
        s.0 == INITIAL_BACKOFF_SECS,
    ensures
        paper_after_failures(s, k) == (backoff_after_failures(k) as u64, s.1, s.2),
        INITIAL_BACKOFF_SECS <= backoff_after_failures(k) <= MAX_BACKOFF_SECS,
    decreases k,
{
    if k > 0 {
        lemma_paper_failures_track(s, (k - 1) as nat);
    }
}

/// Whether a monitor runs: it does unless switched off in the settings.
pub fn monitor_enabled(setting: Option<bool>) -> (r: bool)
    ensures
        r == match setting { Some(b) => b, None => true },
{
    match setting {
        Some(b) => b,
        None => true,
    }
}

/// Whether a cache written `age_secs` whole seconds ago is recent enough to
/// spare the first fetch (less than 30 minutes).
pub fn cache_is_fresh(age_secs: u64) -> (r: bool)
    ensures
        r == (age_secs < FRESH_CACHE_SECS),
{
    age_secs < FRESH_CACHE_SECS
}

/// How many checks of `POLL_CHECK_SECS` seconds a monitor waits between polls
/// set `interval_secs` apart.
pub fn poll_wait_checks(interval_secs: u64) -> (r: u64)
    ensures
        r == interval_secs / POLL_CHECK_SECS,
{
    interval_secs / POLL_CHECK_SECS
}

/// The arXiv settings that the monitor reads.
#[derive(Debug)]
pub struct ArxivConfig {
    pub keywords: Vec<String>,
    pub categories: Vec<String>,
    pub update_interval: u64,
}

/// Whether the arXiv settings changed in what the monitor reads (its
/// keywords, categories or interval), which cuts a wait short.
pub open spec fn arxiv_config_changed_spec(a: ArxivConfig, b: ArxivConfig) -> bool {
    texts(a.keywords@) != texts(b.keywords@) || texts(a.categories@) != texts(b.categories@)
        || a.update_interval != b.update_interval
}

/// Whether two lists of strings hold the same texts in the same order.
fn same_texts(a: &Vec<String>, b: &Vec<String>) -> (r: bool)
    ensures
        r == (texts(a@) == texts(b@)),
{
    if a.len() != b.len() {
        proof {
            assert(texts(a@).len() != texts(b@).len());
        }
        return false;
    }
    let mut i: usize = 0;
    while i < a.len()
        invariant
            i <= a@.len(),
            a@.len() == b@.len(),
            forall|k: int| 0 <= k < i ==> a@[k]@ == b@[k]@,
        decreases a@.len() - i,
    {
        if !crate::text::chars_equal(
            &crate::text::chars_of(a[i].as_str()),
            &crate::text::chars_of(b[i].as_str()),
        ) {
            proof {
                assert(texts(a@)[i as int] != texts(b@)[i as int]);
            }
            return false;
        }
        i += 1;
    }
    assert(texts(a@) =~= texts(b@));
    true
}

/// Whether the arXiv settings changed (see `arxiv_config_changed_spec`).
pub fn arxiv_config_changed(a: &ArxivConfig, b: &ArxivConfig) -> (r: bool)
    ensures
        r == arxiv_config_changed_spec(*a, *b),
{
    !same_texts(&a.keywords, &b.keywords) || !same_texts(&a.categories, &b.categories)
        || a.update_interval != b.update_interval
}

/// One arXiv query and the fewest papers to keep from it.
#[derive(Debug)]
pub struct ArxivQuery {
    pub query: String,
    pub minimum_count: Option<usize>,
}

/// The texts of a list of queries.
pub open spec fn query_views(s: Seq<ArxivQuery>) -> Seq<(Seq<char>, Option<usize>)> {
    s.map_values(|q: ArxivQuery| (q.query@, q.minimum_count))
}

/// The queries for keywords: for each keyword that has a query, the
/// category query `AND` the keyword's, keeping at least ten papers.
pub open spec fn keyword_queries_spec(category_query: Seq<char>, keywords: Seq<Seq<char>>) -> Seq<(Seq<char>, Option<usize>)>
    decreases keywords.len(),
{
    if keywords.len() == 0 {
        Seq::empty()
    } else {
        let prev = keyword_queries_spec(category_query, keywords.drop_last());
        match arxiv_keyword_query_spec(keywords.last()) {
            Some(q) => prev.push((category_query + " AND "@ + q, Some(ARXIV_MIN_PAPERS_PER_KEYWORD))),
            None => prev,
        }
    }
}

/// The queries that a fetch runs: without keywords, the category query alone
/// with no minimum; with keywords, one query per distinct keyword (see
/// `keyword_queries_spec`), whose results are merged and sorted.
pub open spec fn arxiv_queries_spec(keywords: Seq<Seq<char>>, categories: Seq<Seq<char>>) -> Seq<(Seq<char>, Option<usize>)> {
    let cat = build_category_query_spec(categories);
    if keywords.len() == 0 {
        seq![(cat, None)]
    } else {
        keyword_queries_spec(cat, unique_keywords_state(keywords).0)
    }
}

/// The queries of an arXiv fetch (see `arxiv_queries_spec`); `true` in the
/// second place where their results are merged and sorted (with keywords).
pub fn arxiv_queries(keywords: &Vec<String>, categories: &Vec<String>) -> (r: (Vec<ArxivQuery>, bool))
    ensures
        query_views(r.0@) == arxiv_queries_spec(texts(keywords@), texts(categories@)),
        r.1 == (keywords@.len() > 0),
{
    let cat = build_category_query(categories.as_slice());
    let mut queries: Vec<ArxivQuery> = Vec::new();
    if keywords.len() == 0 {
        queries.push(ArxivQuery { query: cat, minimum_count: None });
        assert(query_views(queries@) =~= seq![(cat@, None::<usize>)]);
        return (queries, false);
    }
    let unique = get_unique_keywords(keywords.as_slice());
    let ghost ks = texts(unique@);
    let mut i: usize = 0;
    while i < unique.len()
        invariant
            i <= unique@.len(),
            ks == texts(unique@),
            ks == unique_keywords_state(texts(keywords@)).0,
            cat@ == build_category_query_spec(texts(categories@)),
            query_views(queries@) == keyword_queries_spec(cat@, ks.subrange(0, i as int)),
        decreases unique@.len() - i,
    {
        assert(ks.subrange(0, i + 1).drop_last() =~= ks.subrange(0, i as int));
        assert(ks.subrange(0, i + 1).last() == unique@[i as int]@);
        match arxiv_keyword_query(unique[i].as_str()) {
            Some(q) => {
                let ghost before = query_views(queries@);
                let query = join3(cat.as_str(), " AND ", q.as_str());
                queries.push(ArxivQuery { query, minimum_count: Some(ARXIV_MIN_PAPERS_PER_KEYWORD) });
                assert(query_views(queries@) =~= before.push(
                    (cat@ + " AND "@ + q@, Some(ARXIV_MIN_PAPERS_PER_KEYWORD)),
                ));
            },
            None => {},
        }
        i += 1;
    }
    assert(ks.subrange(0, unique@.len() as int) =~= ks);
    (queries, true)
}

/// An instant lies within the day `[lo, hi)`.
pub open spec fn in_window(t: (i64, u32), lo: (i64, u32), hi: (i64, u32)) -> bool {
    instant_le(lo, t) && !instant_le(hi, t)
}

/// Whether a query has found enough papers to stop reaching back before today.
pub open spec fn enough(kept_len: nat, minimum_count: Option<usize>) -> bool {
    match minimum_count {
        Some(m) => kept_len >= m,
        None => true,
    }
}

/// What reading a page's papers in order adds to those kept, and whether the
/// query is done: a paper updated within today is kept; one updated before
/// today is kept while fewer than the minimum are kept, and ends the query
/// once enough are (at once, without a minimum); others are skipped.
pub open spec fn absorb_page_spec(
    kept: Seq<ArxivPaper>,
    page: Seq<ArxivPaper>,
    lo: (i64, u32),
    hi: (i64, u32),
    minimum_count: Option<usize>,
) -> (Seq<ArxivPaper>, bool)
    decreases page.len(),
{
    if page.len() == 0 {
        (kept, false)
    } else {
        let p = page[0];
        let rest = page.drop_first();
        match updated_instant(p) {
            Some(t) => if in_window(t, lo, hi) {
                absorb_page_spec(kept.push(p), rest, lo, hi, minimum_count)
            } else if !instant_le(lo, t) {
                let k2 = if minimum_count matches Some(m) && kept.len() < m {
                    kept.push(p)
                } else {
                    kept
                };
                if enough(k2.len(), minimum_count) {
                    (k2, true)
                } else {
                    absorb_page_spec(k2, rest, lo, hi, minimum_count)
                }
            } else {
                absorb_page_spec(kept, rest, lo, hi, minimum_count)
            },
            None => absorb_page_spec(kept, rest, lo, hi, minimum_count),
        }
    }
}

/// The paging through one arXiv query's results, newest first: the papers
/// kept so far, where the next page starts, and the total the API reported.
#[derive(Debug)]
pub struct QueryScan {
    pub papers: Vec<ArxivPaper>,
    pub start: usize,
    pub total_results: Option<usize>,
    pub minimum_count: Option<usize>,
    pub today_start: UtcDateTime,
    pub tomorrow_start: UtcDateTime,
}

impl QueryScan {
    /// A scan before its first page.
    pub fn new(minimum_count: Option<usize>, today_start: UtcDateTime, tomorrow_start: UtcDateTime) -> (s: QueryScan)
        ensures
            s.papers@.len() == 0,
            s.start == 0,
            s.total_results is None,
            s.minimum_count == minimum_count,
            s.today_start@ == today_start@,
            s.tomorrow_start@ == tomorrow_start@,
    {
        QueryScan { papers: Vec::new(), start: 0, total_results: None, minimum_count, today_start, tomorrow_start }
    }

    /// Takes the page fetched at `start`, with the total the API reported for
    /// it. The first total reported is kept. The scan goes on (`true`, at the
    /// next page) unless the page ended the query, held fewer than a full
    /// page of results, or the next page would start at or past the total.
    pub fn take_page(&mut self, page: Vec<ArxivPaper>, page_total: Option<usize>) -> (more: bool)
        requires
            old(self).start + ARXIV_PAGE_SIZE <= usize::MAX,
        ensures
            ({
                let (kept, stop) = absorb_page_spec(
                    old(self).papers@,
                    page@,
                    old(self).today_start@,
                    old(self).tomorrow_start@,
                    old(self).minimum_count,
                );
                let total = if old(self).total_results is None { page_total } else { old(self).total_results };
                let ends = stop || page@.len() < ARXIV_PAGE_SIZE;
                &&& final(self).papers@ == kept
                &&& final(self).total_results == total
                &&& final(self).start == if ends { old(self).start as int } else { old(self).start + ARXIV_PAGE_SIZE }
                &&& more == (!ends && !(total matches Some(t) && final(self).start >= t))
            }),
            final(self).minimum_count == old(self).minimum_count,
            final(self).today_start@ == old(self).today_start@,
            final(self).tomorrow_start@ == old(self).tomorrow_start@,
    {
        if self.total_results.is_none() {
            self.total_results = page_total;
        }
        let fetched = page.len();
        let ghost page0 = page@;
        let ghost kept0 = self.papers@;
        let ghost total0 = self.total_results;
        let lo = (self.today_start.timestamp(), self.today_start.timestamp_subsec_nanos());
        let hi = (self.tomorrow_start.timestamp(), self.tomorrow_start.timestamp_subsec_nanos());
        let mut page = page;
        let mut rev: Vec<ArxivPaper> = Vec::new();
        while page.len() > 0
            invariant
                self.papers@ == kept0,
                self.total_results == total0,
                self.start == old(self).start,
                self.minimum_count == old(self).minimum_count,
                self.today_start@ == old(self).today_start@,
                self.tomorrow_start@ == old(self).tomorrow_start@,
                lo == self.today_start@,
                hi == self.tomorrow_start@,
                page@.len() <= page0.len(),
                page@ == page0.subrange(0, page@.len() as int),
                rev@ == page0.subrange(page@.len() as int, page0.len() as int).reverse(),
            decreases page@.len(),
        {
            let p = page.pop().unwrap();
            rev.push(p);
            assert(rev@ =~= page0.subrange(page@.len() as int, page0.len() as int).reverse());
        }
        assert(page0.subrange(0, page0.len() as int) =~= page0);
        assert(rev@.reverse() =~= page0);
        let mut stop = false;
        while rev.len() > 0 && !stop
            invariant
                self.total_results == total0,
                self.start == old(self).start,
                self.minimum_count == old(self).minimum_count,
                self.today_start@ == old(self).today_start@,
                self.tomorrow_start@ == old(self).tomorrow_start@,
                rev@.len() <= page0.len(),
                lo == self.today_start@,
                hi == self.tomorrow_start@,
                rev@.reverse() == page0.subrange(page0.len() - rev@.len(), page0.len() as int),
                stop ==> absorb_page_spec(kept0, page0, lo, hi, self.minimum_count) == (self.papers@, true),
                !stop ==> absorb_page_spec(kept0, page0, lo, hi, self.minimum_count) == absorb_page_spec(
                    self.papers@,
                    rev@.reverse(),
                    lo,
                    hi,
                    self.minimum_count,
                ),
            decreases rev@.len(),
        {
            let ghost remaining = rev@.reverse();
            let p = rev.pop().unwrap();
            assert(remaining[0] == p);
            assert(rev@.reverse() =~= remaining.drop_first());
            match paper_updated_at(&p) {
                Some(t) => {
                    let after_start = t.0 > lo.0 || (t.0 == lo.0 && t.1 >= lo.1);
                    let before_end = t.0 < hi.0 || (t.0 == hi.0 && t.1 < hi.1);
                    if after_start && before_end {
                        self.papers.push(p);
                    } else if !after_start {
                        let below_minimum = match self.minimum_count {
                            Some(m) => self.papers.len() < m,
                            None => false,
                        };
                        if below_minimum {
                            self.papers.push(p);
                        }
                        let done = match self.minimum_count {
                            Some(m) => self.papers.len() >= m,
                            None => true,
                        };
                        if done {
                            stop = true;
                        }
                    }
                },
                None => {},
            }
        }
        if stop || fetched < ARXIV_PAGE_SIZE {
            return false;
        }
        proof {
            assert(rev@.reverse() =~= Seq::<ArxivPaper>::empty());
        }
        self.start = self.start + ARXIV_PAGE_SIZE;
        match self.total_results {
            Some(total) => self.start < total,
            None => true,
        }
    }
}

} // verus!
