//! Activity aggregator: collects and deduplicates proxy allow events.
//!
//! Allowed connections and L7 requests are merged by `(host, port, binary)`
//! into summaries that are periodically flushed to the Tether bridge. The
//! event loop that reads the channel and the timer lives outside the
//! library; it feeds `ActivityAggregator::step` and performs the flushes it
//! asks for.
use vstd::prelude::*;

verus! {

/// Most distinct L7 `(method, path)` pairs kept per summary.
pub const MAX_L7_SAMPLES: usize = 50;

/// A single activity event emitted by the proxy on an allowed connection or
/// L7 request.
#[derive(Debug, Clone)]
pub struct ActivityEvent {
    /// Destination host.
    pub host: String,
    /// Destination port.
    pub port: u16,
    /// Binary path that initiated the connection (if resolved).
    pub binary: String,
    /// Ancestor binary paths from the process tree walk.
    pub ancestors: Vec<String>,
    /// Name of the matched network policy rule.
    pub matched_policy: String,
    /// L7 request method (e.g. "GET", "POST") if this is an L7 event.
    pub l7_method: Option<String>,
    /// L7 request path if this is an L7 event.
    pub l7_path: Option<String>,
}

/// Aggregated activity summary keyed by `(host, port, binary)`.
struct AggregatedActivity {
    host: String,
    port: u16,
    binary: String,
    ancestors: Vec<String>,
    matched_policy: String,
    first_seen_ms: i64,
    last_seen_ms: i64,
    count: u32,
    l7_samples: Vec<L7Sample>,
}

/// A single L7 request sample for aggregation.
struct L7Sample {
    method: String,
    path: String,
    count: u32,
}

/// An activity summary ready to be sent to the Tether bridge.
#[derive(Debug, Clone)]
pub struct FlushableActivitySummary {
    /// Destination host.
    pub host: String,
    /// Destination port.
    pub port: u16,
    /// Binary path that initiated the connection.
    pub binary: String,
    /// Ancestor binary paths.
    pub ancestors: Vec<String>,
    /// Name of the matched network policy rule.
    pub matched_policy: String,
    /// First event timestamp (ms since epoch).
    pub first_seen_ms: i64,
    /// Most recent event timestamp (ms since epoch).
    pub last_seen_ms: i64,
    /// Number of events in this aggregation window.
    pub count: u32,
    /// Observed L7 request patterns.
    pub l7_samples: Vec<FlushableL7Sample>,
}

/// L7 request sample in flushable form.
#[derive(Debug, Clone)]
pub struct FlushableL7Sample {
    pub method: String,
    pub path: String,
    pub count: u32,
}

// ── Mathematical model ─────────────────────────────────────────────────────

/// An L7 sample as plain values.
pub struct SampleView {
    pub method: Seq<char>,
    pub path: Seq<char>,
    pub count: u32,
}

/// A summary as plain values.
pub struct SummaryView {
    pub host: Seq<char>,
    pub port: u16,
    pub binary: Seq<char>,
    pub ancestors: Seq<Seq<char>>,
    pub matched_policy: Seq<char>,
    pub first_seen_ms: i64,
    pub last_seen_ms: i64,
    pub count: u32,
    pub l7_samples: Seq<SampleView>,
}

/// An event as plain values.
pub struct EventView {
    pub host: Seq<char>,
    pub port: u16,
    pub binary: Seq<char>,
    pub ancestors: Seq<Seq<char>>,
    pub matched_policy: Seq<char>,
    pub l7_method: Option<Seq<char>>,
    pub l7_path: Option<Seq<char>>,
}

/// The texts of a list of strings.
pub open spec fn texts(v: Seq<String>) -> Seq<Seq<char>> {
    v.map_values(|s: String| s@)
}

/// The text of an optional string.
pub open spec fn opt_text(o: Option<String>) -> Option<Seq<char>> {
    match o {
        Some(s) => Some(s@),
        None => None,
    }
}

impl View for ActivityEvent {
    type V = EventView;

    open spec fn view(&self) -> EventView {
        EventView {
            host: self.host@,
            port: self.port,
            binary: self.binary@,
            ancestors: texts(self.ancestors@),
            matched_policy: self.matched_policy@,
            l7_method: opt_text(self.l7_method),
            l7_path: opt_text(self.l7_path),
        }
    }
}

impl View for L7Sample {
    type V = SampleView;

    closed spec fn view(&self) -> SampleView {
        SampleView { method: self.method@, path: self.path@, count: self.count }
    }
}

impl View for FlushableL7Sample {
    type V = SampleView;

    open spec fn view(&self) -> SampleView {
        SampleView { method: self.method@, path: self.path@, count: self.count }
    }
}

/// The views of a list of samples.
spec fn sample_views(v: Seq<L7Sample>) -> Seq<SampleView> {
    v.map_values(|s: L7Sample| s@)
}

/// The views of a list of flushable samples.
pub open spec fn flushable_sample_views(v: Seq<FlushableL7Sample>) -> Seq<SampleView> {
    v.map_values(|s: FlushableL7Sample| s@)
}

impl View for AggregatedActivity {
    type V = SummaryView;

    closed spec fn view(&self) -> SummaryView {
        SummaryView {
            host: self.host@,
            port: self.port,
            binary: self.binary@,
            ancestors: texts(self.ancestors@),
            matched_policy: self.matched_policy@,
            first_seen_ms: self.first_seen_ms,
            last_seen_ms: self.last_seen_ms,
            count: self.count,
            l7_samples: sample_views(self.l7_samples@),
        }
    }
}

impl View for FlushableActivitySummary {
    type V = SummaryView;

    open spec fn view(&self) -> SummaryView {
        SummaryView {
            host: self.host@,
            port: self.port,
            binary: self.binary@,
            ancestors: texts(self.ancestors@),
            matched_policy: self.matched_policy@,
            first_seen_ms: self.first_seen_ms,
            last_seen_ms: self.last_seen_ms,
            count: self.count,
            l7_samples: flushable_sample_views(self.l7_samples@),
        }
    }
}

/// The views of a list of flushable summaries.
pub open spec fn flushable_views(v: Seq<FlushableActivitySummary>) -> Seq<SummaryView> {
    v.map_values(|s: FlushableActivitySummary| s@)
}

/// The views of a list of internal summaries.
spec fn summary_views(v: Seq<AggregatedActivity>) -> Seq<SummaryView> {
    v.map_values(|s: AggregatedActivity| s@)
}

/// Whether a summary has the aggregation key `(host, port, binary)`.
pub open spec fn has_key(s: SummaryView, host: Seq<char>, port: u16, binary: Seq<char>) -> bool {
    s.host == host && s.port == port && s.binary == binary
}

/// Whether two summaries share their aggregation key.
pub open spec fn same_key(a: SummaryView, b: SummaryView) -> bool {
    has_key(a, b.host, b.port, b.binary)
}

/// Whether a sample records `(method, path)`.
pub open spec fn is_sample_of(s: SampleView, method: Seq<char>, path: Seq<char>) -> bool {
    s.method == method && s.path == path
}

/// Sum of the counts of a list of samples.
pub open spec fn sample_total(samples: Seq<SampleView>) -> int
    decreases samples.len(),
{
    if samples.len() == 0 {
        0
    } else {
        sample_total(samples.drop_last()) + samples.last().count
    }
}

/// Well-formed samples of a summary: at most 50 of them, no `(method, path)`
/// pair twice, each counted at least once and at most as often as the
/// summary, and all together counted at most as often as the summary.
pub open spec fn samples_wf(s: SummaryView) -> bool {
    &&& s.l7_samples.len() <= MAX_L7_SAMPLES
    &&& forall|i: int, j: int|
        0 <= i < j < s.l7_samples.len() ==> !is_sample_of(
            #[trigger] s.l7_samples[i],
            s.l7_samples[j].method,
            #[trigger] s.l7_samples[j].path,
        )
    &&& forall|i: int|
        0 <= i < s.l7_samples.len() ==> 1 <= #[trigger] s.l7_samples[i].count <= s.count
    &&& sample_total(s.l7_samples) <= s.count
}

/// A well-formed summary: it has counted at least one event, and its samples
/// are well-formed.
pub open spec fn summary_wf(s: SummaryView) -> bool {
    &&& s.count >= 1
    &&& samples_wf(s)
}

/// Well-formed summaries: no aggregation key twice, each summary
/// well-formed.
pub open spec fn summaries_wf(s: Seq<SummaryView>) -> bool {
    &&& forall|i: int, j: int| 0 <= i < j < s.len() ==> !same_key(#[trigger] s[i], #[trigger] s[j])
    &&& forall|i: int| 0 <= i < s.len() ==> summary_wf(#[trigger] s[i])
}

/// The summary an event starts when its key is new: its metadata, seen at
/// `now_ms`, with no events counted yet.
pub open spec fn fresh_summary(e: EventView, now_ms: i64) -> SummaryView {
    SummaryView {
        host: e.host,
        port: e.port,
        binary: e.binary,
        ancestors: e.ancestors,
        matched_policy: e.matched_policy,
        first_seen_ms: now_ms,
        last_seen_ms: now_ms,
        count: 0,
        l7_samples: seq![],
    }
}

/// Samples after recording one `(method, path)` request: an existing sample
/// is counted once more, a new pair is added with count 1 while there are
/// fewer than 50 samples, and dropped otherwise.
pub open spec fn merge_sample(samples: Seq<SampleView>, method: Seq<char>, path: Seq<char>) -> Seq<
    SampleView,
> {
    if exists|j: int| 0 <= j < samples.len() && is_sample_of(#[trigger] samples[j], method, path) {
        let j = choose|j: int| 0 <= j < samples.len() && is_sample_of(#[trigger] samples[j], method, path);
        samples.update(j, SampleView { count: (samples[j].count + 1) as u32, ..samples[j] })
    } else if samples.len() < MAX_L7_SAMPLES {
        samples.push(SampleView { method, path, count: 1 })
    } else {
        samples
    }
}

/// A summary after counting one more event at `now_ms`; an event with both
/// an L7 method and path also records its sample.
pub open spec fn bump_summary(s: SummaryView, e: EventView, now_ms: i64) -> SummaryView {
    SummaryView {
        count: (s.count + 1) as u32,
        last_seen_ms: now_ms,
        l7_samples: match (e.l7_method, e.l7_path) {
            (Some(m), Some(p)) => merge_sample(s.l7_samples, m, p),
            _ => s.l7_samples,
        },
        ..s
    }
}

/// Whether some summary has the key of the event.
pub open spec fn key_present(s: Seq<SummaryView>, e: EventView) -> bool {
    exists|i: int| 0 <= i < s.len() && has_key(#[trigger] s[i], e.host, e.port, e.binary)
}

/// The summaries after ingesting one event at `now_ms`: the summary with the
/// event's key is bumped in place; without one, a fresh summary is appended
/// and bumped.
pub open spec fn ingest_spec(s: Seq<SummaryView>, e: EventView, now_ms: i64) -> Seq<SummaryView> {
    if key_present(s, e) {
        let i = choose|i: int| 0 <= i < s.len() && has_key(#[trigger] s[i], e.host, e.port, e.binary);
        s.update(i, bump_summary(s[i], e, now_ms))
    } else {
        s.push(bump_summary(fresh_summary(e, now_ms), e, now_ms))
    }
}

/// Whether ingesting `e` can count it without overflowing the summary count.
pub open spec fn can_ingest(s: Seq<SummaryView>, e: EventView) -> bool {
    forall|i: int|
        0 <= i < s.len() && has_key(#[trigger] s[i], e.host, e.port, e.binary) ==> s[i].count
            < u32::MAX
}

/// Total number of events counted by the summaries.
pub open spec fn total_count(s: Seq<SummaryView>) -> int
    decreases s.len(),
{
    if s.len() == 0 {
        0
    } else {
        total_count(s.drop_last()) + s.last().count
    }
}

// ── Laws of the model ──────────────────────────────────────────────────────

/// Replacing one summary changes the total by the difference of counts.
proof fn lemma_total_update(s: Seq<SummaryView>, i: int, v: SummaryView)
    requires
        0 <= i < s.len(),
    ensures
        total_count(s.update(i, v)) == total_count(s) - s[i].count + v.count,
    decreases s.len(),
{
    let u = s.update(i, v);
    if i < s.len() - 1 {
        lemma_total_update(s.drop_last(), i, v);
        assert(u.drop_last() =~= s.drop_last().update(i, v));
    } else {
        assert(u.drop_last() =~= s.drop_last());
    }
}

/// Replacing one sample changes the sample total by the difference of counts.
proof fn lemma_sample_total_update(s: Seq<SampleView>, i: int, v: SampleView)
    requires
        0 <= i < s.len(),
    ensures
        sample_total(s.update(i, v)) == sample_total(s) - s[i].count + v.count,
    decreases s.len(),
{
    let u = s.update(i, v);
    if i < s.len() - 1 {
        lemma_sample_total_update(s.drop_last(), i, v);
        assert(u.drop_last() =~= s.drop_last().update(i, v));
    } else {
        assert(u.drop_last() =~= s.drop_last());
    }
}

/// Only one summary can hold a key.
proof fn lemma_key_unique(s: Seq<SummaryView>, e: EventView, i: int, j: int)
    requires
        summaries_wf(s),
        0 <= i < s.len(),
        0 <= j < s.len(),
        has_key(s[i], e.host, e.port, e.binary),
        has_key(s[j], e.host, e.port, e.binary),
    ensures
        i == j,
{
    if i < j {
        assert(!same_key(s[i], s[j]));
    } else if j < i {
        assert(!same_key(s[j], s[i]));
    }
}

/// Only one sample can record a pair.
proof fn lemma_sample_unique(s: SummaryView, m: Seq<char>, p: Seq<char>, i: int, j: int)
    requires
        samples_wf(s),
        0 <= i < s.l7_samples.len(),
        0 <= j < s.l7_samples.len(),
        is_sample_of(s.l7_samples[i], m, p),
        is_sample_of(s.l7_samples[j], m, p),
    ensures
        i == j,
{
    if i < j {
        assert(!is_sample_of(s.l7_samples[i], s.l7_samples[j].method, s.l7_samples[j].path));
    } else if j < i {
        assert(!is_sample_of(s.l7_samples[j], s.l7_samples[i].method, s.l7_samples[i].path));
    }
}

/// Bumping a summary with well-formed samples makes it a well-formed summary.
proof fn lemma_bump_wf(s: SummaryView, e: EventView, now_ms: i64)
    requires
        samples_wf(s),
        s.count < u32::MAX,
    ensures
        summary_wf(bump_summary(s, e, now_ms)),
        bump_summary(s, e, now_ms).count == s.count + 1,
{
    let b = bump_summary(s, e, now_ms);
    match (e.l7_method, e.l7_path) {
        (Some(m), Some(p)) => {
            let samples = s.l7_samples;
            if exists|j: int| 0 <= j < samples.len() && is_sample_of(#[trigger] samples[j], m, p) {
                let j = choose|j: int| 0 <= j < samples.len() && is_sample_of(#[trigger] samples[j], m, p);
                lemma_sample_total_update(samples, j, b.l7_samples[j]);
                assert forall|x: int, y: int|
                    0 <= x < y < b.l7_samples.len() implies !is_sample_of(
                    #[trigger] b.l7_samples[x],
                    b.l7_samples[y].method,
                    #[trigger] b.l7_samples[y].path,
                ) by {
                    assert(!is_sample_of(samples[x], samples[y].method, samples[y].path));
                }
            } else if samples.len() < MAX_L7_SAMPLES {
                assert(b.l7_samples.drop_last() =~= samples);
                assert forall|x: int, y: int|
                    0 <= x < y < b.l7_samples.len() implies !is_sample_of(
                    #[trigger] b.l7_samples[x],
                    b.l7_samples[y].method,
                    #[trigger] b.l7_samples[y].path,
                ) by {
                    if y < samples.len() {
                        assert(!is_sample_of(samples[x], samples[y].method, samples[y].path));
                    } else {
                        assert(!is_sample_of(samples[x], m, p));
                    }
                }
            }
        },
        _ => {},
    }
}

/// Ingesting an event into well-formed summaries keeps them well-formed,
/// counts the event exactly once, and leaves every other summary as it was.
pub proof fn lemma_ingest_laws(s: Seq<SummaryView>, e: EventView, now_ms: i64)
    requires
        summaries_wf(s),
        can_ingest(s, e),
    ensures
        summaries_wf(ingest_spec(s, e, now_ms)),
        total_count(ingest_spec(s, e, now_ms)) == total_count(s) + 1,
        ingest_spec(s, e, now_ms).len() == s.len() + (if key_present(s, e) {
            0int
        } else {
            1
        }),
        forall|i: int|
            0 <= i < s.len() && !has_key(s[i], e.host, e.port, e.binary) ==> #[trigger] ingest_spec(
                s,
                e,
                now_ms,
            )[i] == s[i],
        exists|i: int|
            0 <= i < ingest_spec(s, e, now_ms).len() && has_key(
                #[trigger] ingest_spec(s, e, now_ms)[i],
                e.host,
                e.port,
                e.binary,
            ),
{
    let r = ingest_spec(s, e, now_ms);
    if key_present(s, e) {
        let i = choose|i: int| 0 <= i < s.len() && has_key(#[trigger] s[i], e.host, e.port, e.binary);
        lemma_bump_wf(s[i], e, now_ms);
        lemma_total_update(s, i, bump_summary(s[i], e, now_ms));
        assert forall|x: int, y: int| 0 <= x < y < r.len() implies !same_key(
            #[trigger] r[x],
            #[trigger] r[y],
        ) by {
            assert(!same_key(s[x], s[y]));
        }
        assert forall|x: int| 0 <= x < s.len() && !has_key(s[x], e.host, e.port, e.binary) implies #[trigger] r[x] == s[x] by {
            assert(x != i);
        }
        assert(has_key(r[i], e.host, e.port, e.binary));
    } else {
        let f = fresh_summary(e, now_ms);
        lemma_bump_wf(f, e, now_ms);
        assert(r.drop_last() =~= s);
        assert forall|x: int, y: int| 0 <= x < y < r.len() implies !same_key(
            #[trigger] r[x],
            #[trigger] r[y],
        ) by {
            if y < s.len() {
                assert(!same_key(s[x], s[y]));
            } else {
                assert(!has_key(s[x], e.host, e.port, e.binary));
            }
        }
        assert(has_key(r[s.len() as int], e.host, e.port, e.binary));
    }
}

/// A summary started by an event carries that event's key and metadata
/// (ancestors, matched policy), was first and last seen at the ingest time,
/// counts one event and holds the event's request as its only sample when
/// the event has an L7 method and path; the summaries already held are left
/// as they were.
pub proof fn lemma_ingest_new_key_carries_event(s: Seq<SummaryView>, e: EventView, now_ms: i64)
    requires
        !key_present(s, e),
    ensures
        ingest_spec(s, e, now_ms).len() == s.len() + 1,
        ingest_spec(s, e, now_ms).take(s.len() as int) == s,
        ({
            let n = ingest_spec(s, e, now_ms)[s.len() as int];
            &&& n.host == e.host
            &&& n.port == e.port
            &&& n.binary == e.binary
            &&& n.ancestors == e.ancestors
            &&& n.matched_policy == e.matched_policy
            &&& n.first_seen_ms == now_ms
            &&& n.last_seen_ms == now_ms
            &&& n.count == 1
            &&& n.l7_samples == if e.l7_method is Some && e.l7_path is Some {
                seq![SampleView { method: e.l7_method->0, path: e.l7_path->0, count: 1 }]
            } else {
                Seq::<SampleView>::empty()
            }
        }),
{
    assert(ingest_spec(s, e, now_ms).take(s.len() as int) =~= s);
}

/// Ingesting an event whose key is held keeps the metadata the summary was
/// started with (ancestors, matched policy, first-seen time), counts one
/// more event and moves its last-seen time to the ingest time.
pub proof fn lemma_ingest_known_key_keeps_metadata(s: Seq<SummaryView>, e: EventView, now_ms: i64, i: int)
    requires
        summaries_wf(s),
        0 <= i < s.len(),
        has_key(s[i], e.host, e.port, e.binary),
        s[i].count < u32::MAX,
    ensures
        ingest_spec(s, e, now_ms).len() == s.len(),
        ({
            let n = ingest_spec(s, e, now_ms)[i];
            &&& has_key(n, e.host, e.port, e.binary)
            &&& n.ancestors == s[i].ancestors
            &&& n.matched_policy == s[i].matched_policy
            &&& n.first_seen_ms == s[i].first_seen_ms
            &&& n.last_seen_ms == now_ms
            &&& n.count == s[i].count + 1
        }),
{
    let c = choose|x: int| 0 <= x < s.len() && has_key(#[trigger] s[x], e.host, e.port, e.binary);
    lemma_key_unique(s, e, i, c);
}

// ── The aggregator ─────────────────────────────────────────────────────────

/// The activity aggregator: accumulated summaries keyed by
/// `(host, port, binary)`, flushed every `flush_interval_secs` seconds.
pub struct ActivityAggregator {
    summaries: Vec<AggregatedActivity>,
    flush_interval_secs: u64,
}

impl View for ActivityAggregator {
    type V = Seq<SummaryView>;

    closed spec fn view(&self) -> Seq<SummaryView> {
        summary_views(self.summaries@)
    }
}

/// What the event loop observed.
pub enum AggregatorEvent {
    /// An allowed connection or request arrived on the channel.
    Activity(ActivityEvent),
    /// The flush interval elapsed.
    Tick,
    /// The channel closed: every sender is gone.
    Closed,
}

/// What the event loop must do next.
pub enum AggregatorAction {
    /// Keep waiting for events.
    Continue,
    /// Hand this batch to the flush callback, then keep waiting.
    Flush(Vec<FlushableActivitySummary>),
    /// Hand this final batch to the flush callback, then stop.
    FlushAndStop(Vec<FlushableActivitySummary>),
    /// Stop without flushing.
    Stop,
}

/// Reads the wall clock: the time since the Unix epoch in milliseconds, or
/// `None` when the clock is before the epoch. Nothing is stated about the
/// value: it depends on the machine's clock.
#[verifier::external_body]
fn epoch_millis() -> Option<u128> {
    std::time::SystemTime::now().duration_since(std::time::UNIX_EPOCH).ok().map(|d| d.as_millis())
}

/// Milliseconds since the epoch as an `i64`: saturated to `i64::MAX`, and
/// `0` when the clock reads before the epoch.
pub open spec fn epoch_ms_spec(ms: Option<u128>) -> i64 {
    match ms {
        Some(m) => if m > i64::MAX {
            i64::MAX
        } else {
            m as i64
        },
        None => 0,
    }
}

/// Converts a clock reading into milliseconds since the epoch as an `i64`.
pub fn epoch_ms_to_i64(ms: Option<u128>) -> (t: i64)
    ensures
        t == epoch_ms_spec(ms),
{
    match ms {
        Some(m) => {
            if m > i64::MAX as u128 {
                i64::MAX
            } else {
                m as i64
            }
        },
        None => 0,
    }
}

/// Current wall-clock time in milliseconds since the epoch (`0` when the
/// clock reads before the epoch).
pub fn current_time_ms() -> (t: i64)
    ensures
        t >= 0,
{
    epoch_ms_to_i64(epoch_millis())
}

/// Index of the summary with the given key, if any.
fn find_summary(summaries: &Vec<AggregatedActivity>, host: &String, port: u16, binary: &String) -> (r: Option<usize>)
    ensures
        match r {
            Some(i) => i < summaries@.len() && has_key(summary_views(summaries@)[i as int], host@, port, binary@),
            None => forall|i: int| 0 <= i < summaries@.len() ==> !has_key(#[trigger] summary_views(summaries@)[i], host@, port, binary@),
        },
{
    let mut i: usize = 0;
    while i < summaries.len()
        invariant
            i <= summaries@.len(),
            forall|j: int| 0 <= j < i ==> !has_key(#[trigger] summary_views(summaries@)[j], host@, port, binary@),
        decreases summaries@.len() - i,
    {
        let s = &summaries[i];
        if s.host == *host && s.port == port && s.binary == *binary {
            return Some(i);
        }
        i = i + 1;
    }
    None
}

/// Index of the sample recording `(method, path)`, if any.
fn find_sample(samples: &Vec<L7Sample>, method: &String, path: &String) -> (r: Option<usize>)
    ensures
        match r {
            Some(i) => i < samples@.len() && is_sample_of(sample_views(samples@)[i as int], method@, path@),
            None => forall|i: int| 0 <= i < samples@.len() ==> !is_sample_of(#[trigger] sample_views(samples@)[i], method@, path@),
        },
{
    let mut i: usize = 0;
    while i < samples.len()
        invariant
            i <= samples@.len(),
            forall|j: int| 0 <= j < i ==> !is_sample_of(#[trigger] sample_views(samples@)[j], method@, path@),
        decreases samples@.len() - i,
    {
        let s = &samples[i];
        if s.method == *method && s.path == *path {
            return Some(i);
        }
        i = i + 1;
    }
    None
}

/// Records one `(method, path)` request in the samples of a well-formed
/// summary.
fn record_sample(entry: &mut AggregatedActivity, method: &String, path: &String)
    requires
        samples_wf(old(entry)@),
        old(entry)@.count < u32::MAX,
    ensures
        final(entry)@ == (SummaryView {
            l7_samples: merge_sample(old(entry)@.l7_samples, method@, path@),
            ..old(entry)@
        }),
{
    let ghost before = sample_views(entry.l7_samples@);
    match find_sample(&entry.l7_samples, method, path) {
        Some(j) => {
            proof {
                let jj = choose|x: int| 0 <= x < before.len() && is_sample_of(#[trigger] before[x], method@, path@);
                lemma_sample_unique(old(entry)@, method@, path@, j as int, jj);
                assert(before[j as int].count <= old(entry)@.count);
            }
            let mut sample = entry.l7_samples.remove(j);
            sample.count = sample.count + 1;
            entry.l7_samples.insert(j, sample);
            assert(sample_views(entry.l7_samples@) =~= merge_sample(before, method@, path@));
        },
        None => {
            if entry.l7_samples.len() < MAX_L7_SAMPLES {
                entry.l7_samples.push(L7Sample { method: method.clone(), path: path.clone(), count: 1 });
            }
            assert(sample_views(entry.l7_samples@) =~= merge_sample(before, method@, path@));
        },
    }
}

/// The flushable form of a list of samples, in order.
fn move_samples(samples: Vec<L7Sample>) -> (r: Vec<FlushableL7Sample>)
    ensures
        flushable_sample_views(r@) == sample_views(samples@),
{
    let mut out: Vec<FlushableL7Sample> = Vec::new();
    for s in it: samples
        invariant
            it.seq() == samples@,
            flushable_sample_views(out@) =~= sample_views(it.seq().take(it.index() as int)),
    {
        let ghost k = it.index();
        assert(s == it.seq()[k as int]);
        let ghost sv = s@;
        out.push(FlushableL7Sample { method: s.method, path: s.path, count: s.count });
        assert(it.seq().take(k + 1) =~= it.seq().take(k as int).push(it.seq()[k as int]));
        assert(flushable_sample_views(out@) =~= sample_views(it.seq().take(k as int)).push(sv));
        assert(sample_views(it.seq().take(k + 1)) =~= sample_views(it.seq().take(k as int)).push(sv));
    }
    out
}

/// The flushable form of a summary.
fn flush_summary(s: AggregatedActivity) -> (r: FlushableActivitySummary)
    ensures
        r@ == s@,
{
    let AggregatedActivity {
        host,
        port,
        binary,
        ancestors,
        matched_policy,
        first_seen_ms,
        last_seen_ms,
        count,
        l7_samples,
    } = s;
    FlushableActivitySummary {
        host,
        port,
        binary,
        ancestors,
        matched_policy,
        first_seen_ms,
        last_seen_ms,
        count,
        l7_samples: move_samples(l7_samples),
    }
}

impl ActivityAggregator {
    /// No key twice; every summary has counted an event, holds at most 50
    /// distinct samples, each counted at least once, and its samples together
    /// are counted at most as often as the summary.
    #[verifier::type_invariant]
    spec fn inv(self) -> bool {
        summaries_wf(summary_views(self.summaries@))
    }

    /// The flush interval, in seconds.
    pub closed spec fn spec_flush_interval_secs(&self) -> u64 {
        self.flush_interval_secs
    }

    /// A new, empty aggregator that flushes every `flush_interval_secs`
    /// seconds.
    pub fn new(flush_interval_secs: u64) -> (a: Self)
        ensures
            a@ == Seq::<SummaryView>::empty(),
            a.spec_flush_interval_secs() == flush_interval_secs,
    {
        let a = ActivityAggregator { summaries: Vec::new(), flush_interval_secs };
        assert(summary_views(a.summaries@) =~= Seq::<SummaryView>::empty());
        a
    }

    /// The flush interval, in seconds.
    pub fn flush_interval_secs(&self) -> (r: u64)
        ensures
            r == self.spec_flush_interval_secs(),
    {
        self.flush_interval_secs
    }

    /// Whether no summary is held.
    pub fn is_empty(&self) -> (r: bool)
        ensures
            r == (self@.len() == 0),
    {
        self.summaries.len() == 0
    }

    /// Number of summaries held.
    pub fn len(&self) -> (r: usize)
        ensures
            r == self@.len(),
    {
        self.summaries.len()
    }

    /// Ingests one event seen at `now_ms`, merging it into the summary with
    /// its `(host, port, binary)` key or starting a new summary.
    pub fn ingest_at(&mut self, event: ActivityEvent, now_ms: i64)
        requires
            can_ingest(old(self)@, event@),
        ensures
            final(self)@ == ingest_spec(old(self)@, event@, now_ms),
            final(self).spec_flush_interval_secs() == old(self).spec_flush_interval_secs(),
            summaries_wf(old(self)@),
            summaries_wf(final(self)@),
    {
        proof {
            use_type_invariant(&*self);
        }
        let ghost s0 = self@;
        let ghost e = event@;
        let mut summaries: Vec<AggregatedActivity> = Vec::new();
        std::mem::swap(&mut summaries, &mut self.summaries);
        assert(summary_views(summaries@) == s0);
        let idx: usize = match find_summary(&summaries, &event.host, event.port, &event.binary) {
            Some(i) => {
                proof {
                    let c = choose|x: int| 0 <= x < s0.len() && has_key(#[trigger] s0[x], e.host, e.port, e.binary);
                    lemma_key_unique(s0, e, i as int, c);
                }
                i
            },
            None => {
                let fresh = AggregatedActivity {
                    host: event.host.clone(),
                    port: event.port,
                    binary: event.binary.clone(),
                    ancestors: event.ancestors.clone(),
                    matched_policy: event.matched_policy.clone(),
                    first_seen_ms: now_ms,
                    last_seen_ms: now_ms,
                    count: 0,
                    l7_samples: Vec::new(),
                };
                assert(fresh@.ancestors =~= e.ancestors);
                assert(sample_views(fresh.l7_samples@) =~= Seq::<SampleView>::empty());
                assert(fresh@ =~= fresh_summary(e, now_ms));
                summaries.push(fresh);
                summaries.len() - 1
            },
        };
        let ghost target = summary_views(summaries@)[idx as int];
        proof {
            assert(samples_wf(target)) by {
                if idx < s0.len() {
                    assert(summary_wf(s0[idx as int]));
                }
            }
        }
        let mut entry = summaries.remove(idx);
        if let (Some(method), Some(path)) = (&event.l7_method, &event.l7_path) {
            record_sample(&mut entry, method, path);
        }
        entry.count = entry.count + 1;
        entry.last_seen_ms = now_ms;
        assert(entry@ =~= bump_summary(target, e, now_ms));
        summaries.insert(idx, entry);
        proof {
            assert(summary_views(summaries@) =~= ingest_spec(s0, e, now_ms));
            lemma_ingest_laws(s0, e, now_ms);
        }
        self.summaries = summaries;
        proof {
            use_type_invariant(&*self);
        }
    }

    /// Ingests one event at the current wall-clock time.
    pub fn ingest(&mut self, event: ActivityEvent)
        requires
            can_ingest(old(self)@, event@),
        ensures
            exists|now_ms: i64| now_ms >= 0 && final(self)@ == ingest_spec(old(self)@, event@, now_ms),
            final(self).spec_flush_interval_secs() == old(self).spec_flush_interval_secs(),
            summaries_wf(old(self)@),
            summaries_wf(final(self)@),
    {
        let now_ms: i64 = current_time_ms();
        self.ingest_at(event, now_ms);
    }

    /// Drains all accumulated summaries into a flushable batch, in the order
    /// their keys were first seen; no two summaries of the batch share a key.
    pub fn drain(&mut self) -> (batch: Vec<FlushableActivitySummary>)
        ensures
            flushable_views(batch@) == old(self)@,
            summaries_wf(flushable_views(batch@)),
            final(self)@ == Seq::<SummaryView>::empty(),
            final(self).spec_flush_interval_secs() == old(self).spec_flush_interval_secs(),
    {
        proof {
            use_type_invariant(&*self);
        }
        let mut summaries: Vec<AggregatedActivity> = Vec::new();
        std::mem::swap(&mut summaries, &mut self.summaries);
        assert(summary_views(self.summaries@) =~= Seq::<SummaryView>::empty());
        let mut out: Vec<FlushableActivitySummary> = Vec::new();
        for s in it: summaries
            invariant
                it.seq() == summaries@,
                flushable_views(out@) =~= summary_views(it.seq().take(it.index() as int)),
        {
            let ghost k = it.index();
            assert(s == it.seq()[k as int]);
            let ghost sv = s@;
            out.push(flush_summary(s));
            assert(it.seq().take(k + 1) =~= it.seq().take(k as int).push(it.seq()[k as int]));
            assert(flushable_views(out@) =~= summary_views(it.seq().take(k as int)).push(sv));
            assert(summary_views(it.seq().take(k + 1)) =~= summary_views(it.seq().take(k as int)).push(sv));
        }
        assert(summaries@.take(summaries@.len() as int) =~= summaries@);
        out
    }

    /// One turn of the event loop: an activity is ingested at the current
    /// time; on a tick the summaries are flushed if there are any; when the
    /// channel closes they are flushed a last time, if there are any, and
    /// the loop stops.
    pub fn step(&mut self, event: AggregatorEvent) -> (action: AggregatorAction)
        requires
            event matches AggregatorEvent::Activity(e) ==> can_ingest(old(self)@, e@),
        ensures
            final(self).spec_flush_interval_secs() == old(self).spec_flush_interval_secs(),
            match event {
                AggregatorEvent::Activity(e) => {
                    &&& action is Continue
                    &&& exists|now_ms: i64| now_ms >= 0 && final(self)@ == ingest_spec(old(self)@, e@, now_ms)
                },
                AggregatorEvent::Tick => if old(self)@.len() == 0 {
                    action is Continue && final(self)@ == old(self)@
                } else {
                    &&& action matches AggregatorAction::Flush(batch)
                    &&& flushable_views(batch@) == old(self)@
                    &&& summaries_wf(flushable_views(batch@))
                    &&& final(self)@ == Seq::<SummaryView>::empty()
                },
                AggregatorEvent::Closed => if old(self)@.len() == 0 {
                    action is Stop && final(self)@ == old(self)@
                } else {
                    &&& action matches AggregatorAction::FlushAndStop(batch)
                    &&& flushable_views(batch@) == old(self)@
                    &&& summaries_wf(flushable_views(batch@))
                    &&& final(self)@ == Seq::<SummaryView>::empty()
                },
            },
    {
        match event {
            AggregatorEvent::Activity(e) => {
                self.ingest(e);
                AggregatorAction::Continue
            },
            AggregatorEvent::Tick => {
                if self.is_empty() {
                    AggregatorAction::Continue
                } else {
                    AggregatorAction::Flush(self.drain())
                }
            },
            AggregatorEvent::Closed => {
                if self.is_empty() {
                    AggregatorAction::Stop
                } else {
                    AggregatorAction::FlushAndStop(self.drain())
                }
            },
        }
    }
}

/// Whether an event can be ingested by the aggregator without overflowing a
/// count (the summary with its key, if any, has counted fewer than
/// `u32::MAX` events).
pub fn can_ingest_event(agg: &ActivityAggregator, event: &ActivityEvent) -> (r: bool)
    ensures
        r == can_ingest(agg@, event@),
{
    match find_summary(&agg.summaries, &event.host, event.port, &event.binary) {
        Some(i) => {
            proof {
                use_type_invariant(agg);
                assert forall|j: int| 0 <= j < agg@.len() && has_key(#[trigger] agg@[j], event@.host, event@.port, event@.binary) implies agg@[j].count == agg@[i as int].count by {
                    lemma_key_unique(agg@, event@, i as int, j);
                }
            }
            agg.summaries[i].count < u32::MAX
        },
        None => true,
    }
}

} // verus!
