use std::collections::VecDeque;
use vstd::prelude::*;
use rand::seq::IndexedRandom;
use crate::config::{Config, MIB};
use crate::dashboard::RuntimeStats;
use crate::models::{chunk_status_name, ChunkState, ChunkStatus, ChunkWork, TaskStatus};
use crate::ranges::{chunk_count, chunk_start, is_split_of, split_defined, split_ranges};
use crate::text::{
    chars_of, contains_text, decimal, parse_u64, push_char, push_decimal, same_text,
    spec_contains, spec_parse_u64,
};

verus! {

broadcast use vstd::string::group_string_axioms;

/// What a `HEAD` request tells about a download.
#[derive(Clone, Copy, Debug, PartialEq, Eq, Structural)]
pub struct ProbeMeta {
    pub length: u64,
    pub accept_ranges: bool,
}

/// Why a download could not be probed.
#[derive(Clone, Copy, Debug, PartialEq, Eq, Structural)]
pub enum ProbeError {
    /// The response has no `Content-Length` that parses as a byte count.
    MissingContentLength,
}

/// The probe result for the given `Accept-Ranges` and `Content-Length` header
/// values (each absent when the header is missing or not visible ASCII).
pub open spec fn spec_probe_meta(accept_ranges: Option<Seq<char>>, content_length: Option<Seq<char>>) -> Result<ProbeMeta, ProbeError> {
    let ranges = match accept_ranges {
        Some(v) => spec_contains(v, "bytes"@),
        None => false,
    };
    let length = match content_length {
        Some(v) => spec_parse_u64(v),
        None => None,
    };
    match length {
        Some(n) => Ok(ProbeMeta { length: n, accept_ranges: ranges }),
        None => Err(ProbeError::MissingContentLength),
    }
}

/// The view of an optional string.
pub open spec fn opt_view(s: Option<&str>) -> Option<Seq<char>> {
    match s {
        Some(t) => Some(t@),
        None => None,
    }
}

/// Reads the probe result off the `Accept-Ranges` and `Content-Length` headers:
/// ranges are supported when the former mentions `bytes`, and the length is the
/// latter parsed as a `u64`, without which probing fails.
pub fn probe_meta(accept_ranges: Option<&str>, content_length: Option<&str>) -> (r: Result<ProbeMeta, ProbeError>)
    ensures
        r == spec_probe_meta(opt_view(accept_ranges), opt_view(content_length)),
{
    let ranges = match accept_ranges {
        Some(v) => contains_text(v, "bytes"),
        None => false,
    };
    let length = match content_length {
        Some(v) => parse_u64(v),
        None => None,
    };
    match length {
        Some(n) => Ok(ProbeMeta { length: n, accept_ranges: ranges }),
        None => Err(ProbeError::MissingContentLength),
    }
}

proof fn lemma_single_chunk(len: u64)
    ensures
        split_defined(len, len),
        len > 0 ==> chunk_count(len as int, len as int) == 1,
{
    if len > 0 {
        let l = len as int;
        vstd::arithmetic::div_mod::lemma_fundamental_div_mod_converse_div(l + l - 1, l, 1, l - 1);
    }
}

/// The chunk size a download is split with: the configured one when the server
/// serves byte ranges, otherwise the whole file as one chunk.
pub open spec fn planned_chunk_size(cfg: &Config, meta: ProbeMeta) -> int {
    if meta.accept_ranges { cfg.chunk_size_mb * MIB } else { meta.length as int }
}

/// Splitting a newly probed download runs without overflow.
pub open spec fn plan_defined(cfg: &Config, meta: ProbeMeta) -> bool {
    meta.accept_ranges ==> cfg.chunk_size_fits() && split_defined(meta.length, (cfg.chunk_size_mb * MIB) as u64)
}

/// The byte ranges a newly enqueued download is stored with.
pub fn enqueue_ranges(cfg: &Config, meta: ProbeMeta) -> (ranges: Vec<(u64, u64)>)
    requires
        plan_defined(cfg, meta),
    ensures
        is_split_of(ranges@, meta.length as int, planned_chunk_size(cfg, meta)),
        meta.accept_ranges ==> is_split_of(ranges@, meta.length as int, cfg.chunk_size_mb * MIB),
        !meta.accept_ranges ==> is_split_of(ranges@, meta.length as int, meta.length as int),
{
    let chunk = if meta.accept_ranges {
        cfg.chunk_size_bytes()
    } else {
        meta.length
    };
    proof {
        lemma_single_chunk(meta.length);
    }
    split_ranges(meta.length, chunk)
}

/// How an enqueued download is cut, in terms of the file and the configuration
/// alone: with range support, the first range is exactly one configured chunk
/// (`[0, chunk - 1]`) whenever the file is longer than that, so a file longer than
/// one chunk is always split; without range support the whole file is one range.
pub proof fn lemma_enqueue_cuts_at_chunk_size(ranges: Seq<(u64, u64)>, length: u64, chunk: u64, accept_ranges: bool)
    requires
        accept_ranges ==> split_defined(length, chunk),
        accept_ranges ==> is_split_of(ranges, length as int, chunk as int),
        !accept_ranges ==> is_split_of(ranges, length as int, length as int),
    ensures
        accept_ranges && length > chunk && chunk > 0 ==> ranges.len() >= 2 && ranges[0] == (0u64, (chunk - 1) as u64)
            && ranges[1].0 == chunk,
        !accept_ranges && length > 0 ==> ranges.len() == 1 && ranges[0] == (0u64, (length - 1) as u64),
        length == 0 ==> ranges.len() == 0,
{
    if accept_ranges {
        crate::ranges::lemma_split_ranges_partition(ranges, length, chunk);
        if length > chunk && chunk > 0 {
            assert(ranges.len() > 0);
            assert(ranges[0].0 == chunk_start(chunk as int, 0));
            assert(0 * chunk == 0) by (nonlinear_arith);
            if ranges.len() == 1 {
                assert(ranges[0].1 - ranges[0].0 + 1 <= chunk);
                assert(false);
            }
        }
    } else {
        lemma_single_chunk(length);
        crate::ranges::lemma_split_ranges_partition(ranges, length, length);
        if length > 0 {
            assert(ranges[0].0 == chunk_start(length as int, 0));
            assert(0 * length == 0) by (nonlinear_arith);
        }
    }
}

/// The name a download is stored under when none is given.
pub open spec fn default_filename() -> Seq<char> {
    "download.bin"@
}

/// The characters after the last `/` of `p` (all of `p` when it has none).
pub open spec fn after_last_slash(p: Seq<char>) -> Seq<char>
    decreases p.len(),
{
    if p.len() == 0 {
        p
    } else if p.last() == '/' {
        seq![]
    } else {
        after_last_slash(p.drop_last()).push(p.last())
    }
}

/// The file name taken from a URL path: its last `/`-separated segment, provided
/// the path is hierarchical (starts with `/`) and that segment is not empty;
/// otherwise the default name.
pub open spec fn filename_for_path(path: Option<Seq<char>>) -> Seq<char> {
    match path {
        Some(p) => if p.len() > 0 && p[0] == '/' && after_last_slash(p).len() > 0 {
            after_last_slash(p)
        } else {
            default_filename()
        },
        None => default_filename(),
    }
}

/// The path of the URL that `input` parses to (WHATWG URL parsing, path percent-encoded),
/// or `None` when `url::Url::parse` rejects `input`.
pub uninterp spec fn parsed_url_path(input: Seq<char>) -> Option<Seq<char>>;

/// `url::Url::parse` followed by `Url::path` on the parsed value. The two calls stand
/// together because the parsed `Url` is only read for its path; the path is named by
/// `parsed_url_path` of the input, of which nothing further is stated.
#[verifier::external_body]
fn url_path(input: &str) -> (r: Option<String>)
    ensures
        r is Some <==> parsed_url_path(input@) is Some,
        r matches Some(p) ==> parsed_url_path(input@) == Some(p@),
{
    match url::Url::parse(input) {
        Ok(u) => Some(u.path().to_owned()),
        Err(_) => None,
    }
}

proof fn lemma_after_last_slash(p: Seq<char>, k: int)
    requires
        0 <= k < p.len(),
        p[k] == '/',
        forall|j: int| k < j < p.len() ==> p[j] != '/',
    ensures
        after_last_slash(p) == p.subrange(k + 1, p.len() as int),
    decreases p.len(),
{
    if p.len() - 1 == k {
        assert(p.subrange(k + 1, p.len() as int) =~= Seq::<char>::empty());
    } else {
        lemma_after_last_slash(p.drop_last(), k);
        assert(p.subrange(k + 1, p.len() as int) =~= p.drop_last().subrange(k + 1, p.len() - 1).push(p.last()));
    }
}

/// The file name for a URL path as `filename_for_path` describes it.
pub fn filename_from_path(path: Option<String>) -> (name: String)
    ensures
        name@ == filename_for_path(match path {
            Some(p) => Some(p@),
            None => None,
        }),
{
    match path {
        Some(p) => {
            let cs = chars_of(p.as_str());
            if cs.len() == 0 || cs[0] != '/' {
                return "download.bin".to_owned();
            }
            // the first character is '/', so a last '/' exists
            let mut k: usize = cs.len() - 1;
            while cs[k] != '/'
                invariant
                    cs@ == p@,
                    cs@.len() > 0,
                    cs@[0] == '/',
                    k < cs@.len(),
                    forall|j: int| k < j < cs@.len() ==> cs@[j] != '/',
                decreases k,
            {
                k = k - 1;
            }
            proof {
                lemma_after_last_slash(p@, k as int);
            }
            let mut seg = String::new();
            let mut i: usize = k + 1;
            while i < cs.len()
                invariant
                    cs@ == p@,
                    k < i <= cs@.len(),
                    seg@ == cs@.subrange(k + 1, i as int),
                decreases cs.len() - i,
            {
                push_char(&mut seg, cs[i]);
                assert(cs@.subrange(k + 1, i + 1) =~= cs@.subrange(k + 1, i as int).push(cs@[i as int]));
                i = i + 1;
            }
            if seg.as_str().is_empty() {
                "download.bin".to_owned()
            } else {
                seg
            }
        },
        None => "download.bin".to_owned(),
    }
}

/// The inferred file name is never empty and never holds a `/`, so it names a
/// single entry of the download directory.
pub proof fn lemma_filename_is_one_component(path: Option<Seq<char>>)
    ensures
        filename_for_path(path).len() > 0,
        forall|i: int| 0 <= i < filename_for_path(path).len() ==> #[trigger] filename_for_path(path)[i] != '/',
{
    reveal_strlit("download.bin");
    if let Some(p) = path {
        lemma_after_last_slash_has_no_slash(p);
    }
}

proof fn lemma_after_last_slash_has_no_slash(p: Seq<char>)
    ensures
        forall|i: int| 0 <= i < after_last_slash(p).len() ==> #[trigger] after_last_slash(p)[i] != '/',
    decreases p.len(),
{
    if p.len() > 0 && p.last() != '/' {
        lemma_after_last_slash_has_no_slash(p.drop_last());
        let a = after_last_slash(p.drop_last());
        assert forall|i: int| 0 <= i < a.len() + 1 implies #[trigger] a.push(p.last())[i] != '/' by {
            if i < a.len() {
                assert(a[i] != '/');
            }
        }
    }
}

/// The file name a download is stored under when none is given: the last segment
/// of the URL's path, or `download.bin`.
pub fn infer_filename(url: &str) -> (name: String)
    ensures
        name@ == filename_for_path(parsed_url_path(url@)),
{
    let path = url_path(url);
    filename_from_path(path)
}

/// The proxy the HTTP client is built with: the explicit one, else the first configured.
pub fn pick_proxy(explicit: Option<&str>, proxies: &Vec<String>) -> (p: Option<String>)
    ensures
        explicit matches Some(e) ==> (p matches Some(q) && q@ == e@),
        explicit is None ==> (p is None <==> proxies@.len() == 0),
        explicit is None && proxies@.len() > 0 ==> (p matches Some(q) && q@ == proxies@[0]@),
{
    match explicit {
        Some(e) => Some(e.to_owned()),
        None => {
            if proxies.len() > 0 {
                Some(proxies[0].as_str().to_owned())
            } else {
                None
            }
        },
    }
}

/// The work item a stored chunk resumes as.
pub open spec fn work_for(c: ChunkState) -> ChunkWork {
    ChunkWork {
        chunk_id: c.id,
        start: c.start_offset as u64,
        end: c.end_offset as u64,
        downloaded: c.downloaded as u64,
        retries: c.retries as u32,
    }
}

/// A stored chunk is finished.
pub open spec fn chunk_done(c: ChunkState) -> bool {
    c.status@ == chunk_status_name(ChunkStatus::Done)
}

/// The work queue a task resumes with: every chunk not yet done, in stored order.
pub open spec fn spec_resume_queue(chunks: Seq<ChunkState>) -> Seq<ChunkWork>
    decreases chunks.len(),
{
    if chunks.len() == 0 {
        seq![]
    } else {
        let q = spec_resume_queue(chunks.drop_last());
        if chunk_done(chunks.last()) { q } else { q.push(work_for(chunks.last())) }
    }
}

/// The work queue a task resumes with, built from its stored chunks.
pub fn resume_queue(chunks: &Vec<ChunkState>) -> (queue: VecDeque<ChunkWork>)
    ensures
        queue@ == spec_resume_queue(chunks@),
        queue@ == chunks@.filter(|c: ChunkState| c.status@ != "done"@).map_values(
            |c: ChunkState|
                ChunkWork {
                    chunk_id: c.id,
                    start: c.start_offset as u64,
                    end: c.end_offset as u64,
                    downloaded: c.downloaded as u64,
                    retries: c.retries as u32,
                },
        ),
        queue@.len() == unfinished_chunks(chunks@).len(),
        forall|i: int| 0 <= i < queue@.len() ==> #[trigger] resumes_from(queue@[i], unfinished_chunks(chunks@)[i]),
{
    let mut queue: VecDeque<ChunkWork> = VecDeque::new();
    let mut i: usize = 0;
    while i < chunks.len()
        invariant
            i <= chunks@.len(),
            queue@ == spec_resume_queue(chunks@.take(i as int)),
        decreases chunks.len() - i,
    {
        let c = &chunks[i];
        assert(chunks@.take(i + 1).drop_last() =~= chunks@.take(i as int));
        assert(chunks@.take(i + 1).last() == chunks@[i as int]);
        if !same_text(c.status.as_str(), ChunkStatus::Done.as_str()) {
            queue.push_back(ChunkWork {
                chunk_id: c.id,
                start: c.start_offset as u64,
                end: c.end_offset as u64,
                downloaded: c.downloaded as u64,
                retries: c.retries as u32,
            });
        }
        i = i + 1;
    }
    assert(chunks@.take(chunks@.len() as int) =~= chunks@);
    proof {
        lemma_resumed_work_keeps_stored_progress(chunks@);
        lemma_resume_queue_is_unfinished_chunks(chunks@);
        reveal_strlit("done");
        let p1 = |c: ChunkState| !chunk_done(c);
        let p2 = |c: ChunkState| c.status@ != "done"@;
        assert(p1 =~= p2);
        let f1 = |c: ChunkState| work_for(c);
        let f2 = |c: ChunkState|
            ChunkWork {
                chunk_id: c.id,
                start: c.start_offset as u64,
                end: c.end_offset as u64,
                downloaded: c.downloaded as u64,
                retries: c.retries as u32,
            };
        assert(f1 =~= f2);
    }
    queue
}

/// `w` carries the stored fields of unfinished chunk `c`, each cast to its work type.
pub open spec fn resumes_from(w: ChunkWork, c: ChunkState) -> bool {
    &&& c.status@ != "done"@
    &&& w.chunk_id == c.id
    &&& w.start == c.start_offset as u64
    &&& w.end == c.end_offset as u64
    &&& w.downloaded == c.downloaded as u64
    &&& w.retries == c.retries as u32
}

/// The stored chunks that are not done, in stored order.
pub open spec fn unfinished_chunks(chunks: Seq<ChunkState>) -> Seq<ChunkState> {
    chunks.filter(|c: ChunkState| c.status@ != "done"@)
}

/// Resuming keeps every unfinished chunk's stored progress: the `i`-th queued work
/// item carries the id, range, downloaded count and retries of the `i`-th stored
/// chunk that is not done, and there is one item per such chunk.
pub proof fn lemma_resumed_work_keeps_stored_progress(chunks: Seq<ChunkState>)
    ensures
        spec_resume_queue(chunks).len() == unfinished_chunks(chunks).len(),
        forall|i: int| 0 <= i < spec_resume_queue(chunks).len() ==> #[trigger] resumes_from(
            spec_resume_queue(chunks)[i],
            unfinished_chunks(chunks)[i],
        ),
    decreases chunks.len(),
{
    reveal_strlit("done");
    reveal_with_fuel(Seq::<_>::filter, 1);
    if chunks.len() > 0 {
        let d = chunks.drop_last();
        lemma_resumed_work_keeps_stored_progress(d);
        assert(unfinished_chunks(chunks) == (if chunks.last().status@ != "done"@ {
            unfinished_chunks(d).push(chunks.last())
        } else {
            unfinished_chunks(d)
        }));
        assert forall|i: int| 0 <= i < spec_resume_queue(chunks).len() implies #[trigger] resumes_from(
            spec_resume_queue(chunks)[i],
            unfinished_chunks(chunks)[i],
        ) by {
            if i < spec_resume_queue(d).len() {
                assert(spec_resume_queue(chunks)[i] == spec_resume_queue(d)[i]);
                assert(unfinished_chunks(chunks)[i] == unfinished_chunks(d)[i]);
                assert(resumes_from(spec_resume_queue(d)[i], unfinished_chunks(d)[i]));
            } else {
                assert(spec_resume_queue(chunks)[i] == work_for(chunks.last()));
                assert(unfinished_chunks(chunks)[i] == chunks.last());
            }
        }
    } else {
        assert(unfinished_chunks(chunks).len() == 0);
    }
}

/// A resumed task re-downloads exactly its unfinished chunks, in stored order:
/// the resume queue is the stored chunks without the finished ones, each turned
/// into its work item.
pub proof fn lemma_resume_queue_is_unfinished_chunks(chunks: Seq<ChunkState>)
    ensures
        spec_resume_queue(chunks) == chunks.filter(|c: ChunkState| !chunk_done(c)).map_values(
            |c: ChunkState| work_for(c),
        ),
    decreases chunks.len(),
{
    let pred = |c: ChunkState| !chunk_done(c);
    let f = |c: ChunkState| work_for(c);
    reveal_with_fuel(Seq::<_>::filter, 1);
    if chunks.len() > 0 {
        lemma_resume_queue_is_unfinished_chunks(chunks.drop_last());
        let rest = chunks.drop_last().filter(pred);
        assert(chunks.filter(pred) == (if pred(chunks.last()) { rest.push(chunks.last()) } else { rest }));
        if pred(chunks.last()) {
            assert(rest.push(chunks.last()).map_values(f) =~= rest.map_values(f).push(work_for(chunks.last())));
        }
        assert(spec_resume_queue(chunks.drop_last()) == rest.map_values(f));
    } else {
        assert(chunks.filter(pred).map_values(f) =~= Seq::<ChunkWork>::empty());
    }
}

/// What a worker does next.
#[derive(Clone, Copy, Debug, PartialEq, Eq, Structural)]
pub enum WorkerStep {
    /// Nothing can be taken now: work is queued but the worker is above the
    /// connection target, or nothing is queued but chunks are still being downloaded
    /// and may be requeued. Pause and ask again.
    Wait,
    /// Nothing is queued and nothing is being downloaded: the worker stops.
    Finish,
    /// Download this chunk.
    Run(ChunkWork),
}

/// The chunks of a task that are waiting to be downloaded, and how many are being
/// downloaded (taken and neither finished nor requeued yet).
pub struct WorkQueue {
    pub pending: VecDeque<ChunkWork>,
    pub in_flight: usize,
}

impl WorkQueue {
    /// A queue holding `pending`, with nothing being downloaded.
    pub fn new(pending: VecDeque<ChunkWork>) -> (q: Self)
        ensures
            q.pending@ == pending@,
            q.in_flight == 0,
    {
        WorkQueue { pending, in_flight: 0 }
    }

    /// A taken chunk is finished with (downloaded, or given up): it is no longer in flight.
    pub fn finish_job(&mut self)
        requires
            old(self).in_flight > 0,
        ensures
            final(self).pending@ == old(self).pending@,
            final(self).in_flight == old(self).in_flight - 1,
    {
        self.in_flight = self.in_flight - 1;
    }

    /// A taken chunk goes back to the end of the queue for another attempt.
    pub fn requeue(&mut self, job: ChunkWork)
        requires
            old(self).in_flight > 0,
        ensures
            final(self).pending@ == old(self).pending@.push(job),
            final(self).in_flight == old(self).in_flight - 1,
    {
        self.pending.push_back(job);
        self.in_flight = self.in_flight - 1;
    }
}

/// The step a worker is told to take.
pub open spec fn spec_next_step(worker_id: int, target: int, pending: Seq<ChunkWork>, in_flight: int) -> WorkerStep {
    if pending.len() == 0 {
        if in_flight == 0 { WorkerStep::Finish } else { WorkerStep::Wait }
    } else if worker_id >= target {
        WorkerStep::Wait
    } else {
        WorkerStep::Run(pending[0])
    }
}

/// The next step of worker `worker_id` when `target` workers may be active: workers
/// below the target take the front of the queue; workers at or above it wait while
/// work is queued; and once the queue is empty every worker waits while chunks are
/// still in flight (a failed one may come back) and stops when none is.
pub fn next_job(worker_id: usize, target: usize, queue: &mut WorkQueue) -> (step: WorkerStep)
    requires
        old(queue).in_flight < usize::MAX,
    ensures
        step == spec_next_step(worker_id as int, target as int, old(queue).pending@, old(queue).in_flight as int),
        old(queue).pending@.len() > 0 && worker_id < target ==> step == WorkerStep::Run(old(queue).pending@[0]),
        step matches WorkerStep::Run(job) ==> old(queue).pending@ == seq![job] + final(queue).pending@,
        step matches WorkerStep::Run(_) ==> final(queue).pending@ == old(queue).pending@.drop_first()
            && final(queue).in_flight == old(queue).in_flight + 1,
        !(step is Run) ==> final(queue).pending@ == old(queue).pending@ && final(queue).in_flight
            == old(queue).in_flight,
{
    if queue.pending.len() == 0 {
        if queue.in_flight == 0 {
            return WorkerStep::Finish;
        }
        return WorkerStep::Wait;
    }
    if worker_id >= target {
        return WorkerStep::Wait;
    }
    match queue.pending.pop_front() {
        Some(job) => {
            queue.in_flight = queue.in_flight + 1;
            WorkerStep::Run(job)
        },
        None => WorkerStep::Finish,
    }
}

/// Every worker below the target that finds work queued is handed the front chunk,
/// whatever its number, and exactly that chunk leaves the queue: chunks are handed
/// out in queue order, each at most once.
pub proof fn lemma_runner_takes_the_front(worker_id: int, target: int, pending: Seq<ChunkWork>, in_flight: int)
    requires
        0 <= worker_id < target,
        pending.len() > 0,
    ensures
        spec_next_step(worker_id, target, pending, in_flight) == WorkerStep::Run(pending[0]),
        pending == seq![pending[0]] + pending.drop_first(),
{
    assert(pending =~= seq![pending[0]] + pending.drop_first());
}

/// Queued work is never stranded: while the target is at least one, worker 0 takes
/// the front of a non-empty queue whatever is in flight; no worker stops while a
/// chunk is queued or in flight; and once nothing is queued or in flight, every
/// worker stops.
pub proof fn lemma_queued_work_is_taken(worker_id: int, target: int, pending: Seq<ChunkWork>, in_flight: int)
    requires
        worker_id >= 0,
        in_flight >= 0,
    ensures
        pending.len() > 0 && target >= 1 ==> spec_next_step(0, target, pending, in_flight)
            == WorkerStep::Run(pending[0]),
        spec_next_step(worker_id, target, pending, in_flight) == WorkerStep::Finish <==> (pending.len()
            == 0 && in_flight == 0),
{
}

/// Largest exponent of the retry backoff.
pub const BACKOFF_MAX_EXPONENT: u32 = 8;

/// Milliseconds per backoff unit.
pub const BACKOFF_UNIT_MS: u64 = 50;

/// Inclusive lower bound of the random jitter added to a backoff, in ms.
pub const JITTER_LOW_MS: u64 = 10;

/// Exclusive upper bound of the random jitter added to a backoff, in ms.
pub const JITTER_HIGH_MS: u64 = 120;

/// `2^e`.
pub open spec fn pow2(e: nat) -> nat
    decreases e,
{
    if e == 0 { 1 } else { 2 * pow2((e - 1) as nat) }
}

/// The deterministic part of the wait before retry number `retries`:
/// `2^min(retries, 8) * 50` ms.
pub open spec fn backoff_base_ms(retries: u32) -> nat {
    let e = if retries < BACKOFF_MAX_EXPONENT { retries } else { BACKOFF_MAX_EXPONENT };
    pow2(e as nat) * BACKOFF_UNIT_MS as nat
}

proof fn lemma_pow2_bound(e: nat)
    requires
        e <= 8,
    ensures
        1 <= pow2(e) <= 256,
    decreases e,
{
    if e > 0 {
        lemma_pow2_bound((e - 1) as nat);
        assert(pow2(e) == 2 * pow2((e - 1) as nat));
        if e < 8 {
            assert(pow2((e - 1) as nat) <= 128) by {
                lemma_pow2_le((e - 1) as nat, 7);
                reveal_with_fuel(pow2, 8);
            }
        }
    }
}

proof fn lemma_pow2_le(a: nat, b: nat)
    requires
        a <= b,
    ensures
        pow2(a) <= pow2(b),
    decreases b,
{
    if a < b {
        lemma_pow2_le(a, (b - 1) as nat);
        lemma_pow2_pos((b - 1) as nat);
    }
}

proof fn lemma_pow2_pos(e: nat)
    ensures
        pow2(e) >= 1,
    decreases e,
{
    if e > 0 {
        lemma_pow2_pos((e - 1) as nat);
    }
}

/// The deterministic part of the retry backoff never shrinks as retries accumulate,
/// starts at 100 ms for the first retry and is capped at 2^8 * 50 = 12800 ms.
pub proof fn lemma_backoff_grows_and_is_capped(a: u32, b: u32)
    ensures
        a <= b ==> backoff_base_ms(a) <= backoff_base_ms(b),
        backoff_base_ms(1) == 100,
        50 <= backoff_base_ms(a) <= 12800,
        a >= BACKOFF_MAX_EXPONENT ==> backoff_base_ms(a) == 12800,
{
    let ea = if a < BACKOFF_MAX_EXPONENT { a } else { BACKOFF_MAX_EXPONENT };
    let eb = if b < BACKOFF_MAX_EXPONENT { b } else { BACKOFF_MAX_EXPONENT };
    reveal_with_fuel(pow2, 9);
    lemma_pow2_bound(ea as nat);
    if a <= b {
        lemma_pow2_le(ea as nat, eb as nat);
    }
}

/// The wait before retry number `retries`, given the random jitter drawn for it.
pub fn backoff_delay_ms(retries: u32, jitter_ms: u64) -> (ms: u64)
    requires
        backoff_base_ms(retries) + jitter_ms <= u64::MAX,
    ensures
        ms == backoff_base_ms(retries) + jitter_ms,
{
    let e: u32 = if retries < BACKOFF_MAX_EXPONENT { retries } else { BACKOFF_MAX_EXPONENT };
    let mut p: u64 = 1;
    let mut i: u32 = 0;
    while i < e
        invariant
            i <= e <= 8,
            p == pow2(i as nat),
        decreases e - i,
    {
        proof {
            lemma_pow2_le(i as nat, 7);
            reveal_with_fuel(pow2, 8);
        }
        p = p * 2;
        i = i + 1;
    }
    proof {
        lemma_pow2_le(e as nat, 8);
        reveal_with_fuel(pow2, 9);
    }
    p * BACKOFF_UNIT_MS + jitter_ms
}

/// `rand::random_range(low..high)`: a value drawn uniformly from `low..high` by the
/// thread-local generator. It panics on an empty range, hence `low < high`.
#[verifier::external_body]
fn random_in_range(low: u64, high: u64) -> (r: u64)
    requires
        low < high,
    ensures
        low <= r < high,
{
    rand::random_range(low..high)
}

/// What becomes of a chunk whose download attempt failed.
#[derive(Clone, Copy, Debug, PartialEq, Eq, Structural)]
pub enum FailureAction {
    /// Requeue it after waiting this many milliseconds.
    Retry { backoff_ms: u64 },
    /// The retry budget is spent: mark it failed.
    GiveUp,
}

/// Records a failed attempt on `job` (one more retry) and decides whether it is
/// retried, after a backoff of `2^min(retries, 8) * 50` ms plus a random jitter of
/// 10 to 119 ms, or given up because `max_retries` retries are spent.
pub fn on_failure(job: &mut ChunkWork, max_retries: u32) -> (action: FailureAction)
    requires
        old(job).retries < u32::MAX,
    ensures
        *final(job) == (ChunkWork { retries: (old(job).retries + 1) as u32, ..*old(job) }),
        (action is Retry) == (final(job).retries <= max_retries),
        action matches FailureAction::Retry { backoff_ms } ==> backoff_base_ms(final(job).retries)
            + JITTER_LOW_MS <= backoff_ms < backoff_base_ms(final(job).retries) + JITTER_HIGH_MS,
{
    job.retries = job.retries + 1;
    if job.retries <= max_retries {
        let jitter = random_in_range(JITTER_LOW_MS, JITTER_HIGH_MS);
        proof {
            lemma_backoff_grows_and_is_capped(job.retries, job.retries);
        }
        FailureAction::Retry { backoff_ms: backoff_delay_ms(job.retries, jitter) }
    } else {
        FailureAction::GiveUp
    }
}

/// The `Range` header value for the inclusive byte range `start..=end`.
pub open spec fn range_header_text(start: nat, end: nat) -> Seq<char> {
    "bytes="@ + decimal(start) + "-"@ + decimal(end)
}

/// The `Range` header value `bytes={start}-{end}`.
pub fn range_header(start: u64, end: u64) -> (h: String)
    ensures
        h@ == range_header_text(start as nat, end as nat),
{
    let mut h = "bytes=".to_owned();
    push_decimal(&mut h, start);
    let ghost mid = h@;
    push_char(&mut h, '-');
    assert(mid.push('-') =~= mid + "-"@) by {
        reveal_strlit("-");
    }
    push_decimal(&mut h, end);
    h
}

/// `IndexedRandom::choose` with the thread-local generator: a uniformly drawn
/// element of `items`, or `None` when it is empty.
#[verifier::external_body]
fn choose_one(items: &Vec<String>) -> (r: Option<String>)
    ensures
        r is None <==> items@.len() == 0,
        r matches Some(s) ==> exists|i: int| 0 <= i < items@.len() && s@ == #[trigger] items@[i]@,
{
    items.choose(&mut rand::rng()).cloned()
}

/// The request a worker sends for a chunk.
#[derive(Clone, Debug)]
pub struct RequestPlan {
    /// First byte requested.
    pub start: u64,
    /// Value of the `Range` header.
    pub range: String,
    /// Value of the `User-Agent` header, drawn from the configured ones, if any.
    pub user_agent: Option<String>,
}

/// First byte of `job` that is not on disk yet.
pub open spec fn resume_offset(job: ChunkWork) -> int {
    job.start + job.downloaded
}

/// The request for the rest of `job`, or `None` when the chunk is already complete
/// (its resume offset is past its last byte).
pub fn plan_request(job: &ChunkWork, user_agents: &Vec<String>) -> (plan: Option<RequestPlan>)
    requires
        resume_offset(*job) <= u64::MAX,
    ensures
        plan is None <==> resume_offset(*job) > job.end,
        plan matches Some(p) ==> {
            &&& p.start == resume_offset(*job)
            &&& p.range@ == range_header_text(p.start as nat, job.end as nat)
            &&& (p.user_agent is None <==> user_agents@.len() == 0)
            &&& (p.user_agent matches Some(ua) ==> exists|i: int| 0 <= i < user_agents@.len()
                && ua@ == #[trigger] user_agents@[i]@)
        },
{
    let start = job.start + job.downloaded;
    if start > job.end {
        return None;
    }
    let range = range_header(start, job.end);
    let user_agent = choose_one(user_agents);
    Some(RequestPlan { start, range, user_agent })
}

/// How a worker reacts to a response status.
#[derive(Clone, Copy, Debug, PartialEq, Eq, Structural)]
pub enum Throttle {
    /// Not a throttling status: go on with the response.
    Proceed,
    /// Throttled (429 or 503): wait the given seconds if the server said how long,
    /// then fail the attempt.
    Throttled { wait_secs: Option<u64> },
}

/// HTTP `429 Too Many Requests`.
pub const STATUS_TOO_MANY_REQUESTS: u16 = 429;

/// HTTP `503 Service Unavailable`.
pub const STATUS_SERVICE_UNAVAILABLE: u16 = 503;

/// The reaction to a response with status `status` and the given `Retry-After` value.
pub open spec fn spec_throttle(status: u16, retry_after: Option<Seq<char>>) -> Throttle {
    if status == STATUS_TOO_MANY_REQUESTS || status == STATUS_SERVICE_UNAVAILABLE {
        Throttle::Throttled {
            wait_secs: match retry_after {
                Some(v) => spec_parse_u64(v),
                None => None,
            },
        }
    } else {
        Throttle::Proceed
    }
}

/// Whether a response throttles the worker, and for how many seconds the
/// `Retry-After` header (when it is a plain number of seconds) asks it to wait.
pub fn throttle_decision(status: u16, retry_after: Option<&str>) -> (t: Throttle)
    ensures
        t == spec_throttle(status, opt_view(retry_after)),
{
    if status == STATUS_TOO_MANY_REQUESTS || status == STATUS_SERVICE_UNAVAILABLE {
        let wait_secs = match retry_after {
            Some(v) => parse_u64(v),
            None => None,
        };
        Throttle::Throttled { wait_secs }
    } else {
        Throttle::Proceed
    }
}

/// Unsaved progress above which a chunk's progress is written to the store.
pub const FLUSH_THRESHOLD: u64 = 1024 * 1024;

/// HTTP `200 OK`.
pub const STATUS_OK: u16 = 200;

/// HTTP `206 Partial Content`.
pub const STATUS_PARTIAL_CONTENT: u16 = 206;

/// Whether a successful response body can be taken as the requested range starting
/// at `range_start`: a `206` carries the range, and a `200` carries the whole file,
/// which starts at the requested byte only when that byte is the first. Any other
/// answer would put the body's bytes at the wrong offsets, so the attempt fails.
pub fn body_fits_range(status: u16, range_start: u64) -> (fits: bool)
    ensures
        fits == (status == STATUS_PARTIAL_CONTENT || (status == STATUS_OK && range_start == 0)),
{
    status == STATUS_PARTIAL_CONTENT || (status == STATUS_OK && range_start == 0)
}

/// Position of a streaming chunk download.
#[derive(Clone, Copy, Debug, PartialEq, Eq, Structural)]
pub struct StreamProgress {
    /// File offset the next accepted bytes are written at.
    pub offset: u64,
    /// Bytes written since progress was last saved.
    pub dirty: u64,
    /// Downloaded count most recently handed out to be saved.
    pub saved: u64,
}

/// A chunk being streamed is consistent with its position: the next write goes to
/// its resume offset, which lies within its range or just past its end, and the
/// saved progress never exceeds the bytes on disk.
pub open spec fn stream_consistent(job: ChunkWork, p: StreamProgress) -> bool {
    &&& p.offset == resume_offset(job)
    &&& resume_offset(job) <= job.end + 1
    &&& p.saved <= job.downloaded
}

/// The chunk's bytes are all on disk.
pub open spec fn chunk_complete(job: ChunkWork) -> bool {
    resume_offset(job) > job.end
}

/// The position a chunk's stream starts from: its resume offset, nothing unsaved,
/// and its stored downloaded count as the last saved progress.
pub fn start_stream(job: &ChunkWork) -> (p: StreamProgress)
    requires
        resume_offset(*job) <= job.end,
    ensures
        p == (StreamProgress { offset: resume_offset(*job) as u64, dirty: 0, saved: job.downloaded }),
        stream_consistent(*job, p),
{
    StreamProgress { offset: job.start + job.downloaded, dirty: 0, saved: job.downloaded }
}

/// How many of `len` newly received bytes belong to the chunk: all of them, up to
/// the end of its range. Only these are written, at `p.offset`; the rest lie past
/// the range and are dropped.
pub fn admit_data(job: &ChunkWork, p: &StreamProgress, len: usize) -> (n: usize)
    requires
        stream_consistent(*job, *p),
    ensures
        n == (if len <= job.end + 1 - p.offset { len as int } else { job.end + 1 - p.offset }),
        p.offset + n <= job.end + 1,
{
    if p.offset > job.end {
        return 0;
    }
    let room = job.end - p.offset;
    if (len as u64) <= room {
        len
    } else {
        (room + 1) as usize
    }
}

/// Accounts for `n` admitted bytes once they are written at `progress.offset`: the
/// offset and the chunk's downloaded count advance by `n`, the shared byte counter
/// grows by `n`, and once more than 1 MiB is unsaved the result is the downloaded
/// count to save now (which then counts as saved, and the unsaved count restarts
/// from zero). Saved progress therefore only ever counts bytes already written,
/// never decreases, and never runs past the end of the chunk.
pub fn record_written(job: &mut ChunkWork, progress: &mut StreamProgress, stats: &RuntimeStats, n: usize) -> (save: Option<u64>)
    requires
        stream_consistent(*old(job), *old(progress)),
        old(progress).offset + n <= old(job).end + 1,
        old(progress).offset + n <= u64::MAX,
        old(job).downloaded + n <= u64::MAX,
        old(progress).dirty + n <= u64::MAX,
    ensures
        *final(job) == (ChunkWork { downloaded: (old(job).downloaded + n) as u64, ..*old(job) }),
        final(progress).offset == old(progress).offset + n,
        stream_consistent(*final(job), *final(progress)),
        final(job).downloaded <= final(job).end - final(job).start + 1,
        final(progress).saved >= old(progress).saved,
        save == (if old(progress).dirty + n > FLUSH_THRESHOLD {
            Some(final(job).downloaded)
        } else {
            None::<u64>
        }),
        save is Some ==> final(progress).saved == final(job).downloaded && final(progress).dirty == 0,
        save is None ==> final(progress).saved == old(progress).saved && final(progress).dirty
            == old(progress).dirty + n,
{
    let k = n as u64;
    progress.offset = progress.offset + k;
    job.downloaded = job.downloaded + k;
    progress.dirty = progress.dirty + k;
    stats.add_bytes(k);
    if progress.dirty > FLUSH_THRESHOLD {
        progress.dirty = 0;
        progress.saved = job.downloaded;
        Some(job.downloaded)
    } else {
        None
    }
}

/// Whether every byte of the chunk is on disk.
pub fn stream_complete(job: &ChunkWork) -> (done: bool)
    ensures
        done == chunk_complete(*job),
{
    job.downloaded > job.end || job.start > job.end - job.downloaded
}

/// A point of a chunk's download at which its progress is stored.
#[derive(Clone, Copy, Debug, PartialEq, Eq, Structural)]
pub enum ChunkEvent {
    /// `plan_request` found nothing left to request.
    NothingLeft,
    /// The response stream is about to be read.
    StreamStarted,
    /// `record_written` asked for unsaved progress to be saved.
    ProgressFlushed,
    /// The response stream ended.
    StreamEnded,
    /// `on_failure` decided to retry the chunk.
    RetryScheduled,
    /// `on_failure` gave the chunk up.
    RetriesSpent,
}

/// The status a chunk is stored with at each point of its download.
pub open spec fn spec_status_after(event: ChunkEvent) -> ChunkStatus {
    match event {
        ChunkEvent::NothingLeft => ChunkStatus::Done,
        ChunkEvent::StreamStarted => ChunkStatus::Downloading,
        ChunkEvent::ProgressFlushed => ChunkStatus::Downloading,
        ChunkEvent::StreamEnded => ChunkStatus::Done,
        ChunkEvent::RetryScheduled => ChunkStatus::Queued,
        ChunkEvent::RetriesSpent => ChunkStatus::Failed,
    }
}

/// The status a chunk is stored with at `event`: done when nothing is left or the
/// stream ended, downloading while it streams, queued again for a retry, failed
/// once its retries are spent.
pub fn status_after(event: ChunkEvent) -> (s: ChunkStatus)
    ensures
        s == spec_status_after(event),
{
    match event {
        ChunkEvent::NothingLeft => ChunkStatus::Done,
        ChunkEvent::StreamStarted => ChunkStatus::Downloading,
        ChunkEvent::ProgressFlushed => ChunkStatus::Downloading,
        ChunkEvent::StreamEnded => ChunkStatus::Done,
        ChunkEvent::RetryScheduled => ChunkStatus::Queued,
        ChunkEvent::RetriesSpent => ChunkStatus::Failed,
    }
}

/// The status a task ends in once its workers exit: completed when no chunk is
/// left unfinished, failed otherwise.
pub fn finish_status(remaining: i64) -> (s: TaskStatus)
    ensures
        s == (if remaining == 0 { TaskStatus::Completed } else { TaskStatus::Failed }),
{
    if remaining == 0 {
        TaskStatus::Completed
    } else {
        TaskStatus::Failed
    }
}

} // verus!
