use vstd::prelude::*;
use crate::types::{ImageMetadata, Progress, ProgressModel, now_timestamp, other_page};
use crate::text::{
    hex_of, to_hex, sanitized_of, sanitize_filename, ext_of, extension_of,
};

verus! {

// ---------------------------------------------------------------------------
// Configuration.
// ---------------------------------------------------------------------------

/// Tuning knobs of the acquisition engine.
pub struct CrawlerConfig {
    /// How many page tasks may be in flight at once; also the batch size.
    pub concurrency: usize,
    /// Timeout of a single network request, in seconds.
    pub timeout_secs: u64,
    /// How many times one fetch is retried before it fails the page.
    pub max_retries: u32,
    /// Politeness pause between batches, in milliseconds.
    pub batch_delay_ms: u64,
}

impl Default for CrawlerConfig {
    /// Moderate parallelism and a one-second politeness pause.
    fn default() -> (r: Self)
        ensures
            r.concurrency == 10,
            r.timeout_secs == 30,
            r.max_retries == 3,
            r.batch_delay_ms == 1000,
    {
        CrawlerConfig { concurrency: 10, timeout_secs: 30, max_retries: 3, batch_delay_ms: 1000 }
    }
}

impl CrawlerConfig {
    /// The default configuration.
    pub fn new() -> (r: Self)
        ensures
            r.concurrency == 10,
            r.timeout_secs == 30,
            r.max_retries == 3,
            r.batch_delay_ms == 1000,
    {
        CrawlerConfig { concurrency: 10, timeout_secs: 30, max_retries: 3, batch_delay_ms: 1000 }
    }

    /// The same configuration with another concurrency cap.
    pub fn with_concurrency(self, concurrency: usize) -> (r: Self)
        ensures
            r.concurrency == concurrency,
            r.timeout_secs == self.timeout_secs,
            r.max_retries == self.max_retries,
            r.batch_delay_ms == self.batch_delay_ms,
    {
        CrawlerConfig { concurrency, ..self }
    }

    /// The same configuration with another request timeout.
    pub fn with_timeout(self, timeout_secs: u64) -> (r: Self)
        ensures
            r.timeout_secs == timeout_secs,
            r.concurrency == self.concurrency,
            r.max_retries == self.max_retries,
            r.batch_delay_ms == self.batch_delay_ms,
    {
        CrawlerConfig { timeout_secs, ..self }
    }
}

// ---------------------------------------------------------------------------
// Batch planning.
// ---------------------------------------------------------------------------

/// The consecutive page batches of size `conc` that cover `start ..= total`:
/// each batch is an inclusive page range, ranges follow each other without a
/// gap, and only the last may be shorter than `conc`.
pub open spec fn planned_batches(start: int, total: int, conc: int) -> Seq<(int, int)>
    decreases total + 1 - start when conc >= 1
{
    if start > total {
        Seq::empty()
    } else {
        let end = if start + conc - 1 <= total {
            start + conc - 1
        } else {
            total
        };
        seq![(start, end)] + planned_batches(end + 1, total, conc)
    }
}

/// Every planned batch stays inside `start ..= total`.
pub proof fn lemma_planned_batches_bounds(start: int, total: int, conc: int)
    requires
        conc >= 1,
    ensures
        forall|i: int|
            0 <= i < planned_batches(start, total, conc).len() ==> {
                let b = #[trigger] planned_batches(start, total, conc)[i];
                start <= b.0 <= b.1 <= total
            },
    decreases (if start <= total { total + 1 - start } else { 0 }),
{
    if start <= total {
        let end = if start + conc - 1 <= total {
            start + conc - 1
        } else {
            total
        };
        let pb = planned_batches(start, total, conc);
        let rest = planned_batches(end + 1, total, conc);
        lemma_planned_batches_bounds(end + 1, total, conc);
        assert forall|i: int| 0 <= i < pb.len() implies {
            let b = #[trigger] pb[i];
            start <= b.0 <= b.1 <= total
        } by {
            if i == 0 {
                assert(pb[0] == (start, end));
            } else {
                assert(pb[i] == rest[i - 1]);
            }
        }
    }
}

/// The planned batches partition `start ..= total`: the first begins at
/// `start`, the last ends at `total`, each batch holds at most `conc` pages,
/// every batch except the last holds exactly `conc`, and consecutive batches
/// meet without gap or overlap.
pub proof fn lemma_planned_batches_cover(start: int, total: int, conc: int)
    requires
        conc >= 1,
        start <= total,
    ensures
        planned_batches(start, total, conc).len() > 0,
        planned_batches(start, total, conc)[0].0 == start,
        planned_batches(start, total, conc).last().1 == total,
        forall|i: int|
            0 <= i < planned_batches(start, total, conc).len() ==> {
                let b = #[trigger] planned_batches(start, total, conc)[i];
                b.0 <= b.1 && b.1 - b.0 + 1 <= conc
            },
        forall|i: int|
            0 <= i < planned_batches(start, total, conc).len() - 1 ==> {
                let b = #[trigger] planned_batches(start, total, conc)[i];
                b.1 == b.0 + conc - 1 && planned_batches(start, total, conc)[i + 1].0 == b.1 + 1
            },
    decreases total + 1 - start,
{
    let pb = planned_batches(start, total, conc);
    let end = if start + conc - 1 <= total {
        start + conc - 1
    } else {
        total
    };
    if end < total {
        lemma_planned_batches_cover(end + 1, total, conc);
        let rest = planned_batches(end + 1, total, conc);
        assert(pb == seq![(start, end)] + rest);
        assert(pb.last() == rest.last());
    } else {
        assert(planned_batches(end + 1, total, conc) =~= Seq::empty());
        assert(pb =~= seq![(start, end)]);
    }
}

/// Law: acquisition against an existing checkpoint resumes right after it —
/// every page of every planned batch lies strictly beyond the page the
/// checkpoint records as completed.
pub proof fn lemma_resume_skips_completed_pages(last_completed: int, total: int, conc: int)
    requires
        conc >= 1,
    ensures
        forall|i: int|
            0 <= i < planned_batches(last_completed + 1, total, conc).len() ==> {
                let b = #[trigger] planned_batches(last_completed + 1, total, conc)[i];
                b.0 > last_completed && b.1 > last_completed
            },
{
    lemma_planned_batches_bounds(last_completed + 1, total, conc);
}

/// One planned batch as the pair of mathematical page indices it covers.
pub open spec fn batch_pair_view(b: (u32, u32)) -> (int, int) {
    (b.0 as int, b.1 as int)
}

/// A planned batch list as the mathematical ranges it covers.
pub open spec fn batches_view(v: Seq<(u32, u32)>) -> Seq<(int, int)> {
    v.map_values(|b: (u32, u32)| batch_pair_view(b))
}

/// Partition the page range `start_page ..= total_pages` into consecutive
/// batches of `concurrency` pages (the last possibly shorter).
pub fn plan_batches(start_page: u32, total_pages: u32, concurrency: usize) -> (r: Vec<(u32, u32)>)
    requires
        concurrency >= 1,
        total_pages + concurrency <= u32::MAX,
    ensures
        batches_view(r@) == planned_batches(
            start_page as int,
            total_pages as int,
            concurrency as int,
        ),
{
    let ghost target = planned_batches(start_page as int, total_pages as int, concurrency as int);
    let conc: u32 = concurrency as u32;
    let mut r: Vec<(u32, u32)> = Vec::new();
    let mut cur: u32 = start_page;
    while cur <= total_pages
        invariant
            conc == concurrency,
            1 <= conc,
            total_pages + conc <= u32::MAX,
            target == batches_view(r@) + planned_batches(
                cur as int,
                total_pages as int,
                conc as int,
            ),
        decreases total_pages + 1 - cur,
    {
        let end: u32 = if cur + conc - 1 <= total_pages {
            cur + conc - 1
        } else {
            total_pages
        };
        let ghost before = r@;
        r.push((cur, end));
        proof {
            assert(batch_pair_view((cur, end)) == (cur as int, end as int));
            assert(batches_view(r@) =~= batches_view(before).push((cur as int, end as int)));
            assert(batches_view(before).push((cur as int, end as int)) + planned_batches(
                end + 1,
                total_pages as int,
                conc as int,
            ) =~= batches_view(before) + (seq![(cur as int, end as int)] + planned_batches(
                end + 1,
                total_pages as int,
                conc as int,
            )));
        }
        cur = end + 1;
    }
    proof {
        assert(planned_batches(cur as int, total_pages as int, conc as int) =~= Seq::empty());
        assert(batches_view(r@) + Seq::empty() =~= batches_view(r@));
    }
    r
}

// ---------------------------------------------------------------------------
// Merging page outcomes into the checkpoint.
// ---------------------------------------------------------------------------

/// What one page task reported when it settled.
#[derive(Clone, Copy)]
pub enum PageOutcome {
    /// The page was fetched and parsed; carries how many images were
    /// persisted from it.
    Completed(usize),
    /// The page failed after all retries.
    Failed,
}

/// How one settled page changes the checkpoint. A completed page always
/// grows the counter and leaves the failed set, but advances the
/// completed-page mark only when it extends the unbroken completed range —
/// the mark halts at the first failed or missing page and never moves
/// backwards. A failed page is recorded in the failed set (at most once).
pub open spec fn outcome_step(m: ProgressModel, page: u32, oc: PageOutcome) -> ProgressModel {
    match oc {
        PageOutcome::Completed(count) => ProgressModel {
            last_completed: if page as int == m.last_completed + 1 {
                page as int
            } else {
                m.last_completed
            },
            total_downloaded: m.total_downloaded + count,
            failed: m.failed.filter(other_page(page)),
        },
        PageOutcome::Failed => ProgressModel {
            last_completed: m.last_completed,
            total_downloaded: m.total_downloaded,
            failed: if m.failed.contains(page) {
                m.failed
            } else {
                m.failed.push(page)
            },
        },
    }
}

/// The checkpoint after a whole batch of settled pages, merged in order.
pub open spec fn outcomes_fold(m: ProgressModel, s: Seq<(u32, PageOutcome)>) -> ProgressModel
    decreases s.len(),
{
    if s.len() == 0 {
        m
    } else {
        outcome_step(outcomes_fold(m, s.drop_last()), s.last().0, s.last().1)
    }
}

/// Merging a batch decomposes into merging its parts in order.
pub proof fn lemma_outcomes_fold_append(
    m: ProgressModel,
    a: Seq<(u32, PageOutcome)>,
    b: Seq<(u32, PageOutcome)>,
)
    ensures
        outcomes_fold(m, a + b) == outcomes_fold(outcomes_fold(m, a), b),
    decreases b.len(),
{
    if b.len() == 0 {
        assert(a + b =~= a);
    } else {
        assert((a + b).drop_last() =~= a + b.drop_last());
        lemma_outcomes_fold_append(m, a, b.drop_last());
        assert((a + b).last() == b.last());
    }
}

/// Law: the acquired-items counter is monotonic — merging outcomes never
/// lowers it.
pub proof fn lemma_counter_monotone(m: ProgressModel, s: Seq<(u32, PageOutcome)>)
    ensures
        outcomes_fold(m, s).total_downloaded >= m.total_downloaded,
    decreases s.len(),
{
    if s.len() > 0 {
        lemma_counter_monotone(m, s.drop_last());
    }
}

/// Law: the completed-page mark only ever increases — merging any outcomes
/// never lowers it.
pub proof fn lemma_last_completed_monotone(m: ProgressModel, s: Seq<(u32, PageOutcome)>)
    ensures
        outcomes_fold(m, s).last_completed >= m.last_completed,
    decreases s.len(),
{
    if s.len() > 0 {
        lemma_last_completed_monotone(m, s.drop_last());
    }
}

/// The checkpoint keeps every failed page strictly beyond the completed
/// range: no page is both completed and failed.
pub open spec fn checkpoint_separates_pages(m: ProgressModel) -> bool {
    forall|i: int| 0 <= i < m.failed.len() ==> (#[trigger] m.failed[i]) as int > m.last_completed
}

/// The mark never outruns a bound that covers the old mark and every merged
/// page.
proof fn lemma_fold_mark_bound(m: ProgressModel, s: Seq<(u32, PageOutcome)>, bound: int)
    requires
        m.last_completed <= bound,
        forall|i: int| 0 <= i < s.len() ==> (#[trigger] s[i]).0 as int <= bound,
    ensures
        outcomes_fold(m, s).last_completed <= bound,
    decreases s.len(),
{
    if s.len() > 0 {
        lemma_fold_mark_bound(m, s.drop_last(), bound);
    }
}

/// Law: a page index lies in at most one of "completed" and "failed".
/// Merging a batch of pages that lie beyond the mark, in increasing order —
/// the only way the engine merges — keeps every failed page strictly beyond
/// the completed range, so the resumed range and the failed set never
/// overlap a completed page.
pub proof fn lemma_merge_keeps_completed_failed_disjoint(
    m: ProgressModel,
    s: Seq<(u32, PageOutcome)>,
)
    requires
        checkpoint_separates_pages(m),
        forall|i: int| 0 <= i < s.len() ==> (#[trigger] s[i]).0 as int > m.last_completed,
        forall|i: int, j: int| 0 <= i < j < s.len() ==> (#[trigger] s[i]).0 < (#[trigger] s[j]).0,
    ensures
        checkpoint_separates_pages(outcomes_fold(m, s)),
    decreases s.len(),
{
    if s.len() > 0 {
        let prev = outcomes_fold(m, s.drop_last());
        let page = s.last().0;
        lemma_merge_keeps_completed_failed_disjoint(m, s.drop_last());
        assert(prev.last_completed < page) by {
            lemma_fold_mark_bound(m, s.drop_last(), page - 1);
        }
        let merged = outcomes_fold(m, s);
        match s.last().1 {
            PageOutcome::Completed(count) => {
                assert(merged.failed == prev.failed.filter(other_page(page)));
                let kept = prev.failed.filter(other_page(page));
                assert forall|i: int| 0 <= i < kept.len() implies (#[trigger] kept[i]) as int
                    > merged.last_completed by {
                    prev.failed.lemma_filter_pred(other_page(page), i);
                    assert(kept.contains(kept[i]));
                    prev.failed.lemma_filter_contains_rev(other_page(page), kept[i]);
                    let j = choose|j: int| 0 <= j < prev.failed.len() && prev.failed[j] == kept[i];
                    assert(prev.failed[j] as int > prev.last_completed);
                }
            }
            PageOutcome::Failed => {
                assert forall|i: int| 0 <= i < merged.failed.len() implies (
                #[trigger] merged.failed[i]) as int > merged.last_completed by {
                    if i < prev.failed.len() {
                        assert(prev.failed[i] as int > prev.last_completed);
                    }
                }
            }
        }
    }
}

/// Merge one settled page into the checkpoint.
pub fn apply_page_outcome(progress: &mut Progress, page: u32, outcome: PageOutcome)
    requires
        outcome matches PageOutcome::Completed(c) ==> old(progress).total_images_downloaded + c
            <= usize::MAX,
    ensures
        final(progress).model() == outcome_step(old(progress).model(), page, outcome),
        old(progress).wf() ==> final(progress).wf(),
{
    match outcome {
        PageOutcome::Completed(count) => progress.update(page, count),
        PageOutcome::Failed => progress.add_failed_page(page),
    }
}

/// Merge a whole settled batch into the checkpoint, in order. This is the
/// single update path the engine runs after the tasks of one batch have all
/// settled and before the checkpoint is persisted.
pub fn apply_batch_outcomes(progress: &mut Progress, outcomes: &Vec<(u32, PageOutcome)>)
    requires
        outcomes_fold(old(progress).model(), outcomes@).total_downloaded <= usize::MAX,
    ensures
        final(progress).model() == outcomes_fold(old(progress).model(), outcomes@),
        old(progress).wf() ==> final(progress).wf(),
{
    let ghost m0 = progress.model();
    let ghost wf0 = progress.wf();
    let n = outcomes.len();
    let mut i: usize = 0;
    while i < n
        invariant
            n == outcomes@.len(),
            i <= n,
            progress.model() == outcomes_fold(m0, outcomes@.take(i as int)),
            outcomes_fold(m0, outcomes@).total_downloaded <= usize::MAX,
            wf0 ==> progress.wf(),
            wf0 == old(progress).wf(),
            m0 == old(progress).model(),
        decreases n - i,
    {
        let (page, outcome) = outcomes[i];
        proof {
            assert(outcomes@.take(i + 1).drop_last() =~= outcomes@.take(i as int));
            assert(outcomes@.take(i + 1).last() == outcomes@[i as int]);
            assert(outcomes@ =~= outcomes@.take(i + 1) + outcomes@.skip(i + 1));
            lemma_outcomes_fold_append(m0, outcomes@.take(i + 1), outcomes@.skip(i + 1));
            lemma_counter_monotone(outcomes_fold(m0, outcomes@.take(i + 1)), outcomes@.skip(i + 1));
        }
        apply_page_outcome(progress, page, outcome);
        i = i + 1;
    }
    proof {
        assert(outcomes@.take(n as int) =~= outcomes@);
    }
}

// ---------------------------------------------------------------------------
// The downloader's pure step: content hash, stable filename, record.
// ---------------------------------------------------------------------------

/// What SHA-256 returns; a function of the input bytes alone.
pub uninterp spec fn sha256_of(bytes: Seq<u8>) -> Seq<u8>;

/// Relies on sha2::Sha256 through the Digest trait: the digest depends on the
/// input bytes alone and is always 32 bytes long.
#[verifier::external_body]
fn sha256_digest(bytes: &[u8]) -> (r: Vec<u8>)
    ensures
        r@ == sha256_of(bytes@),
        r@.len() == 32,
{
    <sha2::Sha256 as sha2::Digest>::digest(bytes).to_vec()
}

/// The content hash recorded for raw bytes: lower-case hex of the SHA-256
/// digest, 64 characters.
pub open spec fn content_hash_of(bytes: Seq<u8>) -> Seq<char> {
    hex_of(sha256_of(bytes))
}

/// The stable filename an image is stored under: the first 8 characters of
/// its content hash, an underscore, the sanitized label, a dot, and the url
/// extension.
pub open spec fn filename_of(hash: Seq<char>, name: Seq<char>, url: Seq<char>) -> Seq<char> {
    hash.take(8) + seq!['_'] + sanitized_of(name) + seq!['.'] + ext_of(url)
}

/// Derive the stable filename from an already-computed content hash.
pub fn derive_filename(content_hash: &str, name: &str, url: &str) -> (r: String)
    requires
        content_hash@.len() >= 8,
    ensures
        r@ == filename_of(content_hash@, name@, url@),
{
    let mut r = content_hash.substring_char(0, 8).to_owned();
    r.push('_');
    let s = sanitize_filename(name);
    r.append(s.as_str());
    r.push('.');
    let e = extension_of(url);
    r.append(e.as_str());
    proof {
        assert(content_hash@.subrange(0, 8) =~= content_hash@.take(8));
        assert(r@ =~= filename_of(content_hash@, name@, url@));
    }
    r
}

/// Everything the downloader records about one downloaded image: its content
/// hash, its stable filename, and the metadata line that is appended to the
/// log. Persisting the blob and the record is the driver's part.
pub fn build_metadata(bytes: &[u8], url: &str, name: &str, page: u32) -> (r: ImageMetadata)
    ensures
        r.content_hash@ == content_hash_of(bytes@),
        r.content_hash@.len() == 64,
        r.filename@ == filename_of(content_hash_of(bytes@), name@, url@),
        r.description@ == name@,
        r.url@ == url@,
        r.page_number == page,
{
    let digest = sha256_digest(bytes);
    let hash = to_hex(digest.as_slice());
    let filename = derive_filename(hash.as_str(), name, url);
    ImageMetadata {
        filename,
        description: name.to_owned(),
        url: url.to_owned(),
        content_hash: hash,
        page_number: page,
        downloaded_at: now_timestamp(),
    }
}

/// Law: the stable filename separates images whose content hashes differ in
/// the recorded prefix — with the same label and url, two such images never
/// collide on one filename.
pub proof fn lemma_filename_separates_hash_prefixes(
    h1: Seq<char>,
    h2: Seq<char>,
    name: Seq<char>,
    url: Seq<char>,
)
    requires
        h1.len() >= 8,
        h2.len() >= 8,
        h1.take(8) != h2.take(8),
    ensures
        filename_of(h1, name, url) != filename_of(h2, name, url),
{
    let f1 = filename_of(h1, name, url);
    let f2 = filename_of(h2, name, url);
    if f1 == f2 {
        assert forall|i: int| 0 <= i < 8 implies h1.take(8)[i] == h2.take(8)[i] by {
            assert(f1[i] == h1.take(8)[i]);
            assert(f2[i] == h2.take(8)[i]);
        }
        assert(h1.take(8) =~= h2.take(8));
    }
}

/// Law: acquisition is deterministic — equal raw bytes always give the same
/// content hash, and together with the same label and url the same derived
/// filename.
pub proof fn lemma_acquisition_deterministic(
    bytes: Seq<u8>,
    other: Seq<u8>,
    name: Seq<char>,
    url: Seq<char>,
)
    requires
        other == bytes,
    ensures
        content_hash_of(other) == content_hash_of(bytes),
        filename_of(content_hash_of(other), name, url) == filename_of(
            content_hash_of(bytes),
            name,
            url,
        ),
{
}

} // verus!
