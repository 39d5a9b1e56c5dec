use vstd::prelude::*;
use vstd::seq_lib::*;

verus! {

/// Metadata kept for one stored image. Timestamps are seconds since the unix
/// epoch.
pub struct ImageMetadata {
    /// Stable name derived from the content hash, the sanitized description
    /// and the url extension.
    pub filename: String,
    /// Human-readable label the image was listed under.
    pub description: String,
    /// Source url the bytes were downloaded from.
    pub url: String,
    /// Lower-case hex digest of the raw bytes.
    pub content_hash: String,
    /// Listing page the image was found on.
    pub page_number: u32,
    /// When the image was downloaded.
    pub downloaded_at: i64,
}

impl Clone for ImageMetadata {
    fn clone(&self) -> (res: Self)
        ensures
            res == *self,
    {
        ImageMetadata {
            filename: self.filename.clone(),
            description: self.description.clone(),
            url: self.url.clone(),
            content_hash: self.content_hash.clone(),
            page_number: self.page_number,
            downloaded_at: self.downloaded_at,
        }
    }
}

/// One group of stored images whose raw bytes share a content hash.
/// `files` preserves acquisition order; by convention the first entry is the
/// copy that removal retains.
pub struct DuplicateRecord {
    /// The shared content hash.
    pub content_hash: String,
    /// Every filename carrying that hash, in acquisition order.
    pub files: Vec<String>,
}

/// The failure taxonomy of the pipeline. Failures scoped to one page or one
/// resource never abort a run; corruption of shared durable state does.
#[derive(Debug, Clone, Copy, PartialEq, Eq, Structural)]
pub enum PipelineError {
    /// A network fetch failed; retried with backoff, then escalated.
    TransientFetch,
    /// Every retry of a fetch failed; fails the enclosing page only.
    FetchExhausted,
    /// A page or record could not be parsed; fails the enclosing unit of work.
    Parse,
    /// A checkpoint or log is unreadable; fatal for the run.
    CorruptState,
    /// An enrichment backend failed; that backend/item pair is skipped.
    Backend,
}

impl PipelineError {
    /// A short stable name for the error, for reports.
    pub fn describe(&self) -> (s: &'static str)
        ensures
            *self is TransientFetch ==> s@ == "transient fetch failure"@,
            *self is FetchExhausted ==> s@ == "fetch retries exhausted"@,
            *self is Parse ==> s@ == "parse failure"@,
            *self is CorruptState ==> s@ == "corrupt durable state"@,
            *self is Backend ==> s@ == "backend failure"@,
    {
        match self {
            PipelineError::TransientFetch => "transient fetch failure",
            PipelineError::FetchExhausted => "fetch retries exhausted",
            PipelineError::Parse => "parse failure",
            PipelineError::CorruptState => "corrupt durable state",
            PipelineError::Backend => "backend failure",
        }
    }
}

/// The acquisition checkpoint: how far the crawl has come and which pages
/// failed. `last_updated` is a wall-clock timestamp and carries no contract.
pub struct Progress {
    /// Highest page index of an unbroken completed range.
    pub last_completed_page: u32,
    /// Monotonic counter of images persisted so far.
    pub total_images_downloaded: usize,
    /// When the checkpoint was last touched, seconds since the unix epoch.
    pub last_updated: i64,
    /// Pages whose processing failed; free of duplicates.
    pub failed_pages: Vec<u32>,
}

/// The predicate "this page is not `page`": what filtering a page out of
/// the failed set keeps.
pub open spec fn other_page(page: u32) -> spec_fn(u32) -> bool {
    |q: u32| q != page
}

/// The mathematical view of a checkpoint: what the contracts of the
/// acquisition engine speak about. The wall-clock field carries no contract
/// and is left out.
pub ghost struct ProgressModel {
    /// Highest page index of an unbroken completed range.
    pub last_completed: int,
    /// Monotonic counter of images persisted so far.
    pub total_downloaded: int,
    /// Pages whose processing failed.
    pub failed: Seq<u32>,
}

impl Progress {
    /// The checkpoint keeps its failed-page list free of duplicates.
    pub open spec fn wf(&self) -> bool {
        self.failed_pages@.no_duplicates()
    }

    /// The mathematical view of this checkpoint.
    pub open spec fn model(&self) -> ProgressModel {
        ProgressModel {
            last_completed: self.last_completed_page as int,
            total_downloaded: self.total_images_downloaded as int,
            failed: self.failed_pages@,
        }
    }

    /// A fresh, zero-valued checkpoint.
    pub fn new() -> (r: Self)
        ensures
            r.last_completed_page == 0,
            r.total_images_downloaded == 0,
            r.failed_pages@ == Seq::<u32>::empty(),
            r.wf(),
    {
        Progress {
            last_completed_page: 0,
            total_images_downloaded: 0,
            last_updated: now_timestamp(),
            failed_pages: Vec::new(),
        }
    }

    /// Merge one completed page: the counter grows by `images_count`; the
    /// completed-page mark advances exactly when `page` extends the unbroken
    /// completed range (it is the page right after the mark), so the mark
    /// never moves backwards and never jumps a gap; and `page` leaves the
    /// failed set — a recorded failure is cleared only by a later successful
    /// pass.
    pub fn update(&mut self, page: u32, images_count: usize)
        requires
            old(self).total_images_downloaded + images_count <= usize::MAX,
        ensures
            final(self).last_completed_page as int == if page as int == old(
                self,
            ).last_completed_page + 1 {
                page as int
            } else {
                old(self).last_completed_page as int
            },
            final(self).total_images_downloaded
                == old(self).total_images_downloaded + images_count,
            final(self).failed_pages@ == old(self).failed_pages@.filter(other_page(page)),
            old(self).wf() ==> final(self).wf(),
    {
        if page > 0 && self.last_completed_page == page - 1 {
            self.last_completed_page = page;
        }
        self.total_images_downloaded = self.total_images_downloaded + images_count;
        retain_other_pages(&mut self.failed_pages, page);
        self.last_updated = now_timestamp();
    }

    /// Record that `page` failed; a page is listed at most once.
    pub fn add_failed_page(&mut self, page: u32)
        ensures
            final(self).failed_pages@ == if old(self).failed_pages@.contains(page) {
                old(self).failed_pages@
            } else {
                old(self).failed_pages@.push(page)
            },
            final(self).last_completed_page == old(self).last_completed_page,
            final(self).total_images_downloaded == old(self).total_images_downloaded,
            old(self).wf() ==> final(self).wf(),
    {
        if !contains_page(&self.failed_pages, page) {
            self.failed_pages.push(page);
        }
        self.last_updated = now_timestamp();
    }
}

impl Default for Progress {
    /// A fresh, zero-valued checkpoint.
    fn default() -> (r: Self)
        ensures
            r.last_completed_page == 0,
            r.total_images_downloaded == 0,
            r.failed_pages@ == Seq::<u32>::empty(),
            r.wf(),
    {
        Progress::new()
    }
}

/// Whether `page` occurs in `v`.
fn contains_page(v: &Vec<u32>, page: u32) -> (r: bool)
    ensures
        r == v@.contains(page),
{
    let mut i: usize = 0;
    while i < v.len()
        invariant
            i <= v@.len(),
            forall|j: int| 0 <= j < i ==> v@[j] != page,
        decreases v@.len() - i,
    {
        if v[i] == page {
            assert(v@.contains(page));
            return true;
        }
        i = i + 1;
    }
    false
}

/// Drop every occurrence of `page` from `v`.
fn retain_other_pages(v: &mut Vec<u32>, page: u32)
    ensures
        final(v)@ == old(v)@.filter(other_page(page)),
        old(v)@.no_duplicates() ==> final(v)@.no_duplicates(),
{
    let ghost pred = other_page(page);
    let mut kept: Vec<u32> = Vec::new();
    let n = v.len();
    let mut i: usize = 0;
    while i < n
        invariant
            n == old(v)@.len(),
            v@ == old(v)@,
            i <= n,
            kept@ == old(v)@.take(i as int).filter(pred),
            pred == other_page(page),
            old(v)@.no_duplicates() ==> kept@.no_duplicates(),
        decreases n - i,
    {
        proof {
            assert(old(v)@.take(i + 1) =~= old(v)@.take(i as int).push(old(v)@[i as int]));
            old(v)@.take(i as int).lemma_filter_push(old(v)@[i as int], pred);
        }
        if v[i] != page {
            let ghost before = kept@;
            let ghost elem = old(v)@[i as int];
            kept.push(v[i]);
            proof {
                if old(v)@.no_duplicates() {
                    assert(!before.contains(elem)) by {
                        if before.contains(elem) {
                            old(v)@.take(i as int).lemma_filter_contains_rev(pred, elem);
                            let j = choose|j: int|
                                0 <= j < i && old(v)@.take(i as int)[j] == elem;
                            assert(old(v)@[j] == old(v)@[i as int]);
                        }
                    }
                    assert forall|a: int, b: int|
                        0 <= a < kept@.len() && 0 <= b < kept@.len() && a != b implies kept@[a]
                        != kept@[b] by {
                        if b == before.len() {
                            assert(before.contains(kept@[a]) == before.contains(before[a]));
                        } else if a == before.len() {
                            assert(before.contains(kept@[b]) == before.contains(before[b]));
                        }
                    }
                }
            }
        }
        i = i + 1;
    }
    proof {
        assert(old(v)@.take(n as int) =~= old(v)@);
    }
    *v = kept;
}

/// Relies on std's SystemTime for the wall-clock time, as whole seconds
/// since the unix epoch (counted negative before it); nothing is assumed
/// about the value returned, and no clock reading makes the call fail.
#[verifier::external_body]
pub(crate) fn now_timestamp() -> i64 {
    match std::time::SystemTime::now().duration_since(std::time::UNIX_EPOCH) {
        Ok(d) => d.as_secs() as i64,
        Err(e) => -(e.duration().as_secs() as i64),
    }
}

} // verus!
