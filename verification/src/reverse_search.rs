use vstd::prelude::*;
use vstd::seq_lib::*;
use vstd::utf8::encode_utf8;
use crate::types::{ImageMetadata, now_timestamp};
use crate::text::{lower_of, contains_seq, lowercase, contains_sub};
use crate::dedup::{files_view, contains_string};

verus! {

/// One enrichment record, appended to the results log: what one backend
/// reported about one stored image. `searched_at` is seconds since the unix
/// epoch.
pub struct ReverseSearchResult {
    /// The stored image this record is about.
    pub filename: String,
    /// Which backend produced it.
    pub service: String,
    /// A title the backend suggested, when it gave one.
    pub suggested_title: Option<String>,
    /// Keywords the backend returned, already filtered.
    pub keywords: Vec<String>,
    /// Sites the backend found the image on.
    pub related_sites: Vec<String>,
    /// The backend's best guess at what the image shows.
    pub best_guess: Option<String>,
    /// When the backend was queried.
    pub searched_at: i64,
}

/// The enrichment checkpoint: which images have had every configured backend
/// attempted. `last_updated` is a wall-clock timestamp and carries no
/// contract.
pub struct SearchProgress {
    /// The filenames already fully processed; free of duplicates.
    pub completed_files: Vec<String>,
    /// When the checkpoint was last touched, seconds since the unix epoch.
    pub last_updated: i64,
}

impl SearchProgress {
    /// The checkpoint lists each completed filename at most once.
    pub open spec fn wf(&self) -> bool {
        files_view(self.completed_files@).no_duplicates()
    }

    /// Whether `filename` is recorded as fully processed.
    pub open spec fn spec_is_completed(&self, filename: Seq<char>) -> bool {
        files_view(self.completed_files@).contains(filename)
    }

    /// A fresh, empty checkpoint.
    pub fn new() -> (r: Self)
        ensures
            r.completed_files@ == Seq::<String>::empty(),
            r.wf(),
    {
        SearchProgress { completed_files: Vec::new(), last_updated: now_timestamp() }
    }

    /// Record that every configured backend has been attempted for
    /// `filename`; a filename is listed at most once.
    pub fn add_completed(&mut self, filename: String)
        ensures
            files_view(final(self).completed_files@) == if old(self).spec_is_completed(filename@) {
                files_view(old(self).completed_files@)
            } else {
                files_view(old(self).completed_files@).push(filename@)
            },
            final(self).spec_is_completed(filename@),
            old(self).wf() ==> final(self).wf(),
    {
        if !contains_string(&self.completed_files, &filename) {
            let ghost before = files_view(self.completed_files@);
            self.completed_files.push(filename);
            proof {
                assert(files_view(self.completed_files@) =~= before.push(
                    self.completed_files@.last()@,
                ));
                assert(files_view(self.completed_files@)[before.len() as int]
                    == self.completed_files@.last()@);
            }
        } else {
            proof {
                assert(files_view(self.completed_files@) =~= files_view(
                    old(self).completed_files@,
                ));
            }
        }
        self.last_updated = now_timestamp();
    }

    /// Whether `filename` is recorded as fully processed.
    pub fn is_completed(&self, filename: &str) -> (r: bool)
        ensures
            r == self.spec_is_completed(filename@),
    {
        let f = filename.to_owned();
        contains_string(&self.completed_files, &f)
    }
}

impl Default for SearchProgress {
    /// A fresh, empty checkpoint.
    fn default() -> (r: Self)
        ensures
            r.completed_files@ == Seq::<String>::empty(),
            r.wf(),
    {
        SearchProgress::new()
    }
}

/// The predicate "this record is not yet completed".
pub open spec fn pending_pred(completed: Seq<Seq<char>>) -> spec_fn(ImageMetadata) -> bool {
    |m: ImageMetadata| !completed.contains(m.filename@)
}

/// The records enrichment still has to process: those whose filename the
/// checkpoint does not list, in their original order.
pub fn pending_records(records: &Vec<ImageMetadata>, progress: &SearchProgress) -> (r: Vec<
    ImageMetadata,
>)
    ensures
        r@ == records@.filter(pending_pred(files_view(progress.completed_files@))),
{
    let ghost pred = pending_pred(files_view(progress.completed_files@));
    let mut r: Vec<ImageMetadata> = Vec::new();
    let n = records.len();
    let mut i: usize = 0;
    while i < n
        invariant
            n == records@.len(),
            i <= n,
            r@ == records@.take(i as int).filter(pred),
            pred == pending_pred(files_view(progress.completed_files@)),
        decreases n - i,
    {
        proof {
            assert(records@.take(i + 1) =~= records@.take(i as int).push(records@[i as int]));
            records@.take(i as int).lemma_filter_push(records@[i as int], pred);
        }
        if !contains_string(&progress.completed_files, &records[i].filename) {
            r.push(records[i].clone());
        }
        i = i + 1;
    }
    proof {
        assert(records@.take(n as int) =~= records@);
    }
    r
}

/// Law: enrichment never revisits a completed item — a filename the
/// checkpoint lists occurs nowhere among the pending records, so re-running
/// the engine issues no backend call for it.
pub proof fn lemma_completed_never_pending(
    records: Seq<ImageMetadata>,
    completed: Seq<Seq<char>>,
    f: Seq<char>,
)
    requires
        completed.contains(f),
    ensures
        forall|i: int|
            0 <= i < records.filter(pending_pred(completed)).len() ==> (#[trigger] records.filter(
                pending_pred(completed),
            )[i]).filename@ != f,
{
    assert forall|i: int| 0 <= i < records.filter(pending_pred(completed)).len() implies (
    #[trigger] records.filter(pending_pred(completed))[i]).filename@ != f by {
        records.lemma_filter_pred(pending_pred(completed), i);
    }
}

// ---------------------------------------------------------------------------
// Keyword normalization: one copy of each keyword, in order.
// ---------------------------------------------------------------------------

/// Lexicographic (code-point) order on character strings — the order in
/// which keyword lists are persisted.
pub open spec fn lex_le(a: Seq<char>, b: Seq<char>) -> bool
    decreases a.len(),
{
    if a.len() == 0 {
        true
    } else if b.len() == 0 {
        false
    } else if a.first() != b.first() {
        (a.first() as u32) < (b.first() as u32)
    } else {
        lex_le(a.drop_first(), b.drop_first())
    }
}

/// A string list in non-decreasing lexicographic order.
pub open spec fn sorted_strings(s: Seq<Seq<char>>) -> bool {
    forall|i: int, j: int| 0 <= i < j < s.len() ==> lex_le(#[trigger] s[i], #[trigger] s[j])
}

/// Relies on slice::sort for String values: the list is reordered into
/// non-decreasing order — String comparison is byte-wise, which for valid
/// text is code-point order — and holds exactly the same strings.
#[verifier::external_body]
fn sort_strings(v: &mut Vec<String>)
    ensures
        files_view(final(v)@).to_multiset() == files_view(old(v)@).to_multiset(),
        sorted_strings(files_view(final(v)@)),
{
    v.sort();
}

/// Normalize a keyword list the way records persist it: one copy of each
/// keyword, in lexicographic order.
pub fn sort_dedup_keywords(keywords: Vec<String>) -> (r: Vec<String>)
    ensures
        sorted_strings(files_view(r@)),
        files_view(r@).no_duplicates(),
        forall|x: Seq<char>| files_view(r@).contains(x) <==> files_view(keywords@).contains(x),
{
    let mut uniq: Vec<String> = Vec::new();
    let n = keywords.len();
    let mut i: usize = 0;
    while i < n
        invariant
            n == keywords@.len(),
            i <= n,
            files_view(uniq@).no_duplicates(),
            forall|x: Seq<char>|
                files_view(uniq@).contains(x) <==> files_view(keywords@).take(i as int).contains(
                    x,
                ),
        decreases n - i,
    {
        let ghost kw = keywords@[i as int]@;
        let ghost before = files_view(uniq@);
        let ghost seen = files_view(keywords@).take(i as int);
        proof {
            assert(files_view(keywords@).take(i + 1) =~= seen.push(kw));
            vstd::seq_lib::lemma_seq_contains_after_push(seen, kw, kw);
        }
        if !contains_string(&uniq, &keywords[i]) {
            uniq.push(keywords[i].clone());
            proof {
                assert(files_view(uniq@) =~= before.push(kw));
                assert forall|a: int, b: int|
                    0 <= a < files_view(uniq@).len() && 0 <= b < files_view(uniq@).len() && a != b
                        implies files_view(uniq@)[a] != files_view(uniq@)[b] by {
                    if b == before.len() {
                        assert(before.contains(files_view(uniq@)[a])
                            == seen.contains(files_view(uniq@)[a]));
                    } else if a == before.len() {
                        assert(before.contains(files_view(uniq@)[b])
                            == seen.contains(files_view(uniq@)[b]));
                    }
                }
            }
        }
        proof {
            assert forall|x: Seq<char>|
                files_view(uniq@).contains(x) <==> files_view(keywords@).take(i + 1).contains(
                    x,
                ) by {
                vstd::seq_lib::lemma_seq_contains_after_push(seen, kw, x);
                if files_view(uniq@).len() > before.len() {
                    vstd::seq_lib::lemma_seq_contains_after_push(before, kw, x);
                }
            }
        }
        i = i + 1;
    }
    proof {
        assert(files_view(keywords@).take(n as int) =~= files_view(keywords@));
    }
    let ghost before_sort = files_view(uniq@);
    sort_strings(&mut uniq);
    proof {
        broadcast use vstd::seq_lib::to_multiset_contains;

        assert forall|x: Seq<char>| files_view(uniq@).contains(x) implies files_view(
            keywords@,
        ).contains(x) by {
            assert(files_view(uniq@).to_multiset().count(x) > 0);
            assert(before_sort.to_multiset().count(x) > 0);
            assert(before_sort.contains(x));
        }
        assert forall|x: Seq<char>| files_view(keywords@).contains(x) implies files_view(
            uniq@,
        ).contains(x) by {
            assert(before_sort.contains(x));
            assert(before_sort.to_multiset().count(x) > 0);
            assert(files_view(uniq@).to_multiset().count(x) > 0);
        }
        before_sort.lemma_multiset_has_no_duplicates();
        assert forall|x: Seq<char>| files_view(uniq@).to_multiset().contains(x) implies files_view(
            uniq@,
        ).to_multiset().count(x) == 1 by {
            assert(before_sort.to_multiset().contains(x));
        }
        files_view(uniq@).lemma_multiset_has_no_duplicates_conv();
    }
    uniq
}

// ---------------------------------------------------------------------------
// Keyword filtering.
// ---------------------------------------------------------------------------

/// The keyword filter applied to every backend-returned keyword list before
/// it is persisted: a minimum byte length, a deny-substring list, and an
/// optional allow-substring list.
#[derive(Debug, Clone)]
pub struct KeywordFilter {
    /// A keyword whose lowercase form holds any of these is dropped.
    pub blocklist: Vec<String>,
    /// When non-empty, a keyword is kept only if its lowercase form holds
    /// one of these (compared in lowercase).
    pub allowlist: Vec<String>,
    /// Keywords shorter than this many bytes are dropped.
    pub min_length: usize,
}

/// Whether one keyword passes the filter.
pub open spec fn keyword_kept(
    kw: Seq<char>,
    blocklist: Seq<Seq<char>>,
    allowlist: Seq<Seq<char>>,
    min_length: int,
) -> bool {
    &&& encode_utf8(kw).len() as usize >= min_length
    &&& forall|i: int| 0 <= i < blocklist.len() ==> !contains_seq(lower_of(kw), #[trigger] blocklist[i])
    &&& (allowlist.len() == 0 || exists|i: int|
        0 <= i < allowlist.len() && contains_seq(lower_of(kw), lower_of(#[trigger] allowlist[i])))
}

/// The predicate "this keyword passes the filter".
pub open spec fn kept_pred(
    blocklist: Seq<Seq<char>>,
    allowlist: Seq<Seq<char>>,
    min_length: int,
) -> spec_fn(String) -> bool {
    |kw: String| keyword_kept(kw@, blocklist, allowlist, min_length)
}

/// Whether the lowercased keyword holds any blocked substring.
fn blocked_by_any(lower: &String, blocklist: &Vec<String>) -> (r: bool)
    ensures
        r <==> exists|i: int|
            0 <= i < blocklist@.len() && contains_seq(lower@, (#[trigger] blocklist@[i])@),
{
    let mut i: usize = 0;
    while i < blocklist.len()
        invariant
            i <= blocklist@.len(),
            forall|j: int| 0 <= j < i ==> !contains_seq(lower@, (#[trigger] blocklist@[j])@),
        decreases blocklist@.len() - i,
    {
        if contains_sub(lower.as_str(), blocklist[i].as_str()) {
            return true;
        }
        i = i + 1;
    }
    false
}

/// Whether the lowercased keyword holds any allowed substring (compared in
/// lowercase).
fn allowed_by_any(lower: &String, allowlist: &Vec<String>) -> (r: bool)
    ensures
        r <==> exists|i: int|
            0 <= i < allowlist@.len() && contains_seq(lower@, lower_of((#[trigger] allowlist@[i])@)),
{
    let mut i: usize = 0;
    while i < allowlist.len()
        invariant
            i <= allowlist@.len(),
            forall|j: int| 0 <= j < i ==> !contains_seq(lower@, lower_of((#[trigger] allowlist@[j])@)),
        decreases allowlist@.len() - i,
    {
        let allowed = lowercase(allowlist[i].as_str());
        if contains_sub(lower.as_str(), allowed.as_str()) {
            return true;
        }
        i = i + 1;
    }
    false
}

impl Default for KeywordFilter {
    /// A filter dropping short keywords and a small set of unwanted terms,
    /// with no allowlist.
    fn default() -> (r: Self)
        ensures
            files_view(r.blocklist@) == seq!["porn"@, "xxx"@, "adult"@],
            r.allowlist@.len() == 0,
            r.min_length == 3,
    {
        let mut blocklist: Vec<String> = Vec::new();
        blocklist.push(String::from_str("porn"));
        blocklist.push(String::from_str("xxx"));
        blocklist.push(String::from_str("adult"));
        proof {
            assert(files_view(blocklist@) =~= seq!["porn"@, "xxx"@, "adult"@]);
        }
        KeywordFilter { blocklist, allowlist: Vec::new(), min_length: 3 }
    }
}

impl KeywordFilter {
    /// Keep exactly the keywords that pass the filter, in order.
    pub fn filter(&self, keywords: Vec<String>) -> (r: Vec<String>)
        ensures
            r@ == keywords@.filter(
                kept_pred(
                    files_view(self.blocklist@),
                    files_view(self.allowlist@),
                    self.min_length as int,
                ),
            ),
    {
        let ghost pred = kept_pred(
            files_view(self.blocklist@),
            files_view(self.allowlist@),
            self.min_length as int,
        );
        let mut r: Vec<String> = Vec::new();
        let n = keywords.len();
        let mut i: usize = 0;
        while i < n
            invariant
                n == keywords@.len(),
                i <= n,
                r@ == keywords@.take(i as int).filter(pred),
                pred == kept_pred(
                    files_view(self.blocklist@),
                    files_view(self.allowlist@),
                    self.min_length as int,
                ),
            decreases n - i,
        {
            proof {
                assert(keywords@.take(i + 1) =~= keywords@.take(i as int).push(
                    keywords@[i as int],
                ));
                keywords@.take(i as int).lemma_filter_push(keywords@[i as int], pred);
            }
            let kw = &keywords[i];
            let ghost kwv = keywords@[i as int]@;
            let ghost bl = files_view(self.blocklist@);
            let ghost al = files_view(self.allowlist@);
            let mut keep: bool = kw.as_str().len() >= self.min_length;
            proof {
                assert(keep == (encode_utf8(kwv).len() as usize >= self.min_length));
            }
            if keep {
                let lower = lowercase(kw.as_str());
                proof {
                    assert(lower@ == lower_of(kwv));
                }
                if blocked_by_any(&lower, &self.blocklist) {
                    keep = false;
                    proof {
                        let j = choose|j: int|
                            0 <= j < self.blocklist@.len() && contains_seq(
                                lower@,
                                (#[trigger] self.blocklist@[j])@,
                            );
                        assert(bl[j] == self.blocklist@[j]@);
                        assert(!keyword_kept(kwv, bl, al, self.min_length as int));
                    }
                } else if self.allowlist.len() > 0 {
                    keep = allowed_by_any(&lower, &self.allowlist);
                    proof {
                        assert forall|j: int| 0 <= j < bl.len() implies !contains_seq(
                            lower_of(kwv),
                            #[trigger] bl[j],
                        ) by {
                            assert(bl[j] == self.blocklist@[j]@);
                        }
                        if keep {
                            let j = choose|j: int|
                                0 <= j < self.allowlist@.len() && contains_seq(
                                    lower@,
                                    lower_of((#[trigger] self.allowlist@[j])@),
                                );
                            assert(al[j] == self.allowlist@[j]@);
                            assert(keyword_kept(kwv, bl, al, self.min_length as int));
                        } else {
                            assert forall|j: int| 0 <= j < al.len() implies !contains_seq(
                                lower_of(kwv),
                                lower_of(#[trigger] al[j]),
                            ) by {
                                assert(al[j] == self.allowlist@[j]@);
                            }
                            assert(!keyword_kept(kwv, bl, al, self.min_length as int));
                        }
                    }
                } else {
                    proof {
                        assert forall|j: int| 0 <= j < bl.len() implies !contains_seq(
                            lower_of(kwv),
                            #[trigger] bl[j],
                        ) by {
                            assert(bl[j] == self.blocklist@[j]@);
                        }
                        assert(al.len() == 0);
                        assert(keyword_kept(kwv, bl, al, self.min_length as int));
                    }
                }
            }
            proof {
                assert(keep == keyword_kept(kwv, bl, al, self.min_length as int));
                assert(keep == pred(keywords@[i as int]));
            }
            if keep {
                r.push(kw.clone());
            }
            i = i + 1;
        }
        proof {
            assert(keywords@.take(n as int) =~= keywords@);
        }
        r
    }
}

} // verus!
