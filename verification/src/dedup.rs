use vstd::prelude::*;
use vstd::seq_lib::*;
use crate::types::{ImageMetadata, DuplicateRecord, PipelineError};
use crate::file_manager::FileManager;

verus! {

// ---------------------------------------------------------------------------
// Views.
// ---------------------------------------------------------------------------

/// A cluster as mathematics: the shared hash and the filenames in order.
pub type ClusterView = (Seq<char>, Seq<Seq<char>>);

/// A filename list as a sequence of character strings.
pub open spec fn files_view(v: Seq<String>) -> Seq<Seq<char>> {
    v.map_values(|s: String| s@)
}

/// One duplicate record as mathematics.
pub open spec fn cluster_view(d: DuplicateRecord) -> ClusterView {
    (d.content_hash@, files_view(d.files@))
}

/// A duplicate record list as mathematics.
pub open spec fn clusters_view(v: Seq<DuplicateRecord>) -> Seq<ClusterView> {
    v.map_values(|d: DuplicateRecord| cluster_view(d))
}

impl Clone for DuplicateRecord {
    fn clone(&self) -> (res: Self)
        ensures
            res.content_hash == self.content_hash,
            res.files@ == self.files@,
    {
        DuplicateRecord {
            content_hash: self.content_hash.clone(),
            files: clone_string_vec(&self.files),
        }
    }
}

/// Copy a list of strings.
fn clone_string_vec(v: &Vec<String>) -> (r: Vec<String>)
    ensures
        r@ == v@,
{
    let mut r: Vec<String> = Vec::new();
    let mut i: usize = 0;
    while i < v.len()
        invariant
            i <= v@.len(),
            r@ == v@.take(i as int),
        decreases v@.len() - i,
    {
        r.push(v[i].clone());
        proof {
            assert(v@.take(i + 1) =~= v@.take(i as int).push(v@[i as int]));
        }
        i = i + 1;
    }
    proof {
        assert(v@.take(v@.len() as int) =~= v@);
    }
    r
}

// ---------------------------------------------------------------------------
// The grouping model: records grouped by content hash, groups in
// first-occurrence order, files in acquisition order.
// ---------------------------------------------------------------------------

/// Some group in `gs` carries the hash `h`.
pub open spec fn has_group(gs: Seq<ClusterView>, h: Seq<char>) -> bool {
    exists|j: int| 0 <= j < gs.len() && (#[trigger] gs[j]).0 == h
}

/// The index of the group carrying `h` (meaningful when `has_group`).
pub open spec fn group_index(gs: Seq<ClusterView>, h: Seq<char>) -> int {
    choose|j: int| 0 <= j < gs.len() && (#[trigger] gs[j]).0 == h
}

/// The hashes of a group list, in order.
pub open spec fn group_hashes(gs: Seq<ClusterView>) -> Seq<Seq<char>> {
    gs.map_values(|g: ClusterView| g.0)
}

/// The records grouped by content hash: walking the records in order, each
/// filename joins the group of its hash, or opens a new group at the end.
pub open spec fn group_records(rs: Seq<ImageMetadata>) -> Seq<ClusterView>
    decreases rs.len(),
{
    if rs.len() == 0 {
        Seq::empty()
    } else {
        let prev = group_records(rs.drop_last());
        let h = rs.last().content_hash@;
        let f = rs.last().filename@;
        if has_group(prev, h) {
            let j = group_index(prev, h);
            prev.update(j, (h, prev[j].1.push(f)))
        } else {
            prev.push((h, seq![f]))
        }
    }
}

/// No two groups carry the same hash.
pub proof fn lemma_group_records_distinct(rs: Seq<ImageMetadata>)
    ensures
        group_hashes(group_records(rs)).no_duplicates(),
    decreases rs.len(),
{
    if rs.len() > 0 {
        lemma_group_records_distinct(rs.drop_last());
        let prev = group_records(rs.drop_last());
        let h = rs.last().content_hash@;
        let gs = group_records(rs);
        if has_group(prev, h) {
            let j = group_index(prev, h);
            assert(group_hashes(gs) =~= group_hashes(prev));
        } else {
            assert(group_hashes(gs) =~= group_hashes(prev).push(h));
            assert forall|a: int, b: int|
                0 <= a < group_hashes(gs).len() && 0 <= b < group_hashes(gs).len() && a != b implies
                group_hashes(gs)[a] != group_hashes(gs)[b] by {
                if a < group_hashes(prev).len() && b < group_hashes(prev).len() {
                    assert(group_hashes(prev).no_duplicates());
                } else if b == group_hashes(prev).len() {
                    assert(prev[a].0 != h);
                } else {
                    assert(prev[b].0 != h);
                }
            }
        }
    }
}

/// There are never more groups than records.
pub proof fn lemma_group_records_count_le(rs: Seq<ImageMetadata>)
    ensures
        group_records(rs).len() <= rs.len(),
    decreases rs.len(),
{
    if rs.len() > 0 {
        lemma_group_records_count_le(rs.drop_last());
    }
}

/// Whether some group with a given hash is already listed is decided by a
/// linear search.
fn find_group(groups: &Vec<DuplicateRecord>, h: &String) -> (r: Option<usize>)
    ensures
        r matches Some(j) ==> j < groups@.len() && groups@[j as int].content_hash@ == h@,
        r is None ==> forall|j: int| 0 <= j < groups@.len() ==> (#[trigger] groups@[j]).content_hash@
            != h@,
{
    let mut i: usize = 0;
    while i < groups.len()
        invariant
            i <= groups@.len(),
            forall|j: int| 0 <= j < i ==> (#[trigger] groups@[j]).content_hash@ != h@,
        decreases groups@.len() - i,
    {
        if groups[i].content_hash == *h {
            return Some(i);
        }
        i = i + 1;
    }
    None
}

// ---------------------------------------------------------------------------
// The analyzer.
// ---------------------------------------------------------------------------

/// A group counts as duplicated when it holds more than one file.
pub open spec fn is_duplicate_cluster(g: ClusterView) -> bool {
    g.1.len() > 1
}

/// What analysis found: the counts and the duplicate clusters themselves.
pub struct DedupResult {
    /// How many records were analyzed.
    pub total_images: usize,
    /// How many distinct content hashes they carry.
    pub unique_images: usize,
    /// How many hashes are carried by more than one record.
    pub duplicate_groups: usize,
    /// How many records are redundant: one survivor is retained per group.
    pub duplicate_images: usize,
    /// The clusters of size greater than one, in first-occurrence order.
    pub duplicates: Vec<DuplicateRecord>,
}

/// Groups stored records by content hash and derives removal plans from the
/// clusters it finds.
pub struct DedupAnalyzer {
    file_manager: FileManager,
}

impl DedupAnalyzer {
    /// The root directory of the store being analyzed.
    pub closed spec fn root(&self) -> Seq<char> {
        self.file_manager.root()
    }

    /// An analyzer over the store rooted at `data_dir`.
    pub fn new(data_dir: &str) -> (r: Result<Self, PipelineError>)
        ensures
            r matches Ok(a) && a.root() == data_dir@,
    {
        match FileManager::new(data_dir) {
            Ok(file_manager) => Ok(DedupAnalyzer { file_manager }),
            Err(e) => Err(e),
        }
    }

    /// Where the blob behind `filename` is stored.
    pub fn image_path(&self, filename: &str) -> (r: String)
        ensures
            r@ == self.root() + "/images/"@ + filename@,
    {
        self.file_manager.get_image_path(filename)
    }

    /// Group `records` by content hash and report every cluster of size
    /// greater than one, with its files in acquisition order.
    pub fn analyze(&self, records: &Vec<ImageMetadata>) -> (r: DedupResult)
        ensures
            r.total_images == records@.len(),
            r.unique_images == group_records(records@).len(),
            r.unique_images == hashes_of(records@).to_set().len(),
            clusters_view(r.duplicates@) == group_records(records@).filter(
                |g: ClusterView| is_duplicate_cluster(g),
            ),
            r.duplicate_groups == r.duplicates@.len(),
            r.duplicate_images == records@.len() - group_records(records@).len(),
            r.duplicate_images == excess_sum(
                group_records(records@).filter(|g: ClusterView| is_duplicate_cluster(g)),
            ),
    {
        let mut groups: Vec<DuplicateRecord> = Vec::new();
        let n = records.len();
        let mut i: usize = 0;
        while i < n
            invariant
                n == records@.len(),
                i <= n,
                clusters_view(groups@) == group_records(records@.take(i as int)),
            decreases n - i,
        {
            let ghost prev_view = clusters_view(groups@);
            let ghost h = records@[i as int].content_hash@;
            let ghost f = records@[i as int].filename@;
            proof {
                assert(records@.take(i + 1).drop_last() =~= records@.take(i as int));
                assert(records@.take(i + 1).last() == records@[i as int]);
                lemma_group_records_distinct(records@.take(i as int));
            }
            match find_group(&groups, &records[i].content_hash) {
                Some(j) => {
                    proof {
                        assert((prev_view[j as int]).0 == h);
                        assert(has_group(prev_view, h));
                        let j0 = group_index(prev_view, h);
                        assert(group_hashes(prev_view)[j0] == group_hashes(prev_view)[j as int]);
                        assert(j0 == j as int);
                    }
                    let mut g = groups.remove(j);
                    let ghost g_files = g.files@;
                    g.files.push(records[i].filename.clone());
                    groups.insert(j, g);
                    proof {
                        assert(files_view(g_files.push(records@[i as int].filename)) =~= files_view(
                            g_files,
                        ).push(f));
                        assert(clusters_view(groups@) =~= prev_view.update(
                            j as int,
                            (h, prev_view[j as int].1.push(f)),
                        ));
                    }
                }
                None => {
                    proof {
                        assert(!has_group(prev_view, h));
                    }
                    let mut files: Vec<String> = Vec::new();
                    files.push(records[i].filename.clone());
                    groups.push(DuplicateRecord {
                        content_hash: records[i].content_hash.clone(),
                        files,
                    });
                    proof {
                        assert(files_view(seq![records@[i as int].filename]) =~= seq![f]);
                        assert(clusters_view(groups@) =~= prev_view.push((h, seq![f])));
                    }
                }
            }
            i = i + 1;
        }
        proof {
            assert(records@.take(n as int) =~= records@);
            lemma_group_records_count_le(records@);
            lemma_group_count_is_distinct_hashes(records@);
            lemma_duplicate_images_are_cluster_excess(records@);
        }
        let total_images = n;
        let unique_images = groups.len();
        let mut duplicates: Vec<DuplicateRecord> = Vec::new();
        let gn = groups.len();
        let mut k: usize = 0;
        while k < gn
            invariant
                gn == groups@.len(),
                k <= gn,
                clusters_view(groups@) == group_records(records@),
                clusters_view(duplicates@) == clusters_view(groups@.take(k as int)).filter(
                    |g: ClusterView| is_duplicate_cluster(g),
                ),
            decreases gn - k,
        {
            let ghost pred = |g: ClusterView| is_duplicate_cluster(g);
            let ghost taken = clusters_view(groups@.take(k as int));
            proof {
                assert(clusters_view(groups@.take(k + 1)) =~= taken.push(
                    cluster_view(groups@[k as int]),
                ));
                taken.lemma_filter_push(cluster_view(groups@[k as int]), pred);
            }
            if groups[k].files.len() > 1 {
                let ghost before = clusters_view(duplicates@);
                duplicates.push(groups[k].clone());
                proof {
                    assert(cluster_view(duplicates@.last()) == cluster_view(groups@[k as int]));
                    assert(clusters_view(duplicates@) =~= before.push(
                        cluster_view(groups@[k as int]),
                    ));
                }
            }
            k = k + 1;
        }
        proof {
            assert(groups@.take(gn as int) =~= groups@);
        }
        let duplicate_groups = duplicates.len();
        let duplicate_images = total_images - unique_images;
        DedupResult { total_images, unique_images, duplicate_groups, duplicate_images, duplicates }
    }
}

// ---------------------------------------------------------------------------
// Removal.
// ---------------------------------------------------------------------------

/// Everything but the first entry of a file list.
pub open spec fn tail_files(files: Seq<Seq<char>>) -> Seq<Seq<char>> {
    if files.len() == 0 {
        files
    } else {
        files.drop_first()
    }
}

/// The filenames removal deletes: within each cluster every file but the
/// first, which is retained as the canonical copy.
pub open spec fn removal_plan_of(clusters: Seq<ClusterView>) -> Seq<Seq<char>>
    decreases clusters.len(),
{
    if clusters.len() == 0 {
        Seq::empty()
    } else {
        removal_plan_of(clusters.drop_last()) + tail_files(clusters.last().1)
    }
}

/// List the filenames that removing the duplicates in `result` would delete.
/// Computing the plan touches nothing: previewing a removal is exactly this.
pub fn removal_plan(result: &DedupResult) -> (r: Vec<String>)
    ensures
        files_view(r@) == removal_plan_of(clusters_view(result.duplicates@)),
{
    let cv = &result.duplicates;
    let mut r: Vec<String> = Vec::new();
    let n = cv.len();
    let mut i: usize = 0;
    while i < n
        invariant
            n == cv@.len(),
            i <= n,
            files_view(r@) == removal_plan_of(clusters_view(cv@.take(i as int))),
        decreases n - i,
    {
        let ghost done = removal_plan_of(clusters_view(cv@.take(i as int)));
        let files = &cv[i].files;
        let fn_count = files.len();
        if fn_count > 0 {
            let mut k: usize = 1;
            proof {
                assert(files_view(files@).subrange(1, 1) =~= Seq::empty());
                assert(files_view(r@) =~= done + files_view(files@).subrange(1, 1));
            }
            while k < fn_count
                invariant
                    fn_count == files@.len(),
                    1 <= k <= fn_count,
                    files_view(r@) == done + files_view(files@).subrange(1, k as int),
                    files == &cv@[i as int].files,
                    n == cv@.len(),
                    i < n,
                decreases fn_count - k,
            {
                let ghost before = files_view(r@);
                r.push(files[k].clone());
                proof {
                    assert(files_view(r@) =~= before.push(files_view(files@)[k as int]));
                    assert(done + files_view(files@).subrange(1, k + 1) =~= (done + files_view(
                        files@,
                    ).subrange(1, k as int)).push(files_view(files@)[k as int]));
                }
                k = k + 1;
            }
            proof {
                assert(files_view(files@).subrange(1, fn_count as int) =~= tail_files(
                    files_view(files@),
                ));
            }
        } else {
            proof {
                assert(tail_files(files_view(files@)) =~= Seq::empty());
                assert(files_view(r@) =~= done + tail_files(files_view(files@)));
            }
        }
        proof {
            assert(clusters_view(cv@.take(i + 1)).drop_last() =~= clusters_view(cv@.take(i as int)));
            assert(clusters_view(cv@.take(i + 1)).last() == cluster_view(cv@[i as int]));
            assert(files_view(r@) =~= removal_plan_of(clusters_view(cv@.take(i + 1))));
        }
        i = i + 1;
    }
    proof {
        assert(cv@.take(n as int) =~= cv@);
    }
    r
}

// ---------------------------------------------------------------------------
// What the grouping means, record by record.
// ---------------------------------------------------------------------------

/// The predicate "this record carries the hash `h`".
pub open spec fn hash_pred(h: Seq<char>) -> spec_fn(ImageMetadata) -> bool {
    |m: ImageMetadata| m.content_hash@ == h
}

/// How many records carry the hash `h`.
pub open spec fn hash_count(rs: Seq<ImageMetadata>, h: Seq<char>) -> nat {
    rs.filter(hash_pred(h)).len()
}

/// The filenames of the records carrying `h`, in acquisition order.
pub open spec fn filenames_with_hash(rs: Seq<ImageMetadata>, h: Seq<char>) -> Seq<Seq<char>> {
    rs.filter(hash_pred(h)).map_values(|m: ImageMetadata| m.filename@)
}

/// How appending one record moves the per-hash count and filename list.
proof fn lemma_hash_filter_push(prev_rs: Seq<ImageMetadata>, m: ImageMetadata, h2: Seq<char>)
    ensures
        hash_count(prev_rs.push(m), h2) == hash_count(prev_rs, h2) + (if m.content_hash@ == h2 {
            1int
        } else {
            0
        }),
        filenames_with_hash(prev_rs.push(m), h2) == (if m.content_hash@ == h2 {
            filenames_with_hash(prev_rs, h2).push(m.filename@)
        } else {
            filenames_with_hash(prev_rs, h2)
        }),
{
    let pred = hash_pred(h2);
    prev_rs.lemma_filter_push(m, pred);
    assert(pred(m) == (m.content_hash@ == h2));
    if m.content_hash@ == h2 {
        assert(filenames_with_hash(prev_rs.push(m), h2) =~= filenames_with_hash(
            prev_rs,
            h2,
        ).push(m.filename@));
    }
}

/// Each group holds exactly the filenames of its hash, in acquisition order;
/// a hash has a group exactly when some record carries it.
pub proof fn lemma_group_records_characterize(rs: Seq<ImageMetadata>)
    ensures
        forall|j: int|
            0 <= j < group_records(rs).len() ==> {
                let g = #[trigger] group_records(rs)[j];
                g.1 == filenames_with_hash(rs, g.0) && g.1.len() == hash_count(rs, g.0)
                    && hash_count(rs, g.0) >= 1
            },
        forall|h: Seq<char>| #[trigger] hash_count(rs, h) >= 1 ==> has_group(group_records(rs), h),
    decreases rs.len(),
{
    if rs.len() == 0 {
        assert forall|h: Seq<char>| #[trigger] hash_count(rs, h) >= 1 implies has_group(
            group_records(rs),
            h,
        ) by {
            reveal(Seq::filter);
        }
    } else {
        let prev_rs = rs.drop_last();
        lemma_group_records_characterize(prev_rs);
        lemma_group_records_distinct(prev_rs);
        let prev = group_records(prev_rs);
        let m = rs.last();
        let h = m.content_hash@;
        let gs = group_records(rs);
        assert(prev_rs.push(m) =~= rs);
        if has_group(prev, h) {
            let j0 = group_index(prev, h);
            assert(gs == prev.update(j0, (h, prev[j0].1.push(m.filename@))));
            assert forall|j: int| 0 <= j < gs.len() implies {
                let g = #[trigger] gs[j];
                g.1 == filenames_with_hash(rs, g.0) && g.1.len() == hash_count(rs, g.0)
                    && hash_count(rs, g.0) >= 1
            } by {
                if j == j0 {
                    assert(gs[j].0 == h);
                    assert(prev[j0].1 == filenames_with_hash(prev_rs, h));
                    lemma_hash_filter_push(prev_rs, m, h);
                } else {
                    assert(gs[j] == prev[j]);
                    assert(group_hashes(prev)[j] != group_hashes(prev)[j0]);
                    assert(gs[j].0 != h);
                    lemma_hash_filter_push(prev_rs, m, gs[j].0);
                }
            }
            assert forall|h2: Seq<char>| #[trigger] hash_count(rs, h2) >= 1 implies has_group(
                gs,
                h2,
            ) by {
                if h2 == h {
                    assert(gs[j0].0 == h2);
                } else {
                    lemma_hash_filter_push(prev_rs, m, h2);
                    assert(hash_count(prev_rs, h2) >= 1);
                    let j1 = choose|j: int| 0 <= j < prev.len() && (#[trigger] prev[j]).0 == h2;
                    assert(j1 != j0);
                    assert(gs[j1].0 == h2);
                }
            }
        } else {
            assert(hash_count(prev_rs, h) == 0) by {
                if hash_count(prev_rs, h) >= 1 {
                    assert(has_group(prev, h));
                }
            }
            assert(gs == prev.push((h, seq![m.filename@])));
            assert forall|j: int| 0 <= j < gs.len() implies {
                let g = #[trigger] gs[j];
                g.1 == filenames_with_hash(rs, g.0) && g.1.len() == hash_count(rs, g.0)
                    && hash_count(rs, g.0) >= 1
            } by {
                if j == prev.len() {
                    assert(gs[j] == (h, seq![m.filename@]));
                    lemma_hash_filter_push(prev_rs, m, h);
                    let pred = hash_pred(h);
                    assert(prev_rs.filter(pred).len() == 0);
                    assert(prev_rs.filter(pred) =~= Seq::<ImageMetadata>::empty());
                    assert(filenames_with_hash(prev_rs, h) =~= Seq::<Seq<char>>::empty());
                    assert(filenames_with_hash(rs, h) =~= seq![m.filename@]);
                } else {
                    assert(gs[j] == prev[j]);
                    assert(gs[j].0 != h) by {
                        if prev[j].0 == h {
                            assert(has_group(prev, h));
                        }
                    }
                    lemma_hash_filter_push(prev_rs, m, gs[j].0);
                }
            }
            assert forall|h2: Seq<char>| #[trigger] hash_count(rs, h2) >= 1 implies has_group(
                gs,
                h2,
            ) by {
                if h2 == h {
                    assert(gs[prev.len() as int].0 == h2);
                } else {
                    lemma_hash_filter_push(prev_rs, m, h2);
                    assert(hash_count(prev_rs, h2) >= 1);
                    let j1 = choose|j: int| 0 <= j < prev.len() && (#[trigger] prev[j]).0 == h2;
                    assert(gs[j1].0 == h2);
                }
            }
        }
    }
}

/// When exactly one hash is repeated, every other record opens a group of its
/// own: the group count falls short of the record count by the repetitions.
pub proof fn lemma_group_count_single_repeat(rs: Seq<ImageMetadata>, h: Seq<char>, k: nat)
    requires
        hash_count(rs, h) == k,
        forall|h2: Seq<char>| h2 != h ==> #[trigger] hash_count(rs, h2) <= 1,
    ensures
        group_records(rs).len() + (if k >= 1 {
            (k - 1) as nat
        } else {
            0
        }) == rs.len(),
    decreases rs.len(),
{
    if rs.len() == 0 {
        reveal(Seq::filter);
        assert(group_records(rs).len() == 0);
    } else {
        let prev_rs = rs.drop_last();
        let prev = group_records(prev_rs);
        let m = rs.last();
        let gs = group_records(rs);
        assert(prev_rs.push(m) =~= rs);
        lemma_group_records_characterize(prev_rs);
        lemma_hash_filter_push(prev_rs, m, h);
        lemma_hash_filter_push(prev_rs, m, m.content_hash@);
        assert forall|h2: Seq<char>| h2 != h implies #[trigger] hash_count(prev_rs, h2) <= 1 by {
            lemma_hash_filter_push(prev_rs, m, h2);
        }
        if m.content_hash@ == h {
            assert(hash_count(prev_rs, h) == k - 1);
            lemma_group_count_single_repeat(prev_rs, h, (k - 1) as nat);
            if k >= 2 {
                assert(hash_count(prev_rs, h) >= 1);
                assert(has_group(prev, h));
                assert(gs.len() == prev.len());
            } else {
                assert(hash_count(prev_rs, h) == 0);
                assert(!has_group(prev, h)) by {
                    if has_group(prev, h) {
                        let j = group_index(prev, h);
                        assert(hash_count(prev_rs, prev[j].0) >= 1);
                    }
                }
                assert(gs.len() == prev.len() + 1);
            }
        } else {
            let h2 = m.content_hash@;
            assert(hash_count(rs, h2) >= 1);
            assert(hash_count(prev_rs, h2) == hash_count(rs, h2) - 1);
            assert(hash_count(prev_rs, h2) == 0);
            assert(hash_count(prev_rs, h) == k);
            lemma_group_count_single_repeat(prev_rs, h, k);
            assert(!has_group(prev, h2)) by {
                if has_group(prev, h2) {
                    let j = group_index(prev, h2);
                    assert(hash_count(prev_rs, prev[j].0) >= 1);
                }
            }
            assert(gs.len() == prev.len() + 1);
        }
    }
}

/// The content hashes of the records, in order.
pub open spec fn hashes_of(rs: Seq<ImageMetadata>) -> Seq<Seq<char>> {
    rs.map_values(|m: ImageMetadata| m.content_hash@)
}

/// Law: the unique-image count of an analysis is the number of distinct
/// content hashes — however often a hash repeats, its group counts once.
pub proof fn lemma_group_count_is_distinct_hashes(rs: Seq<ImageMetadata>)
    ensures
        group_records(rs).len() == hashes_of(rs).to_set().len(),
{
    lemma_group_records_characterize(rs);
    lemma_group_records_distinct(rs);
    let gs = group_records(rs);
    let gh = group_hashes(gs);
    assert forall|h: Seq<char>| gh.contains(h) implies hashes_of(rs).contains(h) by {
        let j = choose|j: int| 0 <= j < gh.len() && gh[j] == h;
        assert(gs[j].0 == h);
        assert(hash_count(rs, h) >= 1);
        let pred = hash_pred(h);
        rs.lemma_filter_pred(pred, 0);
        let kept = rs.filter(pred)[0];
        assert(rs.filter(pred).contains(kept));
        rs.lemma_filter_contains_rev(pred, kept);
        let i = choose|i: int| 0 <= i < rs.len() && rs[i] == kept;
        assert(hashes_of(rs)[i] == h);
    }
    assert forall|h: Seq<char>| hashes_of(rs).contains(h) implies gh.contains(h) by {
        let i = choose|i: int| 0 <= i < hashes_of(rs).len() && hashes_of(rs)[i] == h;
        let pred = hash_pred(h);
        assert(pred(rs[i]));
        rs.lemma_filter_contains(pred, i);
        assert(rs.filter(pred).len() >= 1) by {
            if rs.filter(pred).len() == 0 {
                assert(!rs.filter(pred).contains(rs[i]));
            }
        }
        assert(hash_count(rs, h) >= 1);
        assert(has_group(gs, h));
        let j = choose|j: int| 0 <= j < gs.len() && (#[trigger] gs[j]).0 == h;
        assert(gh[j] == h);
    }
    assert(gh.to_set() =~= hashes_of(rs).to_set());
    gh.unique_seq_to_set();
}

/// The total number of files held by a group list.
pub open spec fn sizes_sum(gs: Seq<ClusterView>) -> int
    decreases gs.len(),
{
    if gs.len() == 0 {
        0
    } else {
        sizes_sum(gs.drop_last()) + gs.last().1.len()
    }
}

/// The number of redundant files in a cluster list: one survivor is retained
/// per cluster, every further file is excess.
pub open spec fn excess_sum(gs: Seq<ClusterView>) -> int
    decreases gs.len(),
{
    if gs.len() == 0 {
        0
    } else {
        excess_sum(gs.drop_last()) + (gs.last().1.len() - 1)
    }
}

/// Replacing one group changes the total size by the difference of the two.
proof fn lemma_sizes_sum_update(gs: Seq<ClusterView>, j: int, g: ClusterView)
    requires
        0 <= j < gs.len(),
    ensures
        sizes_sum(gs.update(j, g)) == sizes_sum(gs) - gs[j].1.len() + g.1.len(),
    decreases gs.len(),
{
    if j == gs.len() - 1 {
        assert(gs.update(j, g).drop_last() =~= gs.drop_last());
    } else {
        assert(gs.update(j, g).drop_last() =~= gs.drop_last().update(j, g));
        lemma_sizes_sum_update(gs.drop_last(), j, g);
    }
}

/// The groups hold every record exactly once: the sizes add up to the
/// record count.
proof fn lemma_group_records_sizes(rs: Seq<ImageMetadata>)
    ensures
        sizes_sum(group_records(rs)) == rs.len(),
    decreases rs.len(),
{
    if rs.len() > 0 {
        lemma_group_records_sizes(rs.drop_last());
        let prev = group_records(rs.drop_last());
        let h = rs.last().content_hash@;
        let f = rs.last().filename@;
        let gs = group_records(rs);
        if has_group(prev, h) {
            let j = group_index(prev, h);
            assert(gs == prev.update(j, (h, prev[j].1.push(f))));
            lemma_sizes_sum_update(prev, j, (h, prev[j].1.push(f)));
        } else {
            assert(gs == prev.push((h, seq![f])));
            assert(gs.drop_last() =~= prev);
            assert(gs.last() == (h, seq![f]));
        }
    }
}

/// Excess is total size minus one per group.
proof fn lemma_excess_sum_vs_sizes(gs: Seq<ClusterView>)
    ensures
        excess_sum(gs) == sizes_sum(gs) - gs.len(),
    decreases gs.len(),
{
    if gs.len() > 0 {
        lemma_excess_sum_vs_sizes(gs.drop_last());
    }
}

/// When no group is empty, only the duplicated clusters carry excess.
proof fn lemma_excess_sum_filter(gs: Seq<ClusterView>)
    requires
        forall|j: int| 0 <= j < gs.len() ==> (#[trigger] gs[j]).1.len() >= 1,
    ensures
        excess_sum(gs.filter(|g: ClusterView| is_duplicate_cluster(g))) == excess_sum(gs),
    decreases gs.len(),
{
    reveal(Seq::filter);
    if gs.len() > 0 {
        lemma_excess_sum_filter(gs.drop_last());
        let pred = |g: ClusterView| is_duplicate_cluster(g);
        if pred(gs.last()) {
            assert(gs.filter(pred).drop_last() =~= gs.drop_last().filter(pred));
        } else {
            assert(gs.last().1.len() == 1);
        }
    }
}

/// Law: the redundant-image count of an analysis is the sum over the
/// duplicate clusters of (cluster size − 1) — one survivor retained per
/// cluster.
pub proof fn lemma_duplicate_images_are_cluster_excess(rs: Seq<ImageMetadata>)
    ensures
        rs.len() - group_records(rs).len() == excess_sum(
            group_records(rs).filter(|g: ClusterView| is_duplicate_cluster(g)),
        ),
{
    lemma_group_records_characterize(rs);
    lemma_group_records_sizes(rs);
    lemma_excess_sum_vs_sizes(group_records(rs));
    lemma_excess_sum_filter(group_records(rs));
}

/// A filter that holds at exactly one position keeps exactly that element.
proof fn lemma_filter_single(s: Seq<ClusterView>, pred: spec_fn(ClusterView) -> bool, j0: int)
    requires
        0 <= j0 < s.len(),
        pred(s[j0]),
        forall|j: int| 0 <= j < s.len() && j != j0 ==> !pred(#[trigger] s[j]),
    ensures
        s.filter(pred) == seq![s[j0]],
    decreases s.len(),
{
    let last = s.last();
    assert(s.drop_last().push(last) =~= s);
    s.drop_last().lemma_filter_push(last, pred);
    if j0 == s.len() - 1 {
        assert(s.drop_last().all(|g: ClusterView| !pred(g)));
        s.drop_last().lemma_all_neg_filter_empty(pred);
        assert(s.drop_last().filter(pred) =~= Seq::<ClusterView>::empty());
        assert(s.filter(pred) =~= seq![s[j0]]);
    } else {
        lemma_filter_single(s.drop_last(), pred, j0);
        assert(s.filter(pred) == s.drop_last().filter(pred));
    }
}

/// Law: on a record list where exactly one content hash — `h`, carried by `k`
/// records — is repeated, analysis yields exactly one duplicate cluster; it
/// holds the `k` filenames carrying `h` in acquisition order, the redundant
/// count is `k - 1`, and `h`'s group counts once among the distinct hashes.
pub proof fn lemma_single_repeated_hash(rs: Seq<ImageMetadata>, h: Seq<char>, k: nat)
    requires
        hash_count(rs, h) == k,
        k >= 2,
        forall|h2: Seq<char>| h2 != h ==> #[trigger] hash_count(rs, h2) <= 1,
    ensures
        group_records(rs).filter(|g: ClusterView| is_duplicate_cluster(g)) == seq![
            (h, filenames_with_hash(rs, h)),
        ],
        filenames_with_hash(rs, h).len() == k,
        group_records(rs).len() + (k - 1) == rs.len(),
    decreases rs.len(),
{
    lemma_group_records_characterize(rs);
    lemma_group_records_distinct(rs);
    lemma_group_count_single_repeat(rs, h, k);
    let gs = group_records(rs);
    assert(has_group(gs, h));
    let j0 = group_index(gs, h);
    assert(gs[j0].0 == h);
    assert(gs[j0].1 == filenames_with_hash(rs, h));
    assert(gs[j0].1.len() == k);
    let pred = |g: ClusterView| is_duplicate_cluster(g);
    assert forall|j: int| 0 <= j < gs.len() && j != j0 implies !pred(#[trigger] gs[j]) by {
        assert(group_hashes(gs)[j] != group_hashes(gs)[j0]);
        assert(gs[j].0 != h);
        assert(hash_count(rs, gs[j].0) <= 1);
        assert(gs[j].1.len() <= 1);
    }
    lemma_filter_single(gs, pred, j0);
    assert(gs[j0] == (h, filenames_with_hash(rs, h)));
}

/// Whether `s` occurs in `v`.
pub(crate) fn contains_string(v: &Vec<String>, s: &String) -> (r: bool)
    ensures
        r == files_view(v@).contains(s@),
{
    let mut i: usize = 0;
    while i < v.len()
        invariant
            i <= v@.len(),
            forall|j: int| 0 <= j < i ==> files_view(v@)[j] != s@,
        decreases v@.len() - i,
    {
        if v[i] == *s {
            assert(files_view(v@)[i as int] == s@);
            return true;
        }
        i = i + 1;
    }
    false
}

/// The records whose filenames were not marked for deletion — exactly what
/// the metadata log holds after a removal pass rewrites it.
pub fn filter_records(records: &Vec<ImageMetadata>, removed: &Vec<String>) -> (r: Vec<
    ImageMetadata,
>)
    ensures
        r@ == records@.filter(
            |m: ImageMetadata| !files_view(removed@).contains(m.filename@),
        ),
{
    let ghost pred = |m: ImageMetadata| !files_view(removed@).contains(m.filename@);
    let mut r: Vec<ImageMetadata> = Vec::new();
    let n = records.len();
    let mut i: usize = 0;
    while i < n
        invariant
            n == records@.len(),
            i <= n,
            r@ == records@.take(i as int).filter(pred),
            pred == (|m: ImageMetadata| !files_view(removed@).contains(m.filename@)),
        decreases n - i,
    {
        proof {
            assert(records@.take(i + 1) =~= records@.take(i as int).push(records@[i as int]));
            records@.take(i as int).lemma_filter_push(records@[i as int], pred);
        }
        if !contains_string(removed, &records[i].filename) {
            r.push(records[i].clone());
        }
        i = i + 1;
    }
    proof {
        assert(records@.take(n as int) =~= records@);
    }
    r
}

} // verus!
