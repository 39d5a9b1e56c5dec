use meme_crawler::crawler::{
    apply_batch_outcomes, build_metadata, derive_filename, plan_batches, CrawlerConfig,
    PageOutcome,
};
use meme_crawler::dedup::{filter_records, removal_plan, DedupAnalyzer};
use meme_crawler::fetcher::{backoff_delay_secs, retry_decision, Fetcher};
use meme_crawler::file_manager::FileManager;
use meme_crawler::reverse_search::{pending_records, KeywordFilter, SearchProgress};
use meme_crawler::store::AtomicFileModel;
use meme_crawler::text::{extension_of, normalize_url, sanitize_filename, to_hex};
use meme_crawler::types::{ImageMetadata, PipelineError, Progress};

fn record(filename: &str, hash: &str, page: u32) -> ImageMetadata {
    ImageMetadata {
        filename: filename.to_string(),
        description: format!("desc {}", filename),
        url: format!("https://example.com/{}", filename),
        content_hash: hash.to_string(),
        page_number: page,
        downloaded_at: 0,
    }
}

// --- configuration -------------------------------------------------------

#[test]
fn config_defaults_and_builders() {
    let c = CrawlerConfig::new();
    assert_eq!(c.concurrency, 10);
    assert_eq!(c.timeout_secs, 30);
    assert_eq!(c.max_retries, 3);
    assert_eq!(c.batch_delay_ms, 1000);
    let c = CrawlerConfig::new().with_concurrency(4).with_timeout(7);
    assert_eq!(c.concurrency, 4);
    assert_eq!(c.timeout_secs, 7);
    assert_eq!(c.max_retries, 3);
}

// --- text utilities ------------------------------------------------------

#[test]
fn hex_encoding_is_lower_case_two_digits_per_byte() {
    assert_eq!(to_hex(&[0xbe, 0xef, 0x00, 0x0a]), "beef000a");
    assert_eq!(to_hex(&[]), "");
}

#[test]
fn sanitize_replaces_unsafe_characters() {
    assert_eq!(sanitize_filename("a/b\\c:d*e?f\"g<h>i|j"), "a_b_c_d_e_f_g_h_i_j");
    assert_eq!(sanitize_filename("plain"), "plain");
}

#[test]
fn sanitize_cuts_to_fifty_characters() {
    let long = "x".repeat(60);
    assert_eq!(sanitize_filename(&long).chars().count(), 50);
}

#[test]
fn extension_is_text_after_last_dot() {
    assert_eq!(extension_of("https://a/b.png"), "png");
    assert_eq!(extension_of("a.b.c"), "c");
    assert_eq!(extension_of("noext"), "noext");
    assert_eq!(extension_of("ends."), "");
}

#[test]
fn urls_are_normalized_against_the_base() {
    let base = "https://memes.tw";
    assert_eq!(normalize_url("https://x/y.png", base), "https://x/y.png");
    assert_eq!(normalize_url("http://x/y.png", base), "http://x/y.png");
    assert_eq!(normalize_url("//cdn/x.png", base), "https://cdn/x.png");
    assert_eq!(normalize_url("/x.png", base), "https://memes.tw/x.png");
    assert_eq!(normalize_url("x.png", base), "https://memes.tw/x.png");
}

// --- retry and backoff ---------------------------------------------------

#[test]
fn backoff_doubles_per_attempt() {
    assert_eq!(backoff_delay_secs(1), 1);
    assert_eq!(backoff_delay_secs(2), 2);
    assert_eq!(backoff_delay_secs(3), 4);
    assert_eq!(backoff_delay_secs(10), 512);
}

#[test]
fn retries_stop_when_the_budget_is_spent() {
    assert_eq!(retry_decision(0, 3), Some(1));
    assert_eq!(retry_decision(1, 3), Some(2));
    assert_eq!(retry_decision(2, 3), Some(4));
    assert_eq!(retry_decision(3, 3), None);
    assert_eq!(retry_decision(0, 0), None);
}

#[test]
fn error_taxonomy_names() {
    assert_eq!(PipelineError::TransientFetch.describe(), "transient fetch failure");
    assert_eq!(PipelineError::FetchExhausted.describe(), "fetch retries exhausted");
    assert_eq!(PipelineError::Parse.describe(), "parse failure");
    assert_eq!(PipelineError::CorruptState.describe(), "corrupt durable state");
    assert_eq!(PipelineError::Backend.describe(), "backend failure");
}

// --- batch planning and the checkpoint -----------------------------------

#[test]
fn batches_partition_the_page_range() {
    assert_eq!(plan_batches(1, 3, 2), vec![(1, 2), (3, 3)]);
    assert_eq!(plan_batches(1, 6, 2), vec![(1, 2), (3, 4), (5, 6)]);
    assert_eq!(plan_batches(5, 4, 3), vec![]);
    assert_eq!(plan_batches(7, 7, 10), vec![(7, 7)]);
}

#[test]
fn resuming_skips_completed_pages() {
    // A checkpoint that completed page 4 resumes at page 5.
    let progress = Progress {
        last_completed_page: 4,
        total_images_downloaded: 9,
        last_updated: 0,
        failed_pages: vec![],
    };
    let start = progress.last_completed_page + 1;
    let batches = plan_batches(start, 8, 3);
    assert_eq!(batches, vec![(5, 7), (8, 8)]);
    for (a, b) in batches {
        assert!(a > progress.last_completed_page);
        assert!(b > progress.last_completed_page);
    }
}

#[test]
fn checkpoint_merges_outcomes_in_order() {
    let mut progress = Progress::new();
    let outcomes = vec![
        (1u32, PageOutcome::Completed(2)),
        (2u32, PageOutcome::Failed),
        (3u32, PageOutcome::Completed(1)),
        (2u32, PageOutcome::Failed),
    ];
    apply_batch_outcomes(&mut progress, &outcomes);
    // The mark halts at the first failed page: page 3 completed, but the
    // completed range is broken at 2, so resumption will revisit it.
    assert_eq!(progress.last_completed_page, 1);
    // The counter still counts every image persisted.
    assert_eq!(progress.total_images_downloaded, 3);
    assert_eq!(progress.failed_pages, vec![2]);
}

#[test]
fn later_success_clears_a_failed_page() {
    // A prior run completed up to page 4 and failed page 5; the resumed run
    // starts at 5 and succeeds.
    let mut progress = Progress {
        last_completed_page: 4,
        total_images_downloaded: 7,
        last_updated: 0,
        failed_pages: vec![5],
    };
    let outcomes = vec![(5u32, PageOutcome::Completed(2)), (6u32, PageOutcome::Completed(1))];
    apply_batch_outcomes(&mut progress, &outcomes);
    assert_eq!(progress.last_completed_page, 6);
    assert_eq!(progress.total_images_downloaded, 10);
    assert!(progress.failed_pages.is_empty());
}

#[test]
fn failed_pages_are_recorded_once() {
    let mut progress = Progress::new();
    progress.add_failed_page(7);
    progress.add_failed_page(7);
    progress.add_failed_page(9);
    assert_eq!(progress.failed_pages, vec![7, 9]);
    assert_eq!(progress.last_completed_page, 0);
}

// --- the downloader's pure step ------------------------------------------

#[test]
fn content_hash_and_filename_are_deterministic() {
    let bytes = b"abc";
    let a = build_metadata(bytes, "https://x/pic.png", "a name", 3);
    let b = build_metadata(bytes, "https://x/pic.png", "a name", 3);
    // SHA-256 of "abc", as lower-case hex.
    assert_eq!(a.content_hash, "ba7816bf8f01cfea414140de5dae2223b00361a396177a9cb410ff61f20015ad");
    assert_eq!(a.filename, "ba7816bf_a name.png");
    assert_eq!(b.filename, a.filename);
    assert_eq!(b.content_hash, a.content_hash);
    assert_eq!(a.description, "a name");
    assert_eq!(a.url, "https://x/pic.png");
    assert_eq!(a.page_number, 3);
}

#[test]
fn filename_derivation_sanitizes_and_keeps_extension() {
    let f = derive_filename(
        "ba7816bf8f01cfea414140de5dae2223b00361a396177a9cb410ff61f20015ad",
        "a/b",
        "https://x/p.jpeg",
    );
    assert_eq!(f, "ba7816bf_a_b.jpeg");
}

// --- an acquisition pass end to end over the pure core --------------------

#[test]
fn three_pages_concurrency_two_full_run() {
    let config = CrawlerConfig::new().with_concurrency(2);
    let mut progress = Progress::new();
    let start = progress.last_completed_page + 1;
    let batches = plan_batches(start, 3, config.concurrency);
    assert_eq!(batches, vec![(1, 2), (3, 3)]);

    // One resource per page, with distinct bytes.
    let mut records: Vec<ImageMetadata> = Vec::new();
    for (batch_start, batch_end) in batches {
        let mut outcomes: Vec<(u32, PageOutcome)> = Vec::new();
        for page in batch_start..=batch_end {
            let bytes = vec![page as u8; 4];
            let url = format!("https://site/p{}.png", page);
            records.push(build_metadata(&bytes, &url, "item", page));
            outcomes.push((page, PageOutcome::Completed(1)));
        }
        apply_batch_outcomes(&mut progress, &outcomes);
    }

    assert_eq!(progress.last_completed_page, 3);
    assert_eq!(progress.total_images_downloaded, 3);
    assert!(progress.failed_pages.is_empty());
    assert_eq!(records.len(), 3);
    assert!(records[0].filename != records[1].filename);
    assert!(records[0].filename != records[2].filename);
    assert!(records[1].filename != records[2].filename);
}

// --- deduplication --------------------------------------------------------

#[test]
fn analysis_reports_one_cluster_for_one_repeated_hash() {
    let records = vec![
        record("a.png", "hash-dup", 1),
        record("b.png", "hash-b", 1),
        record("c.png", "hash-dup", 2),
        record("d.png", "hash-d", 2),
        record("e.png", "hash-dup", 3),
    ];
    let analyzer = DedupAnalyzer::new("./data").unwrap();
    let result = analyzer.analyze(&records);
    assert_eq!(result.total_images, 5);
    assert_eq!(result.unique_images, 3);
    assert_eq!(result.duplicate_groups, 1);
    assert_eq!(result.duplicate_images, 2);
    assert_eq!(result.duplicates.len(), 1);
    assert_eq!(result.duplicates[0].content_hash, "hash-dup");
    assert_eq!(result.duplicates[0].files, vec!["a.png", "c.png", "e.png"]);
}

#[test]
fn analysis_of_distinct_hashes_finds_nothing() {
    let records = vec![record("a.png", "h1", 1), record("b.png", "h2", 1)];
    let analyzer = DedupAnalyzer::new("./data").unwrap();
    let result = analyzer.analyze(&records);
    assert_eq!(result.total_images, 2);
    assert_eq!(result.unique_images, 2);
    assert_eq!(result.duplicate_groups, 0);
    assert_eq!(result.duplicate_images, 0);
    assert!(result.duplicates.is_empty());
}

#[test]
fn removal_keeps_the_first_of_each_cluster() {
    let records = vec![
        record("a.png", "hash-dup", 1),
        record("b.png", "hash-b", 1),
        record("c.png", "hash-dup", 2),
        record("d.png", "hash-d", 2),
        record("e.png", "hash-dup", 3),
    ];
    let analyzer = DedupAnalyzer::new("./data").unwrap();
    let result = analyzer.analyze(&records);

    // The plan lists every file of the cluster but the first, and computing
    // it mutates nothing.
    let plan = removal_plan(&result);
    assert_eq!(plan, vec!["c.png", "e.png"]);
    assert_eq!(records.len(), 5);

    // The rewritten log holds exactly the records not marked for deletion.
    let kept = filter_records(&records, &plan);
    let kept_names: Vec<&str> = kept.iter().map(|m| m.filename.as_str()).collect();
    assert_eq!(kept_names, vec!["a.png", "b.png", "d.png"]);
}

#[test]
fn image_paths_sit_under_the_images_directory() {
    let fm = FileManager::new("./data").unwrap();
    assert_eq!(fm.get_image_path("x.png"), "./data/images/x.png");
    let analyzer = DedupAnalyzer::new("./data").unwrap();
    assert_eq!(analyzer.image_path("x.png"), "./data/images/x.png");
}

// --- enrichment -----------------------------------------------------------

#[test]
fn completed_items_are_never_pending() {
    let records = vec![record("a.png", "h1", 1), record("b.png", "h2", 1), record("c.png", "h3", 2)];
    let mut progress = SearchProgress::new();
    progress.add_completed("b.png".to_string());
    assert!(progress.is_completed("b.png"));
    assert!(!progress.is_completed("a.png"));

    let pending = pending_records(&records, &progress);
    let names: Vec<&str> = pending.iter().map(|m| m.filename.as_str()).collect();
    assert_eq!(names, vec!["a.png", "c.png"]);
}

#[test]
fn completion_is_recorded_once() {
    let mut progress = SearchProgress::new();
    progress.add_completed("a.png".to_string());
    progress.add_completed("a.png".to_string());
    assert_eq!(progress.completed_files, vec!["a.png"]);
}

#[test]
fn keyword_filter_example() {
    let filter = KeywordFilter {
        blocklist: vec!["xxx".to_string()],
        allowlist: vec![],
        min_length: 3,
    };
    let kept = filter.filter(vec!["xxx".to_string(), "ab".to_string(), "cats".to_string()]);
    assert_eq!(kept, vec!["cats"]);
}

#[test]
fn keyword_filter_compares_in_lower_case() {
    let filter = KeywordFilter {
        blocklist: vec!["xxx".to_string()],
        allowlist: vec![],
        min_length: 3,
    };
    // Blocking sees through case and through surrounding text.
    let kept = filter.filter(vec!["XXXy".to_string(), "foXXXes".to_string(), "fine".to_string()]);
    assert_eq!(kept, vec!["fine"]);
}

#[test]
fn keyword_filter_allowlist_restricts() {
    let filter = KeywordFilter {
        blocklist: vec![],
        allowlist: vec!["Cat".to_string()],
        min_length: 3,
    };
    let kept = filter.filter(vec![
        "wildcats".to_string(),
        "dogs".to_string(),
        "CATS".to_string(),
    ]);
    assert_eq!(kept, vec!["wildcats", "CATS"]);
}

#[test]
fn keywords_are_deduplicated_and_sorted() {
    let keywords = vec![
        "meme".to_string(),
        "cat".to_string(),
        "meme".to_string(),
        "Art".to_string(),
        "cat".to_string(),
    ];
    let normalized = meme_crawler::reverse_search::sort_dedup_keywords(keywords);
    // One copy of each, in code-point order (upper case sorts first).
    assert_eq!(normalized, vec!["Art", "cat", "meme"]);
}

#[test]
fn keyword_filter_defaults() {
    let filter = KeywordFilter::default();
    assert_eq!(filter.blocklist, vec!["porn", "xxx", "adult"]);
    assert!(filter.allowlist.is_empty());
    assert_eq!(filter.min_length, 3);
}

// --- the durable store's save protocol ------------------------------------

#[test]
fn interrupted_save_keeps_the_prior_checkpoint() {
    let mut file = AtomicFileModel::new();
    file.write_temp(vec![1, 2, 3]);
    file.commit();
    assert_eq!(file.read(), Some(&vec![1, 2, 3]));

    // A save cut short right after the temporary write: the canonical
    // content is still the prior checkpoint, whole.
    file.write_temp(vec![4, 5]);
    assert_eq!(file.read(), Some(&vec![1, 2, 3]));

    // Completing the rename installs the new value in full.
    file.commit();
    assert_eq!(file.read(), Some(&vec![4, 5]));
}

// --- the fetch capability can be implemented and driven --------------------

struct CannedFetcher {
    body: String,
}

impl Fetcher for CannedFetcher {
    fn fetch_page(&self, _url: &str) -> Result<String, PipelineError> {
        Ok(self.body.clone())
    }
}

#[test]
fn a_fetcher_implementation_serves_pages() {
    let fetcher = CannedFetcher { body: "<html></html>".to_string() };
    assert_eq!(fetcher.fetch_page("https://x").unwrap(), "<html></html>");
}
