use std::collections::BTreeMap;

use split_cache::model::FdDecision;
use split_cache::model::SplitCacheLimits;
use split_cache::model::MAX_NUM_CANDIDATES;
use split_cache::split_table::SplitTable;
use split_cache::status::Mutation;
use split_cache::status::SplitInfo;
use split_cache::status::SplitKey;
use split_cache::status::Status;

const URI: &str = "s3://bucket/indexes";

fn ample() -> SplitCacheLimits {
    SplitCacheLimits {
        max_num_bytes: 10_000_000,
        max_num_splits: 100,
        num_concurrent_downloads: 1,
    }
}

fn table(limits: SplitCacheLimits) -> SplitTable {
    SplitTable::with_limits_and_existing_splits(limits, BTreeMap::new())
}

fn uri() -> String {
    URI.to_string()
}

fn is_candidate(table: &SplitTable, id: u128) -> bool {
    matches!(table.status(id), Some(Status::Candidate(_)))
}

fn is_downloading(table: &SplitTable, id: u128) -> bool {
    matches!(table.status(id), Some(Status::Downloading { .. }))
}

fn on_disk_size(table: &SplitTable, id: u128) -> Option<u64> {
    match table.status(id) {
        Some(Status::OnDisk { num_bytes }) => Some(num_bytes),
        _ => None,
    }
}

#[test]
fn new_table_is_empty() {
    let table = table(ample());
    assert_eq!(table.num_bytes(), 0);
    assert_eq!(table.num_candidates(), 0);
    assert_eq!(table.num_downloading(), 0);
    assert_eq!(table.num_on_disk(), 0);
    assert!(!table.is_out_of_limits());
    assert!(table.best_candidate().is_none());
    assert_eq!(table.limits(), ample());
}

#[test]
fn startup_files_are_on_disk_and_coldest() {
    let mut existing = BTreeMap::new();
    existing.insert(7u128, 1_000u64);
    existing.insert(3u128, 2_500u64);
    let mut table = SplitTable::with_limits_and_existing_splits(ample(), existing);
    assert_eq!(table.num_on_disk(), 2);
    assert_eq!(table.num_bytes(), 3_500);
    assert_eq!(on_disk_size(&table, 7), Some(1_000));
    assert_eq!(on_disk_size(&table, 3), Some(2_500));
    assert_eq!(
        table.split_key(3),
        Some(SplitKey {
            last_accessed: 0,
            split_ulid: 3
        })
    );
    assert_eq!(table.split_key(7).unwrap().last_accessed, 0);
    assert!(table.split_key(5).is_none());
    // Anything reported during the session is warmer than the startup files.
    table.report_at(9, uri(), 600_000_001);
    assert!(table.split_key(9).unwrap() > table.split_key(7).unwrap());
}

#[test]
fn report_backdates_by_ten_minutes() {
    let mut table = table(ample());
    table.report_at(1, uri(), 700_000_000);
    assert_eq!(table.split_key(1).unwrap().last_accessed, 100_000_000);
    table.report_at(2, uri(), 600_000_000);
    assert_eq!(table.split_key(2).unwrap().last_accessed, 0);
    table.report_at(3, uri(), 599_999_999);
    assert_eq!(table.split_key(3).unwrap().last_accessed, 0);
    table.report_at(4, uri(), u64::MAX);
    assert_eq!(
        table.split_key(4).unwrap().last_accessed,
        u64::MAX - 600_000_000
    );
    assert_eq!(table.num_candidates(), 4);
}

#[test]
fn report_leaves_a_known_split_alone() {
    let mut table = table(ample());
    table.report_at(1, uri(), 700_000_000);
    table.report_at(1, "s3://elsewhere".to_string(), 900_000_000);
    assert_eq!(table.split_key(1).unwrap().last_accessed, 100_000_000);
    match table.status(1) {
        Some(Status::Candidate(candidate)) => {
            assert_eq!(candidate.storage_uri, URI);
            assert_eq!(candidate.split_ulid, 1);
        }
        _ => panic!("a reported split is a candidate"),
    }
    table.register_as_downloaded_at(2, 500, 800_000_000);
    table.report_at(2, uri(), 900_000_000);
    assert_eq!(on_disk_size(&table, 2), Some(500));
    assert_eq!(table.split_key(2).unwrap().last_accessed, 800_000_000);
    assert_eq!(table.num_candidates(), 1);
}

#[test]
fn report_does_not_disturb_a_running_download() {
    let mut table = table(ample());
    table.report_at(1, uri(), 700_000_000);
    let candidate = table.start_download(1).unwrap();
    table.report_at(1, uri(), 900_000_000);
    assert!(is_downloading(&table, 1));
    assert_eq!(table.split_key(1).unwrap().last_accessed, 100_000_000);
    assert_eq!(candidate.split_ulid, 1);
}

#[test]
fn touch_dates_the_split_now() {
    let mut table = table(ample());
    table.report_at(1, uri(), 700_000_000);
    let status = table.touch_at(1, &uri(), 700_000_005);
    assert!(matches!(status, Status::Candidate(_)));
    assert_eq!(table.split_key(1).unwrap().last_accessed, 700_000_005);
    table.register_as_downloaded_at(1, 42, 700_000_006);
    let status = table.touch_at(1, &uri(), 700_000_009);
    assert_eq!(status, Status::OnDisk { num_bytes: 42 });
    assert_eq!(table.split_key(1).unwrap().last_accessed, 700_000_009);
}

#[test]
fn touch_creates_a_candidate_dated_now() {
    let mut table = table(ample());
    let status = table.touch_at(5, &uri(), 650_000_000);
    match status {
        Status::Candidate(candidate) => {
            assert_eq!(candidate.split_ulid, 5);
            assert_eq!(candidate.storage_uri, URI);
        }
        _ => panic!("an unknown split becomes a candidate"),
    }
    assert_eq!(
        table.split_key(5),
        Some(SplitKey {
            last_accessed: 650_000_000,
            split_ulid: 5
        })
    );
    assert!(is_candidate(&table, 5));
}

#[test]
fn touch_overrides_report_recency_at_fixed_times() {
    let mut table = table(ample());
    table.report_at(1, uri(), 700_000_000);
    table.report_at(2, uri(), 700_000_000);
    assert_eq!(table.best_candidate().unwrap().split_ulid, 2);
    table.touch_at(1, &uri(), 700_000_000);
    assert_eq!(table.best_candidate().unwrap().split_ulid, 1);
}

#[test]
fn is_on_disk_tells_the_size() {
    let mut table = table(ample());
    assert_eq!(table.is_on_disk_at(1, &uri(), 600_000_000), None);
    assert!(is_candidate(&table, 1));
    table.register_as_downloaded_at(1, 77, 600_000_001);
    assert_eq!(table.is_on_disk_at(1, &uri(), 600_000_002), Some(77));
    assert_eq!(table.split_key(1).unwrap().last_accessed, 600_000_002);
}

#[test]
fn register_as_downloaded_keeps_the_date_of_a_known_split() {
    let mut table = table(ample());
    table.report_at(1, uri(), 700_000_000);
    table.register_as_downloaded_at(1, 1_000, 800_000_000);
    assert_eq!(table.split_key(1).unwrap().last_accessed, 100_000_000);
    assert_eq!(on_disk_size(&table, 1), Some(1_000));
    assert_eq!(table.num_candidates(), 0);
    assert_eq!(table.num_on_disk(), 1);
}

#[test]
fn register_as_downloaded_dates_an_unknown_split_now() {
    let mut table = table(ample());
    table.register_as_downloaded_at(1, 1_000, 800_000_000);
    assert_eq!(table.split_key(1).unwrap().last_accessed, 800_000_000);
    assert_eq!(table.num_bytes(), 1_000);
}

#[test]
fn bytes_follow_every_change_of_size() {
    let mut table = table(ample());
    table.register_as_downloaded_at(1, 1_000, 600_000_000);
    table.register_as_downloaded_at(2, 2_000, 600_000_000);
    assert_eq!(table.num_bytes(), 3_000);
    table.register_as_downloaded_at(1, 10, 600_000_000);
    assert_eq!(table.num_bytes(), 2_010);
    table.fd_open_failed(2);
    assert_eq!(table.num_bytes(), 10);
    table.register_as_downloaded_at(3, u64::MAX - 10, 600_000_000);
    assert_eq!(table.num_bytes(), u64::MAX);
}

#[test]
fn start_download_only_for_candidates() {
    let mut table = table(ample());
    assert!(table.start_download(1).is_none());
    assert!(table.split_key(1).is_none());
    table.register_as_downloaded_at(2, 5, 600_000_000);
    assert!(table.start_download(2).is_none());
    assert_eq!(on_disk_size(&table, 2), Some(5));
    table.report_at(3, "s3://there".to_string(), 700_000_000);
    let candidate = table.start_download(3).unwrap();
    assert_eq!(candidate.split_ulid, 3);
    assert_eq!(candidate.storage_uri, "s3://there");
    assert!(is_downloading(&table, 3));
    assert_eq!(table.split_key(3).unwrap().last_accessed, 100_000_000);
    assert_eq!(table.num_candidates(), 0);
    assert_eq!(table.num_downloading(), 1);
    assert!(table.start_download(3).is_none());
    assert!(is_downloading(&table, 3));
}

#[test]
fn each_split_is_in_one_queue() {
    let mut table = table(ample());
    table.report_at(1, uri(), 700_000_000);
    table.report_at(2, uri(), 700_000_000);
    table.report_at(3, uri(), 700_000_000);
    let _download = table.start_download(2);
    table.register_as_downloaded_at(3, 9, 700_000_000);
    table.register_as_downloaded_at(4, 1, 700_000_000);
    assert_eq!(table.num_candidates(), 1);
    assert_eq!(table.num_downloading(), 1);
    assert_eq!(table.num_on_disk(), 2);
    assert!(is_candidate(&table, 1));
    assert!(is_downloading(&table, 2));
    assert_eq!(on_disk_size(&table, 3), Some(9));
    assert_eq!(on_disk_size(&table, 4), Some(1));
    assert_eq!(table.num_bytes(), 10);
}

#[test]
fn candidates_are_capped_and_the_coldest_goes() {
    let mut table = table(ample());
    for id in 1..=2_000u128 {
        table.report_at(id, uri(), 700_000_000);
        let expected = if id < 1_000 { id as usize } else { MAX_NUM_CANDIDATES };
        assert_eq!(table.num_candidates(), expected);
    }
    // With one date for all, the survivors are the thousand greatest ids.
    assert!(table.split_key(1_000).is_none());
    assert!(table.split_key(1).is_none());
    assert!(is_candidate(&table, 1_001));
    assert!(is_candidate(&table, 2_000));
    assert_eq!(table.best_candidate().unwrap().split_ulid, 2_000);
}

#[test]
fn a_candidate_colder_than_a_full_queue_is_turned_away() {
    let mut table = table(ample());
    for id in 1..=1_000u128 {
        table.touch_at(id, &uri(), 900_000_000);
    }
    assert_eq!(table.num_candidates(), 1_000);
    // Reported now, so dated ten minutes before the touched ones.
    table.report_at(5_000, uri(), 900_000_000);
    assert!(table.split_key(5_000).is_none());
    assert_eq!(table.num_candidates(), 1_000);
    assert!(is_candidate(&table, 1));
    // A warmer one displaces the coldest, which is the smallest id.
    table.touch_at(6_000, &uri(), 900_000_000);
    assert!(is_candidate(&table, 6_000));
    assert!(table.split_key(1).is_none());
    assert_eq!(table.num_candidates(), 1_000);
}

#[test]
fn an_empty_disk_is_within_limits() {
    let mut table = table(SplitCacheLimits {
        max_num_bytes: 10,
        max_num_splits: 1,
        num_concurrent_downloads: 1,
    });
    table.report_at(1, uri(), 700_000_000);
    table.report_at(2, uri(), 700_000_000);
    let _first = table.start_download(1).unwrap();
    let _second = table.start_download(2).unwrap();
    assert_eq!(table.num_downloading(), 2);
    assert!(!table.is_out_of_limits());
    table.register_as_downloaded_at(1, 5, 700_000_000);
    // One on disk and one in download: two splits where one is allowed.
    assert!(table.is_out_of_limits());
}

#[test]
fn out_of_limits_by_bytes_or_by_count() {
    let mut table = table(SplitCacheLimits {
        max_num_bytes: 100,
        max_num_splits: 2,
        num_concurrent_downloads: 1,
    });
    table.register_as_downloaded_at(1, 100, 600_000_000);
    assert!(!table.is_out_of_limits());
    table.register_as_downloaded_at(1, 101, 600_000_000);
    assert!(table.is_out_of_limits());
    table.register_as_downloaded_at(1, 1, 600_000_000);
    table.register_as_downloaded_at(2, 1, 600_000_000);
    assert!(!table.is_out_of_limits());
    table.register_as_downloaded_at(3, 1, 600_000_000);
    assert!(table.is_out_of_limits());
}

#[test]
fn make_room_evicts_the_coldest_first() {
    let mut table = table(SplitCacheLimits {
        max_num_bytes: 100,
        max_num_splits: 10,
        num_concurrent_downloads: 1,
    });
    table.register_as_downloaded_at(1, 60, 600_000_003);
    table.register_as_downloaded_at(2, 60, 600_000_001);
    table.register_as_downloaded_at(3, 60, 600_000_002);
    let evicted = table.make_room_for_split_if_necessary(None).unwrap();
    assert_eq!(evicted, vec![2, 3]);
    assert!(table.split_key(2).is_none());
    assert!(table.split_key(3).is_none());
    assert_eq!(on_disk_size(&table, 1), Some(60));
    assert_eq!(table.num_bytes(), 60);
    // Within limits now: nothing more to evict.
    assert_eq!(table.make_room_for_split_if_necessary(None), Some(vec![]));
}

#[test]
fn make_room_never_evicts_past_the_bound() {
    let mut table = table(SplitCacheLimits {
        max_num_bytes: 100,
        max_num_splits: 10,
        num_concurrent_downloads: 1,
    });
    table.register_as_downloaded_at(1, 60, 600_000_001);
    table.register_as_downloaded_at(2, 60, 600_000_005);
    table.register_as_downloaded_at(3, 60, 600_000_009);
    // Evicting the split dated 1 is not enough, and the next is warmer than the bound.
    assert_eq!(table.make_room_for_split_if_necessary(Some(600_000_004)), None);
    assert_eq!(table.num_on_disk(), 3);
    assert_eq!(table.num_bytes(), 180);
    assert_eq!(on_disk_size(&table, 1), Some(60));
    assert_eq!(table.split_key(1).unwrap().last_accessed, 600_000_001);
    // A bound equal to the date still allows the eviction.
    assert_eq!(
        table.make_room_for_split_if_necessary(Some(600_000_005)),
        Some(vec![1, 2])
    );
    assert_eq!(table.num_bytes(), 60);
}

#[test]
fn no_opportunity_without_a_candidate() {
    let mut table = table(ample());
    assert!(table.find_download_opportunity().is_none());
    table.register_as_downloaded_at(1, 60, 600_000_001);
    assert!(table.find_download_opportunity().is_none());
    assert_eq!(table.num_on_disk(), 1);
}

#[test]
fn no_opportunity_when_the_disk_is_warmer() {
    let mut table = table(SplitCacheLimits {
        max_num_bytes: 100,
        max_num_splits: 10,
        num_concurrent_downloads: 1,
    });
    table.register_as_downloaded_at(1, 60, 900_000_000);
    table.register_as_downloaded_at(2, 60, 900_000_000);
    // Reported at the same time, so dated ten minutes before the files.
    table.report_at(3, uri(), 900_000_000);
    assert!(table.find_download_opportunity().is_none());
    assert!(is_candidate(&table, 3));
    assert_eq!(table.num_on_disk(), 2);
    assert_eq!(table.num_bytes(), 120);
    // Once touched, the candidate is as warm as the files and room is made for it.
    table.touch_at(3, &uri(), 900_000_000);
    let found = table.find_download_opportunity().unwrap();
    assert_eq!(found.splits_to_delete, vec![1]);
    assert_eq!(found.split_to_download.split_ulid, 3);
    assert!(is_downloading(&table, 3));
    assert_eq!(table.num_bytes(), 60);
}

#[test]
fn the_warmest_candidate_is_picked() {
    let mut table = table(ample());
    table.report_at(1, uri(), 700_000_009);
    table.report_at(2, uri(), 700_000_001);
    table.report_at(3, uri(), 700_000_005);
    let found = table.find_download_opportunity().unwrap();
    assert_eq!(found.split_to_download.split_ulid, 1);
    assert!(found.splits_to_delete.is_empty());
    let found = table.find_download_opportunity().unwrap();
    assert_eq!(found.split_to_download.split_ulid, 3);
    let found = table.find_download_opportunity().unwrap();
    assert_eq!(found.split_to_download.split_ulid, 2);
    assert!(table.find_download_opportunity().is_none());
    assert_eq!(table.num_downloading(), 3);
}

#[test]
fn abandoned_downloads_are_collected_past_the_margin() {
    let mut table = table(ample());
    for id in 1..=11u128 {
        table.report_at(id, uri(), 700_000_000);
        let candidate = table.start_download(id).unwrap();
        std::mem::drop(candidate);
    }
    // Eleven abandoned downloads: within one concurrent download and a margin of ten.
    assert_eq!(table.num_downloading(), 11);
    table.report_at(100, uri(), 700_000_000);
    assert_eq!(table.num_downloading(), 11);
    // A twelfth download outgrows the margin, and the abandoned ones go.
    let kept = table.start_download(100).unwrap();
    assert_eq!(table.num_downloading(), 1);
    assert!(is_downloading(&table, 100));
    assert!(table.split_key(1).is_none());
    assert_eq!(kept.split_ulid, 100);
}

#[test]
fn running_downloads_survive_the_collection() {
    let mut table = table(ample());
    let mut tokens = Vec::new();
    for id in 1..=12u128 {
        table.report_at(id, uri(), 700_000_000);
        tokens.push(table.start_download(id).unwrap());
    }
    table.report_at(100, uri(), 700_000_000);
    let _last = table.start_download(100).unwrap();
    assert_eq!(table.num_downloading(), 13);
    assert_eq!(tokens.len(), 12);
}

#[test]
fn an_abandoned_download_counts_as_unknown() {
    let mut table = table(ample());
    table.report_at(1, uri(), 700_000_000);
    std::mem::drop(table.start_download(1).unwrap());
    // A touch finds the download abandoned and makes a fresh candidate.
    let status = table.touch_at(1, &uri(), 800_000_000);
    assert!(matches!(status, Status::Candidate(_)));
    assert_eq!(table.split_key(1).unwrap().last_accessed, 800_000_000);
    // The returned candidate shares the token: it has to go too.
    std::mem::drop(status);
    std::mem::drop(table.start_download(1).unwrap());
    // So does the registration of a file: it is dated now.
    table.register_as_downloaded_at(1, 3, 900_000_000);
    assert_eq!(table.split_key(1).unwrap().last_accessed, 900_000_000);
    assert_eq!(on_disk_size(&table, 1), Some(3));
}

#[test]
fn a_copy_of_the_status_does_not_keep_a_download_alive() {
    let mut table = table(ample());
    table.report_at(1, uri(), 700_000_000);
    let candidate = table.start_download(1).unwrap();
    let copy = table.status(1).unwrap();
    std::mem::drop(candidate);
    table.report_at(1, uri(), 800_000_000);
    assert!(is_candidate(&table, 1));
    assert_eq!(table.split_key(1).unwrap().last_accessed, 200_000_000);
    assert!(matches!(copy, Status::Downloading { .. }));
}

#[test]
fn fd_decisions() {
    let mut table = table(ample());
    assert_eq!(
        table.try_get_or_open_fd_at(1, &uri(), 700_000_000),
        FdDecision::Absent
    );
    assert!(is_candidate(&table, 1));
    table.register_as_downloaded_at(1, 123, 700_000_001);
    assert_eq!(
        table.try_get_or_open_fd_at(1, &uri(), 700_000_002),
        FdDecision::Open { num_bytes: 123 }
    );
    assert_eq!(table.split_key(1).unwrap().last_accessed, 700_000_002);
    assert!(!table.has_open_fd(1));
    assert!(table.fd_opened(1, 123));
    assert!(table.has_open_fd(1));
    assert_eq!(
        table.try_get_or_open_fd_at(1, &uri(), 700_000_009),
        FdDecision::Cached { num_bytes: 123 }
    );
    // A hit is no access to the split.
    assert_eq!(table.split_key(1).unwrap().last_accessed, 700_000_002);
}

#[test]
fn only_files_of_on_disk_splits_are_remembered() {
    let mut table = table(ample());
    assert!(!table.fd_opened(1, 5));
    assert!(!table.has_open_fd(1));
    table.report_at(2, uri(), 700_000_000);
    assert!(!table.fd_opened(2, 5));
    assert!(!table.has_open_fd(2));
}

#[test]
fn a_mutation_forgets_the_open_file() {
    let mut table = table(ample());
    table.register_as_downloaded_at(1, 5, 700_000_000);
    table.register_as_downloaded_at(2, 5, 700_000_000);
    assert!(table.fd_opened(1, 5));
    assert!(table.fd_opened(2, 5));
    table.touch_at(1, &uri(), 700_000_001);
    assert!(!table.has_open_fd(1));
    assert!(table.has_open_fd(2));
    // A refused start of a download changes nothing.
    assert!(table.start_download(2).is_none());
    assert!(table.has_open_fd(2));
}

#[test]
fn eviction_forgets_the_open_file() {
    let mut table = table(SplitCacheLimits {
        max_num_bytes: 100,
        max_num_splits: 10,
        num_concurrent_downloads: 1,
    });
    table.register_as_downloaded_at(1, 60, 600_000_001);
    table.register_as_downloaded_at(2, 60, 600_000_002);
    assert!(table.fd_opened(1, 60));
    assert!(table.fd_opened(2, 60));
    // No room can be made under this bound: the files stay remembered.
    assert_eq!(table.make_room_for_split_if_necessary(Some(600_000_000)), None);
    assert!(table.has_open_fd(1));
    assert_eq!(table.make_room_for_split_if_necessary(None), Some(vec![1]));
    assert!(!table.has_open_fd(1));
    assert!(table.has_open_fd(2));
}

#[test]
fn the_fd_cache_holds_a_hundred_files() {
    let mut table = table(SplitCacheLimits {
        max_num_bytes: 10_000_000,
        max_num_splits: 1_000,
        num_concurrent_downloads: 1,
    });
    for id in 1..=101u128 {
        table.register_as_downloaded_at(id, 1, 600_000_000);
    }
    for id in 1..=100u128 {
        assert!(table.fd_opened(id, 1));
    }
    for id in 1..=100u128 {
        assert!(table.has_open_fd(id));
    }
    // Using the first again makes the second the least recently used.
    assert_eq!(
        table.try_get_or_open_fd_at(1, &uri(), 600_000_000),
        FdDecision::Cached { num_bytes: 1 }
    );
    assert!(table.fd_opened(101, 1));
    assert!(table.has_open_fd(101));
    assert!(table.has_open_fd(1));
    assert!(!table.has_open_fd(2));
    assert!(table.has_open_fd(3));
    // The split whose file was forgotten is still on disk.
    assert_eq!(on_disk_size(&table, 2), Some(1));
}

#[test]
fn a_file_that_cannot_be_opened_leaves_the_table() {
    let mut table = table(ample());
    table.register_as_downloaded_at(1, 10, 600_000_000);
    assert!(table.fd_opened(1, 10));
    table.fd_open_failed(1);
    assert!(table.split_key(1).is_none());
    assert!(!table.has_open_fd(1));
    assert_eq!(table.num_bytes(), 0);
    table.report_at(2, uri(), 700_000_000);
    table.fd_open_failed(2);
    assert!(is_candidate(&table, 2));
    table.fd_open_failed(3);
    assert!(table.split_key(3).is_none());
}

#[test]
fn the_clock_version_reads_a_time_at_or_after_the_offset() {
    let mut table = table(ample());
    table.touch(1, &uri());
    let first = table.split_key(1).unwrap().last_accessed;
    table.touch(2, &uri());
    let second = table.split_key(2).unwrap().last_accessed;
    assert!(first >= 600_000_000);
    assert!(second >= first);
    table.report(3, uri());
    let reported = table.split_key(3).unwrap().last_accessed;
    assert!(reported < first);
    assert_eq!(table.try_get_or_open_fd(4, &uri()), FdDecision::Absent);
    assert!(table.split_key(4).unwrap().last_accessed >= second);
}

#[test]
fn a_file_is_remembered_only_with_the_size_of_its_split() {
    let mut table = table(ample());
    table.register_as_downloaded_at(1, 7, 600_000_000);
    assert!(!table.fd_opened(1, 5));
    assert!(!table.has_open_fd(1));
    assert_eq!(
        table.try_get_or_open_fd_at(1, &uri(), 600_000_001),
        FdDecision::Open { num_bytes: 7 }
    );
    assert!(table.fd_opened(1, 7));
    assert_eq!(
        table.try_get_or_open_fd_at(1, &uri(), 600_000_002),
        FdDecision::Cached { num_bytes: 7 }
    );
    // A new size forgets the file that was opened for the old one.
    table.register_as_downloaded_at(1, 9, 600_000_003);
    assert!(!table.has_open_fd(1));
    assert!(!table.fd_opened(1, 7));
    assert_eq!(
        table.try_get_or_open_fd_at(1, &uri(), 600_000_004),
        FdDecision::Open { num_bytes: 9 }
    );
}

#[test]
fn downloads_given_as_abandoned_count_as_unknown() {
    let mut table = table(ample());
    table.report_at(1, uri(), 700_000_000);
    table.report_at(2, uri(), 700_000_000);
    let _first = table.start_download(1).unwrap();
    let _second = table.start_download(2).unwrap();
    // Both tokens are held, and the list decides all the same.
    table.report_with(1, uri(), 900_000_000, &vec![1]);
    assert!(is_candidate(&table, 1));
    assert_eq!(table.split_key(1).unwrap().last_accessed, 300_000_000);
    table.report_with(2, uri(), 900_000_000, &vec![1, 7]);
    assert!(is_downloading(&table, 2));
    assert_eq!(table.split_key(2).unwrap().last_accessed, 100_000_000);
    let status = table.touch_with(2, &uri(), 900_000_001, &vec![]);
    assert!(matches!(status, Status::Downloading { .. }));
    assert_eq!(table.split_key(2).unwrap().last_accessed, 900_000_001);
    let status = table.touch_with(2, &uri(), 900_000_002, &vec![2]);
    assert!(matches!(status, Status::Candidate(_)));
    assert_eq!(table.split_key(2).unwrap().last_accessed, 900_000_002);
}

#[test]
fn a_list_of_abandoned_downloads_touches_nothing_else() {
    let mut table = table(ample());
    table.report_at(1, uri(), 700_000_000);
    table.register_as_downloaded_at(2, 5, 700_000_000);
    // A candidate and a file are never abandoned, whatever the list says.
    table.report_with(1, uri(), 900_000_000, &vec![1, 2]);
    assert_eq!(table.split_key(1).unwrap().last_accessed, 100_000_000);
    assert_eq!(table.is_on_disk_with(2, &uri(), 900_000_000, &vec![1, 2]), Some(5));
    table.register_as_downloaded_with(3, 4, 900_000_000, &vec![1, 2, 3]);
    assert_eq!(on_disk_size(&table, 3), Some(4));
    assert_eq!(table.num_bytes(), 9);
    assert_eq!(
        table.try_get_or_open_fd_with(3, &uri(), 900_000_001, &vec![3]),
        FdDecision::Open { num_bytes: 4 }
    );
}

#[test]
fn listed_downloads_go_only_past_the_margin() {
    let mut table = table(ample());
    let mut tokens = Vec::new();
    for id in 1..=11u128 {
        table.report_at(id, uri(), 700_000_000);
        tokens.push(table.start_download(id).unwrap());
    }
    let listed: Vec<u128> = vec![3, 4, 50];
    // Eleven downloads are within the margin: a report collects nothing.
    table.report_with(100, uri(), 700_000_000, &listed);
    assert_eq!(table.num_downloading(), 11);
    table.report_with(101, uri(), 700_000_000, &listed);
    // A twelfth download outgrows it: the listed downloads go, and no other.
    let kept = table.start_download_with(100, &listed).unwrap();
    assert_eq!(kept.split_ulid, 100);
    assert_eq!(table.num_downloading(), 10);
    assert!(table.split_key(3).is_none());
    assert!(table.split_key(4).is_none());
    assert!(is_downloading(&table, 5));
    assert!(is_downloading(&table, 100));
    // At ten downloads the next start stays within the margin.
    let found = table.find_download_opportunity_with(&vec![5]).unwrap();
    assert_eq!(found.split_to_download.split_ulid, 101);
    assert!(is_downloading(&table, 5));
    assert_eq!(table.num_downloading(), 11);
    assert_eq!(tokens.len(), 11);
}

#[test]
fn abandoned_downloads_are_observed_by_their_tokens() {
    let mut table = table(ample());
    table.report_at(1, uri(), 700_000_000);
    table.report_at(2, uri(), 700_000_000);
    let first = table.start_download(1).unwrap();
    let second = table.start_download(2).unwrap();
    assert!(table.observe_abandoned(1).is_empty());
    std::mem::drop(first);
    assert_eq!(table.observe_abandoned(1), vec![1]);
    // Within the margin only the split asked about is looked at.
    assert!(table.observe_abandoned(2).is_empty());
    assert!(table.observe_abandoned(9).is_empty());
    for id in 10..=18u128 {
        table.report_at(id, uri(), 700_000_000);
        std::mem::drop(table.start_download(id).unwrap());
    }
    // Eleven downloads: one more would outgrow the margin, so all are looked at.
    assert_eq!(table.num_downloading(), 11);
    let mut observed = table.observe_abandoned(2);
    observed.sort();
    assert_eq!(observed, vec![1, 10, 11, 12, 13, 14, 15, 16, 17, 18]);
    assert_eq!(second.split_ulid, 2);
}

fn on_disk_record(id: u128, last_accessed: u64, num_bytes: u64) -> SplitInfo {
    SplitInfo {
        split_key: SplitKey {
            last_accessed,
            split_ulid: id,
        },
        status: Status::OnDisk { num_bytes },
    }
}

#[test]
fn insert_and_remove_keep_the_queues_and_the_bytes() {
    let mut table = table(ample());
    table.insert(on_disk_record(1, 5, 100), &vec![]);
    table.insert(on_disk_record(2, 6, 50), &vec![]);
    assert_eq!(table.num_on_disk(), 2);
    assert_eq!(table.num_bytes(), 150);
    assert!(table.fd_opened(1, 100));
    let taken = table.remove(1, &vec![]).unwrap();
    assert_eq!(taken.split_key.last_accessed, 5);
    assert_eq!(taken.status, Status::OnDisk { num_bytes: 100 });
    assert_eq!(table.num_on_disk(), 1);
    assert_eq!(table.num_bytes(), 50);
    assert!(!table.has_open_fd(1));
    assert!(table.remove(1, &vec![]).is_none());
    assert!(table.remove(9, &vec![9]).is_none());
    assert_eq!(table.num_bytes(), 50);
    // A download that the list names is handed back as nothing, and is gone.
    table.report_at(3, uri(), 700_000_000);
    let _token = table.start_download(3).unwrap();
    assert!(table.remove(3, &vec![3]).is_none());
    assert!(table.split_key(3).is_none());
    assert_eq!(table.num_downloading(), 0);
}

#[test]
fn truncate_makes_room_in_a_full_queue_only() {
    let mut table = table(ample());
    for id in 1..=999u128 {
        table.touch_at(id, &uri(), 900_000_000);
    }
    assert!(table.truncate_candidate_list((5, 5_000)));
    assert_eq!(table.num_candidates(), 999);
    table.touch_at(1_000, &uri(), 900_000_000);
    // A newcomer colder than all of a full queue may not enter.
    assert!(!table.truncate_candidate_list((5, 5_000)));
    assert_eq!(table.num_candidates(), 1_000);
    assert!(is_candidate(&table, 1));
    // A warmer one may, and the coldest candidate goes for it.
    assert!(table.truncate_candidate_list((900_000_000, 5_000)));
    assert_eq!(table.num_candidates(), 999);
    assert!(table.split_key(1).is_none());
    assert!(is_candidate(&table, 2));
}

#[test]
fn mutate_split_returns_the_status_it_made() {
    let mut table = table(ample());
    let status = table.mutate_split(
        1,
        Mutation::Report {
            storage_uri: uri(),
            now: 700_000_000,
        },
        &vec![],
    );
    assert!(matches!(status, Status::Candidate(_)));
    assert_eq!(table.split_key(1).unwrap().last_accessed, 100_000_000);
    let status = table.mutate_split(
        1,
        Mutation::ChangeStatus {
            status: Status::OnDisk { num_bytes: 8 },
            now: 800_000_000,
        },
        &vec![],
    );
    assert_eq!(status, Status::OnDisk { num_bytes: 8 });
    assert_eq!(table.split_key(1).unwrap().last_accessed, 100_000_000);
    let status = table.mutate_split(
        1,
        Mutation::Touch {
            storage_uri: uri(),
            now: 800_000_001,
        },
        &vec![],
    );
    assert_eq!(status, Status::OnDisk { num_bytes: 8 });
    assert_eq!(table.split_key(1).unwrap().last_accessed, 800_000_001);
    assert_eq!(table.num_bytes(), 8);
}
