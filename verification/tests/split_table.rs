use std::collections::BTreeMap;

use bytesize::ByteSize;
use split_cache::model::SplitCacheLimits;
use split_cache::split_table::SplitTable;
use split_cache::status::DownloadOpportunity;
use ulid::Ulid;

const TEST_STORAGE_URI: &str = "s3://test";

fn uri(text: &str) -> String {
    text.to_string()
}

fn sorted_split_ulids(num_splits: usize) -> Vec<u128> {
    let mut split_ulids: Vec<Ulid> = std::iter::repeat_with(Ulid::new).take(num_splits).collect();
    split_ulids.sort();
    split_ulids.into_iter().map(|ulid| ulid.0).collect()
}

fn limits(max_num_bytes: ByteSize, max_num_splits: u32, num_concurrent_downloads: u32) -> SplitCacheLimits {
    SplitCacheLimits {
        max_num_bytes: max_num_bytes.as_u64(),
        max_num_splits,
        num_concurrent_downloads,
    }
}

#[test]
fn test_split_table() {
    let mut split_table =
        SplitTable::with_limits_and_existing_splits(limits(ByteSize::kb(1), 1, 1), BTreeMap::default());
    let ulids = sorted_split_ulids(2);
    let ulid1 = ulids[0];
    let ulid2 = ulids[1];
    split_table.report(ulid1, uri(TEST_STORAGE_URI));
    split_table.report(ulid2, uri(TEST_STORAGE_URI));
    let candidate = split_table.best_candidate().unwrap();
    assert_eq!(candidate.split_ulid, ulid2);
}

#[test]
fn test_split_table_prefer_last_touched() {
    let mut split_table =
        SplitTable::with_limits_and_existing_splits(limits(ByteSize::kb(1), 1, 1), BTreeMap::default());
    let ulids = sorted_split_ulids(2);
    let ulid1 = ulids[0];
    let ulid2 = ulids[1];
    split_table.report(ulid1, uri(TEST_STORAGE_URI));
    split_table.report(ulid2, uri(TEST_STORAGE_URI));
    let split_guard_opt = split_table.is_on_disk(ulid1, &uri("s3://test1/"));
    assert!(split_guard_opt.is_none());
    let candidate = split_table.best_candidate().unwrap();
    assert_eq!(candidate.split_ulid, ulid1);
}

#[test]
fn test_split_table_prefer_start_download_prevent_new_report() {
    let mut split_table =
        SplitTable::with_limits_and_existing_splits(limits(ByteSize::kb(1), 1, 1), BTreeMap::default());
    let ulid1 = Ulid::new().0;
    split_table.report(ulid1, uri(TEST_STORAGE_URI));
    assert_eq!(split_table.num_bytes(), 0);
    let download = split_table.start_download(ulid1);
    assert!(download.is_some());
    assert!(split_table.start_download(ulid1).is_none());
    split_table.register_as_downloaded(ulid1, 10_000_000);
    assert_eq!(split_table.num_bytes(), 10_000_000);
    split_table.is_on_disk(ulid1, &uri(TEST_STORAGE_URI));
    let ulid2 = Ulid::new().0;
    split_table.report(ulid2, uri("s3://test`/"));
    let download = split_table.start_download(ulid2);
    assert!(download.is_some());
    assert!(split_table.start_download(ulid2).is_none());
    assert_eq!(split_table.num_bytes(), 10_000_000);
    split_table.register_as_downloaded(ulid2, 3_000_000);
    assert_eq!(split_table.num_bytes(), 13_000_000);
}

#[test]
fn test_eviction_due_to_size() {
    let mut split_table =
        SplitTable::with_limits_and_existing_splits(limits(ByteSize::mb(1), 30, 1), BTreeMap::default());
    let split_ulids = sorted_split_ulids(6);
    let splits = [
        (split_ulids[0], 10_000),
        (split_ulids[1], 20_000),
        (split_ulids[2], 300_000),
        (split_ulids[3], 400_000),
        (split_ulids[4], 100_000),
        (split_ulids[5], 300_000),
    ];
    for (split_ulid, num_bytes) in splits {
        split_table.report(split_ulid, uri(TEST_STORAGE_URI));
        split_table.register_as_downloaded(split_ulid, num_bytes);
    }
    let new_ulid = Ulid::new().0;
    split_table.report(new_ulid, uri(TEST_STORAGE_URI));
    let DownloadOpportunity {
        splits_to_delete,
        split_to_download,
    } = split_table.find_download_opportunity().unwrap();
    assert_eq!(
        &splits_to_delete[..],
        &[splits[0].0, splits[1].0, splits[2].0][..]
    );
    assert_eq!(split_to_download.split_ulid, new_ulid);
}

#[test]
fn test_eviction_due_to_num_splits() {
    let mut split_table =
        SplitTable::with_limits_and_existing_splits(limits(ByteSize::mb(10), 5, 1), BTreeMap::default());
    let split_ulids = sorted_split_ulids(6);
    let splits = [
        (split_ulids[0], 10_000),
        (split_ulids[1], 20_000),
        (split_ulids[2], 300_000),
        (split_ulids[3], 400_000),
        (split_ulids[4], 100_000),
        (split_ulids[5], 300_000),
    ];
    for (split_ulid, num_bytes) in splits {
        split_table.report(split_ulid, uri(TEST_STORAGE_URI));
        split_table.register_as_downloaded(split_ulid, num_bytes);
    }
    let new_ulid = Ulid::new().0;
    split_table.report(new_ulid, uri(TEST_STORAGE_URI));
    let DownloadOpportunity {
        splits_to_delete,
        split_to_download,
    } = split_table.find_download_opportunity().unwrap();
    assert_eq!(&splits_to_delete[..], &[splits[0].0][..]);
    assert_eq!(split_to_download.split_ulid, new_ulid);
}

#[test]
fn test_failed_download_can_be_re_reported() {
    let mut split_table =
        SplitTable::with_limits_and_existing_splits(limits(ByteSize::mb(10), 5, 1), BTreeMap::default());
    let split_ulid = Ulid::new().0;
    split_table.report(split_ulid, uri(TEST_STORAGE_URI));
    let candidate = split_table.start_download(split_ulid).unwrap();
    // This report should be cancelled as we have a download currently running.
    split_table.report(split_ulid, uri(TEST_STORAGE_URI));

    assert!(split_table.start_download(split_ulid).is_none());
    std::mem::drop(candidate);

    // Still not possible to start a download.
    assert!(split_table.start_download(split_ulid).is_none());

    // This report should be considered as our candidate (and its alive token has been dropped)
    split_table.report(split_ulid, uri(TEST_STORAGE_URI));

    let candidate2 = split_table.start_download(split_ulid).unwrap();
    assert_eq!(candidate2.split_ulid, split_ulid);
}

#[test]
fn test_split_table_truncate_candidates() {
    let mut split_table =
        SplitTable::with_limits_and_existing_splits(limits(ByteSize::mb(10), 5, 1), BTreeMap::default());
    for i in 1..2_000 {
        let split_ulid = Ulid::new().0;
        split_table.report(split_ulid, uri(TEST_STORAGE_URI));
        assert_eq!(
            split_table.num_candidates(),
            i.min(split_cache::model::MAX_NUM_CANDIDATES)
        );
    }
}
