use outpack::metrics::repository_metrics;

#[test]
fn repository_collector_empty_repo() {
    let metadata: Vec<String> = vec![];
    let unpacked: Vec<String> = vec![];
    let sizes: Vec<u64> = vec![];
    let m = repository_metrics(&metadata, &unpacked, &sizes);
    assert_eq!(m.metadata_total, 0);
    assert_eq!(m.packets_total, 0);
    assert_eq!(m.files_total, 0);
    assert_eq!(m.file_size_bytes_total, 0);
}

#[test]
fn repository_collector_counts_and_sums() {
    let metadata = vec![
        "20170818-164830-33e0ab01".to_string(),
        "20170818-164847-7574883b".to_string(),
    ];
    let unpacked = vec!["20170818-164847-7574883b".to_string()];
    let sizes: Vec<u64> = vec![51, 7, 0, 1024];
    let m = repository_metrics(&metadata, &unpacked, &sizes);
    assert_eq!(m.metadata_total, 2);
    assert_eq!(m.packets_total, 1);
    assert_eq!(m.files_total, 4);
    assert_eq!(m.file_size_bytes_total, 51 + 7 + 1024);
}

#[test]
fn repository_collector_survives_large_sizes() {
    let metadata: Vec<String> = vec![];
    let unpacked: Vec<String> = vec![];
    let sizes: Vec<u64> = vec![u64::MAX, u64::MAX];
    let m = repository_metrics(&metadata, &unpacked, &sizes);
    assert_eq!(m.file_size_bytes_total, 2 * (u64::MAX as u128));
}
