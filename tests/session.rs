use file2dl::file2dl::{File2Dl, File2DlError, Request, Url};
use file2dl::metadata::{
    get_metadata_files, init_metadata, is_record_file, record_file_name, MetaData,
};
use file2dl::naming::{decimal_string, generate_name_on_disk};

fn names(list: &[&str]) -> Vec<String> {
    list.iter().map(|s| s.to_string()).collect()
}

fn url(len: usize, ranges: bool) -> Url {
    Url {
        link: "https://example.com/files/sample2.txt".to_string(),
        filename: "sample2.txt".to_string(),
        content_length: len,
        range_support: ranges,
    }
}

fn record(name: &str, len: usize, ranges: bool) -> MetaData {
    MetaData {
        link: "https://example.com/files/sample2.txt".to_string(),
        name_on_disk: name.to_string(),
        url_name: "sample2.txt".to_string(),
        content_length: len,
        range_support: ranges,
    }
}

fn restore_one(m: MetaData, size: Option<usize>, contents: &Vec<String>) -> File2Dl {
    match File2Dl::from_record("Downloads", &m, size, contents) {
        Ok(f) => f,
        Err(e) => panic!("record refused: {:?}", e),
    }
}

#[test]
fn case() {
    let contents = names(&["sample2.txt", "sample2.txt.metadl"]);
    let records = vec![(record("sample2.txt", 2048, true), Some(1001))];
    let mut files2dl = File2Dl::from("Downloads", &records, &contents);
    let first = files2dl.first_mut().unwrap().as_mut().unwrap();
    assert_eq!(first.size_on_disk, 1001);
    first.switch_status();
    assert!(first.running);
    match first.plan_request(&contents) {
        Request::Ranged(v) => assert_eq!(v, "bytes=1001-2048"),
        _ => panic!("expected a ranged request"),
    }
    first.record_chunk(1000).unwrap();
    first.record_chunk(47).unwrap();
    first.finish().unwrap();
    assert_eq!(first.size_on_disk, 2048);
    assert!(first.complete);
}

#[test]
fn free_name_is_kept() {
    let contents = names(&["other.bin"]);
    assert_eq!(generate_name_on_disk("file.txt", &contents), "file.txt");
    assert_eq!(generate_name_on_disk("file.txt", &Vec::new()), "file.txt");
}

#[test]
fn taken_name_gets_suffix() {
    let contents = names(&["file.txt"]);
    assert_eq!(generate_name_on_disk("file.txt", &contents), "file_1.txt");
    let contents = names(&["file.txt", "file_1.txt", "file_2.txt"]);
    assert_eq!(generate_name_on_disk("file.txt", &contents), "file_3.txt");
}

#[test]
fn suffix_goes_before_last_extension() {
    let contents = names(&["archive.tar.gz"]);
    assert_eq!(
        generate_name_on_disk("archive.tar.gz", &contents),
        "archive.tar_1.gz"
    );
    let contents = names(&[".bashrc"]);
    assert_eq!(generate_name_on_disk(".bashrc", &contents), "_1.bashrc");
}

#[test]
fn name_without_extension_gets_suffix_on_stem() {
    let contents = names(&["README", "README_1"]);
    assert_eq!(generate_name_on_disk("README", &contents), "README_2");
}

#[test]
fn repeated_resolution_never_collides() {
    let mut contents = names(&["a.txt", "a_1.txt"]);
    let first = generate_name_on_disk("a.txt", &contents);
    assert_eq!(first, "a_2.txt");
    contents.push(first.clone());
    let second = generate_name_on_disk("a.txt", &contents);
    assert_eq!(second, "a_3.txt");
    assert!(!contents.contains(&second));
}

#[test]
fn double_digit_suffix() {
    let mut contents = names(&["x.dat"]);
    for i in 1..10 {
        contents.push(format!("x_{}.dat", i));
    }
    assert_eq!(generate_name_on_disk("x.dat", &contents), "x_10.dat");
}

#[test]
fn decimal_text() {
    assert_eq!(decimal_string(0), "0");
    assert_eq!(decimal_string(7), "7");
    assert_eq!(decimal_string(10), "10");
    assert_eq!(decimal_string(1234567), "1234567");
}

#[test]
fn fresh_session() {
    let contents = names(&["sample2.txt"]);
    let f = File2Dl::new(url(2048, true), "Downloads", &contents);
    assert_eq!(f.name_on_disk, "sample2_1.txt");
    assert_eq!(f.dl_dir, "Downloads");
    assert_eq!(f.size_on_disk, 0);
    assert!(!f.running);
    assert!(!f.complete);
}

#[test]
fn fresh_empty_resource_is_complete() {
    let f = File2Dl::new(url(0, true), "Downloads", &Vec::new());
    assert!(f.complete);
}

#[test]
fn toggling_twice_restores_flag() {
    let mut f = File2Dl::new(url(10, true), "d", &Vec::new());
    f.switch_status();
    assert!(f.running);
    f.switch_status();
    assert!(!f.running);
}

#[test]
fn fresh_ranged_request_starts_at_zero() {
    let mut f = File2Dl::new(url(2048, true), "d", &Vec::new());
    match f.plan_request(&Vec::new()) {
        Request::Ranged(v) => assert_eq!(v, "bytes=0-2048"),
        _ => panic!("expected a ranged request"),
    }
}

#[test]
fn plain_request_without_ranges() {
    let mut f = File2Dl::new(url(100, false), "d", &Vec::new());
    assert!(matches!(f.plan_request(&Vec::new()), Request::Plain));
    assert_eq!(f.name_on_disk, "sample2.txt");
}

#[test]
fn partial_download_without_ranges_starts_over_under_new_name() {
    let mut f = File2Dl::new(url(100, false), "d", &Vec::new());
    f.record_chunk(40).unwrap();
    let contents = names(&["sample2.txt"]);
    assert!(matches!(f.plan_request(&contents), Request::Plain));
    assert_eq!(f.name_on_disk, "sample2_1.txt");
    assert_eq!(f.size_on_disk, 0);
    assert!(!f.complete);
}

#[test]
fn run_completes_exactly_at_content_length() {
    let mut f = File2Dl::new(url(10, true), "d", &Vec::new());
    f.record_chunk(4).unwrap();
    assert!(!f.complete);
    assert_eq!(f.finish(), Err(File2DlError::StreamEndedEarly));
    f.record_chunk(6).unwrap();
    assert!(f.complete);
    assert_eq!(f.finish(), Ok(()));
}

#[test]
fn chunk_past_length_is_refused() {
    let mut f = File2Dl::new(url(10, true), "d", &Vec::new());
    f.record_chunk(8).unwrap();
    assert_eq!(f.record_chunk(3), Err(File2DlError::ChunkExceedsLength));
    assert_eq!(f.size_on_disk, 8);
    assert!(!f.complete);
}

#[test]
fn complete_session_asks_for_nothing() {
    let contents = names(&["sample2.txt", "sample2.txt.metadl"]);
    let mut f = restore_one(record("sample2.txt", 2048, true), Some(2048), &contents);
    assert!(f.complete);
    assert!(matches!(f.plan_request(&contents), Request::Skip));
    assert_eq!(f.size_on_disk, 2048);
}

#[test]
fn restored_without_ranges_is_renamed() {
    let contents = names(&["sample2.txt", "sample2.txt.metadl"]);
    let f = restore_one(record("sample2.txt", 2048, false), Some(500), &contents);
    assert_eq!(f.name_on_disk, "sample2_1.txt");
    assert_eq!(f.size_on_disk, 500);
    assert!(!f.running);
    assert!(!f.complete);
}

#[test]
fn restored_with_ranges_keeps_name() {
    let contents = names(&["sample2.txt", "sample2.txt.metadl"]);
    let f = restore_one(record("sample2.txt", 2048, true), Some(500), &contents);
    assert_eq!(f.name_on_disk, "sample2.txt");
    assert_eq!(f.url.link, "https://example.com/files/sample2.txt");
    assert_eq!(f.url.filename, "sample2.txt");
    assert_eq!(f.url.content_length, 2048);
    assert_eq!(f.dl_dir, "Downloads");
}

#[test]
fn missing_file_counts_as_empty() {
    let contents = names(&["sample2.txt.metadl"]);
    let f = restore_one(record("sample2.txt", 2048, true), None, &contents);
    assert_eq!(f.size_on_disk, 0);
    assert!(!f.complete);
}

#[test]
fn one_bad_record_does_not_stop_others() {
    let contents = names(&["a.bin", "a.bin.metadl", "b.bin", "b.bin.metadl"]);
    let records = vec![
        (record("a.bin", 10, true), Some(11)),
        (record("b.bin", 10, true), Some(3)),
    ];
    let out = File2Dl::from("Downloads", &records, &contents);
    assert_eq!(out.len(), 2);
    assert!(matches!(out[0], Err(File2DlError::SizeExceedsLength)));
    assert_eq!(out[1].as_ref().unwrap().size_on_disk, 3);
}

#[test]
fn record_written_on_first_run_only() {
    let f = File2Dl::new(url(2048, false), "Downloads", &Vec::new());
    let m = init_metadata(&f, false).unwrap();
    assert_eq!(m.link, "https://example.com/files/sample2.txt");
    assert_eq!(m.name_on_disk, "sample2.txt");
    assert_eq!(m.url_name, "sample2.txt");
    assert_eq!(m.content_length, 2048);
    assert!(!m.range_support);
    assert!(init_metadata(&f, true).is_none());
}

#[test]
fn record_file_names() {
    assert_eq!(record_file_name("a.txt"), "a.txt.metadl");
    assert!(is_record_file("a.txt.metadl"));
    assert!(is_record_file(".metadl"));
    assert!(!is_record_file("metadl"));
    assert!(!is_record_file("a.txt"));
    assert!(!is_record_file("a.metadl.txt"));
}

#[test]
fn record_files_are_listed_in_order() {
    let contents = names(&["b.metadl", "b", "a", "a.metadl", "notes.txt"]);
    assert_eq!(get_metadata_files(&contents), names(&["b.metadl", "a.metadl"]));
    assert!(get_metadata_files(&Vec::new()).is_empty());
}
