use doodles::PngFiles;

#[test]
fn newest_first_with_ties_reversed() {
    let mut files = PngFiles { files: vec!["a".to_string(), "b".to_string(), "c".to_string()] };
    files.sort_by_times(&vec![100, 300, 100]);
    assert_eq!(files.files, vec!["b".to_string(), "c".to_string(), "a".to_string()]);
}

#[test]
fn sorting_no_files() {
    let mut files = PngFiles { files: vec![] };
    files.sort_by_times(&vec![]);
    assert!(files.files.is_empty());
}
