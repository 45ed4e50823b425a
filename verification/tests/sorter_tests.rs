use disk_scanner::entry::FileInfo;
use disk_scanner::sorter::sort_by_largest;

fn file(name: &str, size: u64) -> FileInfo {
    FileInfo::new(format!("/d/{}", name), name.to_string(), size, 0, 0, false)
}

fn names(files: &Vec<FileInfo>) -> Vec<String> {
    files.iter().map(|f| f.name.clone()).collect()
}

#[test]
fn sorts_by_descending_size() {
    let mut files = vec![file("small", 3), file("big", 100), file("mid", 40)];
    sort_by_largest(&mut files);
    assert_eq!(names(&files), vec!["big", "mid", "small"]);
    assert!(files.windows(2).all(|w| w[0].size >= w[1].size));
}

#[test]
fn sort_keeps_the_same_entries() {
    let mut files = vec![file("a", 5), file("b", 9), file("c", 1), file("d", 9)];
    let mut expected_names: Vec<String> = names(&files);
    let expected_total: u64 = files.iter().map(|f| f.size).sum();
    sort_by_largest(&mut files);
    assert_eq!(files.len(), 4);
    let total: u64 = files.iter().map(|f| f.size).sum();
    assert_eq!(total, expected_total);
    let mut sorted_names = names(&files);
    sorted_names.sort();
    expected_names.sort();
    assert_eq!(sorted_names, expected_names);
}

#[test]
fn sort_is_stable_for_equal_sizes() {
    let mut files = vec![file("first", 5), file("tiny", 3), file("second", 5)];
    sort_by_largest(&mut files);
    assert_eq!(names(&files), vec!["first", "second", "tiny"]);
}

#[test]
fn sorting_twice_gives_the_same_order_as_once() {
    let mut files = vec![
        file("a", 7),
        file("b", 7),
        file("c", 2),
        file("d", 99),
        file("e", 7),
    ];
    sort_by_largest(&mut files);
    let once = names(&files);
    sort_by_largest(&mut files);
    assert_eq!(names(&files), once);
}

#[test]
fn sorting_an_empty_or_single_list_is_a_no_op() {
    let mut empty: Vec<FileInfo> = vec![];
    sort_by_largest(&mut empty);
    assert!(empty.is_empty());
    let mut single = vec![file("only", 8)];
    sort_by_largest(&mut single);
    assert_eq!(names(&single), vec!["only"]);
}
