use doopie::error::{IoError, ScanError};
use doopie::fingerprint::{fingerprint, Fingerprint};
use doopie::group::{get_sha_256_hashmap, ScanResult};
use doopie::scan::{Policy, Scan};

fn file(path: &str, content: &[u8]) -> (String, Fingerprint) {
    (path.to_string(), fingerprint(content))
}

fn groups_of(result: &ScanResult) -> Vec<(Fingerprint, Vec<String>)> {
    (0..result.len())
        .map(|i| result.get(i).unwrap())
        .map(|group| (group.fingerprint(), group.paths().clone()))
        .collect()
}

fn sorted_groups(result: &ScanResult) -> Vec<(String, Vec<String>)> {
    let mut groups: Vec<(String, Vec<String>)> = groups_of(result)
        .into_iter()
        .map(|(fp, mut paths)| {
            paths.sort();
            (fp.to_hex(), paths)
        })
        .collect();
    groups.sort();
    groups
}

#[test]
fn two_files_with_the_same_content_form_one_group() {
    let files = vec![
        file("a.txt", b"hello"),
        file("b.txt", b"hello"),
        file("c.txt", b"world"),
    ];
    let result = get_sha_256_hashmap(&files);
    assert_eq!(result.len(), 1);
    assert!(!result.is_empty());
    let group = result.get(0).unwrap();
    assert!(result.get(1).is_none());
    assert_eq!(group.fingerprint(), fingerprint(b"hello"));
    assert_eq!(group.paths(), &vec!["a.txt".to_string(), "b.txt".to_string()]);
    assert!(result.find(&fingerprint(b"world")).is_none());
    for (_, paths) in groups_of(&result) {
        assert!(!paths.contains(&"c.txt".to_string()));
    }
}

#[test]
fn an_empty_directory_has_no_duplicates_and_no_errors() {
    let report = Scan::new(Policy::Skip).finish();
    assert!(report.duplicates.is_empty());
    assert_eq!(report.duplicates.len(), 0);
    assert!(report.errors.is_empty());
    assert!(!report.partial);
    assert!(get_sha_256_hashmap(&Vec::new()).is_empty());
}

#[test]
fn an_unreadable_file_is_skipped_and_reported() {
    let mut scan = Scan::new(Policy::Skip);
    assert_eq!(scan.record("one.txt".to_string(), Ok(fingerprint(b"same"))), Ok(()));
    assert_eq!(
        scan.record("locked.txt".to_string(), Err("permission denied".to_string())),
        Ok(())
    );
    assert_eq!(scan.record("two.txt".to_string(), Ok(fingerprint(b"same"))), Ok(()));
    let report = scan.finish();
    assert_eq!(
        groups_of(&report.duplicates),
        vec![(fingerprint(b"same"), vec!["one.txt".to_string(), "two.txt".to_string()])]
    );
    assert_eq!(
        report.errors,
        vec![IoError { path: "locked.txt".to_string(), cause: "permission denied".to_string() }]
    );
    assert!(!report.partial);
}

#[test]
fn files_in_different_directories_are_grouped_by_content() {
    let files = vec![
        file("left/report.txt", b"the same bytes"),
        file("right/deep/copy.bak", b"the same bytes"),
    ];
    let result = get_sha_256_hashmap(&files);
    assert_eq!(
        groups_of(&result),
        vec![(
            fingerprint(b"the same bytes"),
            vec!["left/report.txt".to_string(), "right/deep/copy.bak".to_string()]
        )]
    );
}

#[test]
fn files_with_the_same_name_and_different_content_are_not_grouped() {
    let files = vec![file("left/a.txt", b"one"), file("right/a.txt", b"two")];
    assert!(get_sha_256_hashmap(&files).is_empty());
}

#[test]
fn paths_keep_the_order_in_which_they_came() {
    let files = vec![
        file("z", b"x"),
        file("m", b"y"),
        file("a", b"x"),
        file("k", b"x"),
        file("b", b"y"),
    ];
    let result = get_sha_256_hashmap(&files);
    assert_eq!(
        groups_of(&result),
        vec![
            (fingerprint(b"x"), vec!["z".to_string(), "a".to_string(), "k".to_string()]),
            (fingerprint(b"y"), vec!["m".to_string(), "b".to_string()]),
        ]
    );
}

#[test]
fn groups_stand_in_the_order_in_which_their_fingerprints_first_came() {
    let files = vec![
        file("single", b"s"),
        file("late-1", b"late"),
        file("early-1", b"early"),
        file("early-2", b"early"),
        file("late-2", b"late"),
    ];
    let result = get_sha_256_hashmap(&files);
    assert_eq!(
        groups_of(&result),
        vec![
            (fingerprint(b"late"), vec!["late-1".to_string(), "late-2".to_string()]),
            (fingerprint(b"early"), vec!["early-1".to_string(), "early-2".to_string()]),
        ]
    );
}

#[test]
fn no_group_has_one_member_and_no_path_lies_in_two_groups() {
    let files = vec![
        file("a", b"1"),
        file("b", b"2"),
        file("c", b"1"),
        file("d", b"3"),
        file("e", b"2"),
        file("f", b"1"),
        file("g", b"4"),
    ];
    let result = get_sha_256_hashmap(&files);
    assert_eq!(result.len(), 2);
    let mut seen: Vec<String> = Vec::new();
    for i in 0..result.len() {
        let group = result.get(i).unwrap();
        assert!(group.paths().len() >= 2);
        for path in group.paths() {
            assert!(!seen.contains(path));
            assert!(files.iter().any(|(p, fp)| p == path && *fp == group.fingerprint()));
            seen.push(path.clone());
        }
    }
    seen.sort();
    assert_eq!(seen, vec!["a", "b", "c", "e", "f"]);
}

#[test]
fn the_order_of_the_entries_does_not_change_the_groups() {
    let files = vec![
        file("a", b"1"),
        file("b", b"2"),
        file("c", b"1"),
        file("d", b"3"),
        file("e", b"2"),
        file("f", b"1"),
    ];
    let expected = sorted_groups(&get_sha_256_hashmap(&files));
    assert_eq!(expected.len(), 2);
    let orders: [[usize; 6]; 4] =
        [[5, 4, 3, 2, 1, 0], [1, 3, 5, 0, 2, 4], [2, 0, 1, 5, 3, 4], [3, 4, 0, 5, 1, 2]];
    for order in orders {
        let shuffled: Vec<(String, Fingerprint)> =
            order.iter().map(|&i| files[i].clone()).collect();
        assert_eq!(sorted_groups(&get_sha_256_hashmap(&shuffled)), expected);
    }
}

#[test]
fn a_group_is_found_by_its_fingerprint() {
    let files = vec![file("a", b"1"), file("b", b"2"), file("c", b"2"), file("d", b"1")];
    let result = get_sha_256_hashmap(&files);
    let found = result.find(&fingerprint(b"2"));
    assert!(found.is_some());
    let group = found.unwrap();
    assert_eq!(group.fingerprint(), fingerprint(b"2"));
    assert_eq!(group.paths(), &vec!["b".to_string(), "c".to_string()]);
    assert!(result.find(&fingerprint(b"3")).is_none());
}

#[test]
fn a_path_listed_twice_counts_twice() {
    let files = vec![file("a", b"1"), file("a", b"1")];
    let result = get_sha_256_hashmap(&files);
    assert_eq!(
        groups_of(&result),
        vec![(fingerprint(b"1"), vec!["a".to_string(), "a".to_string()])]
    );
}

#[test]
fn a_strict_scan_stops_at_the_first_unreadable_file() {
    let mut scan = Scan::new(Policy::Strict);
    assert_eq!(scan.record("one.txt".to_string(), Ok(fingerprint(b"same"))), Ok(()));
    assert_eq!(
        scan.record("locked.txt".to_string(), Err("permission denied".to_string())),
        Err(ScanError::Io(IoError {
            path: "locked.txt".to_string(),
            cause: "permission denied".to_string()
        }))
    );
    assert_eq!(scan.record("two.txt".to_string(), Ok(fingerprint(b"same"))), Ok(()));
    let report = scan.finish();
    assert_eq!(report.duplicates.len(), 1);
    assert!(report.errors.is_empty());
}

#[test]
fn a_cancelled_scan_is_marked_partial() {
    let mut scan = Scan::new(Policy::Skip);
    assert_eq!(scan.record("one.txt".to_string(), Ok(fingerprint(b"same"))), Ok(()));
    assert_eq!(scan.record("two.txt".to_string(), Ok(fingerprint(b"same"))), Ok(()));
    assert_eq!(scan.record("bad.txt".to_string(), Err("gone".to_string())), Ok(()));
    let report = scan.cancel();
    assert!(report.partial);
    assert_eq!(
        groups_of(&report.duplicates),
        vec![(fingerprint(b"same"), vec!["one.txt".to_string(), "two.txt".to_string()])]
    );
    assert_eq!(
        report.errors,
        vec![IoError { path: "bad.txt".to_string(), cause: "gone".to_string() }]
    );
}

#[test]
fn fingerprints_that_share_their_first_bytes_are_kept_apart() {
    let mut one = [7u8; 32];
    let mut two = [7u8; 32];
    let mut three = [7u8; 32];
    one[8] = 1;
    two[20] = 2;
    three[31] = 3;
    let (one, two, three) =
        (Fingerprint::from_bytes(one), Fingerprint::from_bytes(two), Fingerprint::from_bytes(three));
    assert_eq!(one.prefix(), two.prefix());
    assert_eq!(one.prefix(), three.prefix());
    let files = vec![
        ("a".to_string(), one),
        ("b".to_string(), two),
        ("c".to_string(), three),
        ("d".to_string(), two),
        ("e".to_string(), one),
        ("f".to_string(), two),
    ];
    let result = get_sha_256_hashmap(&files);
    assert_eq!(
        groups_of(&result),
        vec![
            (one, vec!["a".to_string(), "e".to_string()]),
            (two, vec!["b".to_string(), "d".to_string(), "f".to_string()]),
        ]
    );
    assert!(result.find(&three).is_none());
}

#[test]
fn many_files_are_grouped() {
    let mut files: Vec<(String, Fingerprint)> = Vec::new();
    for i in 0..3000u32 {
        files.push((format!("file-{i}"), fingerprint(&(i % 1000).to_le_bytes())));
    }
    for i in 3000..3500u32 {
        files.push((format!("file-{i}"), fingerprint(&i.to_le_bytes())));
    }
    let result = get_sha_256_hashmap(&files);
    assert_eq!(result.len(), 1000);
    for i in 0..1000u32 {
        let group = result.get(i as usize).unwrap();
        assert_eq!(group.fingerprint(), fingerprint(&i.to_le_bytes()));
        assert_eq!(
            group.paths(),
            &vec![format!("file-{i}"), format!("file-{}", i + 1000), format!("file-{}", i + 2000)]
        );
    }
}
