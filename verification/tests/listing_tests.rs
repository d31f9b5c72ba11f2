use homedisk::errors::FsError;
use homedisk::listing::{dir_size, list, modified_label, FsEntry, FsNode, ListResponse};

fn file(name: &str, size: u64, modified_secs: u64) -> FsEntry {
    FsEntry { name: name.to_string(), node: FsNode::File { size, modified_secs } }
}

fn sample_tree() -> FsNode {
    let sub = FsNode::Dir { entries: vec![file("inner.txt", 5, 10)] };
    FsNode::Dir {
        entries: vec![
            file("a.txt", 10, 30),
            file("b.txt", 20, 30),
            FsEntry { name: "sub".to_string(), node: sub },
        ],
    }
}

fn label(n: u64) -> String {
    byte_unit::Byte::from_u64(n)
        .get_appropriate_unit(byte_unit::UnitType::Binary)
        .to_string()
}

#[test]
fn subdirectory_size_is_recursive_sum_of_file_bytes_only() {
    let listing: ListResponse = list(&sample_tree()).expect("readable tree lists");
    assert_eq!(listing.files.len(), 2);
    assert_eq!(listing.dirs.len(), 1);
    assert_eq!(listing.files[0].name, "a.txt");
    assert_eq!(listing.files[0].size, label(10));
    assert_eq!(listing.files[1].name, "b.txt");
    assert_eq!(listing.files[1].size, label(20));
    // the subdirectory reports exactly its 5 contained bytes: the
    // subdirectory entry itself adds no overhead to the sum
    assert_eq!(listing.dirs[0].name, "sub");
    assert_eq!(listing.dirs[0].size, label(5));
}

#[test]
fn dir_size_sums_nested_files() {
    assert_eq!(dir_size(&sample_tree()), Ok(35));
    let sub = FsNode::Dir { entries: vec![file("inner.txt", 5, 10)] };
    assert_eq!(dir_size(&sub), Ok(5));
}

#[test]
fn listing_a_file_fails_with_not_a_directory() {
    let node = FsNode::File { size: 1, modified_secs: 0 };
    assert!(matches!(list(&node), Err(FsError::NotADirectory)));
}

#[test]
fn listing_an_unreadable_root_fails_with_directory_not_found() {
    assert!(matches!(list(&FsNode::Unreadable), Err(FsError::DirectoryNotFound)));
}

#[test]
fn unreadable_entry_fails_the_whole_listing() {
    let tree = FsNode::Dir {
        entries: vec![
            file("a.txt", 10, 30),
            FsEntry { name: "broken".to_string(), node: FsNode::Unreadable },
        ],
    };
    assert!(matches!(list(&tree), Err(FsError::UnreadableEntry)));
    // also when the unreadable node hides inside a subdirectory
    let nested = FsNode::Dir {
        entries: vec![FsEntry {
            name: "sub".to_string(),
            node: FsNode::Dir {
                entries: vec![FsEntry { name: "broken".to_string(), node: FsNode::Unreadable }],
            },
        }],
    };
    assert!(matches!(list(&nested), Err(FsError::UnreadableEntry)));
}

#[test]
fn oversized_directory_sum_fails_with_size_overflow() {
    let tree = FsNode::Dir {
        entries: vec![FsEntry {
            name: "sub".to_string(),
            node: FsNode::Dir {
                entries: vec![file("x", u64::MAX, 0), file("y", 1, 0)],
            },
        }],
    };
    assert!(matches!(list(&tree), Err(FsError::SizeOverflow)));
}

#[test]
fn modified_label_buckets_by_largest_unit_strictly_over_one() {
    assert_eq!(modified_label(45), "45 second(s)");
    assert_eq!(modified_label(120), "2 minute(s)");
    assert_eq!(modified_label(3 * 3600), "3 hour(s)");
    assert_eq!(modified_label(3 * 86400), "3 day(s)");
    // the thresholds are strict: exactly one unit falls to the next
    // smaller unit, a deliberate display choice
    assert_eq!(modified_label(60), "60 second(s)");
    assert_eq!(modified_label(3600), "60 minute(s)");
    assert_eq!(modified_label(86400), "24 hour(s)");
}

#[test]
fn size_labels_use_binary_units() {
    let tree = FsNode::Dir { entries: vec![file("big.bin", 12_700, 5)] };
    let listing = list(&tree).unwrap();
    assert_eq!(listing.files[0].size, label(12_700));
    assert_eq!(listing.files[0].modified, "5 second(s)");
}
