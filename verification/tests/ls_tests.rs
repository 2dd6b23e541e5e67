use miniutils::ls::{list_entry, render_listing, DirEntryInfo, ListError};

#[test]
fn short_listing_keeps_yielded_order() {
    // The enumeration collaborator yielded b.txt before a.txt; the
    // listing must keep that order, not sort it.
    let entries = vec![
        DirEntryInfo {
            name: "b.txt".to_string(),
            mode: None,
        },
        DirEntryInfo {
            name: "a.txt".to_string(),
            mode: None,
        },
    ];

    let lines = render_listing(&entries, false, true).unwrap();
    assert_eq!(lines, vec!["b.txt".to_string(), "a.txt".to_string()]);
}

#[test]
fn long_listing_line() {
    let line = list_entry(true, "a.txt", Some(0o100644), true).unwrap();
    assert_eq!(line, "-rw-r--r--\ta.txt");
}

#[test]
fn short_listing_ignores_mode() {
    let line = list_entry(false, "a.txt", Some(0o100644), true).unwrap();
    assert_eq!(line, "a.txt");
}

#[test]
fn missing_metadata_is_fatal() {
    assert_eq!(
        list_entry(true, "a.txt", None, true),
        Err(ListError::MetadataFailure)
    );
}

#[test]
fn undecodable_mode_is_fatal() {
    assert_eq!(
        list_entry(true, "a.txt", Some(0o100644), false),
        Err(ListError::PermissionDecodeFailure)
    );
}

#[test]
fn long_listing_of_several_entries() {
    let entries = vec![
        DirEntryInfo {
            name: "dir".to_string(),
            mode: Some(0o040755),
        },
        DirEntryInfo {
            name: "file".to_string(),
            mode: Some(0o100644),
        },
    ];

    let lines = render_listing(&entries, true, true).unwrap();
    assert_eq!(
        lines,
        vec![
            "drwxr-xr-x\tdir".to_string(),
            "-rw-r--r--\tfile".to_string()
        ]
    );
}

#[test]
fn listing_stops_at_first_bad_entry() {
    let entries = vec![
        DirEntryInfo {
            name: "good".to_string(),
            mode: Some(0o100644),
        },
        DirEntryInfo {
            name: "bad".to_string(),
            mode: None,
        },
        DirEntryInfo {
            name: "later".to_string(),
            mode: Some(0o100644),
        },
    ];

    assert_eq!(
        render_listing(&entries, true, true),
        Err(ListError::MetadataFailure)
    );
}

#[test]
fn exit_statuses_are_pairwise_distinct() {
    let statuses = [
        ListError::DirectoryOpenFailure.exit_status(),
        ListError::EntryReadFailure.exit_status(),
        ListError::MetadataFailure.exit_status(),
        ListError::PermissionDecodeFailure.exit_status(),
    ];
    assert_eq!(statuses, [1, -1, -2, -3]);
    for i in 0..statuses.len() {
        for j in 0..statuses.len() {
            if i != j {
                assert_ne!(statuses[i], statuses[j]);
            }
        }
    }
}

#[test]
fn empty_directory_lists_nothing() {
    let entries: Vec<DirEntryInfo> = Vec::new();
    let lines = render_listing(&entries, true, true).unwrap();
    assert!(lines.is_empty());
}
