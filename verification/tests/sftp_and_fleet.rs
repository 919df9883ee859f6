use multivm_workspace::fleet::FleetRegistry;
use multivm_workspace::sftp::{
    build_listing, stat_is_dir, RawDirEntry, ReadAccumulator, DEFAULT_MAX_READ_BYTES,
};

fn raw(name: &str, perm: Option<u32>) -> RawDirEntry {
    RawDirEntry {
        path: format!("/dir/{}", name),
        name: name.to_string(),
        perm,
        size: Some(10),
        mtime: Some(1_700_000_000),
    }
}

#[test]
fn listing_drops_links_and_sorts() {
    let entries = vec![
        raw("b", Some(0o100644)),
        raw("a", Some(0o040755)),
        raw(".", Some(0o040755)),
        raw("..", Some(0o040755)),
        raw("c", Some(0o100644)),
    ];
    let listing = build_listing(entries);
    let names: Vec<&str> = listing.iter().map(|e| e.name.as_str()).collect();
    assert_eq!(names, vec!["a", "b", "c"]);
    assert!(listing[0].is_dir);
    assert!(!listing[1].is_dir);
    assert_eq!(listing[0].path, "/dir/a");
    assert_eq!(listing[0].size_bytes, 10);
    assert_eq!(listing[0].mtime_epoch, Some(1_700_000_000));
}

#[test]
fn listing_sorts_bytewise() {
    let entries = vec![
        raw("B", None),
        raw("a", None),
        raw("Z", None),
    ];
    // Byte-wise: upper-case letters sort before lower-case ones.
    let names: Vec<String> = build_listing(entries).into_iter().map(|e| e.name).collect();
    assert_eq!(names, vec!["B".to_string(), "Z".to_string(), "a".to_string()]);
}

#[test]
fn stat_is_dir_uses_posix_type_bits() {
    assert!(stat_is_dir(Some(0o040755)));
    assert!(!stat_is_dir(Some(0o100644)));
    assert!(!stat_is_dir(Some(0o120777))); // symbolic link
    assert!(!stat_is_dir(None));
}

#[test]
fn read_exactly_at_limit_is_not_truncated() {
    // A remote file of exactly the default limit, read in 8 KiB chunks.
    let mut acc = ReadAccumulator::new(None);
    let mut remaining: u64 = DEFAULT_MAX_READ_BYTES;
    while remaining > 0 {
        let want = acc.want();
        assert!(want > 0 && want <= 8192);
        let chunk = vec![7u8; want];
        acc.push_chunk(&chunk);
        remaining -= want as u64;
    }
    assert_eq!(acc.want(), 0);
    // The probe read at the limit returned nothing: the file ended here.
    let result = acc.finish("/big".to_string(), false);
    assert_eq!(result.bytes.len() as u64, 1_048_576);
    assert!(!result.truncated);
    assert_eq!(result.path, "/big");
}

#[test]
fn read_one_byte_past_limit_is_truncated() {
    let mut acc = ReadAccumulator::new(None);
    loop {
        let want = acc.want();
        if want == 0 {
            break;
        }
        acc.push_chunk(&vec![0u8; want]);
    }
    // The probe read returned one more byte: the file goes on.
    let result = acc.finish("/big-plus-one".to_string(), true);
    assert_eq!(result.bytes.len() as u64, 1_048_576);
    assert!(result.truncated);
}

#[test]
fn short_read_keeps_all_bytes() {
    let mut acc = ReadAccumulator::new(Some(100));
    assert_eq!(acc.want(), 100);
    acc.push_chunk(&[1, 2, 3]);
    assert_eq!(acc.want(), 97);
    let result = acc.finish("/small".to_string(), false);
    assert_eq!(result.bytes, vec![1, 2, 3]);
    assert!(!result.truncated);
}

#[test]
fn fleet_insert_remove_snapshot() {
    let mut fleet = FleetRegistry::new();
    assert_eq!(fleet.len(), 0);
    fleet.insert("s1".to_string(), "u@h1:22".to_string());
    fleet.insert("s2".to_string(), "u@h2:22".to_string());
    assert_eq!(fleet.len(), 2);

    let snap = fleet.snapshot();
    assert_eq!(snap.len(), 2);
    assert!(snap.iter().any(|(id, h)| id == "s1" && h == "u@h1:22"));
    assert!(snap.iter().any(|(id, h)| id == "s2" && h == "u@h2:22"));

    // Inserting under a live id replaces the handle.
    fleet.insert("s1".to_string(), "u@h1:2222".to_string());
    assert_eq!(fleet.len(), 2);
    let snap = fleet.snapshot();
    assert!(snap.iter().any(|(id, h)| id == "s1" && h == "u@h1:2222"));

    let removed = fleet.remove("s1").expect("s1 was present");
    assert_eq!(removed.id, "s1");
    assert!(fleet.remove("s1").is_none());
    assert_eq!(fleet.len(), 1);
}

#[test]
fn connect_disconnect_interleavings_agree() {
    // One order: connect a, then disconnect b.
    let mut first = FleetRegistry::new();
    first.insert("b".to_string(), "u@hb:22".to_string());
    first.insert("a".to_string(), "u@ha:22".to_string());
    first.remove("b");

    // The other order: disconnect b, then connect a.
    let mut second = FleetRegistry::new();
    second.insert("b".to_string(), "u@hb:22".to_string());
    second.remove("b");
    second.insert("a".to_string(), "u@ha:22".to_string());

    let mut s1 = first.snapshot();
    let mut s2 = second.snapshot();
    s1.sort();
    s2.sort();
    assert_eq!(s1, s2);
}

#[test]
fn disconnect_all_twice_is_noop() {
    let mut fleet = FleetRegistry::new();
    fleet.insert("s1".to_string(), "u@h1:22".to_string());
    fleet.insert("s2".to_string(), "u@h2:22".to_string());

    let drained = fleet.drain();
    assert_eq!(drained.len(), 2);
    assert_eq!(fleet.len(), 0);

    // The second call drains nothing and changes nothing.
    let drained_again = fleet.drain();
    assert!(drained_again.is_empty());
    assert_eq!(fleet.len(), 0);
}
