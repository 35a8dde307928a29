use qrfs::dirent::{pack_entries, unpack_entries, PackError, RawEntry};

fn entry(ino: u32, name: &str) -> RawEntry {
    RawEntry { ino, name: name.to_string() }
}

#[test]
fn entries_are_stored_one_after_the_other() {
    let block = pack_entries(&vec![entry(7, "ab"), entry(0x0102_0304, "c")]).unwrap();
    assert_eq!(block.len(), 1024);
    assert_eq!(&block[0..6], &[7, 0, 0, 0, b'a', b'b']);
    assert_eq!(&block[6..60], &[0u8; 54][..]);
    assert_eq!(&block[60..65], &[4, 3, 2, 1, b'c']);
    assert_eq!(&block[65..], &[0u8; 959][..]);
}

#[test]
fn what_was_stored_is_read_back() {
    let mut entries = vec![entry(1, "."), entry(9, "caf\u{e9}"), entry(u32::MAX, &"n".repeat(56))];
    for k in 0..14 {
        entries.push(entry(100 + k, &format!("file-{k}")));
    }
    let block = pack_entries(&entries).unwrap();
    assert_eq!(unpack_entries(&block), entries);
    assert_eq!(unpack_entries(&pack_entries(&vec![]).unwrap()), vec![]);
}

#[test]
fn entries_that_cannot_be_stored_are_refused() {
    let many: Vec<RawEntry> = (1..=18).map(|k| entry(k, "x")).collect();
    assert_eq!(pack_entries(&many), Err(PackError::TooMany));
    assert_eq!(pack_entries(&vec![entry(1, "a"), entry(0, "b")]), Err(PackError::BadEntry { index: 1 }));
    assert_eq!(pack_entries(&vec![entry(1, "")]), Err(PackError::BadEntry { index: 0 }));
    assert_eq!(
        pack_entries(&vec![entry(1, "a"), entry(2, "b"), entry(3, &"z".repeat(57))]),
        Err(PackError::BadEntry { index: 2 })
    );
    assert_eq!(pack_entries(&vec![entry(1, "a\0")]), Err(PackError::BadEntry { index: 0 }));
}

#[test]
fn reading_skips_empty_slots_and_cuts_names_at_the_first_nul() {
    let mut block = vec![0u8; 1024];
    block[60] = 5;
    block[64] = b'x';
    block[65] = 0;
    block[66] = b'y';
    block[120] = 6;
    block[180] = 0;
    block[184] = b'n';
    assert_eq!(unpack_entries(&block), vec![entry(5, "x")]);
    assert_eq!(unpack_entries(&block[..119]), vec![]);
    assert_eq!(unpack_entries(&block[..120]), vec![entry(5, "x")]);
    assert_eq!(unpack_entries(&[]), vec![]);
}
