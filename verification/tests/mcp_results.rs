use worksmith::mcp::results::{
    check_bounds, check_handle, lookbehind, page, page_start, prepare, put, Store, StoredFile,
    DISK_BYTES, PAGE_BYTES, RETENTION_NANOS,
};

/// A page of what is stored, read the way a file is read.
fn page_of(content: &str, handle: &str, offset: u64) -> Result<String, String> {
    if let Some(e) = check_handle(handle) {
        return Err(e);
    }
    let bytes = content.as_bytes();
    let total = bytes.len() as u64;
    if let Some(e) = check_bounds(offset, total) {
        return Err(e);
    }
    let start = if offset < total {
        let from = lookbehind(offset) as usize;
        page_start(offset, &bytes[from..=offset as usize].to_vec())
    } else {
        offset
    };
    let end = (start + PAGE_BYTES).min(total);
    page(&bytes[start as usize..end as usize].to_vec(), start, total, handle)
}

#[test]
fn handles_are_bounded_session_local_and_expire() {
    let store = Store::new("/tmp/x/first.jsonl");
    let handle = put(0, "fixture evidence").unwrap();
    assert!(page_of("fixture evidence", &handle, 0).unwrap().contains("fixture evidence"));
    let other = Store::new("/tmp/x/second.jsonl");
    assert_ne!(store.directory(), other.directory());
    assert!(page_of("fixture evidence", "../../first.jsonl", 0).is_err());
    let taken = "fixture evidence".len() as u64;
    assert!(put(taken, &"x".repeat(DISK_BYTES as usize)).is_err());
    // What is too old is to be removed, and takes no room any more.
    let files = vec![
        StoredFile { is_file: true, age_nanos: RETENTION_NANOS + 1, len: taken },
        StoredFile { is_file: true, age_nanos: 0, len: 7 },
    ];
    assert_eq!(prepare(&files), (vec![0], Ok(7)));
}

#[test]
fn arbitrary_offsets_include_the_requested_character() {
    let content = "header: é中🦀 END";
    let handle = put(0, content).unwrap();
    for offset in 0..=content.len() {
        let mut start = offset;
        while !content.is_char_boundary(start) {
            start -= 1;
        }
        let page = page_of(content, &handle, offset as u64).unwrap();
        assert_eq!(
            page,
            format!(
                "{}\n[bytes {start}..{} of {}; next_offset=null; eof=true; handle {handle}]",
                &content[start..],
                content.len(),
                content.len()
            )
        );
    }
    assert!(page_of(content, &handle, content.len() as u64 + 1).is_err());
}

#[test]
fn next_offsets_reconstruct_multibyte_content_without_gaps() {
    let content = format!("header: {}END", "é中🦀".repeat(2000));
    let handle = put(0, &content).unwrap();
    let mut offset = 0;
    let mut reconstructed = String::new();
    loop {
        let page = page_of(&content, &handle, offset).unwrap();
        let (text, metadata) = page.rsplit_once("\n[bytes ").unwrap();
        assert!(text.len() <= 6000);
        reconstructed.push_str(text);
        let next = metadata
            .split("next_offset=")
            .nth(1)
            .unwrap()
            .split(';')
            .next()
            .unwrap();
        if next == "null" {
            assert!(metadata.contains("eof=true"));
            break;
        }
        let next = next.parse::<u64>().unwrap();
        assert!(next > offset);
        offset = next;
    }
    assert_eq!(reconstructed, content);
}

#[test]
fn a_directory_with_anything_but_plain_files_is_not_used() {
    let files = vec![StoredFile { is_file: false, age_nanos: 0, len: 1 }];
    assert!(prepare(&files).1.is_err());
    // What expired before the odd entry is removed all the same, and nothing behind it.
    let old = StoredFile { is_file: true, age_nanos: RETENTION_NANOS + 1, len: 1 };
    let odd = StoredFile { is_file: false, age_nanos: 0, len: 1 };
    let fresh = StoredFile { is_file: true, age_nanos: RETENTION_NANOS, len: 1 };
    let (gone, taken) = prepare(&vec![old, fresh, old, odd, old]);
    assert_eq!(gone, vec![0, 2]);
    assert_eq!(taken.unwrap_err(), "unexpected entry in result directory");
    assert!(page(&vec![0xff, 0xfe], 0, 2, "h").is_err());
    assert!(check_bounds(0, DISK_BYTES + 1).is_some());
}
