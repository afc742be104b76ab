use mechanix_home::watch::read_names_file;

fn event(name: &[u8], field_len: u32) -> Vec<u8> {
    let mut v = vec![0u8; 12];
    v.extend_from_slice(&field_len.to_le_bytes());
    let mut field = name.to_vec();
    field.resize(field_len as usize, 0);
    v.extend_from_slice(&field);
    v
}

#[test]
fn event_for_the_file_is_seen() {
    let mut buf = event(b"other.toml", 16);
    buf.extend(event(b"homescreen.toml", 16));
    assert!(read_names_file(&buf, b"homescreen.toml"));
    assert!(!read_names_file(&buf, b"homescreen"));
}

#[test]
fn directory_events_and_truncated_reads_are_ignored() {
    let buf = event(b"", 0);
    assert!(!read_names_file(&buf, b""));
    let mut cut = event(b"homescreen.toml", 32);
    cut.truncate(20);
    assert!(!read_names_file(&cut, b"homescreen.toml"));
    assert!(!read_names_file(&[], b"homescreen.toml"));
}
