use guitar::gitmodules::GitmodulesScan;

fn scan(chunks: &[&[u8]]) -> bool {
    let mut scanner = GitmodulesScan::new();
    chunks.iter().any(|chunk| scanner.scan_chunk(chunk))
}

#[test]
fn finds_the_path_inside_a_chunk() {
    assert!(scan(&[b"xx.gitmodulesyy"]));
    assert!(!scan(&[b"xx.gitmoduleyy"]));
    assert!(!scan(&[b""]));
}

#[test]
fn finds_the_path_across_a_chunk_boundary() {
    assert!(scan(&[b"0123456789.gitmo", b"dules tail"]));
    assert!(scan(&[b"0123456789.", b"gitmodules"]));
    assert!(scan(&[b"aaaaaaaaaa.gitmodule", b"s"]));
    assert!(!scan(&[b"0123456789.gitmo", b"xdules tail"]));
}

#[test]
fn short_chunks_can_hide_the_path() {
    assert!(!scan(&[b".gitm", b"odule", b"s"]));
    assert!(scan(&[b".gitmodu", b"les"]));
}

#[test]
fn the_kept_tail_is_the_last_ten_bytes() {
    let mut scanner = GitmodulesScan::new();
    assert!(!scanner.scan_chunk(b"abcdefghijklmno"));
    assert_eq!(scanner.overlap, b"fghijklmno".to_vec());
    assert!(!scanner.scan_chunk(b"xy"));
    assert_eq!(scanner.overlap, b"xy".to_vec());
}
