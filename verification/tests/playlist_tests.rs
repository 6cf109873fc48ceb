use hls_stream::playlist::{extract_candidate_lines, line_is_candidate};

fn candidate(line: &str) -> bool {
    line_is_candidate(&line.as_bytes().to_vec())
}

#[test]
fn lines_with_the_url_marker_are_candidates() {
    assert!(candidate("http://example.com/part0.ts"));
    assert!(candidate("https://example.com/part0.ts"));
    assert!(candidate("see http"));
    assert!(candidate("http"));
    assert!(candidate("xhttp"));
}

#[test]
fn lines_without_the_url_marker_are_not_candidates() {
    assert!(!candidate("#EXTM3U"));
    assert!(!candidate("#EXTINF:10.0,"));
    assert!(!candidate(""));
    assert!(!candidate("htt"));
    assert!(!candidate("httX://example.com"));
    assert!(!candidate("HTTP://example.com"));
}

#[test]
fn playlist_text_extracts_part_references() {
    let playlist = "#EXTM3U\n#EXT-X-VERSION:3\nhttp://cdn.example/seg0.ts\n#EXTINF:10.0,\nhttp://cdn.example/seg1.ts\n";
    let candidates = extract_candidate_lines(&playlist.as_bytes().to_vec());
    assert_eq!(
        candidates,
        vec![b"http://cdn.example/seg0.ts".to_vec(), b"http://cdn.example/seg1.ts".to_vec()]
    );
}

#[test]
fn extraction_strips_carriage_returns_and_final_lines() {
    let playlist = "http://a/1\r\n#comment\r\nhttp://a/2";
    let candidates = extract_candidate_lines(&playlist.as_bytes().to_vec());
    assert_eq!(candidates, vec![b"http://a/1".to_vec(), b"http://a/2".to_vec()]);
}

#[test]
fn empty_playlist_has_no_candidates() {
    assert_eq!(extract_candidate_lines(&Vec::new()), Vec::<Vec<u8>>::new());
    assert_eq!(extract_candidate_lines(&b"\n\n".to_vec()), Vec::<Vec<u8>>::new());
}
