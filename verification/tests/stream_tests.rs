use hls_stream::engine::{HlsStream, SeekFrom};
use hls_stream::errors::StreamError;
use hls_stream::layout::VirtualLayout;

fn layout_of(sizes: &[usize]) -> VirtualLayout {
    let mut entries: Vec<(Option<usize>, String)> = Vec::new();
    for (i, size) in sizes.iter().enumerate() {
        entries.push((Some(*size), format!("http://parts.example/{i}")));
    }
    VirtualLayout::build(entries).unwrap()
}

fn stream_of(sizes: &[usize], chunk: usize) -> HlsStream {
    HlsStream::with_chunk_size(layout_of(sizes), chunk)
}

fn pattern(start: usize, count: usize) -> Vec<u8> {
    (start..start + count).map(|i| (i % 251) as u8).collect()
}

#[test]
fn merges_are_tracked_and_coalesced() {
    let mut stream = stream_of(&[1000], 100);
    stream.deliver_chunk(0, &pattern(0, 2));
    stream.deliver_chunk(5, &pattern(5, 2));
    assert!(stream.is_downloaded(0));
    assert!(stream.is_downloaded(1));
    assert!(!stream.is_downloaded(2));
    assert!(!stream.is_downloaded(4));
    assert!(stream.is_downloaded(5));
    assert_eq!(stream.enclosing(5), Some((5, 7)));
    // Adjacent ranges coalesce into one maximal interval.
    stream.deliver_chunk(2, &pattern(2, 3));
    assert_eq!(stream.enclosing(0), Some((0, 7)));
}

#[test]
fn zero_length_chunk_is_a_no_op() {
    let mut stream = stream_of(&[100], 10);
    stream.deliver_chunk(3, &Vec::new());
    assert!(!stream.is_downloaded(3));
    assert!(stream.must_block());
}

#[test]
fn merging_twice_changes_nothing() {
    let mut stream = stream_of(&[50], 10);
    let chunk = pattern(7, 9);
    stream.deliver_chunk(7, &chunk);
    let covered = stream.enclosing(7);
    stream.seek(SeekFrom::Start(0)).unwrap();
    let first = stream.read(50);
    stream.deliver_chunk(7, &chunk);
    assert_eq!(stream.enclosing(7), covered);
    stream.seek(SeekFrom::Start(0)).unwrap();
    let second = stream.read(50);
    assert_eq!(first, second);
}

#[test]
fn round_trip_reads_back_merged_bytes_in_order() {
    let mut stream = stream_of(&[10], 4);
    // Completions arrive in reverse of their dispatch order.
    stream.deliver_chunk(5, &pattern(5, 5));
    stream.deliver_chunk(0, &pattern(0, 5));
    let bytes = stream.read(10);
    assert_eq!(bytes, pattern(0, 10));
    assert_eq!(stream.position(), 10);
    assert_eq!(stream.read(1), Vec::<u8>::new());
}

#[test]
fn reverse_completion_covers_the_whole_prefix() {
    let chunk = 4usize;
    let mut stream = stream_of(&[8], chunk);
    stream.deliver_chunk(chunk, &pattern(chunk, chunk));
    stream.deliver_chunk(0, &pattern(0, chunk));
    for p in 0..2 * chunk {
        assert!(stream.is_downloaded(p));
    }
    assert!(!stream.is_downloaded(2 * chunk));
    assert_eq!(stream.enclosing(0), Some((0, 2 * chunk)));
}

#[test]
fn seek_clamps_and_rejects_negative_targets() {
    let mut stream = stream_of(&[1000, 500], 100);
    // Past the end: accepted as a no-op.
    assert_eq!(stream.seek(SeekFrom::Start(1500 + 1000)), Ok(0));
    assert_eq!(stream.position(), 0);
    assert_eq!(stream.seek(SeekFrom::Start(10)), Ok(10));
    // A negative resulting position is an error and moves nothing.
    assert_eq!(stream.seek(SeekFrom::Current(-11)), Err(StreamError::InvalidSeek));
    assert_eq!(stream.position(), 10);
    assert_eq!(stream.seek(SeekFrom::End(-1500)), Ok(0));
    // Seeking to the very end is allowed and the next read sees end of stream.
    assert_eq!(stream.seek(SeekFrom::End(0)), Ok(1500));
    assert_eq!(stream.read(5), Vec::<u8>::new());
    assert_eq!(stream.position(), 1500);
}

#[test]
fn prefetch_waits_until_lookahead_reaches_the_run_end() {
    let chunk = 100usize;
    let mut stream = stream_of(&[10 * chunk], chunk);
    // Three chunk widths downloaded: the two-chunk look-ahead from the start
    // falls short of the run end, so no fetch is wanted.
    stream.deliver_chunk(0, &pattern(0, 3 * chunk));
    assert_eq!(stream.should_get_chunk(), (false, 3 * chunk));
    // One chunk width before the boundary the look-ahead reaches it.
    stream.seek(SeekFrom::Start(chunk as u64)).unwrap();
    assert_eq!(stream.should_get_chunk(), (true, 3 * chunk));
}

#[test]
fn prefetch_starts_at_an_undownloaded_cursor() {
    let chunk = 100usize;
    let mut stream = stream_of(&[10 * chunk], chunk);
    assert_eq!(stream.should_get_chunk(), (true, 0));
    stream.seek(SeekFrom::Start(42)).unwrap();
    assert_eq!(stream.should_get_chunk(), (true, 42));
}

#[test]
fn prefetch_stops_at_the_end_of_the_stream() {
    let chunk = 100usize;
    let mut stream = stream_of(&[10 * chunk], chunk);
    stream.deliver_chunk(9 * chunk, &pattern(0, chunk));
    stream.seek(SeekFrom::Start((9 * chunk) as u64)).unwrap();
    // The enclosing run already reaches the end of the stream.
    assert_eq!(stream.should_get_chunk(), (false, 10 * chunk));
}

#[test]
fn dispatch_skips_ranges_already_requested() {
    let chunk = 100usize;
    let mut stream = stream_of(&[10 * chunk], chunk);
    stream.deliver_chunk(0, &pattern(0, 2 * chunk));
    stream.seek(SeekFrom::Start(chunk as u64)).unwrap();
    let request = stream.dispatch_fetch().expect("a fetch is wanted at the boundary");
    assert_eq!(request.start, 2 * chunk);
    assert_eq!(request.end, 10 * chunk);
    assert!(stream.is_requested(2 * chunk));
    // The point one chunk ahead of the cursor is now covered by the request
    // in flight, so no duplicate fetch is dispatched.
    assert!(stream.dispatch_fetch().is_none());
}

#[test]
fn delivery_retires_the_requested_range() {
    let chunk = 100usize;
    let mut stream = stream_of(&[10 * chunk], chunk);
    let request = stream.dispatch_fetch().expect("an undownloaded cursor forces a fetch");
    assert_eq!(request.start, 0);
    assert!(stream.is_requested(0));
    stream.deliver_chunk(0, &pattern(0, chunk));
    assert!(!stream.is_requested(0));
    assert!(stream.is_downloaded(0));
}

#[test]
fn buffer_grows_past_the_size_estimate() {
    let mut stream = stream_of(&[10], 4);
    // More valid data than the pre-sized buffer can hold: the buffer grows,
    // and only positions within the stream are recorded as downloaded.
    stream.deliver_chunk(8, &pattern(8, 5));
    assert!(stream.is_downloaded(8));
    assert!(stream.is_downloaded(9));
    assert!(!stream.is_downloaded(10));
    assert_eq!(stream.byte_len(), Some(10));
    stream.deliver_chunk(0, &pattern(0, 8));
    assert_eq!(stream.read(100), pattern(0, 10));
}

#[test]
fn buffering_signal_reflects_the_cursor() {
    let mut stream = stream_of(&[100], 10);
    assert!(stream.is_buffering());
    assert!(stream.must_block());
    stream.deliver_chunk(0, &pattern(0, 20));
    assert!(!stream.is_buffering());
    assert!(!stream.must_block());
    stream.seek(SeekFrom::Start(50)).unwrap();
    assert!(stream.is_buffering());
    assert!(stream.must_block());
}

#[test]
fn end_to_end_two_part_scenario() {
    let chunk = 100usize;
    let layout = layout_of(&[1000, 500]);
    let mut stream = HlsStream::with_chunk_size(layout, chunk);
    assert_eq!(stream.byte_len(), Some(1500));
    assert!(stream.is_seekable());

    // First read at offset 0: nothing downloaded, so the engine is buffering
    // and dispatches a fetch against part 1 starting at 0.
    assert!(stream.is_buffering());
    let request = stream.dispatch_fetch().expect("a fetch is dispatched for part 1");
    assert_eq!(request.part_index, 0);
    assert_eq!(request.url, "http://parts.example/0");
    assert_eq!(request.start, 0);
    assert_eq!(request.end, 1000);
    // The transport delivers the whole part; the read then returns 200 bytes.
    stream.deliver_chunk(0, &pattern(0, 1000));
    let bytes = stream.read(200);
    assert_eq!(bytes, pattern(0, 200));
    assert_eq!(stream.position(), 200);

    // Seek into part 2 and read again: the fetch goes against part 2's URL.
    assert_eq!(stream.seek(SeekFrom::Start(1200)), Ok(1200));
    let request = stream.dispatch_fetch().expect("a fetch is dispatched for part 2");
    assert_eq!(request.part_index, 1);
    assert_eq!(request.url, "http://parts.example/1");
    assert_eq!(request.start, 1200);
    assert_eq!(request.start - 1000, 200);
    assert_eq!(request.end, 1500);
    stream.deliver_chunk(1200, &pattern(1200, 300));
    let bytes = stream.read(100);
    assert_eq!(bytes, pattern(1200, 100));
    assert_eq!(stream.position(), 1300);
    // Reading past the end yields fewer bytes, then zero.
    let bytes = stream.read(1000);
    assert_eq!(bytes.len(), 200);
    assert_eq!(stream.read(1), Vec::<u8>::new());
}
