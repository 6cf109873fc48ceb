use hls_stream::buffer::StreamBuffer;

#[test]
fn fresh_buffer_is_zero_filled() {
    let buffer = StreamBuffer::with_length(5);
    assert_eq!(buffer.len(), 5);
    assert_eq!(buffer.copy_range(0, 5), vec![0, 0, 0, 0, 0]);
}

#[test]
fn merge_reports_the_merged_range() {
    let mut buffer = StreamBuffer::with_length(10);
    assert_eq!(buffer.merge(3, &vec![7, 8, 9]), Some((3, 6)));
    assert_eq!(buffer.copy_range(2, 5), vec![0, 7, 8, 9, 0]);
}

#[test]
fn merge_of_nothing_reports_no_range() {
    let mut buffer = StreamBuffer::with_length(4);
    assert_eq!(buffer.merge(2, &Vec::new()), None);
    assert_eq!(buffer.copy_range(0, 4), vec![0, 0, 0, 0]);
}

#[test]
fn merge_grows_the_buffer_with_zero_fill() {
    let mut buffer = StreamBuffer::with_length(4);
    assert_eq!(buffer.merge(6, &vec![1, 2]), Some((6, 8)));
    assert_eq!(buffer.len(), 8);
    assert_eq!(buffer.copy_range(0, 8), vec![0, 0, 0, 0, 0, 0, 1, 2]);
}

#[test]
fn overlapping_merge_overwrites_in_place() {
    let mut buffer = StreamBuffer::with_length(6);
    buffer.merge(0, &vec![1, 1, 1, 1]);
    buffer.merge(2, &vec![9, 9]);
    assert_eq!(buffer.copy_range(0, 6), vec![1, 1, 9, 9, 0, 0]);
}
