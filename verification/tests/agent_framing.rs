use mbx_cache::agent::framing::{FrameStep, RequestFrame, MAX_REQUEST_BYTES};

/// Feed `stream` in pieces of `piece` bytes until a request completes.
fn read_in_pieces(stream: &[u8], piece: usize) -> (Vec<u8>, usize, FrameStep) {
    let mut frame = RequestFrame::new();
    let mut at = 0;
    let mut step = FrameStep::More;
    while at < stream.len() {
        let end = (at + piece).min(stream.len());
        let (consumed, now) = frame.feed(&stream[at..end]);
        at += consumed;
        step = now;
        if now != FrameStep::More {
            break;
        }
    }
    (frame.into_line(), at, step)
}

#[test]
fn a_request_is_the_first_line_however_the_stream_arrives() {
    let stream = b"{\"type\":\"hello\"}\n{\"type\":\"next\"}\n";
    for piece in [1, 2, 3, 7, 16, 17, 64] {
        let (line, consumed, step) = read_in_pieces(stream, piece);
        assert_eq!(line, b"{\"type\":\"hello\"}".to_vec(), "piece {piece}");
        assert_eq!(consumed, 17, "the newline is taken, nothing after it");
        assert_eq!(step, FrameStep::Complete);
    }
}

#[test]
fn a_stream_that_ends_without_a_newline_leaves_the_bytes_read() {
    let (line, consumed, step) = read_in_pieces(b"partial", 3);
    assert_eq!(line, b"partial".to_vec());
    assert_eq!(consumed, 7);
    assert_eq!(step, FrameStep::More);
}

#[test]
fn an_oversized_request_is_refused_before_it_is_kept() {
    let mut frame = RequestFrame::new();
    let big = vec![b'x'; MAX_REQUEST_BYTES];
    assert_eq!(frame.feed(&big), (MAX_REQUEST_BYTES, FrameStep::More));
    assert_eq!(frame.feed(b"y\n"), (0, FrameStep::TooLong));
    assert_eq!(frame.feed(b"\n"), (1, FrameStep::Complete));
    assert_eq!(frame.into_line().len(), MAX_REQUEST_BYTES);
}
