use wirecheck::buffer::GROWTH_INCREMENT;
use wirecheck::header::HeaderIndex;
use wirecheck::transfer::{Directive, Event, Fault, Phase, Policy, Step, Transfer};

const LENIENT: Policy = Policy { early_close_is_fatal: false, zero_chunk_is_fatal: false };
const STRICT: Policy = Policy { early_close_is_fatal: true, zero_chunk_is_fatal: true };

fn read(transfer: &mut Transfer, data: &[u8]) -> Step {
    let room = transfer.read_room();
    assert!(data.len() <= room.len());
    room[..data.len()].copy_from_slice(data);
    transfer.step(Event::Read(data.len()))
}

fn bytes_of(step: &Step) -> Option<Vec<u8>> {
    step.chunk.as_ref().map(|chunk| chunk.to_vec())
}

fn reading_headers(policy: Policy) -> Transfer {
    let mut transfer = Transfer::new(policy);
    assert_eq!(transfer.step(Event::Connected).next, Directive::SendRequest);
    assert_eq!(transfer.step(Event::RequestSent).next, Directive::Read);
    transfer
}

fn streaming_body(policy: Policy, length: usize) -> Transfer {
    let mut transfer = reading_headers(policy);
    let head = format!("HTTP/1.1 200 OK\r\ncontent-length: {length}\r\n\r\n");
    let step = read(&mut transfer, head.as_bytes());
    assert_eq!(step.next, Directive::Read);
    assert!(step.chunk.is_none());
    assert_eq!(transfer.phase(), Phase::StreamingBody);
    transfer
}

#[test]
fn a_new_transfer_is_about_to_connect() {
    let transfer = Transfer::new(STRICT);
    assert_eq!(transfer.phase(), Phase::Connecting);
    assert_eq!(transfer.policy(), STRICT);
    assert_eq!(transfer.index(), HeaderIndex { content_length: None, complete: false });
    assert_eq!(transfer.received(), 0);
    assert_eq!(transfer.expected(), 0);
    assert_eq!(transfer.pending_len(), 0);
}

#[test]
fn the_phases_follow_each_other() {
    let mut transfer = Transfer::new(LENIENT);
    assert_eq!(transfer.step(Event::Connected).next, Directive::SendRequest);
    assert_eq!(transfer.phase(), Phase::SendingRequest);
    assert_eq!(transfer.step(Event::RequestSent).next, Directive::Read);
    assert_eq!(transfer.phase(), Phase::ReadingHeaders);
    let step = read(&mut transfer, b"HTTP/1.1 200 OK\r\ncontent-length: 3\r\n\r\n");
    assert_eq!(step.next, Directive::Read);
    assert_eq!(transfer.phase(), Phase::StreamingBody);
    assert_eq!(transfer.expected(), 3);
    let step = read(&mut transfer, b"abc");
    assert_eq!(step.next, Directive::Close);
    assert_eq!(bytes_of(&step), Some(b"abc".to_vec()));
    assert_eq!(transfer.phase(), Phase::Closing);
    assert_eq!(transfer.step(Event::Drained).next, Directive::Connect);
    assert_eq!(transfer.phase(), Phase::Connecting);
}

#[test]
fn connect_failure_is_a_fault() {
    let mut transfer = Transfer::new(LENIENT);
    let step = transfer.step(Event::ConnectFailed);
    assert_eq!(step.next, Directive::Abort(Fault::ConnectFailed));
    assert!(step.chunk.is_none());
    assert_eq!(transfer.phase(), Phase::Connecting);
}

#[test]
fn send_failure_is_a_fault() {
    let mut transfer = Transfer::new(LENIENT);
    let _ = transfer.step(Event::Connected);
    assert_eq!(transfer.step(Event::SendFailed).next, Directive::Abort(Fault::SendFailed));
}

#[test]
fn read_failure_is_a_fault_in_headers_and_in_body() {
    let mut transfer = reading_headers(LENIENT);
    assert_eq!(transfer.step(Event::ReadFailed).next, Directive::Abort(Fault::ReadFailed));
    let mut transfer = streaming_body(LENIENT, 10);
    assert_eq!(transfer.step(Event::ReadFailed).next, Directive::Abort(Fault::ReadFailed));
}

#[test]
fn would_block_asks_for_a_yield_and_changes_nothing() {
    let mut transfer = reading_headers(LENIENT);
    assert_eq!(transfer.step(Event::WouldBlock).next, Directive::Yield);
    assert_eq!(transfer.phase(), Phase::ReadingHeaders);
    let mut transfer = streaming_body(LENIENT, 10);
    assert_eq!(transfer.step(Event::WouldBlock).next, Directive::Yield);
    assert_eq!(transfer.phase(), Phase::StreamingBody);
    assert_eq!(transfer.received(), 0);
}

#[test]
fn close_while_headers_are_incomplete_is_a_fault() {
    let mut transfer = reading_headers(LENIENT);
    assert_eq!(transfer.step(Event::Read(0)).next, Directive::Abort(Fault::ClosedInHeaders));
    let mut transfer = reading_headers(LENIENT);
    let _ = read(&mut transfer, b"HTTP/1.1 200 OK\r\ncontent-length: 10\r\n");
    assert_eq!(transfer.index().content_length, Some(10));
    assert_eq!(transfer.step(Event::Read(0)).next, Directive::Abort(Fault::ClosedInHeaders));
}

#[test]
fn complete_headers_without_a_length_are_a_fault() {
    let mut transfer = reading_headers(LENIENT);
    let step = read(&mut transfer, b"HTTP/1.1 200 OK\r\nserver: x\r\n\r\nbody");
    assert_eq!(step.next, Directive::Abort(Fault::NoContentLength));
    assert!(step.chunk.is_none());
    let mut transfer = reading_headers(LENIENT);
    let step = read(&mut transfer, b"content-length: 4\r\ncontent-length: four\r\n\r\nbody");
    assert_eq!(step.next, Directive::Abort(Fault::NoContentLength));
}

#[test]
fn headers_may_arrive_in_pieces() {
    let mut transfer = reading_headers(LENIENT);
    assert_eq!(read(&mut transfer, b"HTTP/1.1 200 OK\r").next, Directive::Read);
    assert_eq!(transfer.pending_len(), 16);
    assert_eq!(read(&mut transfer, b"\ncontent-len").next, Directive::Read);
    assert_eq!(transfer.pending_len(), 11);
    assert_eq!(read(&mut transfer, b"gth: 12\r\n\r").next, Directive::Read);
    assert_eq!(transfer.index(), HeaderIndex { content_length: Some(12), complete: false });
    assert_eq!(transfer.pending_len(), 1);
    let step = read(&mut transfer, b"\n");
    assert_eq!(step.next, Directive::Read);
    assert!(step.chunk.is_none());
    assert_eq!(transfer.phase(), Phase::StreamingBody);
    assert_eq!(transfer.expected(), 12);
    assert_eq!(transfer.received(), 0);
}

#[test]
fn what_follows_the_headers_is_the_first_chunk() {
    let mut transfer = reading_headers(LENIENT);
    let step = read(&mut transfer, b"content-length: 10\r\n\r\n0123");
    assert_eq!(step.next, Directive::Read);
    assert_eq!(bytes_of(&step), Some(b"0123".to_vec()));
    assert_eq!(transfer.received(), 4);
    assert_eq!(transfer.pending_len(), 0);
    let step = read(&mut transfer, b"456789");
    assert_eq!(step.next, Directive::Close);
    assert_eq!(bytes_of(&step), Some(b"456789".to_vec()));
    assert_eq!(transfer.received(), 10);
}

#[test]
fn a_body_that_comes_with_the_headers_ends_the_cycle() {
    let mut transfer = reading_headers(LENIENT);
    let step = read(&mut transfer, b"content-length: 4\r\n\r\nbody");
    assert_eq!(step.next, Directive::Close);
    assert_eq!(bytes_of(&step), Some(b"body".to_vec()));
    assert_eq!(transfer.phase(), Phase::Closing);
}

#[test]
fn a_body_of_no_bytes_ends_the_cycle_at_once() {
    let mut transfer = reading_headers(LENIENT);
    let step = read(&mut transfer, b"content-length: 0\r\n\r\n");
    assert_eq!(step.next, Directive::Close);
    assert!(step.chunk.is_none());
    assert_eq!(transfer.phase(), Phase::Closing);
    assert_eq!(transfer.received(), 0);
}

#[test]
fn each_body_read_is_one_chunk_and_asks_for_a_yield() {
    let mut transfer = streaming_body(LENIENT, 10);
    let step = read(&mut transfer, b"0123");
    assert_eq!(step.next, Directive::Yield);
    assert_eq!(bytes_of(&step), Some(b"0123".to_vec()));
    assert_eq!(transfer.received(), 4);
    let step = read(&mut transfer, b"4");
    assert_eq!(step.next, Directive::Yield);
    assert_eq!(bytes_of(&step), Some(b"4".to_vec()));
    let step = read(&mut transfer, b"56789");
    assert_eq!(step.next, Directive::Close);
    assert_eq!(bytes_of(&step), Some(b"56789".to_vec()));
    assert_eq!(transfer.received(), 10);
    assert_eq!(transfer.phase(), Phase::Closing);
}

#[test]
fn a_read_past_the_declared_length_is_handed_on_whole() {
    let mut transfer = streaming_body(LENIENT, 3);
    let step = read(&mut transfer, b"abcdef");
    assert_eq!(step.next, Directive::Close);
    assert_eq!(bytes_of(&step), Some(b"abcdef".to_vec()));
    assert_eq!(transfer.received(), 6);
}

#[test]
fn early_close_ends_the_cycle_where_it_is_tolerated() {
    let mut transfer = streaming_body(LENIENT, 10);
    let _ = read(&mut transfer, b"0123");
    let step = transfer.step(Event::Read(0));
    assert_eq!(step.next, Directive::Close);
    assert!(step.chunk.is_none());
    assert_eq!(transfer.phase(), Phase::Closing);
    assert_eq!(transfer.received(), 4);
}

#[test]
fn early_close_is_a_fault_where_it_is_not_tolerated() {
    let policy = Policy { early_close_is_fatal: true, zero_chunk_is_fatal: false };
    let mut transfer = streaming_body(policy, 10);
    let _ = read(&mut transfer, b"0123");
    let step = transfer.step(Event::Read(0));
    assert_eq!(
        step.next,
        Directive::Abort(Fault::ClosedInBody { received: 4, expected: 10 })
    );
    assert_eq!(transfer.phase(), Phase::StreamingBody);
}

#[test]
fn a_zero_chunk_is_handed_on_where_it_is_tolerated() {
    let mut transfer = streaming_body(LENIENT, 10);
    let step = read(&mut transfer, &[0, 0, 0]);
    assert_eq!(step.next, Directive::Yield);
    assert_eq!(bytes_of(&step), Some(vec![0, 0, 0]));
    assert_eq!(transfer.received(), 3);
}

#[test]
fn a_zero_chunk_is_a_fault_where_it_is_not_tolerated() {
    let policy = Policy { early_close_is_fatal: false, zero_chunk_is_fatal: true };
    let mut transfer = streaming_body(policy, 1 << 20);
    let _ = read(&mut transfer, b"abcde");
    let step = read(&mut transfer, &vec![0u8; GROWTH_INCREMENT]);
    assert_eq!(
        step.next,
        Directive::Abort(Fault::ZeroChunk { offset: 5, len: GROWTH_INCREMENT })
    );
    assert!(step.chunk.is_none());
    assert_eq!(transfer.received(), 5);
    let step = read(&mut transfer, &[0, 0, 1]);
    assert_eq!(step.next, Directive::Yield);
    assert_eq!(bytes_of(&step), Some(vec![0, 0, 1]));
}

#[test]
fn zeros_that_follow_the_headers_are_not_judged_by_the_reader() {
    let mut transfer = reading_headers(STRICT);
    let step = read(&mut transfer, b"content-length: 9\r\n\r\n\0\0\0");
    assert_eq!(step.next, Directive::Read);
    assert_eq!(bytes_of(&step), Some(vec![0, 0, 0]));
}

#[test]
fn an_event_out_of_turn_is_misuse_and_changes_nothing() {
    let mut transfer = Transfer::new(LENIENT);
    for event in [Event::RequestSent, Event::SendFailed, Event::Read(1), Event::WouldBlock, Event::ReadFailed, Event::Drained] {
        assert_eq!(transfer.step(event).next, Directive::Abort(Fault::Misuse));
        assert_eq!(transfer.phase(), Phase::Connecting);
    }
    let mut transfer = streaming_body(LENIENT, 10);
    for event in [Event::Connected, Event::ConnectFailed, Event::RequestSent, Event::SendFailed, Event::Drained] {
        assert_eq!(transfer.step(event).next, Directive::Abort(Fault::Misuse));
        assert_eq!(transfer.phase(), Phase::StreamingBody);
    }
    let mut transfer = streaming_body(LENIENT, 1);
    let _ = read(&mut transfer, b"a");
    assert_eq!(transfer.phase(), Phase::Closing);
    for event in [Event::Connected, Event::Read(0), Event::WouldBlock] {
        assert_eq!(transfer.step(event).next, Directive::Abort(Fault::Misuse));
        assert_eq!(transfer.phase(), Phase::Closing);
    }
}

#[test]
fn more_bytes_than_there_was_room_for_is_misuse() {
    let mut transfer = reading_headers(LENIENT);
    assert_eq!(transfer.step(Event::Read(1)).next, Directive::Abort(Fault::Misuse));
    let room = transfer.read_room().len();
    assert_eq!(room, GROWTH_INCREMENT);
    assert_eq!(transfer.step(Event::Read(room + 1)).next, Directive::Abort(Fault::Misuse));
    assert_eq!(transfer.pending_len(), 0);
    let mut transfer = streaming_body(LENIENT, 10);
    let room = transfer.read_room().len();
    assert_eq!(transfer.step(Event::Read(room + 1)).next, Directive::Abort(Fault::Misuse));
    assert_eq!(transfer.received(), 0);
}

#[test]
fn every_read_has_one_increment_of_room() {
    let mut transfer = reading_headers(LENIENT);
    assert_eq!(transfer.read_room().len(), GROWTH_INCREMENT);
    let _ = read(&mut transfer, b"HTTP/1.1 200 OK\r\n");
    assert_eq!(transfer.read_room().len(), GROWTH_INCREMENT);
    let _ = read(&mut transfer, &vec![b'x'; GROWTH_INCREMENT]);
    assert_eq!(transfer.pending_len(), GROWTH_INCREMENT);
    assert_eq!(transfer.read_room().len(), GROWTH_INCREMENT);
    assert!(transfer.read_room().iter().all(|byte| *byte == 0));
}

#[test]
fn room_that_was_written_to_and_not_committed_is_handed_out_again() {
    let mut transfer = reading_headers(LENIENT);
    transfer.read_room()[..3].copy_from_slice(b"abc");
    assert_eq!(transfer.step(Event::WouldBlock).next, Directive::Yield);
    assert_eq!(transfer.pending_len(), 0);
    assert_eq!(&transfer.read_room()[..3], b"abc");
}

#[test]
fn a_new_cycle_starts_from_scratch() {
    let mut transfer = reading_headers(STRICT);
    let _ = read(&mut transfer, b"content-length: 2\r\n\r\nab");
    assert_eq!(transfer.phase(), Phase::Closing);
    assert_eq!(transfer.step(Event::Drained).next, Directive::Connect);
    assert_eq!(transfer.phase(), Phase::Connecting);
    assert_eq!(transfer.policy(), STRICT);
    assert_eq!(transfer.index(), HeaderIndex { content_length: None, complete: false });
    assert_eq!(transfer.received(), 0);
    assert_eq!(transfer.expected(), 0);
    assert_eq!(transfer.pending_len(), 0);
    assert_eq!(transfer.step(Event::Connected).next, Directive::SendRequest);
    assert_eq!(transfer.step(Event::RequestSent).next, Directive::Read);
    let step = read(&mut transfer, b"content-length: 1\r\n\r\nz");
    assert_eq!(step.next, Directive::Close);
    assert_eq!(bytes_of(&step), Some(b"z".to_vec()));
}
