use crustty::buffer::TermBuffer;
use crustty::session::{reader_step, ReadEvent, ReaderAction};

#[test]
fn hello_world_session() {
    // A child that prints one line and exits: the reader sees the bytes,
    // then end of stream; the buffer holds exactly the decoded string and
    // the reader reaps the child and stops.
    let mut buf = TermBuffer::new();
    let action = reader_step(&mut buf, &ReadEvent::Data(b"Hello, World!\r\n".to_vec()));
    assert_eq!(action, ReaderAction::KeepReading);
    let action = reader_step(&mut buf, &ReadEvent::Eof);
    assert_eq!(action, ReaderAction::ReapChildAndStop);
    assert_eq!(buf.snapshot(), "Hello, World!\r\n");
}

#[test]
fn chunks_append_in_order() {
    let mut buf = TermBuffer::new();
    assert_eq!(
        reader_step(&mut buf, &ReadEvent::Data(b"one ".to_vec())),
        ReaderAction::KeepReading
    );
    assert_eq!(
        reader_step(&mut buf, &ReadEvent::Data(b"two ".to_vec())),
        ReaderAction::KeepReading
    );
    assert_eq!(
        reader_step(&mut buf, &ReadEvent::Data(b"three".to_vec())),
        ReaderAction::KeepReading
    );
    assert_eq!(buf.snapshot(), "one two three");
}

#[test]
fn read_error_stops_and_keeps_buffer() {
    let mut buf = TermBuffer::new();
    reader_step(&mut buf, &ReadEvent::Data(b"partial".to_vec()));
    let action = reader_step(&mut buf, &ReadEvent::ReadError);
    assert_eq!(action, ReaderAction::StopReading);
    assert_eq!(buf.snapshot(), "partial");
}
