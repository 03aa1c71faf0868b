use faux_unix_system::streams::{LineBuffer, LineRead, Pipe};


fn write_through(buffer: &mut LineBuffer, out: &mut Vec<u8>, bytes: &[u8]) {
    if let Some(v) = buffer.push(bytes) {
        out.extend(v);
    }
}

#[test]
fn output_stream_test() {
    let mut buffer = LineBuffer::new();
    let mut written = Vec::new();
    write_through(&mut buffer, &mut written, "Hello World!".as_bytes());
    assert!(written.is_empty());
    if let Some(v) = buffer.flush() {
        written.extend(v);
    }
    write_through(&mut buffer, &mut written, "\nGoodbye\n".as_bytes());
    if let Some(v) = buffer.flush() {
        written.extend(v);
    }
    assert_eq!(String::from_utf8(written).unwrap(), "Hello World!\nGoodbye\n");
}

#[test]
fn line_buffer_holds_until_line_end() {
    let mut buffer = LineBuffer::new();
    assert_eq!(buffer.push(b"ab"), None);
    assert_eq!(buffer.push(b"c\rd"), Some(b"abc\rd".to_vec()));
    assert_eq!(buffer.flush(), None);
}

#[test]
fn make_pipe() {
    let mut pipe = Pipe::new();
    pipe.write(b"Hello\nWorld!\n").unwrap();
    assert_eq!(pipe.get_line(), LineRead::Line(b"Hello".to_vec()));
    assert_eq!(pipe.get_line(), LineRead::Line(b"World!".to_vec()));
    pipe.shutdown();
    assert_eq!(pipe.get_line(), LineRead::End);
}

#[test]
fn input_stream_test() {
    let mut pipe = Pipe::new();
    for chunk in ["Oh wow...sports.\n", "I smell death!\n", "It's Lapis."] {
        pipe.write(chunk.as_bytes()).unwrap();
    }
    assert_eq!(pipe.get_line(), LineRead::Line(b"Oh wow...sports.".to_vec()));
    assert_eq!(pipe.get_line(), LineRead::Line(b"I smell death!".to_vec()));
    assert_eq!(pipe.get_line(), LineRead::Pending);
    pipe.shutdown();
    assert_eq!(pipe.get_line(), LineRead::Line(b"It's Lapis.".to_vec()));
    assert_eq!(pipe.get_line(), LineRead::End);
}

#[test]
fn pipe_keeps_bytes_whatever_the_chunks() {
    let data: Vec<u8> = (0u8..=255).chain(b"\n\r\nend".iter().copied()).collect();
    for size in [1usize, 2, 3, 7, 64, 1000] {
        let mut pipe = Pipe::new();
        for chunk in data.chunks(size) {
            pipe.write(chunk).unwrap();
        }
        pipe.shutdown();
        let mut got = Vec::new();
        while let Some(b) = pipe.read_byte() {
            got.push(b);
        }
        assert_eq!(got, data);
    }
}

#[test]
fn writing_after_shutdown_is_broken_pipe() {
    let mut pipe = Pipe::new();
    pipe.shutdown();
    assert!(pipe.write(b"late").is_err());
    assert_eq!(pipe.read_byte(), None);
}

#[test]
fn a_line_end_hands_held_bytes_to_the_reader() {
    let mut pipe = Pipe::new();
    pipe.write(b"Hel").unwrap();
    assert_eq!(pipe.read_byte(), None);
    pipe.write(b"lo\nWor").unwrap();
    assert_eq!(pipe.get_line(), LineRead::Line(b"Hello".to_vec()));
    assert_eq!(pipe.get_line(), LineRead::Pending);
    assert_eq!(pipe.read_byte(), Some(b'W'));
}
