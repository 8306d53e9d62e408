use divarema::io_module::{
    decode_line, encode_line, write_outcome, ByteSink, DivaremaIoModule, IoError, LineSource,
    MemoryInput,
};
use std::io::{BufRead, BufReader, Write};

/// A source over anything that std can read lines from.
#[derive(Debug)]
struct Reader<R: BufRead>(R);

impl<R: BufRead> LineSource for Reader<R> {
    fn read_line(&mut self) -> Result<Vec<u8>, String> {
        let mut line = Vec::new();
        match self.0.read_until(b'\n', &mut line) {
            Ok(_) => Ok(line),
            Err(error) => Err(error.to_string()),
        }
    }
}

/// A sink over anything that std can write to.
#[derive(Debug)]
struct Writer<W: Write>(W);

impl<W: Write> ByteSink for Writer<W> {
    fn write_all(&mut self, bytes: &[u8]) -> Result<(), String> {
        self.0.write_all(bytes).map_err(|error| error.to_string())
    }

    fn flush(&mut self) -> Result<(), String> {
        self.0.flush().map_err(|error| error.to_string())
    }
}

/// A source and a sink that always fail.
#[derive(Debug)]
struct Broken;

impl LineSource for Broken {
    fn read_line(&mut self) -> Result<Vec<u8>, String> {
        Err(String::from("no carrier"))
    }
}

impl ByteSink for Broken {
    fn write_all(&mut self, _bytes: &[u8]) -> Result<(), String> {
        Err(String::from("broken pipe"))
    }

    fn flush(&mut self) -> Result<(), String> {
        Err(String::from("cannot flush"))
    }
}

/// A sink that takes the bytes and fails when flushed.
#[derive(Debug)]
struct Clogged(Vec<u8>);

impl ByteSink for Clogged {
    fn write_all(&mut self, bytes: &[u8]) -> Result<(), String> {
        self.0.extend_from_slice(bytes);
        Ok(())
    }

    fn flush(&mut self) -> Result<(), String> {
        Err(String::from("cannot flush"))
    }
}

#[test]
fn test_io_module() {
    let inp: &[u8] = &String::from("123\n-456\n").into_bytes();
    let outp: Vec<u8> = Vec::new();

    let mut module1 = DivaremaIoModule {
        input: Reader(BufReader::new(inp)),
        output: outp,
    };

    let x = module1.get_int().unwrap();
    assert_eq!(x, 123);

    module1.put_int(789).unwrap();
    assert_eq!(module1.output, b"789\n");

    let x = module1.get_int().unwrap();
    println!("{}", x);
    assert_eq!(x, -456);

    module1.put_int(-30).unwrap();
    assert_eq!(module1.output, b"789\n-30\n");
}

#[test]
fn port_over_memory_reads_and_prints() {
    let mut port = DivaremaIoModule {
        input: MemoryInput::new(b"123\n-456\n".to_vec()),
        output: Vec::new(),
    };
    assert_eq!(port.get_int(), Ok(123));
    assert_eq!(port.put_int(789), Ok(()));
    assert_eq!(port.output, b"789\n");
    assert_eq!(port.get_int(), Ok(-456));
    assert_eq!(port.put_int(-30), Ok(()));
    assert_eq!(port.output, b"789\n-30\n");
    assert_eq!(port.get_int(), Err(IoError::EndOfInput));
    assert_eq!(port.get_int(), Err(IoError::EndOfInput));
}

#[test]
fn port_over_std_streams_prints() {
    let mut port = DivaremaIoModule {
        input: Reader(std::io::empty()),
        output: Writer(Vec::new()),
    };
    assert_eq!(port.put_int(0), Ok(()));
    assert_eq!(port.put_int(i32::MIN), Ok(()));
    assert_eq!(port.output.0, b"0\n-2147483648\n");
    assert_eq!(port.get_int(), Err(IoError::EndOfInput));
}

#[test]
fn memory_input_hands_out_lines() {
    let mut input = MemoryInput::new(b"one\n\ntwo\nrest".to_vec());
    assert_eq!(input.read_line(), Ok(b"one\n".to_vec()));
    assert_eq!(input.read_line(), Ok(b"\n".to_vec()));
    assert_eq!(input.read_line(), Ok(b"two\n".to_vec()));
    assert_eq!(input.read_line(), Ok(b"rest".to_vec()));
    assert_eq!(input.read_line(), Ok(Vec::new()));
    assert_eq!(input.read_line(), Ok(Vec::new()));
}

#[test]
fn memory_input_may_be_empty() {
    let mut input = MemoryInput::new(Vec::new());
    assert_eq!(input.read_line(), Ok(Vec::new()));
}

#[test]
fn vector_sink_appends() {
    let mut sink: Vec<u8> = vec![1, 2];
    assert_eq!(ByteSink::write_all(&mut sink, &[3, 4]), Ok(()));
    assert_eq!(ByteSink::flush(&mut sink), Ok(()));
    assert_eq!(ByteSink::write_all(&mut sink, &[]), Ok(()));
    assert_eq!(sink, vec![1, 2, 3, 4]);
}

#[test]
fn encode_line_appends_a_line_feed() {
    assert_eq!(encode_line(-30), b"-30\n");
    assert_eq!(encode_line(0), b"0\n");
    assert_eq!(encode_line(2147483647), b"2147483647\n");
}

#[test]
fn decode_line_strips_the_line_feed() {
    assert_eq!(decode_line(Ok(b"123\n".to_vec())), Ok(123));
    assert_eq!(decode_line(Ok(b"-456\n".to_vec())), Ok(-456));
}

#[test]
fn decode_line_takes_a_last_line_without_line_feed() {
    assert_eq!(decode_line(Ok(b"123".to_vec())), Ok(123));
}

#[test]
fn decode_line_sees_the_end_of_input() {
    assert_eq!(decode_line(Ok(Vec::new())), Err(IoError::EndOfInput));
}

#[test]
fn decode_line_rejects_what_is_no_integer() {
    assert_eq!(decode_line(Ok(b"abc\n".to_vec())), Err(IoError::Decode));
    assert_eq!(decode_line(Ok(b"\n".to_vec())), Err(IoError::Decode));
    assert_eq!(decode_line(Ok(b"12\r\n".to_vec())), Err(IoError::Decode));
    assert_eq!(decode_line(Ok(b"12\n\n".to_vec())), Err(IoError::Decode));
    assert_eq!(decode_line(Ok(b"2147483648\n".to_vec())), Err(IoError::Decode));
    assert_eq!(decode_line(Ok(b"-\n".to_vec())), Err(IoError::Decode));
}

#[test]
fn decode_line_passes_on_the_complaint() {
    assert_eq!(
        decode_line(Err(String::from("no carrier"))),
        Err(IoError::Read(String::from("no carrier")))
    );
}

#[test]
fn malformed_line_is_a_decode_error() {
    let mut port = DivaremaIoModule {
        input: MemoryInput::new(b"abc\n7\n".to_vec()),
        output: Vec::new(),
    };
    assert_eq!(port.get_int(), Err(IoError::Decode));
    assert_eq!(port.get_int(), Ok(7));
    assert_eq!(port.output, b"");
}

#[test]
fn failing_source_is_a_read_error() {
    let mut port = DivaremaIoModule { input: Broken, output: Vec::new() };
    assert_eq!(port.get_int(), Err(IoError::Read(String::from("no carrier"))));
}

#[test]
fn failing_sink_is_a_write_error() {
    let mut port = DivaremaIoModule { input: MemoryInput::new(Vec::new()), output: Broken };
    assert_eq!(port.put_int(5), Err(IoError::Write(String::from("broken pipe"))));
}

#[test]
fn failing_flush_is_a_write_error() {
    let mut port = DivaremaIoModule {
        input: MemoryInput::new(Vec::new()),
        output: Clogged(Vec::new()),
    };
    assert_eq!(port.put_int(5), Err(IoError::Write(String::from("cannot flush"))));
    assert_eq!(port.output.0, b"5\n");
}

#[test]
fn write_outcome_turns_a_complaint_into_a_write_error() {
    assert_eq!(write_outcome(Ok(())), Ok(()));
    assert_eq!(
        write_outcome(Err(String::from("broken pipe"))),
        Err(IoError::Write(String::from("broken pipe")))
    );
    assert_eq!(write_outcome(Err(String::new())), Err(IoError::Write(String::new())));
}

#[test]
fn failing_write_is_not_followed_by_a_flush() {
    // The first complaint is the result: that of the write, not of the flush.
    let mut port = DivaremaIoModule { input: MemoryInput::new(Vec::new()), output: Broken };
    assert_eq!(port.put_int(-1), Err(IoError::Write(String::from("broken pipe"))));
    assert_ne!(port.put_int(-1), Err(IoError::Write(String::from("cannot flush"))));
    assert_ne!(port.put_int(-1), Ok(()));
}
