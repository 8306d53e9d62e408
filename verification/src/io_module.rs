//! The port through which the machine reads and prints numbers.
//!
//! A number travels as one line: its text, as the codec writes it, and a
//! line feed. The port owns one source of lines and one sink of bytes. Both
//! are traits, so that a machine can talk to a terminal, a file or a buffer
//! in memory alike.
//!
//! A source or a sink may tell in its specification what it holds, as the
//! buffers of this module do. Of such a port every result is known
//! beforehand. One that does not tell decides for itself what it returns,
//! and the contracts say what holds whatever that is.

use vstd::prelude::*;
use crate::codec::{decode, decoding, encoding, format_i32};

verus! {

/// The byte that ends a line.
pub const LINE_FEED: u8 = 10;

/// How long the first line of `s` is, its line feed included: up to the
/// first line feed, or all of `s` where it holds none.
pub open spec fn line_end(s: Seq<u8>) -> nat
    decreases s.len(),
{
    if s.len() == 0 {
        0
    } else if s[0] == LINE_FEED {
        1
    } else {
        1 + line_end(s.skip(1))
    }
}

/// The first line of `s`, with the line feed that ends it. It is empty only
/// where `s` is.
pub open spec fn next_line(s: Seq<u8>) -> Seq<u8> {
    s.take(line_end(s) as int)
}

/// What follows the first line of `s`.
pub open spec fn after_line(s: Seq<u8>) -> Seq<u8> {
    s.skip(line_end(s) as int)
}

/// Where the machine's input comes from.
pub trait LineSource {
    /// The bytes that this source has still to deliver, where it can tell.
    /// Of a source that cannot tell, which says `None`, nothing is known
    /// beforehand.
    open spec fn pending(&self) -> Option<Seq<u8>> {
        None
    }

    /// Takes the next line off the input and returns its bytes, the line
    /// feed that ends it included. The last line of the input may come
    /// without a line feed. When no input is left, the line is empty. A
    /// source that cannot deliver returns its complaint; one that can tell
    /// what it has to deliver does deliver.
    fn read_line(&mut self) -> (r: Result<Vec<u8>, String>)
        ensures
            old(self).pending() matches Some(rest) ==> r is Ok && r->Ok_0@ == next_line(rest)
                && final(self).pending() == Some(after_line(rest)),
    ;
}

/// Where the machine's output goes.
pub trait ByteSink {
    /// The bytes that this sink has taken so far, where it can tell. Of a
    /// sink that cannot tell, which says `None`, nothing is known
    /// beforehand.
    open spec fn written(&self) -> Option<Seq<u8>> {
        None
    }

    /// Hands all of `bytes` to the sink, in order. A sink that cannot take
    /// them returns its complaint; one that can tell what it has taken does
    /// take them.
    fn write_all(&mut self, bytes: &[u8]) -> (r: Result<(), String>)
        ensures
            old(self).written() matches Some(sent) ==> r is Ok && final(self).written() == Some(
                sent + bytes@,
            ),
    ;

    /// Makes the sink pass on whatever it still holds back.
    fn flush(&mut self) -> (r: Result<(), String>)
        ensures
            old(self).written() matches Some(sent) ==> r is Ok && final(self).written() == Some(
                sent,
            ),
    ;
}

/// What can go wrong at the port.
#[derive(Debug, PartialEq, Eq)]
pub enum IoError {
    /// A number was asked for and no line was left.
    EndOfInput,
    /// The line that was read is no integer.
    Decode,
    /// The source failed; the text is its complaint.
    Read(String),
    /// The sink failed; the text is its complaint.
    Write(String),
}

/// A line without the line feed at its end, if it has one.
pub open spec fn line_content(line: Seq<u8>) -> Seq<u8> {
    if line.len() > 0 && line.last() == LINE_FEED {
        line.drop_last()
    } else {
        line
    }
}

/// The number that a line carries. An empty line means that the input has
/// ended; any other line holds an integer before its line feed, or is
/// malformed.
pub open spec fn line_number(line: Seq<u8>) -> Result<i32, IoError> {
    if line.len() == 0 {
        Err(IoError::EndOfInput)
    } else {
        match decoding(line_content(line)) {
            Some(n) => Ok(n as i32),
            None => Err(IoError::Decode),
        }
    }
}

/// The number that the source's answer stands for: that of the line, or the
/// source's complaint as a read error.
pub open spec fn line_value(answer: Result<Vec<u8>, String>) -> Result<i32, IoError> {
    match answer {
        Err(complaint) => Err(IoError::Read(complaint)),
        Ok(line) => line_number(line@),
    }
}

/// The line that carries `x`: its text and a line feed.
pub open spec fn number_line(x: i32) -> Seq<u8> {
    encoding(x as int).push(LINE_FEED)
}

/// Turns what the source answered into a number.
pub fn decode_line(answer: Result<Vec<u8>, String>) -> (r: Result<i32, IoError>)
    ensures
        r == line_value(answer),
{
    match answer {
        Err(complaint) => Err(IoError::Read(complaint)),
        Ok(line) => {
            let n: usize = line.len();
            if n == 0 {
                return Err(IoError::EndOfInput);
            }
            let end: usize = if line[n - 1] == LINE_FEED { (n - 1) as usize } else { n };
            let content = vstd::slice::slice_subrange(line.as_slice(), 0, end);
            assert(content@ =~= line_content(line@));
            match decode(content) {
                Ok(value) => Ok(value),
                Err(_) => Err(IoError::Decode),
            }
        },
    }
}

/// What the sink's answer means to the port: a complaint is a write error,
/// with the complaint.
pub open spec fn sink_answer(answer: Result<(), String>) -> Result<(), IoError> {
    match answer {
        Ok(_) => Ok(()),
        Err(complaint) => Err(IoError::Write(complaint)),
    }
}

/// Turns what the sink answered into the port's result.
pub fn write_outcome(answer: Result<(), String>) -> (r: Result<(), IoError>)
    ensures
        r == sink_answer(answer),
{
    match answer {
        Ok(_) => Ok(()),
        Err(complaint) => Err(IoError::Write(complaint)),
    }
}

/// Writes the line that carries `x`.
pub fn encode_line(x: i32) -> (line: Vec<u8>)
    ensures
        line@ == number_line(x),
{
    let mut line: Vec<u8> = format_i32(x);
    line.push(LINE_FEED);
    line
}

/// The machine's port: one input and one output, which belong to it alone.
#[derive(Debug)]
pub struct DivaremaIoModule<I: LineSource, O: ByteSink> {
    pub input: I,
    pub output: O,
}

impl<I: LineSource, O: ByteSink> DivaremaIoModule<I, O> {
    /// Reads one number: takes the next line off the input and decodes what
    /// stands before its line feed. Without a line the input has ended, and
    /// a line that is no integer does not decode; the line is taken all the
    /// same. A source that fails gives a read error with its complaint.
    ///
    /// Where the input tells what it holds, the result is the number of its
    /// first line, and that line is gone afterwards. The output is not
    /// touched.
    pub fn get_int(&mut self) -> (r: Result<i32, IoError>)
        ensures
            old(self).input.pending() matches Some(rest) ==> r == line_number(next_line(rest))
                && final(self).input.pending() == Some(after_line(rest)),
            r is Err ==> !(r->Err_0 is Write),
            final(self).output == old(self).output,
    {
        let answer = self.input.read_line();
        decode_line(answer)
    }

    /// Prints one number: hands the sink the line that carries `x`, then
    /// flushes it. Each answer of the sink goes through [`write_outcome`];
    /// the first complaint ends the attempt and comes back as a write error,
    /// and no other error is possible.
    ///
    /// Where the output tells what it holds, the line is appended to it and
    /// nothing fails. The input is not touched.
    pub fn put_int(&mut self, x: i32) -> (r: Result<(), IoError>)
        ensures
            old(self).output.written() matches Some(sent) ==> r is Ok && final(self).output.written() == Some(sent + number_line(x)),
            r is Err ==> r->Err_0 is Write,
            final(self).input == old(self).input,
    {
        let line = encode_line(x);
        let written = write_outcome(self.output.write_all(line.as_slice()));
        if written.is_err() {
            return written;
        }
        write_outcome(self.output.flush())
    }
}

/// An input that is held in memory: the bytes are given once, and lines are
/// taken off their front.
#[derive(Debug)]
pub struct MemoryInput {
    bytes: Vec<u8>,
    taken: usize,
}

impl MemoryInput {
    #[verifier::type_invariant]
    spec fn well_formed(&self) -> bool {
        self.taken <= self.bytes.len()
    }

    /// The bytes that no line has taken yet.
    pub closed spec fn remaining(&self) -> Seq<u8> {
        self.bytes@.skip(self.taken as int)
    }

    /// An input that holds `bytes`.
    pub fn new(bytes: Vec<u8>) -> (input: MemoryInput)
        ensures
            input.remaining() == bytes@,
            input.pending() == Some(bytes@),
    {
        assert(bytes@.skip(0) =~= bytes@);
        MemoryInput { bytes, taken: 0 }
    }
}

/// A line that ends at the first line feed, found at `k`, or at the end of
/// the text, where `k` is its length.
proof fn lemma_line_end(s: Seq<u8>, k: nat)
    requires
        k <= s.len(),
        forall|j: int| 0 <= j < k ==> #[trigger] s[j] != LINE_FEED,
        k == s.len() || s[k as int] == LINE_FEED,
    ensures
        line_end(s) == if k < s.len() { k + 1 } else { k },
    decreases k,
{
    if k > 0 {
        let rest = s.skip(1);
        assert forall|j: int| 0 <= j < k - 1 implies #[trigger] rest[j] != LINE_FEED by {
            assert(rest[j] == s[j + 1]);
        }
        lemma_line_end(rest, (k - 1) as nat);
    }
}

impl LineSource for MemoryInput {
    /// A buffer knows what it holds.
    open spec fn pending(&self) -> Option<Seq<u8>> {
        Some(self.remaining())
    }

    fn read_line(&mut self) -> (r: Result<Vec<u8>, String>) {
        proof {
            use_type_invariant(&*self);
        }
        let ghost rest = self.remaining();
        let from: usize = self.taken;
        let n: usize = self.bytes.len();
        let mut k: usize = from;
        while k < n && self.bytes[k] != LINE_FEED
            invariant
                from <= k <= n,
                n == self.bytes.len(),
                forall|j: int| from <= j < k ==> self.bytes@[j] != LINE_FEED,
            decreases n - k,
        {
            k = k + 1;
        }
        let end: usize = if k < n { k + 1 } else { n };
        let line: Vec<u8> = vstd::slice::slice_to_vec(
            vstd::slice::slice_subrange(self.bytes.as_slice(), from, end),
        );
        proof {
            assert forall|j: int| 0 <= j < k - from implies #[trigger] rest[j] != LINE_FEED by {
                assert(rest[j] == self.bytes@[from + j]);
            }
            if k < n {
                assert(rest[k - from] == self.bytes@[k as int]);
            }
            lemma_line_end(rest, (k - from) as nat);
            assert(line@ =~= rest.take(end - from));
            assert(self.bytes@.skip(end as int) =~= rest.skip(end - from));
        }
        self.taken = end;
        Ok(line)
    }
}

impl ByteSink for Vec<u8> {
    /// A vector knows what it holds.
    open spec fn written(&self) -> Option<Seq<u8>> {
        Some(self@)
    }

    fn write_all(&mut self, bytes: &[u8]) -> (r: Result<(), String>) {
        self.extend_from_slice(bytes);
        Ok(())
    }

    fn flush(&mut self) -> (r: Result<(), String>) {
        Ok(())
    }
}

} // verus!
