//! The program loader: source text to instructions.
//!
//! A source line holds an operation name and an unsigned operand, separated
//! and surrounded by any amount of white space; what follows the operand is
//! ignored. Empty lines are skipped. The first line that does not parse stops
//! the loader, which reports its number, counted from 1, and the reason.

use vstd::prelude::*;
use crate::codec::{all_digits, digits_value, lemma_prefix_value};
use crate::instructions::OpCode;

verus! {

/// The characters with the Unicode property `White_Space`.
pub open spec fn is_space(c: char) -> bool {
    let u = c as u32;
    ||| 0x09 <= u <= 0x0D
    ||| u == 0x20
    ||| u == 0x85
    ||| u == 0xA0
    ||| u == 0x1680
    ||| 0x2000 <= u <= 0x200A
    ||| u == 0x2028
    ||| u == 0x2029
    ||| u == 0x202F
    ||| u == 0x205F
    ||| u == 0x3000
}

/// How many characters at the front of `s` are white space (`spaces` true)
/// or are not (`spaces` false).
pub open spec fn run_length(s: Seq<char>, spaces: bool) -> nat
    decreases s.len(),
{
    if s.len() > 0 && is_space(s[0]) == spaces {
        1 + run_length(s.skip(1), spaces)
    } else {
        0
    }
}

/// `s` without the white space at its front.
pub open spec fn trim_front(s: Seq<char>) -> Seq<char> {
    s.skip(run_length(s, true) as int)
}

/// The word at the front of `s`: everything before the first white space.
pub open spec fn front_word(s: Seq<char>) -> Seq<char> {
    s.take(run_length(s, false) as int)
}

/// What follows the word at the front of `s`.
pub open spec fn behind_word(s: Seq<char>) -> Seq<char> {
    s.skip(run_length(s, false) as int)
}

/// Whether `c` is white space.
pub fn is_whitespace(c: char) -> (b: bool)
    ensures
        b == is_space(c),
{
    let u: u32 = c as u32;
    (0x09 <= u && u <= 0x0D) || u == 0x20 || u == 0x85 || u == 0xA0 || u == 0x1680 || (0x2000 <= u
        && u <= 0x200A) || u == 0x2028 || u == 0x2029 || u == 0x202F || u == 0x205F || u == 0x3000
}

/// A run that is `k` long by inspection is `k` long by definition.
proof fn lemma_run_length(s: Seq<char>, spaces: bool, k: nat)
    requires
        k <= s.len(),
        forall|j: int| 0 <= j < k ==> is_space(#[trigger] s[j]) == spaces,
        k == s.len() || is_space(s[k as int]) != spaces,
    ensures
        run_length(s, spaces) == k,
    decreases k,
{
    if k > 0 {
        let rest = s.skip(1);
        assert forall|j: int| 0 <= j < k - 1 implies is_space(#[trigger] rest[j]) == spaces by {
            assert(rest[j] == s[j + 1]);
        }
        lemma_run_length(rest, spaces, (k - 1) as nat);
    }
}

/// The end of the run of white space (or of anything else) that starts at
/// `from` and does not go beyond `to`.
fn scan(chars: &Vec<char>, from: usize, to: usize, spaces: bool) -> (k: usize)
    requires
        from <= to <= chars.len(),
    ensures
        from <= k <= to,
        k - from == run_length(chars@.subrange(from as int, to as int), spaces),
{
    let ghost part = chars@.subrange(from as int, to as int);
    let mut k: usize = from;
    while k < to && is_whitespace(chars[k]) == spaces
        invariant
            from <= k <= to <= chars.len(),
            part == chars@.subrange(from as int, to as int),
            forall|j: int| 0 <= j < k - from ==> is_space(#[trigger] part[j]) == spaces,
        decreases to - k,
    {
        assert(part[k - from] == chars@[k as int]);
        k = k + 1;
    }
    proof {
        if k < to {
            assert(part[k - from] == chars@[k as int]);
        }
        lemma_run_length(part, spaces, (k - from) as nat);
    }
    k
}

/// The characters of `s`, one by one.
fn chars_of(s: &str) -> (v: Vec<char>)
    ensures
        v@ == s@,
{
    let mut v: Vec<char> = Vec::new();
    for c in it: s.chars()
        invariant
            v@ == it.seq().take(it.index() as int),
            it.seq() == s@,
    {
        v.push(c);
    }
    v
}

/// Why a source line is no instruction.
#[derive(Debug, PartialEq, Eq, Clone, Copy, Structural)]
pub enum SyntaxFault {
    /// The line holds nothing but white space.
    MissingOpCode,
    /// The first word is not the name of an operation.
    InvalidOpCode,
    /// No word follows the operation.
    MissingArgument,
    /// The second word is not an unsigned number that fits an address.
    InvalidArgument,
}

impl SyntaxFault {
    /// The reason as the loader reports it.
    pub open spec fn text(self) -> Seq<char> {
        match self {
            SyntaxFault::MissingOpCode => "Missing OpCode"@,
            SyntaxFault::InvalidOpCode => "Invalid OpCode"@,
            SyntaxFault::MissingArgument => "Missing Argument"@,
            SyntaxFault::InvalidArgument => "Invalid Argument"@,
        }
    }

    /// The reason in words.
    pub fn message(self) -> (m: &'static str)
        ensures
            m@ == self.text(),
    {
        match self {
            SyntaxFault::MissingOpCode => "Missing OpCode",
            SyntaxFault::InvalidOpCode => "Invalid OpCode",
            SyntaxFault::MissingArgument => "Missing Argument",
            SyntaxFault::InvalidArgument => "Invalid Argument",
        }
    }
}

/// The operation that `word` names. Names are upper case, and nothing else
/// is a name.
pub open spec fn opcode_of(word: Seq<char>) -> Option<OpCode> {
    if word == "LOAD"@ {
        Some(OpCode::Load)
    } else if word == "ADD"@ {
        Some(OpCode::Add)
    } else if word == "SUB"@ {
        Some(OpCode::Sub)
    } else if word == "STORE"@ {
        Some(OpCode::Store)
    } else if word == "JGZ"@ {
        Some(OpCode::Jgz)
    } else if word == "READ"@ {
        Some(OpCode::Read)
    } else if word == "PRINT"@ {
        Some(OpCode::Print)
    } else if word == "HALT"@ {
        Some(OpCode::Halt)
    } else {
        None
    }
}

/// The byte of an ASCII character; any other character counts as the byte 0,
/// which is no digit.
pub open spec fn ascii_byte(c: char) -> u8 {
    if (c as u32) < 128 {
        (c as u32) as u8
    } else {
        0u8
    }
}

/// The bytes of a word, character by character.
pub open spec fn ascii_bytes(word: Seq<char>) -> Seq<u8> {
    Seq::new(word.len(), |i: int| ascii_byte(word[i]))
}

/// The digits of an operand: the word itself, or what follows its `+`.
pub open spec fn operand_digits(word: Seq<char>) -> Seq<u8> {
    if word.len() > 0 && word[0] == '+' {
        ascii_bytes(word.skip(1))
    } else {
        ascii_bytes(word)
    }
}

/// The address that `word` spells: one or more decimal digits, which a `+`
/// may precede, with a value that fits in `usize`.
pub open spec fn operand_of(word: Seq<char>) -> Option<usize> {
    let digits = operand_digits(word);
    if digits.len() > 0 && all_digits(digits) && digits_value(digits) <= usize::MAX {
        Some(digits_value(digits) as usize)
    } else {
        None
    }
}

/// The first word of a line.
pub open spec fn first_word(line: Seq<char>) -> Seq<char> {
    front_word(trim_front(line))
}

/// The second word of a line.
pub open spec fn second_word(line: Seq<char>) -> Seq<char> {
    front_word(trim_front(behind_word(trim_front(line))))
}

/// The instruction on a line, or what is wrong with the line. A fault in
/// the operation is reported before one in the operand.
pub open spec fn parsed_line(line: Seq<char>) -> Result<(OpCode, usize), SyntaxFault> {
    if first_word(line).len() == 0 {
        Err(SyntaxFault::MissingOpCode)
    } else if opcode_of(first_word(line)) is None {
        Err(SyntaxFault::InvalidOpCode)
    } else if second_word(line).len() == 0 {
        Err(SyntaxFault::MissingArgument)
    } else if operand_of(second_word(line)) is None {
        Err(SyntaxFault::InvalidArgument)
    } else {
        Ok((opcode_of(first_word(line))->0, operand_of(second_word(line))->0))
    }
}

/// Whether the characters from `from` up to `to` spell `text`.
fn same_text(chars: &Vec<char>, from: usize, to: usize, text: &str) -> (same: bool)
    requires
        from <= to <= chars.len(),
    ensures
        same == (chars@.subrange(from as int, to as int) == text@),
{
    let name: Vec<char> = chars_of(text);
    let ghost part = chars@.subrange(from as int, to as int);
    if name.len() != to - from {
        return false;
    }
    let mut i: usize = 0;
    while i < name.len()
        invariant
            from <= to <= chars.len(),
            name.len() == to - from,
            name@ == text@,
            i <= name.len(),
            part == chars@.subrange(from as int, to as int),
            forall|j: int| 0 <= j < i ==> part[j] == name@[j],
        decreases name.len() - i,
    {
        if chars[from + i] != name[i] {
            assert(part[i as int] != name@[i as int]);
            return false;
        }
        i = i + 1;
    }
    assert(part =~= name@);
    true
}

/// The operation that the characters from `from` up to `to` name.
fn match_opcode(chars: &Vec<char>, from: usize, to: usize) -> (op: Option<OpCode>)
    requires
        from <= to <= chars.len(),
    ensures
        op == opcode_of(chars@.subrange(from as int, to as int)),
{
    if same_text(chars, from, to, "LOAD") {
        Some(OpCode::Load)
    } else if same_text(chars, from, to, "ADD") {
        Some(OpCode::Add)
    } else if same_text(chars, from, to, "SUB") {
        Some(OpCode::Sub)
    } else if same_text(chars, from, to, "STORE") {
        Some(OpCode::Store)
    } else if same_text(chars, from, to, "JGZ") {
        Some(OpCode::Jgz)
    } else if same_text(chars, from, to, "READ") {
        Some(OpCode::Read)
    } else if same_text(chars, from, to, "PRINT") {
        Some(OpCode::Print)
    } else if same_text(chars, from, to, "HALT") {
        Some(OpCode::Halt)
    } else {
        None
    }
}

/// The address that the characters from `from` up to `to` spell.
fn parse_operand(chars: &Vec<char>, from: usize, to: usize) -> (address: Option<usize>)
    requires
        from <= to <= chars.len(),
    ensures
        address == operand_of(chars@.subrange(from as int, to as int)),
{
    let ghost word = chars@.subrange(from as int, to as int);
    let signed: bool = from < to && chars[from] == '+';
    let start: usize = if signed { from + 1 } else { from };
    let ghost digits = operand_digits(word);
    assert(word.len() > 0 ==> word[0] == chars@[from as int]);
    if start >= to {
        return None;
    }
    let mut i: usize = start;
    let mut value: u128 = 0;
    while i < to
        invariant
            from <= start <= i <= to <= chars.len(),
            word == chars@.subrange(from as int, to as int),
            digits == operand_digits(word),
            digits.len() == to - start,
            forall|j: int| 0 <= j < to - start ==> digits[j] == ascii_byte(chars@[start + j]),
            forall|j: int| 0 <= j < i - start ==> crate::codec::is_digit(#[trigger] digits[j]),
            value == digits_value(digits.take(i - start)),
            value <= usize::MAX,
        decreases to - i,
    {
        let u: u32 = chars[i] as u32;
        assert(digits[i - start] == ascii_byte(chars@[i as int]));
        if u < 48 || u > 57 {
            assert(!crate::codec::is_digit(digits[i - start]));
            return None;
        }
        proof {
            assert(digits.take(i - start + 1).drop_last() =~= digits.take(i - start));
        }
        value = value * 10 + (u - 48) as u128;
        if value > usize::MAX as u128 {
            proof {
                lemma_prefix_value(digits, i - start + 1);
            }
            return None;
        }
        i = i + 1;
    }
    assert(digits.take(i - start) =~= digits);
    Some(value as usize)
}

/// The instruction that the characters from `from` up to `to` spell.
fn tokenize_chars(chars: &Vec<char>, from: usize, to: usize) -> (r: Result<
    (OpCode, usize),
    SyntaxFault,
>)
    requires
        from <= to <= chars.len(),
    ensures
        r == parsed_line(chars@.subrange(from as int, to as int)),
{
    let ghost line = chars@.subrange(from as int, to as int);
    let a: usize = scan(chars, from, to, true);
    let b: usize = scan(chars, a, to, false);
    let c: usize = scan(chars, b, to, true);
    let d: usize = scan(chars, c, to, false);
    proof {
        assert(trim_front(line) =~= chars@.subrange(a as int, to as int));
        assert(first_word(line) =~= chars@.subrange(a as int, b as int));
        assert(behind_word(trim_front(line)) =~= chars@.subrange(b as int, to as int));
        assert(trim_front(behind_word(trim_front(line))) =~= chars@.subrange(c as int, to as int));
        assert(second_word(line) =~= chars@.subrange(c as int, d as int));
    }
    if a == b {
        return Err(SyntaxFault::MissingOpCode);
    }
    let op: OpCode = match match_opcode(chars, a, b) {
        Some(op) => op,
        None => { return Err(SyntaxFault::InvalidOpCode); },
    };
    if c == d {
        return Err(SyntaxFault::MissingArgument);
    }
    match parse_operand(chars, c, d) {
        Some(address) => Ok((op, address)),
        None => Err(SyntaxFault::InvalidArgument),
    }
}

/// Reads one source line: an operation name and an operand, with white space
/// before, between and behind them as it may come. What follows the operand
/// is not looked at. On a line that is no instruction the result is the
/// reason: `Missing OpCode`, `Invalid OpCode`, `Missing Argument` or
/// `Invalid Argument`.
pub fn tokenize_line(source: &str) -> (r: Result<(OpCode, usize), &'static str>)
    ensures
        match r {
            Ok(instruction) => parsed_line(source@) == Ok::<(OpCode, usize), SyntaxFault>(
                instruction,
            ),
            Err(reason) => parsed_line(source@) is Err && reason@ == parsed_line(
                source@,
            )->Err_0.text(),
        },
{
    let chars: Vec<char> = chars_of(source);
    assert(chars@.subrange(0, chars.len() as int) =~= source@);
    match tokenize_chars(&chars, 0, chars.len()) {
        Ok(instruction) => Ok(instruction),
        Err(fault) => Err(fault.message()),
    }
}

/// How many characters stand before the first line feed of `s`.
pub open spec fn line_length(s: Seq<char>) -> nat
    decreases s.len(),
{
    if s.len() > 0 && s[0] != '\n' {
        1 + line_length(s.skip(1))
    } else {
        0
    }
}

/// The first line of `s`, without what ends it: a line feed, or a carriage
/// return and a line feed. The last line needs no line feed; a carriage
/// return without a line feed behind it belongs to the line.
pub open spec fn first_line(s: Seq<char>) -> Seq<char> {
    let raw = s.take(line_length(s) as int);
    if line_length(s) < s.len() && raw.len() > 0 && raw.last() == '\r' {
        raw.drop_last()
    } else {
        raw
    }
}

/// What follows the first line of `s` and its line feed.
pub open spec fn behind_line(s: Seq<char>) -> Seq<char> {
    if line_length(s) < s.len() {
        s.skip(line_length(s) as int + 1)
    } else {
        Seq::empty()
    }
}

/// `front` followed by what the rest of the source gave, unless that is a
/// fault.
pub open spec fn joined(
    front: Seq<(OpCode, usize)>,
    rest: Result<Seq<(OpCode, usize)>, (nat, SyntaxFault)>,
) -> Result<Seq<(OpCode, usize)>, (nat, SyntaxFault)> {
    match rest {
        Ok(tail) => Ok(front + tail),
        Err(fault) => Err(fault),
    }
}

/// The program that `s` holds, where the first line of `s` has the number
/// `number`: the instructions of its lines that are not empty, in order, or
/// the number of the first line that is no instruction, with the reason.
pub open spec fn program_from(s: Seq<char>, number: nat) -> Result<
    Seq<(OpCode, usize)>,
    (nat, SyntaxFault),
>
    decreases s.len(),
{
    if s.len() == 0 {
        Ok(Seq::empty())
    } else if first_line(s).len() == 0 {
        program_from(behind_line(s), number + 1)
    } else {
        match parsed_line(first_line(s)) {
            Err(fault) => Err((number, fault)),
            Ok(instruction) => joined(seq![instruction], program_from(behind_line(s), number + 1)),
        }
    }
}

/// The program that a source text holds; its lines are counted from 1.
pub open spec fn parsed_program(s: Seq<char>) -> Result<Seq<(OpCode, usize)>, (nat, SyntaxFault)> {
    program_from(s, 1)
}

/// A line that is `k` long by inspection is `k` long by definition.
proof fn lemma_line_length(s: Seq<char>, k: nat)
    requires
        k <= s.len(),
        forall|j: int| 0 <= j < k ==> #[trigger] s[j] != '\n',
        k == s.len() || s[k as int] == '\n',
    ensures
        line_length(s) == k,
    decreases k,
{
    if k > 0 {
        let rest = s.skip(1);
        assert forall|j: int| 0 <= j < k - 1 implies #[trigger] rest[j] != '\n' by {
            assert(rest[j] == s[j + 1]);
        }
        lemma_line_length(rest, (k - 1) as nat);
    }
}

/// Where the line that starts at `from` ends: at the next line feed, or at
/// the end of the text.
fn scan_line(chars: &Vec<char>, from: usize) -> (k: usize)
    requires
        from <= chars.len(),
    ensures
        from <= k <= chars.len(),
        k - from == line_length(chars@.skip(from as int)),
{
    let ghost part = chars@.skip(from as int);
    let mut k: usize = from;
    while k < chars.len() && chars[k] != '\n'
        invariant
            from <= k <= chars.len(),
            part == chars@.skip(from as int),
            forall|j: int| 0 <= j < k - from ==> #[trigger] part[j] != '\n',
        decreases chars.len() - k,
    {
        assert(part[k - from] == chars@[k as int]);
        k = k + 1;
    }
    proof {
        if k < chars.len() {
            assert(part[k - from] == chars@[k as int]);
        }
        lemma_line_length(part, (k - from) as nat);
    }
    k
}

/// Reads a program: one instruction on each line that is not empty. Lines
/// end at a line feed, before which a carriage return is dropped. The first
/// line that is no instruction ends the reading: the result is then its
/// number, counted from 1 with the empty lines, and the reason.
pub fn tokenize(source: &str) -> (r: Result<Vec<(OpCode, usize)>, (usize, &'static str)>)
    ensures
        match r {
            Ok(program) => parsed_program(source@) == Ok::<
                Seq<(OpCode, usize)>,
                (nat, SyntaxFault),
            >(program@),
            Err((number, reason)) => parsed_program(source@) is Err && number == parsed_program(
                source@,
            )->Err_0.0 && reason@ == parsed_program(source@)->Err_0.1.text(),
        },
{
    let chars: Vec<char> = chars_of(source);
    let n: usize = chars.len();
    let mut result: Vec<(OpCode, usize)> = Vec::new();
    let mut pos: usize = 0;
    let mut index: usize = 0;
    assert(chars@.skip(0) =~= source@);
    assert(Seq::<(OpCode, usize)>::empty() + Seq::<(OpCode, usize)>::empty()
        =~= Seq::<(OpCode, usize)>::empty());
    while pos < n
        invariant
            n == chars.len(),
            chars@ == source@,
            index <= pos <= n,
            parsed_program(source@) == joined(
                result@,
                program_from(chars@.skip(pos as int), (index + 1) as nat),
            ),
        decreases n - pos,
    {
        let ghost rest = chars@.skip(pos as int);
        let end: usize = scan_line(&chars, pos);
        let stop: usize = if end < n && end > pos && chars[end - 1] == '\r' {
            (end - 1) as usize
        } else {
            end
        };
        let next: usize = if end < n { end + 1 } else { n };
        proof {
            let raw = rest.take(line_length(rest) as int);
            assert(raw =~= chars@.subrange(pos as int, end as int));
            if raw.len() > 0 {
                assert(raw.last() == chars@[end - 1]);
            }
            assert(first_line(rest) =~= chars@.subrange(pos as int, stop as int));
            assert(behind_line(rest) =~= chars@.skip(next as int));
        }
        let ghost tail = program_from(chars@.skip(next as int), (index + 2) as nat);
        if stop > pos {
            match tokenize_chars(&chars, pos, stop) {
                Ok(instruction) => {
                    proof {
                        if let Ok(after) = tail {
                            assert(result@ + (seq![instruction] + after) =~= result@.push(
                                instruction,
                            ) + after);
                        }
                    }
                    result.push(instruction);
                },
                Err(fault) => {
                    return Err((index + 1, fault.message()));
                },
            }
        }
        pos = next;
        index = index + 1;
    }
    assert(result@ + Seq::<(OpCode, usize)>::empty() =~= result@);
    Ok(result)
}

} // verus!
