//! The instruction model: the eight significant source bytes and the decoder
//! that turns a raw byte string into an instruction sequence, dropping every
//! other byte as a comment.

use vstd::prelude::*;

verus! {

/// The eight instructions of the language, each bound to exactly one source byte.
#[derive(Clone, Copy, Debug, PartialEq, Eq, Structural)]
pub enum Command {
    /// `>`: move the data pointer forward
    IncrementPointer,
    /// `<`: move the data pointer backward
    DecrementPointer,
    /// `+`: add one to the current cell, wrapping past 255
    IncrementByte,
    /// `-`: subtract one from the current cell, wrapping past 0
    DecrementByte,
    /// `.`: write the current cell to the output
    WriteByte,
    /// `,`: read one input byte into the current cell
    ReadByte,
    /// `[`: jump past the matching `]` when the current cell is zero
    LoopStart,
    /// `]`: jump back behind the matching `[` when the current cell is nonzero
    LoopEnd,
}

/// The byte-to-instruction mapping: each of the eight significant bytes maps
/// to its instruction; every other byte is a comment and maps to nothing.
pub open spec fn decode_byte(b: u8) -> Option<Command> {
    if b == 62 {
        Some(Command::IncrementPointer)
    } else if b == 60 {
        Some(Command::DecrementPointer)
    } else if b == 43 {
        Some(Command::IncrementByte)
    } else if b == 45 {
        Some(Command::DecrementByte)
    } else if b == 46 {
        Some(Command::WriteByte)
    } else if b == 44 {
        Some(Command::ReadByte)
    } else if b == 91 {
        Some(Command::LoopStart)
    } else if b == 93 {
        Some(Command::LoopEnd)
    } else {
        None
    }
}

/// The instruction sequence decoded from a raw byte string: the bytes that
/// map to an instruction, in their original order; the rest are dropped.
pub open spec fn decode_program(bytes: Seq<u8>) -> Seq<Command>
    decreases bytes.len(),
{
    if bytes.len() == 0 {
        Seq::empty()
    } else {
        let rest = decode_program(bytes.drop_last());
        match decode_byte(bytes.last()) {
            Some(c) => rest.push(c),
            None => rest,
        }
    }
}

/// Decoding distributes over concatenation of byte strings.
pub proof fn lemma_decode_concat(a: Seq<u8>, b: Seq<u8>)
    ensures
        decode_program(a + b) == decode_program(a) + decode_program(b),
    decreases b.len(),
{
    if b.len() == 0 {
        assert(a + b =~= a);
        assert(decode_program(a) + decode_program(b) =~= decode_program(a));
    } else {
        lemma_decode_concat(a, b.drop_last());
        assert((a + b).drop_last() =~= a + b.drop_last());
        assert((a + b).last() == b.last());
        match decode_byte(b.last()) {
            Some(c) => {
                assert(decode_program(a) + decode_program(b) =~= (decode_program(a)
                    + decode_program(b.drop_last())).push(c));
            },
            None => {},
        }
    }
}

/// Decoding the same bytes twice yields the same instruction sequence: the
/// decoder is a pure function of the byte string alone.
pub proof fn lemma_decode_deterministic(bytes: Seq<u8>, a: Seq<Command>, b: Seq<Command>)
    requires
        a == decode_program(bytes),
        b == decode_program(bytes),
    ensures
        a == b,
{
}

/// A byte with no instruction mapping, wherever it stands in the source,
/// leaves the decoded program unchanged — and with it every run, since the
/// interpreter's behaviour is a function of the decoded program alone.
pub proof fn lemma_comment_byte_no_effect(a: Seq<u8>, c: u8, b: Seq<u8>)
    requires
        decode_byte(c) is None,
    ensures
        decode_program(a + seq![c] + b) == decode_program(a + b),
{
    lemma_decode_concat(a, seq![c]);
    lemma_decode_concat(a + seq![c], b);
    lemma_decode_concat(a, b);
    assert(seq![c].drop_last() =~= Seq::<u8>::empty());
    assert(decode_program(Seq::<u8>::empty()) =~= Seq::<Command>::empty());
    assert(seq![c].last() == c);
    assert(decode_program(seq![c]) =~= Seq::<Command>::empty());
    assert(decode_program(a) + decode_program(seq![c]) =~= decode_program(a));
}

impl Command {
    /// Decode one byte; `None` marks a comment byte.
    pub fn from_byte(b: u8) -> (r: Option<Command>)
        ensures
            r == decode_byte(b),
    {
        match b {
            62 => Some(Command::IncrementPointer),
            60 => Some(Command::DecrementPointer),
            43 => Some(Command::IncrementByte),
            45 => Some(Command::DecrementByte),
            46 => Some(Command::WriteByte),
            44 => Some(Command::ReadByte),
            91 => Some(Command::LoopStart),
            93 => Some(Command::LoopEnd),
            _ => None,
        }
    }
}

} // verus!
