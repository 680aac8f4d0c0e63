//! Reading the byte stream of a compact block witness: the version header,
//! the operator byte that opens each instruction, and the CBOR items that
//! follow an operator.

use vstd::prelude::*;
use vstd::slice::slice_subrange;

verus! {

/// Why a compact witness could not be read.
#[derive(Clone, Debug, PartialEq, Eq)]
pub enum CompactParsingError {
    /// The stream ended before the header byte.
    MissingHeader,
    /// An instruction opened with a byte that is no operator.
    InvalidOperator(u8),
    /// The stream ended where more data was expected.
    UnexpectedEndOfStream,
    /// A byte vector was expected; the decoder's message says what was
    /// found.
    InvalidByteVector(String),
    /// A value of the named type was expected: the bytes that were read for
    /// it, in hexadecimal, and the decoder's message.
    InvalidBytesForType(&'static str, String, String),
}

/// What decoding a CBOR item from the start of `input` as a byte vector
/// gives: the vector or the decoder's message, and the number of bytes the
/// decoder took from `input`.
pub uninterp spec fn cbor_byte_vec(input: Seq<u8>) -> (Result<Seq<u8>, Seq<char>>, nat);

/// What decoding a CBOR item from the start of `input` as a 32-bit unsigned
/// integer gives: the integer or the decoder's message, and the number of
/// bytes the decoder took from `input`.
pub uninterp spec fn cbor_u32(input: Seq<u8>) -> (Result<u32, Seq<char>>, nat);

/// A decoded byte vector, or the decoder's message, as sequences.
pub open spec fn byte_vec_outcome(r: Result<Vec<u8>, String>) -> Result<Seq<u8>, Seq<char>> {
    match r {
        Ok(v) => Ok(v@),
        Err(m) => Err(m@),
    }
}

/// A decoded integer, or the decoder's message as a sequence.
pub open spec fn u32_outcome(r: Result<u32, String>) -> Result<u32, Seq<char>> {
    match r {
        Ok(v) => Ok(v),
        Err(m) => Err(m@),
    }
}

/// The lower-case hexadecimal digit of a value below sixteen.
pub open spec fn hex_digit(n: int) -> char {
    if n == 0 {
        '0'
    } else if n == 1 {
        '1'
    } else if n == 2 {
        '2'
    } else if n == 3 {
        '3'
    } else if n == 4 {
        '4'
    } else if n == 5 {
        '5'
    } else if n == 6 {
        '6'
    } else if n == 7 {
        '7'
    } else if n == 8 {
        '8'
    } else if n == 9 {
        '9'
    } else if n == 10 {
        'a'
    } else if n == 11 {
        'b'
    } else if n == 12 {
        'c'
    } else if n == 13 {
        'd'
    } else if n == 14 {
        'e'
    } else {
        'f'
    }
}

/// The bytes in lower-case hexadecimal, two digits for each byte, the high
/// one first.
pub open spec fn hex_string(bytes: Seq<u8>) -> Seq<char> {
    Seq::new(
        2 * bytes.len(),
        |k: int|
            if k % 2 == 0 {
                hex_digit(bytes[k / 2] as int / 16)
            } else {
                hex_digit(bytes[k / 2] as int % 16)
            },
    )
}

/// `ciborium::from_reader` for a `Vec<u8>`, on a `std::io::Cursor` over
/// `input`. The contract claims only that the decoded value, the message of
/// a failure and the cursor's position afterwards depend on `input` alone.
#[verifier::external_body]
fn cbor_read_byte_vec(input: &[u8]) -> (r: (Result<Vec<u8>, String>, usize))
    ensures
        byte_vec_outcome(r.0) == cbor_byte_vec(input@).0,
        r.1 == cbor_byte_vec(input@).1,
{
    let mut cursor = std::io::Cursor::new(input);
    let decoded: Result<Vec<u8>, _> = ciborium::from_reader(&mut cursor);
    let consumed = cursor.position() as usize;
    match decoded {
        Ok(v) => (Ok(v), consumed),
        Err(e) => (Err(e.to_string()), consumed),
    }
}

/// `ciborium::from_reader` for a `u32`, on a `std::io::Cursor` over
/// `input`. The contract claims only that the decoded value, the message of
/// a failure and the cursor's position afterwards depend on `input` alone.
#[verifier::external_body]
fn cbor_read_u32(input: &[u8]) -> (r: (Result<u32, String>, usize))
    ensures
        u32_outcome(r.0) == cbor_u32(input@).0,
        r.1 == cbor_u32(input@).1,
{
    let mut cursor = std::io::Cursor::new(input);
    let decoded: Result<u32, _> = ciborium::from_reader(&mut cursor);
    let consumed = cursor.position() as usize;
    match decoded {
        Ok(v) => (Ok(v), consumed),
        Err(e) => (Err(e.to_string()), consumed),
    }
}

/// `hex::encode`: lower-case hexadecimal, two digits for each byte.
#[verifier::external_body]
fn hex_encode(bytes: &[u8]) -> (s: String)
    ensures
        s@ == hex_string(bytes@),
{
    hex::encode(bytes)
}

/// The operator that opens an instruction of the witness.
#[derive(Clone, Copy, Debug, PartialEq, Eq, Structural)]
pub enum Opcode {
    Leaf,
    Extension,
    Branch,
    Hash,
    Code,
    AccountLeaf,
    EmptyRoot,
}

impl Opcode {
    /// The byte that encodes the operator.
    pub open spec fn code(self) -> u8 {
        match self {
            Opcode::Leaf => 0x00,
            Opcode::Extension => 0x01,
            Opcode::Branch => 0x02,
            Opcode::Hash => 0x03,
            Opcode::Code => 0x04,
            Opcode::AccountLeaf => 0x05,
            Opcode::EmptyRoot => 0x06,
        }
    }

    /// The operator that a byte encodes, if it encodes one.
    pub fn n(byte: u8) -> (r: Option<Opcode>)
        ensures
            r.is_some() <==> byte <= 0x06,
            r.is_some() ==> r.unwrap().code() == byte,
    {
        match byte {
            0x00 => Some(Opcode::Leaf),
            0x01 => Some(Opcode::Extension),
            0x02 => Some(Opcode::Branch),
            0x03 => Some(Opcode::Hash),
            0x04 => Some(Opcode::Code),
            0x05 => Some(Opcode::AccountLeaf),
            0x06 => Some(Opcode::EmptyRoot),
            _ => None,
        }
    }
}

/// The header of a compact witness.
#[derive(Clone, Copy, Debug, PartialEq, Eq, Structural)]
pub struct Header {
    pub version: u8,
}

impl Header {
    /// Whether the witness was written in the version `target_ver`.
    pub fn version_is_compatible(&self, target_ver: u8) -> (r: bool)
        ensures
            r == (self.version == target_ver),
    {
        self.version == target_ver
    }
}

/// A read position in the bytes of a compact witness.
#[derive(Debug)]
pub struct CompactCursor {
    bytes: Vec<u8>,
    pos: usize,
}

impl CompactCursor {
    #[verifier::type_invariant]
    spec fn in_bounds(self) -> bool {
        self.pos <= self.bytes@.len()
    }

    /// All bytes of the witness.
    pub closed spec fn bytes(self) -> Seq<u8> {
        self.bytes@
    }

    /// Number of bytes read so far.
    pub closed spec fn position(self) -> int {
        self.pos as int
    }

    /// The bytes not read yet.
    pub open spec fn remaining(self) -> Seq<u8> {
        self.bytes().skip(self.position())
    }

    /// A cursor at the start of `bytes`.
    pub fn new(bytes: Vec<u8>) -> (c: CompactCursor)
        ensures
            c.bytes() == bytes@,
            c.position() == 0,
    {
        CompactCursor { bytes, pos: 0 }
    }

    /// Reads one byte, or reports the end of the stream and stays in place.
    pub fn read_byte(&mut self) -> (r: Result<u8, CompactParsingError>)
        ensures
            final(self).bytes() == old(self).bytes(),
            old(self).position() < old(self).bytes().len() ==> {
                &&& r == Ok::<u8, CompactParsingError>(old(self).bytes()[old(self).position()])
                &&& final(self).position() == old(self).position() + 1
            },
            old(self).position() >= old(self).bytes().len() ==> {
                &&& r == Err::<u8, CompactParsingError>(CompactParsingError::UnexpectedEndOfStream)
                &&& final(self).position() == old(self).position()
            },
    {
        proof {
            use_type_invariant(&*self);
        }
        if self.pos < self.bytes.len() {
            let b: u8 = self.bytes[self.pos];
            self.pos = self.pos + 1;
            Ok(b)
        } else {
            Err(CompactParsingError::UnexpectedEndOfStream)
        }
    }

    /// The read position after `consumed` more bytes, which never passes
    /// the end.
    pub open spec fn position_after(self, consumed: nat) -> int {
        if self.position() + consumed <= self.bytes().len() {
            self.position() + consumed
        } else {
            self.bytes().len() as int
        }
    }

    /// Moves the read position forward by `consumed` bytes, or to the end
    /// where fewer are left.
    pub fn advance(&mut self, consumed: usize)
        ensures
            final(self).bytes() == old(self).bytes(),
            final(self).position() == old(self).position_after(consumed as nat),
    {
        proof {
            use_type_invariant(&*self);
        }
        if consumed <= self.bytes.len() - self.pos {
            self.pos = self.pos + consumed;
        } else {
            self.pos = self.bytes.len();
        }
    }

    /// Takes what the decoder gave for a byte vector and moves past the
    /// bytes it took.
    pub fn accept_byte_vec(&mut self, decoded: Result<Vec<u8>, String>, consumed: usize) -> (r:
        Result<Vec<u8>, CompactParsingError>)
        ensures
            final(self).bytes() == old(self).bytes(),
            final(self).position() == old(self).position_after(consumed as nat),
            r == (match decoded {
                Ok(v) => Ok::<Vec<u8>, CompactParsingError>(v),
                Err(m) => Err::<Vec<u8>, CompactParsingError>(
                    CompactParsingError::InvalidByteVector(m),
                ),
            }),
    {
        self.advance(consumed);
        match decoded {
            Ok(v) => Ok(v),
            Err(m) => Err(CompactParsingError::InvalidByteVector(m)),
        }
    }

    /// Reads a CBOR item as a byte vector.
    pub fn read_cbor_byte_array_to_vec(&mut self) -> (r: Result<Vec<u8>, CompactParsingError>)
        ensures
            final(self).bytes() == old(self).bytes(),
            final(self).position() == old(self).position_after(
                cbor_byte_vec(old(self).remaining()).1,
            ),
            match cbor_byte_vec(old(self).remaining()).0 {
                Ok(v) => r.is_ok() && r.unwrap()@ == v,
                Err(m) => r.is_err() && (match r.unwrap_err() {
                    CompactParsingError::InvalidByteVector(text) => text@ == m,
                    _ => false,
                }),
            },
    {
        proof {
            use_type_invariant(&*self);
        }
        let rest = slice_subrange(self.bytes.as_slice(), self.pos, self.bytes.len());
        assert(rest@ =~= self.remaining());
        let (decoded, consumed) = cbor_read_byte_vec(rest);
        self.accept_byte_vec(decoded, consumed)
    }

    /// Takes what the decoder gave for a branch mask and moves past the
    /// bytes it took. A failure carries those bytes in hexadecimal.
    pub fn accept_branch_mask(&mut self, decoded: Result<u32, String>, consumed: usize) -> (r:
        Result<u32, CompactParsingError>)
        ensures
            final(self).bytes() == old(self).bytes(),
            final(self).position() == old(self).position_after(consumed as nat),
            match decoded {
                Ok(v) => r == Ok::<u32, CompactParsingError>(v),
                Err(m) => r.is_err() && (match r.unwrap_err() {
                    CompactParsingError::InvalidBytesForType(name, bytes, text) => {
                        &&& name@ == "u32"@
                        &&& bytes@ == hex_string(
                            old(self).bytes().subrange(
                                old(self).position(),
                                old(self).position_after(consumed as nat),
                            ),
                        )
                        &&& text == m
                    },
                    _ => false,
                }),
            },
    {
        proof {
            use_type_invariant(&*self);
        }
        let start: usize = self.pos;
        self.advance(consumed);
        proof {
            use_type_invariant(&*self);
        }
        match decoded {
            Ok(v) => Ok(v),
            Err(m) => {
                let read = slice_subrange(self.bytes.as_slice(), start, self.pos);
                Err(CompactParsingError::InvalidBytesForType("u32", hex_encode(read), m))
            },
        }
    }

    /// Reads a CBOR item as the mask of a branch.
    pub fn read_branch_mask(&mut self) -> (r: Result<u32, CompactParsingError>)
        ensures
            final(self).bytes() == old(self).bytes(),
            final(self).position() == old(self).position_after(cbor_u32(old(self).remaining()).1),
            match cbor_u32(old(self).remaining()).0 {
                Ok(v) => r == Ok::<u32, CompactParsingError>(v),
                Err(m) => r.is_err() && (match r.unwrap_err() {
                    CompactParsingError::InvalidBytesForType(name, bytes, text) => {
                        &&& name@ == "u32"@
                        &&& bytes@ == hex_string(
                            old(self).bytes().subrange(
                                old(self).position(),
                                old(self).position_after(cbor_u32(old(self).remaining()).1),
                            ),
                        )
                        &&& text@ == m
                    },
                    _ => false,
                }),
            },
    {
        proof {
            use_type_invariant(&*self);
        }
        let rest = slice_subrange(self.bytes.as_slice(), self.pos, self.bytes.len());
        assert(rest@ =~= self.remaining());
        let (decoded, consumed) = cbor_read_u32(rest);
        self.accept_branch_mask(decoded, consumed)
    }

    /// Whether every byte has been read.
    pub fn at_eof(&self) -> (r: bool)
        ensures
            r == (self.position() == self.bytes().len()),
            r == (self.remaining().len() == 0),
    {
        proof {
            use_type_invariant(self);
        }
        self.pos == self.bytes.len()
    }
}

/// Reads the header byte of a witness.
pub fn parse_header(cursor: &mut CompactCursor) -> (r: Result<Header, CompactParsingError>)
    ensures
        final(cursor).bytes() == old(cursor).bytes(),
        old(cursor).position() < old(cursor).bytes().len() ==> {
            &&& r == Ok::<Header, CompactParsingError>(
                Header { version: old(cursor).bytes()[old(cursor).position()] },
            )
            &&& final(cursor).position() == old(cursor).position() + 1
        },
        old(cursor).position() >= old(cursor).bytes().len() ==> {
            &&& r == Err::<Header, CompactParsingError>(CompactParsingError::MissingHeader)
            &&& final(cursor).position() == old(cursor).position()
        },
{
    match cursor.read_byte() {
        Ok(version) => Ok(Header { version }),
        Err(_) => Err(CompactParsingError::MissingHeader),
    }
}

/// Reads the operator byte that opens the next instruction.
pub fn read_opcode(cursor: &mut CompactCursor) -> (r: Result<Opcode, CompactParsingError>)
    ensures
        final(cursor).bytes() == old(cursor).bytes(),
        old(cursor).position() >= old(cursor).bytes().len() ==> {
            &&& r == Err::<Opcode, CompactParsingError>(CompactParsingError::UnexpectedEndOfStream)
            &&& final(cursor).position() == old(cursor).position()
        },
        old(cursor).position() < old(cursor).bytes().len() ==> {
            let byte = old(cursor).bytes()[old(cursor).position()];
            &&& final(cursor).position() == old(cursor).position() + 1
            &&& byte <= 0x06 ==> r.is_ok() && r.unwrap().code() == byte
            &&& byte > 0x06 ==> r == Err::<Opcode, CompactParsingError>(
                CompactParsingError::InvalidOperator(byte),
            )
        },
{
    let byte: u8 = match cursor.read_byte() {
        Ok(b) => b,
        Err(e) => {
            return Err(e);
        },
    };
    match Opcode::n(byte) {
        Some(op) => Ok(op),
        None => Err(CompactParsingError::InvalidOperator(byte)),
    }
}

} // verus!
