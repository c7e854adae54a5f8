//! A stream of bytes that is read from front to back, and the fields that
//! an archive is made of.

use vstd::prelude::*;
use vstd::slice::slice_subrange;
use vstd::utf8::{valid_utf8, decode_utf8};
use byteorder::ByteOrder;
use crate::lgr::error::{LgrError, error};

verus! {

/// The number that four bytes spell in little-endian order.
pub open spec fn spec_u32(bytes: Seq<u8>) -> u32
    recommends
        bytes.len() >= 4,
{
    (bytes[0] + 256 * bytes[1] + 65536 * bytes[2] + 16777216 * bytes[3]) as u32
}

/// Number of bytes before the first zero byte; the length where there is
/// none.
pub open spec fn zero_at(bytes: Seq<u8>) -> nat
    decreases bytes.len(),
{
    if bytes.len() == 0 || bytes[0] == 0 {
        0
    } else {
        1 + zero_at(bytes.drop_first())
    }
}

/// The bytes before the first zero byte.
pub open spec fn spec_trim_at_zero(bytes: Seq<u8>) -> Seq<u8> {
    bytes.take(zero_at(bytes) as int)
}

/// The string in a field that takes up the first `len` bytes of `bytes`:
/// the field ends at its first zero byte and holds UTF-8.
pub open spec fn spec_string(bytes: Seq<u8>, len: nat) -> Result<Seq<char>, LgrError> {
    if bytes.len() < len {
        Err(LgrError::UnexpectedEof)
    } else if !valid_utf8(spec_trim_at_zero(bytes.take(len as int))) {
        Err(LgrError::InvalidName)
    } else {
        Ok(decode_utf8(spec_trim_at_zero(bytes.take(len as int))))
    }
}

/// The little-endian number in the first four bytes of `bytes`.
pub open spec fn spec_word(bytes: Seq<u8>) -> Result<u32, LgrError> {
    if bytes.len() < 4 {
        Err(LgrError::UnexpectedEof)
    } else {
        Ok(spec_u32(bytes.take(4)))
    }
}

/// `byteorder::LittleEndian::read_u32`: the number that the first four
/// bytes of `bytes` spell, least significant byte first. It panics on fewer
/// than four bytes.
#[verifier::external_body]
fn little_endian_u32(bytes: &[u8]) -> (value: u32)
    requires
        bytes@.len() >= 4,
    ensures
        value == spec_u32(bytes@),
{
    byteorder::LittleEndian::read_u32(bytes)
}

/// `String::from_utf8`: the string that `bytes` encode, or nothing where
/// they are not valid UTF-8.
#[verifier::external_body]
fn string_from_utf8(bytes: Vec<u8>) -> (string: Option<String>)
    ensures
        string.is_some() == valid_utf8(bytes@),
        string matches Some(s) ==> s@ == decode_utf8(bytes@),
{
    match String::from_utf8(bytes) {
        Ok(string) => Some(string),
        Err(_) => None,
    }
}

/// A stream of bytes with a reading position.
pub struct Stream<'a> {
    data: &'a [u8],
    position: usize,
}

impl<'a> View for Stream<'a> {
    type V = Seq<u8>;

    /// The bytes that are still to be read.
    closed spec fn view(&self) -> Seq<u8> {
        self.data@.skip(self.position as int)
    }
}

impl<'a> Stream<'a> {
    #[verifier::type_invariant]
    spec fn well_formed(self) -> bool {
        self.position <= self.data@.len()
    }

    /// A stream over `data`, with nothing read yet.
    pub fn new(data: &'a [u8]) -> (stream: Stream<'a>)
        ensures
            stream@ == data@,
    {
        Stream { data, position: 0 }
    }

    /// Number of bytes that are still to be read.
    pub fn remaining(&self) -> (remaining: usize)
        ensures
            remaining == self@.len(),
    {
        proof {
            use_type_invariant(self);
        }
        self.data.len() - self.position
    }

    /// Reads the next `len` bytes. Where fewer are left, nothing is read.
    pub fn read_exact(&mut self, len: usize) -> (bytes: Result<&'a [u8], LgrError>)
        ensures
            match bytes {
                Ok(read) => old(self)@.len() >= len && read@ == old(self)@.take(len as int)
                    && final(self)@ == old(self)@.skip(len as int),
                Err(reason) => old(self)@.len() < len && reason == LgrError::UnexpectedEof
                    && final(self)@ == old(self)@,
            },
    {
        proof {
            use_type_invariant(&*self);
        }
        if self.data.len() - self.position < len {
            return Err(LgrError::UnexpectedEof);
        }
        let start = self.position;
        let bytes = slice_subrange(self.data, start, start + len);
        self.position = start + len;
        assert(bytes@ == old(self)@.take(len as int));
        assert(self@ == old(self)@.skip(len as int));
        Ok(bytes)
    }

    /// Reads a little-endian 32-bit number.
    pub fn read_u32(&mut self) -> (word: Result<u32, LgrError>)
        ensures
            word == spec_word(old(self)@),
            word is Ok ==> final(self)@ == old(self)@.skip(4),
    {
        match self.read_exact(4) {
            Ok(bytes) => Ok(little_endian_u32(bytes)),
            Err(reason) => Err(reason),
        }
    }
}

/// `zero_at` marks the first zero byte: no byte before it is zero, and it
/// is the length or the place of a zero byte.
pub proof fn lemma_zero_at(bytes: Seq<u8>)
    ensures
        zero_at(bytes) <= bytes.len(),
        forall|i: int| 0 <= i < zero_at(bytes) ==> bytes[i] != 0,
        zero_at(bytes) < bytes.len() ==> bytes[zero_at(bytes) as int] == 0,
    decreases bytes.len(),
{
    if bytes.len() > 0 && bytes[0] != 0 {
        let rest = bytes.drop_first();
        lemma_zero_at(rest);
        assert forall|i: int| 0 <= i < zero_at(bytes) implies bytes[i] != 0 by {
            if i > 0 {
                assert(bytes[i] == rest[i - 1]);
            }
        }
    }
}

/// The place that `zero_at` names is the only one of its kind.
proof fn lemma_zero_at_is(bytes: Seq<u8>, at: int)
    requires
        0 <= at <= bytes.len(),
        forall|i: int| 0 <= i < at ==> bytes[i] != 0,
        at < bytes.len() ==> bytes[at] == 0,
    ensures
        zero_at(bytes) == at,
{
    lemma_zero_at(bytes);
    let found = zero_at(bytes) as int;
    if found < at {
        assert(bytes[found] == 0);
    } else if at < found {
        assert(bytes[at] != 0);
    }
}

/// Cuts `string` off at its first zero byte.
pub fn trim_at_zero(string: &mut Vec<u8>)
    ensures
        final(string)@ == spec_trim_at_zero(old(string)@),
{
    let mut i: usize = 0;
    while i < string.len()
        invariant
            i <= string@.len(),
            string@ == old(string)@,
            forall|k: int| 0 <= k < i ==> string@[k] != 0,
        decreases string@.len() - i,
    {
        if string[i] == 0 {
            proof {
                lemma_zero_at_is(string@, i as int);
            }
            string.truncate(i);
            return ;
        }
        i += 1;
    }
    proof {
        lemma_zero_at_is(string@, i as int);
        assert(string@.take(string@.len() as int) == string@);
    }
}

/// Reads the string in a field of `len` bytes.
pub fn read_string(stream: &mut Stream, len: usize) -> (string: Result<String, LgrError>)
    ensures
        match string {
            Ok(s) => spec_string(old(stream)@, len as nat) == Ok::<Seq<char>, LgrError>(s@)
                && final(stream)@ == old(stream)@.skip(len as int),
            Err(reason) => spec_string(old(stream)@, len as nat) == Err::<Seq<char>, LgrError>(
                reason,
            ),
        },
{
    let field = match stream.read_exact(len) {
        Ok(field) => field,
        Err(reason) => {
            return Err(reason);
        },
    };
    let mut string = vstd::slice::slice_to_vec(field);
    trim_at_zero(&mut string);
    match string_from_utf8(string) {
        Some(s) => Ok(s),
        None => error(LgrError::InvalidName),
    }
}

} // verus!
