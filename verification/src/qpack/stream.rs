//! The instructions of the encoder stream and of the decoder stream.
//!
//! An instruction that has not arrived whole is no error: it is read as nothing.
//!
//! See <https://www.rfc-editor.org/rfc/rfc9204.html#section-4.3> and
//! <https://www.rfc-editor.org/rfc/rfc9204.html#section-4.4>.
use vstd::prelude::*;
use vstd::arithmetic::power2::lemma2_to64;
use crate::buf::{to_vec, Reader};
use super::block::{encodable, index_spec, lemma_first_byte};
use super::parse_error::ParseError;
use super::prefix_int::Error as IntError;
use super::prefix_string::Error as StringError;
use super::{prefix_int, prefix_string};

verus! {

/// The instructions of the encoder stream, told apart by the first byte.
#[derive(Debug, Clone, Copy, PartialEq, Eq, Structural)]
pub enum EncoderInstruction {
    /// ```text
    ///   0   1   2   3   4   5   6   7
    /// +---+---+---+---+---+---+---+---+
    /// | 0 | 0 | 1 |   Capacity (5+)   |
    /// +---+---+---+-------------------+
    /// ```
    DynamicTableSizeUpdate,
    /// ```text
    ///   0   1   2   3   4   5   6   7
    /// +---+---+---+---+---+---+---+---+
    /// | 1 | T |    Name Index (6+)    |
    /// +---+---+-----------------------+
    /// ```
    InsertWithNameRef,
    /// ```text
    ///   0   1   2   3   4   5   6   7
    /// +---+---+---+---+---+---+---+---+
    /// | 0 | 1 | H | Name Length (5+)  |
    /// +---+---+---+-------------------+
    /// ```
    InsertWithoutNameRef,
    /// ```text
    ///   0   1   2   3   4   5   6   7
    /// +---+---+---+---+---+---+---+---+
    /// | 0 | 0 | 0 |    Index (5+)     |
    /// +---+---+---+-------------------+
    /// ```
    Duplicate,
    Unknown,
}

/// The encoder instruction that starts with `first`.
pub open spec fn encoder_instruction(first: u8) -> EncoderInstruction {
    if first >= 128 {
        EncoderInstruction::InsertWithNameRef
    } else if first >= 64 {
        EncoderInstruction::InsertWithoutNameRef
    } else if first >= 32 {
        EncoderInstruction::DynamicTableSizeUpdate
    } else {
        EncoderInstruction::Duplicate
    }
}

impl EncoderInstruction {
    /// The instruction that starts with `first`.
    pub fn decode(first: u8) -> (instruction: Self)
        ensures
            instruction == encoder_instruction(first),
            instruction != EncoderInstruction::Unknown,
    {
        if first >= 128 {
            EncoderInstruction::InsertWithNameRef
        } else if first / 64 == 1 {
            EncoderInstruction::InsertWithoutNameRef
        } else if first / 32 == 0 {
            EncoderInstruction::Duplicate
        } else if first / 32 == 1 {
            EncoderInstruction::DynamicTableSizeUpdate
        } else {
            EncoderInstruction::Unknown
        }
    }
}

/// The instructions of the decoder stream, told apart by the first byte.
#[derive(Debug, Clone, Copy, PartialEq, Eq, Structural)]
pub enum DecoderInstruction {
    /// ```text
    ///   0   1   2   3   4   5   6   7
    /// +---+---+---+---+---+---+---+---+
    /// | 0 | 0 |     Increment (6+)    |
    /// +---+---+-----------------------+
    /// ```
    InsertCountIncrement,
    /// ```text
    ///   0   1   2   3   4   5   6   7
    /// +---+---+---+---+---+---+---+---+
    /// | 1 |      Stream ID (7+)       |
    /// +---+---------------------------+
    /// ```
    HeaderAck,
    /// ```text
    ///   0   1   2   3   4   5   6   7
    /// +---+---+---+---+---+---+---+---+
    /// | 0 | 1 |     Stream ID (6+)    |
    /// +---+---+-----------------------+
    /// ```
    StreamCancel,
    Unknown,
}

/// The decoder instruction that starts with `first`.
pub open spec fn decoder_instruction(first: u8) -> DecoderInstruction {
    if first >= 128 {
        DecoderInstruction::HeaderAck
    } else if first >= 64 {
        DecoderInstruction::StreamCancel
    } else {
        DecoderInstruction::InsertCountIncrement
    }
}

impl DecoderInstruction {
    /// The instruction that starts with `first`.
    pub fn decode(first: u8) -> (instruction: Self)
        ensures
            instruction == decoder_instruction(first),
            instruction != DecoderInstruction::Unknown,
    {
        if first / 64 == 0 {
            DecoderInstruction::InsertCountIncrement
        } else if first >= 128 {
            DecoderInstruction::HeaderAck
        } else if first / 64 == 1 {
            DecoderInstruction::StreamCancel
        } else {
            DecoderInstruction::Unknown
        }
    }
}

/// An integer with the bits `flags` above its `size` bit prefix, or nothing where it
/// has not arrived whole. With it come the bytes that are left.
pub open spec fn flagged_int(size: u8, flags: u8, s: Seq<u8>) -> (
    Result<Option<u64>, ParseError>,
    Seq<u8>,
) {
    let (prefix, rest) = prefix_int::decode_spec(size, s);
    match prefix {
        Ok((found, value)) => if found == flags {
            (Ok(Some(value)), rest)
        } else {
            (Err(ParseError::InvalidPrefix(found)), rest)
        },
        Err(IntError::UnexpectedEnd) => (Ok(None), rest),
        Err(error) => (Err(ParseError::Integer(error)), rest),
    }
}

/// An index with the bits `flags` above its `size` bit prefix.
pub open spec fn flagged_index(size: u8, flags: u8, s: Seq<u8>) -> (
    Result<Option<usize>, ParseError>,
    Seq<u8>,
) {
    let (value, rest) = flagged_int(size, flags, s);
    match value {
        Ok(Some(value)) => match index_spec(value) {
            Ok(index) => (Ok(Some(index)), rest),
            Err(error) => (Err(error), rest),
        },
        Ok(None) => (Ok(None), rest),
        Err(error) => (Err(error), rest),
    }
}

/// A string with a `size` bit prefix, or nothing where it has not arrived whole.
pub open spec fn partial_string(size: u8, s: Seq<u8>, limit: usize) -> (
    Result<Option<Seq<u8>>, ParseError>,
    Seq<u8>,
) {
    let (value, rest) = prefix_string::decode_limited_spec(size, s, limit);
    match value {
        Ok(value) => (Ok(Some(value)), rest),
        Err(StringError::UnexpectedEnd) => (Ok(None), rest),
        Err(error) => (Err(ParseError::String(error)), rest),
    }
}

/// A result with the view of the value that it may hold.
pub open spec fn view_some<T: View, E>(result: Result<Option<T>, E>) -> Result<Option<T::V>, E> {
    match result {
        Ok(Some(value)) => Ok(Some(value@)),
        Ok(None) => Ok(None),
        Err(error) => Err(error),
    }
}

fn read_flagged_int(size: u8, flags: u8, buf: &mut Reader) -> (result: Result<
    Option<u64>,
    ParseError,
>)
    requires
        size <= 8,
    ensures
        (result, final(buf)@) == flagged_int(size, flags, old(buf)@),
{
    match prefix_int::decode(size, buf) {
        Ok((found, value)) => if found == flags {
            Ok(Some(value))
        } else {
            Err(ParseError::InvalidPrefix(found))
        },
        Err(IntError::UnexpectedEnd) => Ok(None),
        Err(error) => Err(ParseError::Integer(error)),
    }
}

fn read_flagged_index(size: u8, flags: u8, buf: &mut Reader) -> (result: Result<
    Option<usize>,
    ParseError,
>)
    requires
        size <= 8,
    ensures
        (result, final(buf)@) == flagged_index(size, flags, old(buf)@),
{
    match read_flagged_int(size, flags, buf) {
        Ok(Some(value)) => if value > usize::MAX as u64 {
            Err(ParseError::Integer(IntError::Overflow))
        } else {
            Ok(Some(value as usize))
        },
        Ok(None) => Ok(None),
        Err(error) => Err(error),
    }
}

fn read_string(size: u8, buf: &mut Reader, limit: usize) -> (result: Result<
    Option<Vec<u8>>,
    ParseError,
>)
    requires
        1 <= size <= 8,
    ensures
        (view_some(result), final(buf)@) == partial_string(size, old(buf)@, limit),
{
    match prefix_string::decode_limited(size, buf, limit) {
        Ok(value) => Ok(Some(value)),
        Err(StringError::UnexpectedEnd) => Ok(None),
        Err(error) => Err(ParseError::String(error)),
    }
}

/// Inserts an entry with the name of another, of the static table or of the dynamic
/// table.
#[derive(Debug, PartialEq, Eq)]
pub enum InsertWithNameRef {
    Static { index: usize, value: Vec<u8> },
    Dynamic { index: usize, value: Vec<u8> },
}

/// What an insertion with a name reference says.
#[verifier::ext_equal]
pub struct InsertWithNameRefView {
    pub is_static: bool,
    pub index: usize,
    pub value: Seq<u8>,
}

impl View for InsertWithNameRef {
    type V = InsertWithNameRefView;

    open spec fn view(&self) -> InsertWithNameRefView {
        match self {
            InsertWithNameRef::Static { index, value } => InsertWithNameRefView {
                is_static: true,
                index: *index,
                value: value@,
            },
            InsertWithNameRef::Dynamic { index, value } => InsertWithNameRefView {
                is_static: false,
                index: *index,
                value: value@,
            },
        }
    }
}

impl InsertWithNameRefView {
    pub open spec fn decode_spec(s: Seq<u8>, limit: usize) -> (
        Result<Option<InsertWithNameRefView>, ParseError>,
        Seq<u8>,
    ) {
        let (prefix, rest) = prefix_int::decode_spec(6, s);
        match prefix {
            Err(IntError::UnexpectedEnd) => (Ok(None), rest),
            Err(error) => (Err(ParseError::Integer(error)), rest),
            Ok((flags, index)) => if flags < 2 {
                (Err(ParseError::InvalidPrefix(flags)), rest)
            } else {
                match index_spec(index) {
                    Err(error) => (Err(error), rest),
                    Ok(index) => {
                        let (value, rest) = partial_string(8, rest, limit);
                        match value {
                            Err(error) => (Err(error), rest),
                            Ok(None) => (Ok(None), rest),
                            Ok(Some(value)) => (
                                Ok(
                                    Some(
                                        InsertWithNameRefView {
                                            is_static: flags % 2 == 1,
                                            index,
                                            value,
                                        },
                                    ),
                                ),
                                rest,
                            ),
                        }
                    },
                }
            },
        }
    }

    pub open spec fn encode_spec(self) -> Seq<u8> {
        prefix_int::encode_spec(
            6,
            if self.is_static {
                3
            } else {
                2
            },
            self.index as u64,
        ) + prefix_string::encode_spec(8, 0, self.value)
    }
}

impl InsertWithNameRef {
    pub fn new_static(index: usize, value: &[u8]) -> (instruction: Self)
        ensures
            instruction@ == (InsertWithNameRefView { is_static: true, index, value: value@ }),
    {
        InsertWithNameRef::Static { index, value: to_vec(value) }
    }

    pub fn new_dynamic(index: usize, value: &[u8]) -> (instruction: Self)
        ensures
            instruction@ == (InsertWithNameRefView { is_static: false, index, value: value@ }),
    {
        InsertWithNameRef::Dynamic { index, value: to_vec(value) }
    }

    pub fn decode(buf: &mut Reader) -> (result: Result<Option<Self>, ParseError>)
        ensures
            (view_some(result), final(buf)@) == InsertWithNameRefView::decode_spec(
                old(buf)@,
                usize::MAX,
            ),
    {
        Self::decode_limited(buf, usize::MAX)
    }

    pub fn decode_limited(buf: &mut Reader, limit: usize) -> (result: Result<
        Option<Self>,
        ParseError,
    >)
        ensures
            (view_some(result), final(buf)@) == InsertWithNameRefView::decode_spec(
                old(buf)@,
                limit,
            ),
    {
        let (flags, index): (u8, u64) = match prefix_int::decode(6, buf) {
            Ok(prefix) => prefix,
            Err(IntError::UnexpectedEnd) => return Ok(None),
            Err(error) => return Err(ParseError::Integer(error)),
        };
        if flags < 2 {
            return Err(ParseError::InvalidPrefix(flags));
        }
        if index > usize::MAX as u64 {
            return Err(ParseError::Integer(IntError::Overflow));
        }
        let index: usize = index as usize;
        match read_string(8, buf, limit) {
            Ok(Some(value)) => if flags % 2 == 1 {
                Ok(Some(InsertWithNameRef::Static { index, value }))
            } else {
                Ok(Some(InsertWithNameRef::Dynamic { index, value }))
            },
            Ok(None) => Ok(None),
            Err(error) => Err(error),
        }
    }

    pub fn encode(&self, buf: &mut Vec<u8>) -> (result: Result<(), StringError>)
        ensures
            result is Ok,
            final(buf)@ == old(buf)@ + self@.encode_spec(),
    {
        let result = match self {
            InsertWithNameRef::Static { index, value } => {
                prefix_int::encode(6, 3, *index as u64, buf);
                prefix_string::encode(8, 0, value.as_slice(), buf)
            },
            InsertWithNameRef::Dynamic { index, value } => {
                prefix_int::encode(6, 2, *index as u64, buf);
                prefix_string::encode(8, 0, value.as_slice(), buf)
            },
        };
        assert(buf@ =~= old(buf)@ + self@.encode_spec());
        result
    }
}

/// Inserts an entry.
#[derive(Debug, PartialEq, Eq)]
pub struct InsertWithoutNameRef {
    pub name: Vec<u8>,
    pub value: Vec<u8>,
}

/// What an insertion says.
#[verifier::ext_equal]
pub struct InsertView {
    pub name: Seq<u8>,
    pub value: Seq<u8>,
}

impl View for InsertWithoutNameRef {
    type V = InsertView;

    open spec fn view(&self) -> InsertView {
        InsertView { name: self.name@, value: self.value@ }
    }
}

impl InsertView {
    pub open spec fn decode_spec(s: Seq<u8>, limit: usize) -> (
        Result<Option<InsertView>, ParseError>,
        Seq<u8>,
    ) {
        let (name, rest) = partial_string(6, s, limit);
        match name {
            Err(error) => (Err(error), rest),
            Ok(None) => (Ok(None), rest),
            Ok(Some(name)) => {
                let (value, rest) = partial_string(8, rest, limit);
                match value {
                    Err(error) => (Err(error), rest),
                    Ok(None) => (Ok(None), rest),
                    Ok(Some(value)) => (Ok(Some(InsertView { name, value })), rest),
                }
            },
        }
    }

    pub open spec fn encode_spec(self) -> Seq<u8> {
        prefix_string::encode_spec(6, 1, self.name) + prefix_string::encode_spec(8, 0, self.value)
    }
}

impl InsertWithoutNameRef {
    pub fn new(name: &[u8], value: &[u8]) -> (instruction: Self)
        ensures
            instruction@ == (InsertView { name: name@, value: value@ }),
    {
        InsertWithoutNameRef { name: to_vec(name), value: to_vec(value) }
    }

    pub fn decode(buf: &mut Reader) -> (result: Result<Option<Self>, ParseError>)
        ensures
            (view_some(result), final(buf)@) == InsertView::decode_spec(old(buf)@, usize::MAX),
    {
        Self::decode_limited(buf, usize::MAX)
    }

    pub fn decode_limited(buf: &mut Reader, limit: usize) -> (result: Result<
        Option<Self>,
        ParseError,
    >)
        ensures
            (view_some(result), final(buf)@) == InsertView::decode_spec(old(buf)@, limit),
    {
        let name: Vec<u8> = match read_string(6, buf, limit) {
            Ok(Some(name)) => name,
            Ok(None) => return Ok(None),
            Err(error) => return Err(error),
        };
        match read_string(8, buf, limit) {
            Ok(Some(value)) => Ok(Some(InsertWithoutNameRef { name, value })),
            Ok(None) => Ok(None),
            Err(error) => Err(error),
        }
    }

    pub fn encode(&self, buf: &mut Vec<u8>) -> (result: Result<(), StringError>)
        ensures
            result is Ok,
            final(buf)@ == old(buf)@ + self@.encode_spec(),
    {
        if let Err(error) = prefix_string::encode(6, 1, self.name.as_slice(), buf) {
            return Err(error);
        }
        let result = prefix_string::encode(8, 0, self.value.as_slice(), buf);
        assert(buf@ =~= old(buf)@ + self@.encode_spec());
        result
    }
}

/// Inserts an entry again, found by its distance from the latest.
#[derive(Debug, Clone, Copy, PartialEq, Eq, Structural)]
pub struct Duplicate(pub usize);

impl Duplicate {
    pub open spec fn decode_spec(s: Seq<u8>) -> (Result<Option<Duplicate>, ParseError>, Seq<u8>) {
        let (value, rest) = flagged_index(5, 0, s);
        match value {
            Ok(Some(value)) => (Ok(Some(Duplicate(value))), rest),
            Ok(None) => (Ok(None), rest),
            Err(error) => (Err(error), rest),
        }
    }

    pub open spec fn encode_spec(self) -> Seq<u8> {
        prefix_int::encode_spec(5, 0, self.0 as u64)
    }

    pub fn decode(buf: &mut Reader) -> (result: Result<Option<Self>, ParseError>)
        ensures
            (result, final(buf)@) == Self::decode_spec(old(buf)@),
    {
        match read_flagged_index(5, 0, buf) {
            Ok(Some(value)) => Ok(Some(Duplicate(value))),
            Ok(None) => Ok(None),
            Err(error) => Err(error),
        }
    }

    pub fn encode(&self, buf: &mut Vec<u8>)
        ensures
            final(buf)@ == old(buf)@ + self.encode_spec(),
    {
        prefix_int::encode(5, 0, self.0 as u64, buf);
    }
}

/// Sets the capacity of the table.
#[derive(Debug, Clone, Copy, PartialEq, Eq, Structural)]
pub struct DynamicTableSizeUpdate(pub usize);

impl DynamicTableSizeUpdate {
    pub open spec fn decode_spec(s: Seq<u8>) -> (Result<Option<DynamicTableSizeUpdate>, ParseError>, Seq<u8>) {
        let (value, rest) = flagged_index(5, 1, s);
        match value {
            Ok(Some(value)) => (Ok(Some(DynamicTableSizeUpdate(value))), rest),
            Ok(None) => (Ok(None), rest),
            Err(error) => (Err(error), rest),
        }
    }

    pub open spec fn encode_spec(self) -> Seq<u8> {
        prefix_int::encode_spec(5, 1, self.0 as u64)
    }

    pub fn decode(buf: &mut Reader) -> (result: Result<Option<Self>, ParseError>)
        ensures
            (result, final(buf)@) == Self::decode_spec(old(buf)@),
    {
        match read_flagged_index(5, 1, buf) {
            Ok(Some(value)) => Ok(Some(DynamicTableSizeUpdate(value))),
            Ok(None) => Ok(None),
            Err(error) => Err(error),
        }
    }

    pub fn encode(&self, buf: &mut Vec<u8>)
        ensures
            final(buf)@ == old(buf)@ + self.encode_spec(),
    {
        prefix_int::encode(5, 1, self.0 as u64, buf);
    }
}

/// Tells that more insertions were received.
#[derive(Debug, Clone, Copy, PartialEq, Eq, Structural)]
pub struct InsertCountIncrement(pub usize);

impl InsertCountIncrement {
    pub open spec fn decode_spec(s: Seq<u8>) -> (Result<Option<InsertCountIncrement>, ParseError>, Seq<u8>) {
        let (value, rest) = flagged_index(6, 0, s);
        match value {
            Ok(Some(value)) => (Ok(Some(InsertCountIncrement(value))), rest),
            Ok(None) => (Ok(None), rest),
            Err(error) => (Err(error), rest),
        }
    }

    pub open spec fn encode_spec(self) -> Seq<u8> {
        prefix_int::encode_spec(6, 0, self.0 as u64)
    }

    pub fn decode(buf: &mut Reader) -> (result: Result<Option<Self>, ParseError>)
        ensures
            (result, final(buf)@) == Self::decode_spec(old(buf)@),
    {
        match read_flagged_index(6, 0, buf) {
            Ok(Some(value)) => Ok(Some(InsertCountIncrement(value))),
            Ok(None) => Ok(None),
            Err(error) => Err(error),
        }
    }

    pub fn encode(&self, buf: &mut Vec<u8>)
        ensures
            final(buf)@ == old(buf)@ + self.encode_spec(),
    {
        prefix_int::encode(6, 0, self.0 as u64, buf);
    }
}

/// Tells that a field section of the stream was decoded.
#[derive(Debug, Clone, Copy, PartialEq, Eq, Structural)]
pub struct HeaderAck(pub u64);

impl HeaderAck {
    pub open spec fn decode_spec(s: Seq<u8>) -> (Result<Option<HeaderAck>, ParseError>, Seq<u8>) {
        let (value, rest) = flagged_int(7, 1, s);
        match value {
            Ok(Some(value)) => (Ok(Some(HeaderAck(value))), rest),
            Ok(None) => (Ok(None), rest),
            Err(error) => (Err(error), rest),
        }
    }

    pub open spec fn encode_spec(self) -> Seq<u8> {
        prefix_int::encode_spec(7, 1, self.0 as u64)
    }

    pub fn decode(buf: &mut Reader) -> (result: Result<Option<Self>, ParseError>)
        ensures
            (result, final(buf)@) == Self::decode_spec(old(buf)@),
    {
        match read_flagged_int(7, 1, buf) {
            Ok(Some(value)) => Ok(Some(HeaderAck(value))),
            Ok(None) => Ok(None),
            Err(error) => Err(error),
        }
    }

    pub fn encode(&self, buf: &mut Vec<u8>)
        ensures
            final(buf)@ == old(buf)@ + self.encode_spec(),
    {
        prefix_int::encode(7, 1, self.0 as u64, buf);
    }
}

/// Tells that the stream is no longer read.
#[derive(Debug, Clone, Copy, PartialEq, Eq, Structural)]
pub struct StreamCancel(pub u64);

impl StreamCancel {
    pub open spec fn decode_spec(s: Seq<u8>) -> (Result<Option<StreamCancel>, ParseError>, Seq<u8>) {
        let (value, rest) = flagged_int(6, 1, s);
        match value {
            Ok(Some(value)) => (Ok(Some(StreamCancel(value))), rest),
            Ok(None) => (Ok(None), rest),
            Err(error) => (Err(error), rest),
        }
    }

    pub open spec fn encode_spec(self) -> Seq<u8> {
        prefix_int::encode_spec(6, 1, self.0 as u64)
    }

    pub fn decode(buf: &mut Reader) -> (result: Result<Option<Self>, ParseError>)
        ensures
            (result, final(buf)@) == Self::decode_spec(old(buf)@),
    {
        match read_flagged_int(6, 1, buf) {
            Ok(Some(value)) => Ok(Some(StreamCancel(value))),
            Ok(None) => Ok(None),
            Err(error) => Err(error),
        }
    }

    pub fn encode(&self, buf: &mut Vec<u8>)
        ensures
            final(buf)@ == old(buf)@ + self.encode_spec(),
    {
        prefix_int::encode(6, 1, self.0 as u64, buf);
    }
}

/// Reading back a duplication that was written gives it, and its first byte tells what it
/// is.
pub proof fn duplicate_round_trip(instruction: Duplicate, rest: Seq<u8>)
    ensures
        Duplicate::decode_spec(instruction.encode_spec() + rest) == (
            Ok::<Option<Duplicate>, ParseError>(Some(instruction)),
            rest,
        ),
        instruction.encode_spec().len() > 0,
        encoder_instruction((instruction.encode_spec() + rest)[0]) == EncoderInstruction::Duplicate,
{
    lemma2_to64();
    prefix_int::round_trip(5, 0, instruction.0 as u64, rest);
    prefix_int::flags_round_trip(5, 0);
    lemma_first_byte(5, 0, instruction.0 as u64, rest);
}

/// Reading back a capacity that was written gives it, and its first byte tells what it
/// is.
pub proof fn dynamic_table_size_update_round_trip(instruction: DynamicTableSizeUpdate, rest: Seq<u8>)
    ensures
        DynamicTableSizeUpdate::decode_spec(instruction.encode_spec() + rest) == (
            Ok::<Option<DynamicTableSizeUpdate>, ParseError>(Some(instruction)),
            rest,
        ),
        instruction.encode_spec().len() > 0,
        encoder_instruction((instruction.encode_spec() + rest)[0]) == EncoderInstruction::DynamicTableSizeUpdate,
{
    lemma2_to64();
    prefix_int::round_trip(5, 1, instruction.0 as u64, rest);
    prefix_int::flags_round_trip(5, 1);
    lemma_first_byte(5, 1, instruction.0 as u64, rest);
}

/// Reading back an increment that was written gives it, and its first byte tells what it
/// is.
pub proof fn insert_count_increment_round_trip(instruction: InsertCountIncrement, rest: Seq<u8>)
    ensures
        InsertCountIncrement::decode_spec(instruction.encode_spec() + rest) == (
            Ok::<Option<InsertCountIncrement>, ParseError>(Some(instruction)),
            rest,
        ),
        instruction.encode_spec().len() > 0,
        decoder_instruction((instruction.encode_spec() + rest)[0]) == DecoderInstruction::InsertCountIncrement,
{
    lemma2_to64();
    prefix_int::round_trip(6, 0, instruction.0 as u64, rest);
    prefix_int::flags_round_trip(6, 0);
    lemma_first_byte(6, 0, instruction.0 as u64, rest);
}

/// Reading back an acknowledgment that was written gives it, and its first byte tells what it
/// is.
pub proof fn header_ack_round_trip(instruction: HeaderAck, rest: Seq<u8>)
    ensures
        HeaderAck::decode_spec(instruction.encode_spec() + rest) == (
            Ok::<Option<HeaderAck>, ParseError>(Some(instruction)),
            rest,
        ),
        instruction.encode_spec().len() > 0,
        decoder_instruction((instruction.encode_spec() + rest)[0]) == DecoderInstruction::HeaderAck,
{
    lemma2_to64();
    prefix_int::round_trip(7, 1, instruction.0 as u64, rest);
    prefix_int::flags_round_trip(7, 1);
    lemma_first_byte(7, 1, instruction.0 as u64, rest);
}

/// Reading back a cancellation that was written gives it, and its first byte tells what it
/// is.
pub proof fn stream_cancel_round_trip(instruction: StreamCancel, rest: Seq<u8>)
    ensures
        StreamCancel::decode_spec(instruction.encode_spec() + rest) == (
            Ok::<Option<StreamCancel>, ParseError>(Some(instruction)),
            rest,
        ),
        instruction.encode_spec().len() > 0,
        decoder_instruction((instruction.encode_spec() + rest)[0]) == DecoderInstruction::StreamCancel,
{
    lemma2_to64();
    prefix_int::round_trip(6, 1, instruction.0 as u64, rest);
    prefix_int::flags_round_trip(6, 1);
    lemma_first_byte(6, 1, instruction.0 as u64, rest);
}

/// Reading back an insertion with a name reference that was written gives it, and
/// its first byte tells what it is.
pub proof fn insert_with_name_ref_round_trip(instruction: InsertWithNameRefView, rest: Seq<u8>, limit: usize)
    requires
        encodable(instruction.value, limit),
    ensures
        InsertWithNameRefView::decode_spec(instruction.encode_spec() + rest, limit) == (
            Ok::<Option<InsertWithNameRefView>, ParseError>(Some(instruction)),
            rest,
        ),
        instruction.encode_spec().len() > 0,
        encoder_instruction((instruction.encode_spec() + rest)[0])
            == EncoderInstruction::InsertWithNameRef,
{
    lemma2_to64();
    let flags = if instruction.is_static {
        3u8
    } else {
        2u8
    };
    let head = prefix_int::encode_spec(6, flags, instruction.index as u64);
    let tail = prefix_string::encode_spec(8, 0, instruction.value) + rest;
    assert(instruction.encode_spec() + rest =~= head + tail);
    prefix_int::round_trip(6, flags, instruction.index as u64, tail);
    prefix_int::flags_round_trip(6, flags);
    lemma_first_byte(6, flags, instruction.index as u64, tail);
    prefix_string::round_trip(8, 0, instruction.value, rest, limit);
}

/// Reading back an insertion that was written gives it, and its first byte tells
/// what it is.
pub proof fn insert_without_name_ref_round_trip(instruction: InsertView, rest: Seq<u8>, limit: usize)
    requires
        encodable(instruction.name, limit),
        encodable(instruction.value, limit),
    ensures
        InsertView::decode_spec(instruction.encode_spec() + rest, limit) == (
            Ok::<Option<InsertView>, ParseError>(Some(instruction)),
            rest,
        ),
        instruction.encode_spec().len() > 0,
        encoder_instruction((instruction.encode_spec() + rest)[0])
            == EncoderInstruction::InsertWithoutNameRef,
{
    lemma2_to64();
    let tail = prefix_string::encode_spec(8, 0, instruction.value) + rest;
    assert(instruction.encode_spec() + rest =~= prefix_string::encode_spec(6, 1, instruction.name)
        + tail);
    prefix_string::round_trip(6, 1, instruction.name, tail, limit);
    prefix_string::round_trip(8, 0, instruction.value, rest, limit);
    let encoded = prefix_string::encode::encode_spec(instruction.name);
    lemma_first_byte(5, 3, encoded.len() as u64, encoded + tail);
    assert(prefix_string::encode_spec(6, 1, instruction.name) + tail =~= prefix_int::encode_spec(
        5,
        3,
        encoded.len() as u64,
    ) + (encoded + tail));
}

} // verus!
