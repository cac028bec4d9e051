//! The binary protocol: values as big-endian bytes, with writers and readers that undo each
//! other.

use vstd::prelude::*;
use vstd::string::StringSliceAdditionalSpecFns;
use vstd::utf8::{decode_utf8, valid_utf8};
use crate::bytes_order::be_value;
use crate::ttype::{MessageType, ProtocolError, TType};

verus! {

/// The version that a message of this protocol starts with, in the high half of its first
/// four bytes.
pub const VERSION_1: u32 = 0x8001_0000;

/// The bits of the first four bytes of a message that hold the version.
pub const VERSION_MASK: u32 = 0xffff_0000;

/// 256 to the power of `n`.
pub open spec fn pow256(n: nat) -> nat
    decreases n,
{
    if n == 0 {
        1
    } else {
        256 * pow256((n - 1) as nat)
    }
}

/// The lowest `width` bytes of `value`, most significant byte first.
pub open spec fn be_bytes(value: nat, width: nat) -> Seq<u8>
    decreases width,
{
    if width == 0 {
        Seq::empty()
    } else {
        be_bytes(value / 256, (width - 1) as nat).push((value % 256) as u8)
    }
}

/// The number below `pow256(width)` that stands for `v` in two's complement.
pub open spec fn bits_of(v: int, width: nat) -> nat {
    if v >= 0 {
        v as nat
    } else {
        (v + pow256(width)) as nat
    }
}

/// The number that `bits` stands for in two's complement of `width` bytes.
pub open spec fn signed_of(bits: nat, width: nat) -> int {
    if 2 * bits < pow256(width) {
        bits as int
    } else {
        bits - pow256(width)
    }
}

/// The powers of 256 that the protocol uses.
pub proof fn lemma_pow256()
    ensures
        pow256(0) == 1,
        pow256(1) == 0x100,
        pow256(2) == 0x1_0000,
        pow256(4) == 0x1_0000_0000,
        pow256(8) == 0x1_0000_0000_0000_0000,
{
    reveal_with_fuel(pow256, 9);
}

/// `be_bytes` gives `width` bytes.
pub proof fn lemma_be_bytes_len(value: nat, width: nat)
    ensures
        be_bytes(value, width).len() == width,
    decreases width,
{
    if width > 0 {
        lemma_be_bytes_len(value / 256, (width - 1) as nat);
    }
}

/// The bytes of a number that fits spell that number.
pub proof fn lemma_be_value_of_be_bytes(value: nat, width: nat)
    requires
        value < pow256(width),
    ensures
        be_value(be_bytes(value, width)) == value,
    decreases width,
{
    if width > 0 {
        let front = be_bytes(value / 256, (width - 1) as nat);
        lemma_be_value_of_be_bytes(value / 256, (width - 1) as nat);
        assert(be_bytes(value, width).drop_last() =~= front);
    }
}

/// Bytes spell a number that fits in as many bytes, and the bytes of that number are they.
pub proof fn lemma_be_bytes_of_be_value(bytes: Seq<u8>)
    ensures
        be_value(bytes) < pow256(bytes.len()),
        be_bytes(be_value(bytes), bytes.len()) == bytes,
    decreases bytes.len(),
{
    if bytes.len() > 0 {
        lemma_be_bytes_of_be_value(bytes.drop_last());
        assert(be_bytes(be_value(bytes), bytes.len()) =~= bytes);
    }
}

/// Two's complement loses nothing: a number in the range of `width` bytes comes back from
/// its bits, through their bytes.
pub proof fn lemma_signed_round_trip(v: int, width: nat)
    requires
        -(pow256(width) as int) <= 2 * v < pow256(width),
    ensures
        bits_of(v, width) < pow256(width),
        signed_of(bits_of(v, width), width) == v,
        signed_of(be_value(be_bytes(bits_of(v, width), width)), width) == v,
{
    lemma_be_value_of_be_bytes(bits_of(v, width), width);
}

/// The byte of a truth value.
pub open spec fn encode_bool(v: bool) -> Seq<u8> {
    seq![if v { 1u8 } else { 0u8 }]
}

/// The byte of an 8-bit number.
pub open spec fn encode_byte(v: i8) -> Seq<u8> {
    be_bytes(bits_of(v as int, 1), 1)
}

/// The two bytes of a 16-bit number.
pub open spec fn encode_i16(v: i16) -> Seq<u8> {
    be_bytes(bits_of(v as int, 2), 2)
}

/// The four bytes of a 32-bit number.
pub open spec fn encode_i32(v: i32) -> Seq<u8> {
    be_bytes(bits_of(v as int, 4), 4)
}

/// The eight bytes of a 64-bit number.
pub open spec fn encode_i64(v: i64) -> Seq<u8> {
    be_bytes(bits_of(v as int, 8), 8)
}

/// Bytes with their number in front.
pub open spec fn encode_binary(bytes: Seq<u8>) -> Seq<u8> {
    be_bytes(bytes.len(), 4) + bytes
}

/// The head of a list or a set: the tag of its elements and their number.
pub open spec fn encode_list_begin(elem_type: TType, size: nat) -> Seq<u8> {
    seq![elem_type.spec_tag()] + be_bytes(size, 4)
}

/// The head of a map: the tags of its keys and of its values, and the number of its pairs.
pub open spec fn encode_map_begin(key_type: TType, value_type: TType, size: nat) -> Seq<u8> {
    seq![key_type.spec_tag(), value_type.spec_tag()] + be_bytes(size, 4)
}

/// The head of a message: version and kind, name, and sequence number.
pub open spec fn encode_message_begin(name: Seq<u8>, msg_type: MessageType, seq_id: u32) -> Seq<
    u8,
> {
    be_bytes((VERSION_1 + msg_type.spec_code()) as nat, 4) + encode_binary(name) + be_bytes(
        seq_id as nat,
        4,
    )
}

/// The bits of a signed number of `width` bytes.
fn to_bits(v: i64, width: usize) -> (bits: u64)
    requires
        width == 1 || width == 2 || width == 4 || width == 8,
        -(pow256(width as nat) as int) <= 2 * v < pow256(width as nat),
    ensures
        bits == bits_of(v as int, width as nat),
        bits < pow256(width as nat),
{
    proof {
        lemma_pow256();
    }
    if v >= 0 {
        v as u64
    } else if width == 1 {
        (v + 0x100) as u64
    } else if width == 2 {
        (v + 0x1_0000) as u64
    } else if width == 4 {
        (v + 0x1_0000_0000) as u64
    } else {
        ((v - i64::MIN) as u64) + 0x8000_0000_0000_0000
    }
}

/// The signed number of `width` bytes that `bits` stand for.
fn from_bits(bits: u64, width: usize) -> (v: i64)
    requires
        width == 1 || width == 2 || width == 4 || width == 8,
        bits < pow256(width as nat),
    ensures
        v == signed_of(bits as nat, width as nat),
        -(pow256(width as nat) as int) <= 2 * v < pow256(width as nat),
{
    proof {
        lemma_pow256();
    }
    if width == 1 {
        if bits < 0x80 {
            bits as i64
        } else {
            bits as i64 - 0x100
        }
    } else if width == 2 {
        if bits < 0x8000 {
            bits as i64
        } else {
            bits as i64 - 0x1_0000
        }
    } else if width == 4 {
        if bits < 0x8000_0000 {
            bits as i64
        } else {
            bits as i64 - 0x1_0000_0000
        }
    } else {
        if bits < 0x8000_0000_0000_0000 {
            bits as i64
        } else {
            ((bits - 0x8000_0000_0000_0000) as i64) + i64::MIN
        }
    }
}

/// Calls `String::from_utf8` of std, which accepts exactly the byte strings that are UTF-8
/// and gives the string that they encode.
#[verifier::external_body]
fn string_from_utf8(bytes: Vec<u8>) -> (r: Option<String>)
    ensures
        r is Some <==> valid_utf8(bytes@),
        r matches Some(s) ==> s@ == decode_utf8(bytes@),
{
    match String::from_utf8(bytes) {
        Ok(s) => Some(s),
        Err(_) => None,
    }
}

/// Writes values of the binary protocol into a buffer of bytes.
#[derive(Debug)]
pub struct BinaryProtocolSerializer {
    buffer: Vec<u8>,
}

impl View for BinaryProtocolSerializer {
    type V = Seq<u8>;

    closed spec fn view(&self) -> Seq<u8> {
        self.buffer@
    }
}

impl BinaryProtocolSerializer {
    /// A writer with an empty buffer.
    pub fn new() -> (r: Self)
        ensures
            r@ == Seq::<u8>::empty(),
    {
        BinaryProtocolSerializer { buffer: Vec::new() }
    }

    /// The bytes that were written.
    pub fn finish(self) -> (bytes: Vec<u8>)
        ensures
            bytes@ == self@,
    {
        self.buffer
    }

    /// Appends the lowest `width` bytes of `value`, most significant first.
    fn put(&mut self, value: u64, width: usize)
        requires
            width <= 8,
        ensures
            final(self)@ == old(self)@ + be_bytes(value as nat, width as nat),
    {
        let mut digits: [u8; 8] = [0u8;8];
        let mut rest: u64 = value;
        let mut k: usize = width;
        while k > 0
            invariant
                0 <= k <= width <= 8,
                be_bytes(value as nat, width as nat) == be_bytes(rest as nat, k as nat)
                    + digits@.subrange(k as int, width as int),
            decreases k,
        {
            let ghost before = digits@;
            k -= 1;
            digits[k] = (rest % 256) as u8;
            proof {
                assert(digits@.subrange(k as int, width as int) =~= seq![(rest % 256) as u8]
                    + before.subrange(k + 1, width as int));
                assert(be_bytes(rest as nat, (k + 1) as nat) + before.subrange(
                    k + 1,
                    width as int,
                ) =~= be_bytes((rest / 256) as nat, k as nat) + digits@.subrange(
                    k as int,
                    width as int,
                ));
            }
            rest = rest / 256;
        }
        let ghost start = self.buffer@;
        let mut i: usize = 0;
        while i < width
            invariant
                0 <= i <= width <= 8,
                self.buffer@ == start + digits@.subrange(0, i as int),
            decreases width - i,
        {
            self.buffer.push(digits[i]);
            assert(self.buffer@ =~= start + digits@.subrange(0, i + 1));
            i += 1;
        }
        assert(be_bytes(rest as nat, 0) + digits@.subrange(0, width as int) =~= digits@.subrange(
            0,
            width as int,
        ));
    }

    /// Appends bytes as they are.
    fn put_bytes(&mut self, bytes: &[u8])
        ensures
            final(self)@ == old(self)@ + bytes@,
    {
        let ghost start = self.buffer@;
        let mut i: usize = 0;
        while i < bytes.len()
            invariant
                0 <= i <= bytes@.len(),
                self.buffer@ == start + bytes@.take(i as int),
            decreases bytes@.len() - i,
        {
            self.buffer.push(bytes[i]);
            assert(self.buffer@ =~= start + bytes@.take(i + 1));
            i += 1;
        }
        assert(bytes@.take(i as int) =~= bytes@);
    }

    pub fn write_bool(&mut self, value: bool)
        ensures
            final(self)@ == old(self)@ + encode_bool(value),
    {
        self.buffer.push(if value { 1 } else { 0 });
        assert(self.buffer@ =~= old(self)@ + encode_bool(value));
    }

    pub fn write_byte(&mut self, value: i8)
        ensures
            final(self)@ == old(self)@ + encode_byte(value),
    {
        proof {
            lemma_pow256();
        }
        self.put(to_bits(value as i64, 1), 1);
    }

    pub fn write_i16(&mut self, value: i16)
        ensures
            final(self)@ == old(self)@ + encode_i16(value),
    {
        proof {
            lemma_pow256();
        }
        self.put(to_bits(value as i64, 2), 2);
    }

    pub fn write_i32(&mut self, value: i32)
        ensures
            final(self)@ == old(self)@ + encode_i32(value),
    {
        proof {
            lemma_pow256();
        }
        self.put(to_bits(value as i64, 4), 4);
    }

    pub fn write_i64(&mut self, value: i64)
        ensures
            final(self)@ == old(self)@ + encode_i64(value),
    {
        proof {
            lemma_pow256();
        }
        self.put(to_bits(value, 8), 8);
    }

    /// Writes the four bytes that hold a 32-bit floating-point number.
    pub fn write_float_bits(&mut self, bits: u32)
        ensures
            final(self)@ == old(self)@ + be_bytes(bits as nat, 4),
    {
        self.put(bits as u64, 4);
    }

    /// Writes the eight bytes that hold a 64-bit floating-point number.
    pub fn write_double_bits(&mut self, bits: u64)
        ensures
            final(self)@ == old(self)@ + be_bytes(bits as nat, 8),
    {
        self.put(bits, 8);
    }

    /// Writes bytes with their number in front. The number must fit in 31 bits.
    pub fn write_binary(&mut self, value: &[u8])
        requires
            value@.len() <= i32::MAX,
        ensures
            final(self)@ == old(self)@ + encode_binary(value@),
    {
        self.put(value.len() as u64, 4);
        self.put_bytes(value);
        assert(self@ =~= old(self)@ + encode_binary(value@));
    }

    /// Writes a string as its UTF-8 bytes with their number in front.
    pub fn write_string(&mut self, value: &str)
        requires
            value.spec_bytes().len() <= i32::MAX,
        ensures
            final(self)@ == old(self)@ + encode_binary(value.spec_bytes()),
    {
        self.write_binary(value.as_bytes());
    }

    /// Writes the head of a list of `size` elements. The number must fit in 31 bits.
    pub fn write_list_begin(&mut self, elem_type: TType, size: usize)
        requires
            size <= i32::MAX,
        ensures
            final(self)@ == old(self)@ + encode_list_begin(elem_type, size as nat),
    {
        self.buffer.push(elem_type.tag());
        self.put(size as u64, 4);
        assert(self@ =~= old(self)@ + encode_list_begin(elem_type, size as nat));
    }

    /// Writes the head of a set of `size` elements. The number must fit in 31 bits.
    pub fn write_set_begin(&mut self, elem_type: TType, size: usize)
        requires
            size <= i32::MAX,
        ensures
            final(self)@ == old(self)@ + encode_list_begin(elem_type, size as nat),
    {
        self.write_list_begin(elem_type, size);
    }

    /// Writes the head of a map of `size` pairs. The number must fit in 31 bits.
    pub fn write_map_begin(&mut self, key_type: TType, value_type: TType, size: usize)
        requires
            size <= i32::MAX,
        ensures
            final(self)@ == old(self)@ + encode_map_begin(key_type, value_type, size as nat),
    {
        self.buffer.push(key_type.tag());
        self.buffer.push(value_type.tag());
        self.put(size as u64, 4);
        assert(self@ =~= old(self)@ + encode_map_begin(key_type, value_type, size as nat));
    }

    /// The end of a list takes no bytes.
    pub fn write_list_end(&mut self)
        ensures
            final(self)@ == old(self)@,
    {
    }

    /// The end of a set takes no bytes.
    pub fn write_set_end(&mut self)
        ensures
            final(self)@ == old(self)@,
    {
    }

    /// The end of a map takes no bytes.
    pub fn write_map_end(&mut self)
        ensures
            final(self)@ == old(self)@,
    {
    }

    /// Writes the head of a message. The name must be shorter than 2 GiB.
    pub fn write_message_begin(&mut self, name: &str, msg_type: MessageType, seq_id: u32)
        requires
            name.spec_bytes().len() <= i32::MAX,
        ensures
            final(self)@ == old(self)@ + encode_message_begin(name.spec_bytes(), msg_type, seq_id),
    {
        self.put((VERSION_1 + msg_type.code() as u32) as u64, 4);
        self.write_binary(name.as_bytes());
        self.put(seq_id as u64, 4);
        assert(self@ =~= old(self)@ + encode_message_begin(name.spec_bytes(), msg_type, seq_id));
    }

    /// The end of a message takes no bytes.
    pub fn write_message_end(&mut self)
        ensures
            final(self)@ == old(self)@,
    {
    }
}

/// What reading a number of `width` bytes from the front of `input` gives: the number and
/// the bytes behind it.
pub open spec fn decode_unsigned(input: Seq<u8>, width: nat) -> Result<(nat, Seq<u8>), ProtocolError> {
    if input.len() < width {
        Err(ProtocolError::EOF)
    } else {
        Ok((be_value(input.take(width as int)), input.skip(width as int)))
    }
}

/// What reading a signed number of `width` bytes from the front of `input` gives.
pub open spec fn decode_signed(input: Seq<u8>, width: nat) -> Result<(int, Seq<u8>), ProtocolError> {
    match decode_unsigned(input, width) {
        Ok((bits, rest)) => Ok((signed_of(bits, width), rest)),
        Err(e) => Err(e),
    }
}

/// What reading a truth value from the front of `input` gives.
pub open spec fn decode_bool(input: Seq<u8>) -> Result<(bool, Seq<u8>), ProtocolError> {
    match decode_unsigned(input, 1) {
        Ok((byte, rest)) => if byte == 0 {
            Ok((false, rest))
        } else if byte == 1 {
            Ok((true, rest))
        } else {
            Err(ProtocolError::InvalidValue)
        },
        Err(e) => Err(e),
    }
}

/// What reading a length from the front of `input` gives: a number that fits in 31 bits.
pub open spec fn decode_len(input: Seq<u8>) -> Result<(nat, Seq<u8>), ProtocolError> {
    match decode_unsigned(input, 4) {
        Ok((len, rest)) => if len > i32::MAX {
            Err(ProtocolError::InvalidDataLength)
        } else {
            Ok((len, rest))
        },
        Err(e) => Err(e),
    }
}

/// What reading bytes that stand behind their number gives.
pub open spec fn decode_binary(input: Seq<u8>) -> Result<(Seq<u8>, Seq<u8>), ProtocolError> {
    match decode_len(input) {
        Ok((len, rest)) => if rest.len() < len {
            Err(ProtocolError::EOF)
        } else {
            Ok((rest.take(len as int), rest.skip(len as int)))
        },
        Err(e) => Err(e),
    }
}

/// What reading a type tag gives.
pub open spec fn decode_tag(input: Seq<u8>) -> Result<(TType, Seq<u8>), ProtocolError> {
    match decode_unsigned(input, 1) {
        Ok((byte, rest)) => if exists|t: TType| #[trigger] t.spec_tag() == byte {
            Ok((choose|t: TType| #[trigger] t.spec_tag() == byte, rest))
        } else {
            Err(ProtocolError::InvalidTypeTag)
        },
        Err(e) => Err(e),
    }
}

/// What reading the head of a list or of a set gives: the tag of the elements and their
/// number.
pub open spec fn decode_list_begin(input: Seq<u8>) -> Result<
    ((TType, nat), Seq<u8>),
    ProtocolError,
> {
    match decode_tag(input) {
        Ok((elem_type, rest)) => match decode_len(rest) {
            Ok((size, rest)) => Ok(((elem_type, size), rest)),
            Err(e) => Err(e),
        },
        Err(e) => Err(e),
    }
}

/// What reading the head of a map gives: the tags of keys and values, and the number of
/// pairs.
pub open spec fn decode_map_begin(input: Seq<u8>) -> Result<
    ((TType, TType, nat), Seq<u8>),
    ProtocolError,
> {
    match decode_tag(input) {
        Ok((key_type, rest)) => match decode_tag(rest) {
            Ok((value_type, rest)) => match decode_len(rest) {
                Ok((size, rest)) => Ok(((key_type, value_type, size), rest)),
                Err(e) => Err(e),
            },
            Err(e) => Err(e),
        },
        Err(e) => Err(e),
    }
}

/// What reading the head of a message gives: name, kind and sequence number.
pub open spec fn decode_message_begin(input: Seq<u8>) -> Result<
    ((Seq<u8>, MessageType, nat), Seq<u8>),
    ProtocolError,
> {
    match decode_unsigned(input, 4) {
        Err(e) => Err(e),
        Ok((first, rest)) => if first / 0x1_0000 != 0x8001 {
            Err(ProtocolError::BadVersion)
        } else if !(exists|t: MessageType| #[trigger] t.spec_code() == first % 0x100) {
            Err(ProtocolError::InvalidMessageType)
        } else {
            match decode_binary(rest) {
                Err(e) => Err(e),
                Ok((name, rest)) => match decode_unsigned(rest, 4) {
                    Err(e) => Err(e),
                    Ok((seq_id, rest)) => Ok(
                        (
                            (
                                name,
                                choose|t: MessageType| #[trigger] t.spec_code() == first % 0x100,
                                seq_id,
                            ),
                            rest,
                        ),
                    ),
                },
            }
        },
    }
}

/// Reading undoes writing: a number that fits in `width` bytes is read back from its bytes,
/// and what stood behind them is left.
pub proof fn law_unsigned_round_trip(value: nat, width: nat, rest: Seq<u8>)
    requires
        value < pow256(width),
    ensures
        decode_unsigned(be_bytes(value, width) + rest, width) == Ok::<(nat, Seq<u8>), ProtocolError>(
            (value, rest),
        ),
{
    let input = be_bytes(value, width) + rest;
    lemma_be_bytes_len(value, width);
    lemma_be_value_of_be_bytes(value, width);
    assert(input.take(width as int) =~= be_bytes(value, width));
    assert(input.skip(width as int) =~= rest);
}

/// Reading undoes writing: a signed number in the range of `width` bytes is read back from
/// the bytes of its two's complement.
pub proof fn law_signed_round_trip(v: int, width: nat, rest: Seq<u8>)
    requires
        -(pow256(width) as int) <= 2 * v < pow256(width),
    ensures
        decode_signed(be_bytes(bits_of(v, width), width) + rest, width) == Ok::<
            (int, Seq<u8>),
            ProtocolError,
        >((v, rest)),
{
    lemma_signed_round_trip(v, width);
    law_unsigned_round_trip(bits_of(v, width), width, rest);
}

/// Reading undoes writing: a truth value is read back from its byte.
pub proof fn law_bool_round_trip(v: bool, rest: Seq<u8>)
    ensures
        decode_bool(encode_bool(v) + rest) == Ok::<(bool, Seq<u8>), ProtocolError>((v, rest)),
{
    let byte: nat = if v { 1 } else { 0 };
    lemma_pow256();
    reveal_with_fuel(be_bytes, 2);
    assert(be_bytes(byte, 1) =~= encode_bool(v));
    law_unsigned_round_trip(byte, 1, rest);
}

/// Reading undoes writing: bytes whose number fits in 31 bits are read back from behind
/// that number.
pub proof fn law_binary_round_trip(bytes: Seq<u8>, rest: Seq<u8>)
    requires
        bytes.len() <= i32::MAX,
    ensures
        decode_binary(encode_binary(bytes) + rest) == Ok::<(Seq<u8>, Seq<u8>), ProtocolError>(
            (bytes, rest),
        ),
{
    lemma_pow256();
    let input = encode_binary(bytes) + rest;
    assert(input =~= be_bytes(bytes.len(), 4) + (bytes + rest));
    law_unsigned_round_trip(bytes.len(), 4, bytes + rest);
    assert((bytes + rest).take(bytes.len() as int) =~= bytes);
    assert((bytes + rest).skip(bytes.len() as int) =~= rest);
}

/// Reading undoes writing: a type tag is read back from its byte.
pub proof fn law_tag_round_trip(t: TType, rest: Seq<u8>)
    ensures
        decode_tag(seq![t.spec_tag()] + rest) == Ok::<(TType, Seq<u8>), ProtocolError>((t, rest)),
{
    lemma_pow256();
    reveal_with_fuel(be_bytes, 2);
    assert(be_bytes(t.spec_tag() as nat, 1) =~= seq![t.spec_tag()]);
    law_unsigned_round_trip(t.spec_tag() as nat, 1, rest);
    let chosen = choose|c: TType| #[trigger] c.spec_tag() == t.spec_tag();
    assert(chosen.spec_tag() == t.spec_tag());
    assert(chosen == t);
}

/// Reading undoes writing: the head of a list or of a set is read back from its bytes.
pub proof fn law_list_begin_round_trip(elem_type: TType, size: nat, rest: Seq<u8>)
    requires
        size <= i32::MAX,
    ensures
        decode_list_begin(encode_list_begin(elem_type, size) + rest) == Ok::<
            ((TType, nat), Seq<u8>),
            ProtocolError,
        >(((elem_type, size), rest)),
{
    lemma_pow256();
    let input = encode_list_begin(elem_type, size) + rest;
    assert(input =~= seq![elem_type.spec_tag()] + (be_bytes(size, 4) + rest));
    law_tag_round_trip(elem_type, be_bytes(size, 4) + rest);
    law_unsigned_round_trip(size, 4, rest);
}

/// Reading undoes writing: the head of a map is read back from its bytes.
pub proof fn law_map_begin_round_trip(key_type: TType, value_type: TType, size: nat, rest: Seq<u8>)
    requires
        size <= i32::MAX,
    ensures
        decode_map_begin(encode_map_begin(key_type, value_type, size) + rest) == Ok::<
            ((TType, TType, nat), Seq<u8>),
            ProtocolError,
        >(((key_type, value_type, size), rest)),
{
    lemma_pow256();
    let input = encode_map_begin(key_type, value_type, size) + rest;
    let behind_key = seq![value_type.spec_tag()] + (be_bytes(size, 4) + rest);
    assert(input =~= seq![key_type.spec_tag()] + behind_key);
    law_tag_round_trip(key_type, behind_key);
    law_tag_round_trip(value_type, be_bytes(size, 4) + rest);
    law_unsigned_round_trip(size, 4, rest);
}

/// Reading undoes writing: the head of a message is read back from its bytes.
pub proof fn law_message_begin_round_trip(
    name: Seq<u8>,
    msg_type: MessageType,
    seq_id: u32,
    rest: Seq<u8>,
)
    requires
        name.len() <= i32::MAX,
    ensures
        decode_message_begin(encode_message_begin(name, msg_type, seq_id) + rest) == Ok::<
            ((Seq<u8>, MessageType, nat), Seq<u8>),
            ProtocolError,
        >(((name, msg_type, seq_id as nat), rest)),
{
    lemma_pow256();
    let first = (VERSION_1 + msg_type.spec_code()) as nat;
    let input = encode_message_begin(name, msg_type, seq_id) + rest;
    let behind_name = be_bytes(seq_id as nat, 4) + rest;
    let behind_first = encode_binary(name) + behind_name;
    assert(input =~= be_bytes(first, 4) + behind_first);
    law_unsigned_round_trip(first, 4, behind_first);
    assert(first / 0x1_0000 == 0x8001);
    assert(first % 0x100 == msg_type.spec_code());
    let chosen = choose|c: MessageType| #[trigger] c.spec_code() == first % 0x100;
    assert(chosen.spec_code() == msg_type.spec_code());
    assert(chosen == msg_type);
    law_binary_round_trip(name, behind_name);
    law_unsigned_round_trip(seq_id as nat, 4, rest);
}

/// Reads values of the binary protocol from bytes, front to back. After a read that failed
/// nothing is said of where the reader stands.
#[derive(Debug)]
pub struct BinaryProtocolDeserializer {
    buffer: Vec<u8>,
    position: usize,
}

impl BinaryProtocolDeserializer {
    #[verifier::type_invariant]
    spec fn inv(self) -> bool {
        self.position <= self.buffer@.len()
    }

    /// The bytes that are still to be read.
    pub closed spec fn remaining(&self) -> Seq<u8> {
        self.buffer@.skip(self.position as int)
    }

    /// A reader at the start of `bytes`.
    pub fn new(bytes: Vec<u8>) -> (r: Self)
        ensures
            r.remaining() == bytes@,
    {
        assert(bytes@.skip(0) =~= bytes@);
        BinaryProtocolDeserializer { buffer: bytes, position: 0 }
    }

    /// How many bytes are still to be read.
    pub fn remaining_len(&self) -> (n: usize)
        ensures
            n == self.remaining().len(),
    {
        proof {
            use_type_invariant(self);
        }
        self.buffer.len() - self.position
    }

    /// Reads `width` bytes as one number, most significant byte first.
    fn take(&mut self, width: usize) -> (r: Result<u64, ProtocolError>)
        requires
            width <= 8,
        ensures
            match r {
                Ok(value) => decode_unsigned(old(self).remaining(), width as nat) == Ok::<
                    (nat, Seq<u8>),
                    ProtocolError,
                >((value as nat, final(self).remaining())) && value < pow256(width as nat),
                Err(e) => decode_unsigned(old(self).remaining(), width as nat) == Err::<
                    (nat, Seq<u8>),
                    ProtocolError,
                >(e) && final(self).remaining() == old(self).remaining(),
            },
    {
        proof {
            use_type_invariant(&*self);
        }
        if self.buffer.len() - self.position < width {
            return Err(ProtocolError::EOF);
        }
        let ghost bytes = self.remaining().take(width as int);
        let start = self.position;
        let mut value: u64 = 0;
        let mut i: usize = 0;
        while i < width
            invariant
                0 <= i <= width <= 8,
                start + width <= self.buffer@.len() <= usize::MAX,
                start == self.position,
                bytes == self.buffer@.skip(start as int).take(width as int),
                value == be_value(bytes.take(i as int)),
                value < pow256(i as nat),
            decreases width - i,
        {
            proof {
                lemma_pow256();
                assert(bytes.take(i + 1).drop_last() =~= bytes.take(i as int));
                assert(bytes.take(i + 1).last() == self.buffer@[start + i]);
                assert(pow256(8) == 256 * pow256(7)) by {
                    reveal_with_fuel(pow256, 2);
                }
                assert(pow256(i as nat) <= pow256(7)) by {
                    reveal_with_fuel(pow256, 9);
                }
                assert(pow256((i + 1) as nat) == 256 * pow256(i as nat));
            }
            value = value * 256 + self.buffer[start + i] as u64;
            i += 1;
        }
        assert(bytes.take(width as int) =~= bytes);
        self.position = start + width;
        assert(self.remaining() =~= old(self).remaining().skip(width as int));
        Ok(value)
    }

    /// Reads a signed number of `width` bytes.
    fn take_signed(&mut self, width: usize) -> (r: Result<i64, ProtocolError>)
        requires
            width == 1 || width == 2 || width == 4 || width == 8,
        ensures
            match r {
                Ok(value) => decode_signed(old(self).remaining(), width as nat) == Ok::<
                    (int, Seq<u8>),
                    ProtocolError,
                >((value as int, final(self).remaining())) && -(pow256(width as nat) as int) <= 2
                    * value < pow256(width as nat),
                Err(e) => decode_signed(old(self).remaining(), width as nat) == Err::<
                    (int, Seq<u8>),
                    ProtocolError,
                >(e),
            },
    {
        match self.take(width) {
            Err(e) => Err(e),
            Ok(bits) => Ok(from_bits(bits, width)),
        }
    }

    pub fn read_bool(&mut self) -> (r: Result<bool, ProtocolError>)
        ensures
            match r {
                Ok(value) => decode_bool(old(self).remaining()) == Ok::<
                    (bool, Seq<u8>),
                    ProtocolError,
                >((value, final(self).remaining())),
                Err(e) => decode_bool(old(self).remaining()) == Err::<
                    (bool, Seq<u8>),
                    ProtocolError,
                >(e),
            },
    {
        match self.take(1) {
            Err(e) => Err(e),
            Ok(byte) => {
                if byte == 0 {
                    Ok(false)
                } else if byte == 1 {
                    Ok(true)
                } else {
                    Err(ProtocolError::InvalidValue)
                }
            },
        }
    }

    pub fn read_byte(&mut self) -> (r: Result<i8, ProtocolError>)
        ensures
            match r {
                Ok(value) => decode_signed(old(self).remaining(), 1) == Ok::<
                    (int, Seq<u8>),
                    ProtocolError,
                >((value as int, final(self).remaining())),
                Err(e) => decode_signed(old(self).remaining(), 1) == Err::<
                    (int, Seq<u8>),
                    ProtocolError,
                >(e),
            },
    {
        proof {
            lemma_pow256();
        }
        match self.take_signed(1) {
            Err(e) => Err(e),
            Ok(value) => Ok(value as i8),
        }
    }

    pub fn read_i16(&mut self) -> (r: Result<i16, ProtocolError>)
        ensures
            match r {
                Ok(value) => decode_signed(old(self).remaining(), 2) == Ok::<
                    (int, Seq<u8>),
                    ProtocolError,
                >((value as int, final(self).remaining())),
                Err(e) => decode_signed(old(self).remaining(), 2) == Err::<
                    (int, Seq<u8>),
                    ProtocolError,
                >(e),
            },
    {
        proof {
            lemma_pow256();
        }
        match self.take_signed(2) {
            Err(e) => Err(e),
            Ok(value) => Ok(value as i16),
        }
    }

    pub fn read_i32(&mut self) -> (r: Result<i32, ProtocolError>)
        ensures
            match r {
                Ok(value) => decode_signed(old(self).remaining(), 4) == Ok::<
                    (int, Seq<u8>),
                    ProtocolError,
                >((value as int, final(self).remaining())),
                Err(e) => decode_signed(old(self).remaining(), 4) == Err::<
                    (int, Seq<u8>),
                    ProtocolError,
                >(e),
            },
    {
        proof {
            lemma_pow256();
        }
        match self.take_signed(4) {
            Err(e) => Err(e),
            Ok(value) => Ok(value as i32),
        }
    }

    pub fn read_i64(&mut self) -> (r: Result<i64, ProtocolError>)
        ensures
            match r {
                Ok(value) => decode_signed(old(self).remaining(), 8) == Ok::<
                    (int, Seq<u8>),
                    ProtocolError,
                >((value as int, final(self).remaining())),
                Err(e) => decode_signed(old(self).remaining(), 8) == Err::<
                    (int, Seq<u8>),
                    ProtocolError,
                >(e),
            },
    {
        self.take_signed(8)
    }

    /// Reads the four bytes that hold a 32-bit floating-point number.
    pub fn read_float_bits(&mut self) -> (r: Result<u32, ProtocolError>)
        ensures
            match r {
                Ok(bits) => decode_unsigned(old(self).remaining(), 4) == Ok::<
                    (nat, Seq<u8>),
                    ProtocolError,
                >((bits as nat, final(self).remaining())),
                Err(e) => decode_unsigned(old(self).remaining(), 4) == Err::<
                    (nat, Seq<u8>),
                    ProtocolError,
                >(e),
            },
    {
        proof {
            lemma_pow256();
        }
        match self.take(4) {
            Err(e) => Err(e),
            Ok(bits) => Ok(bits as u32),
        }
    }

    /// Reads the eight bytes that hold a 64-bit floating-point number.
    pub fn read_double_bits(&mut self) -> (r: Result<u64, ProtocolError>)
        ensures
            match r {
                Ok(bits) => decode_unsigned(old(self).remaining(), 8) == Ok::<
                    (nat, Seq<u8>),
                    ProtocolError,
                >((bits as nat, final(self).remaining())),
                Err(e) => decode_unsigned(old(self).remaining(), 8) == Err::<
                    (nat, Seq<u8>),
                    ProtocolError,
                >(e),
            },
    {
        self.take(8)
    }

    /// Reads a length: four bytes that hold a number that fits in 31 bits.
    fn take_len(&mut self) -> (r: Result<usize, ProtocolError>)
        ensures
            match r {
                Ok(len) => decode_len(old(self).remaining()) == Ok::<(nat, Seq<u8>), ProtocolError>(
                    (len as nat, final(self).remaining()),
                ) && len <= i32::MAX,
                Err(e) => decode_len(old(self).remaining()) == Err::<(nat, Seq<u8>), ProtocolError>(
                    e,
                ),
            },
    {
        proof {
            lemma_pow256();
        }
        match self.take(4) {
            Err(e) => Err(e),
            Ok(bits) => {
                if bits > 0x7fff_ffff {
                    Err(ProtocolError::InvalidDataLength)
                } else {
                    Ok(bits as usize)
                }
            },
        }
    }

    /// Reads a type tag.
    fn take_tag(&mut self) -> (r: Result<TType, ProtocolError>)
        ensures
            match r {
                Ok(t) => decode_tag(old(self).remaining()) == Ok::<(TType, Seq<u8>), ProtocolError>(
                    (t, final(self).remaining()),
                ),
                Err(e) => decode_tag(old(self).remaining()) == Err::<(TType, Seq<u8>), ProtocolError>(
                    e,
                ),
            },
    {
        proof {
            lemma_pow256();
        }
        match self.take(1) {
            Err(e) => Err(e),
            Ok(byte) => match TType::from_tag(byte as u8) {
                Ok(t) => {
                    proof {
                        let chosen = choose|c: TType| #[trigger] c.spec_tag() == byte;
                        assert(chosen.spec_tag() == t.spec_tag());
                        assert(chosen == t);
                    }
                    Ok(t)
                },
                Err(e) => Err(e),
            },
        }
    }

    /// Reads bytes that stand behind their number.
    pub fn read_binary(&mut self) -> (r: Result<Vec<u8>, ProtocolError>)
        ensures
            match r {
                Ok(bytes) => decode_binary(old(self).remaining()) == Ok::<
                    (Seq<u8>, Seq<u8>),
                    ProtocolError,
                >((bytes@, final(self).remaining())),
                Err(e) => decode_binary(old(self).remaining()) == Err::<
                    (Seq<u8>, Seq<u8>),
                    ProtocolError,
                >(e),
            },
    {
        let len = match self.take_len() {
            Err(e) => {
                return Err(e);
            },
            Ok(len) => len,
        };
        proof {
            use_type_invariant(&*self);
        }
        if self.buffer.len() - self.position < len {
            return Err(ProtocolError::EOF);
        }
        let ghost rest = self.remaining();
        let start = self.position;
        let mut bytes: Vec<u8> = Vec::with_capacity(len);
        let mut i: usize = 0;
        while i < len
            invariant
                0 <= i <= len,
                start == self.position,
                start + len <= self.buffer@.len() <= usize::MAX,
                bytes@ == self.buffer@.subrange(start as int, start + i),
            decreases len - i,
        {
            bytes.push(self.buffer[start + i]);
            assert(bytes@ =~= self.buffer@.subrange(start as int, start + i + 1));
            i += 1;
        }
        self.position = start + len;
        assert(bytes@ =~= rest.take(len as int));
        assert(self.remaining() =~= rest.skip(len as int));
        Ok(bytes)
    }

    /// Reads a string: UTF-8 bytes that stand behind their number.
    pub fn read_string(&mut self) -> (r: Result<String, ProtocolError>)
        ensures
            match r {
                Ok(s) => decode_binary(old(self).remaining()) matches Ok((bytes, rest))
                    && valid_utf8(bytes) && s@ == decode_utf8(bytes) && rest == final(self).remaining(),
                Err(ProtocolError::InvalidUtf8) => decode_binary(old(self).remaining()) matches Ok(
                    (bytes, _),
                ) && !valid_utf8(bytes),
                Err(e) => decode_binary(old(self).remaining()) == Err::<
                    (Seq<u8>, Seq<u8>),
                    ProtocolError,
                >(e),
            },
    {
        match self.read_binary() {
            Err(e) => Err(e),
            Ok(bytes) => match string_from_utf8(bytes) {
                Some(s) => Ok(s),
                None => Err(ProtocolError::InvalidUtf8),
            },
        }
    }

    /// Reads the head of a list: the tag of its elements and their number.
    pub fn read_list_begin_unchecked(&mut self) -> (r: Result<(TType, Option<usize>), ProtocolError>)
        ensures
            match r {
                Ok((elem_type, size)) => size matches Some(n) && decode_list_begin(
                    old(self).remaining(),
                ) == Ok::<((TType, nat), Seq<u8>), ProtocolError>(
                    ((elem_type, n as nat), final(self).remaining()),
                ),
                Err(e) => decode_list_begin(old(self).remaining()) == Err::<
                    ((TType, nat), Seq<u8>),
                    ProtocolError,
                >(e),
            },
    {
        let elem_type = match self.take_tag() {
            Err(e) => {
                return Err(e);
            },
            Ok(t) => t,
        };
        match self.take_len() {
            Err(e) => Err(e),
            Ok(size) => Ok((elem_type, Some(size))),
        }
    }

    /// Reads the head of a set: the tag of its elements and their number.
    pub fn read_set_begin_unchecked(&mut self) -> (r: Result<(TType, Option<usize>), ProtocolError>)
        ensures
            match r {
                Ok((elem_type, size)) => size matches Some(n) && decode_list_begin(
                    old(self).remaining(),
                ) == Ok::<((TType, nat), Seq<u8>), ProtocolError>(
                    ((elem_type, n as nat), final(self).remaining()),
                ),
                Err(e) => decode_list_begin(old(self).remaining()) == Err::<
                    ((TType, nat), Seq<u8>),
                    ProtocolError,
                >(e),
            },
    {
        self.read_list_begin_unchecked()
    }

    /// Reads the head of a map: the tags of its keys and values, and the number of its pairs.
    pub fn read_map_begin_unchecked(&mut self) -> (r: Result<
        (TType, TType, Option<usize>),
        ProtocolError,
    >)
        ensures
            match r {
                Ok((key_type, value_type, size)) => size matches Some(n) && decode_map_begin(
                    old(self).remaining(),
                ) == Ok::<((TType, TType, nat), Seq<u8>), ProtocolError>(
                    ((key_type, value_type, n as nat), final(self).remaining()),
                ),
                Err(e) => decode_map_begin(old(self).remaining()) == Err::<
                    ((TType, TType, nat), Seq<u8>),
                    ProtocolError,
                >(e),
            },
    {
        let key_type = match self.take_tag() {
            Err(e) => {
                return Err(e);
            },
            Ok(t) => t,
        };
        let value_type = match self.take_tag() {
            Err(e) => {
                return Err(e);
            },
            Ok(t) => t,
        };
        match self.take_len() {
            Err(e) => Err(e),
            Ok(size) => Ok((key_type, value_type, Some(size))),
        }
    }

    /// The end of a list takes no bytes.
    pub fn read_list_end(&mut self) -> (r: Result<(), ProtocolError>)
        ensures
            r is Ok,
            final(self).remaining() == old(self).remaining(),
    {
        Ok(())
    }

    /// The end of a set takes no bytes.
    pub fn read_set_end(&mut self) -> (r: Result<(), ProtocolError>)
        ensures
            r is Ok,
            final(self).remaining() == old(self).remaining(),
    {
        Ok(())
    }

    /// The end of a map takes no bytes.
    pub fn read_map_end(&mut self) -> (r: Result<(), ProtocolError>)
        ensures
            r is Ok,
            final(self).remaining() == old(self).remaining(),
    {
        Ok(())
    }

    /// Reads the head of a message: its name, its kind and its sequence number.
    pub fn read_message_begin(&mut self) -> (r: Result<(Vec<u8>, MessageType, u32), ProtocolError>)
        ensures
            match r {
                Ok((name, msg_type, seq_id)) => decode_message_begin(old(self).remaining()) == Ok::<
                    ((Seq<u8>, MessageType, nat), Seq<u8>),
                    ProtocolError,
                >(((name@, msg_type, seq_id as nat), final(self).remaining())),
                Err(e) => decode_message_begin(old(self).remaining()) == Err::<
                    ((Seq<u8>, MessageType, nat), Seq<u8>),
                    ProtocolError,
                >(e),
            },
    {
        proof {
            lemma_pow256();
        }
        let first = match self.take(4) {
            Err(e) => {
                return Err(e);
            },
            Ok(first) => first,
        };
        if first / 0x1_0000 != 0x8001 {
            return Err(ProtocolError::BadVersion);
        }
        let msg_type = match MessageType::from_code((first % 0x100) as i32) {
            Err(e) => {
                return Err(e);
            },
            Ok(t) => t,
        };
        proof {
            let chosen = choose|c: MessageType| #[trigger] c.spec_code() == first % 0x100;
            assert(chosen.spec_code() == msg_type.spec_code());
            assert(chosen == msg_type);
        }
        let name = match self.read_binary() {
            Err(e) => {
                return Err(e);
            },
            Ok(name) => name,
        };
        match self.take(4) {
            Err(e) => Err(e),
            Ok(seq_id) => Ok((name, msg_type, seq_id as u32)),
        }
    }

    /// The end of a message takes no bytes.
    pub fn read_message_end(&mut self) -> (r: Result<(), ProtocolError>)
        ensures
            r is Ok,
            final(self).remaining() == old(self).remaining(),
    {
        Ok(())
    }
}

} // verus!
