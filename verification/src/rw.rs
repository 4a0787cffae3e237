//! Packet reading and writing: the wire-level byte codec.
//!
//! The wire format is little-endian. A packet is a 16-bit id, one padding
//! byte, a 32-bit payload length, and the payload bytes. Strings inside a
//! payload are a marker byte (`0x00` for empty, `0x0b` otherwise) followed by
//! a ULEB128 byte length and the UTF-8 bytes.
use vstd::prelude::*;
use vstd::bytes::{
    spec_u16_to_le_bytes, spec_u16_from_le_bytes, lemma_auto_spec_u16_to_from_le_bytes,
    u16_to_le_bytes, u16_from_le_bytes, spec_u32_to_le_bytes, spec_u32_from_le_bytes,
    lemma_auto_spec_u32_to_from_le_bytes, u32_to_le_bytes, u32_from_le_bytes,
    spec_u64_to_le_bytes, spec_u64_from_le_bytes, lemma_auto_spec_u64_to_from_le_bytes,
    u64_to_le_bytes, u64_from_le_bytes,
};
use vstd::slice::slice_subrange;

verus! {

/// The unsigned number with the same 8-bit two's-complement representation.
pub open spec fn u8_of_i8(x: i8) -> u8 {
    if x >= 0 {
        x as u8
    } else {
        (x + 0x100) as u8
    }
}

/// Inverse of [`u8_of_i8`].
pub open spec fn i8_of_u8(x: u8) -> i8 {
    if x < 0x80 {
        x as i8
    } else {
        (x - 0x100) as i8
    }
}

/// The unsigned number with the same 16-bit two's-complement representation.
pub open spec fn u16_of_i16(x: i16) -> u16 {
    if x >= 0 {
        x as u16
    } else {
        (x + 0x1_0000) as u16
    }
}

/// Inverse of [`u16_of_i16`].
pub open spec fn i16_of_u16(x: u16) -> i16 {
    if x < 0x8000 {
        x as i16
    } else {
        (x - 0x1_0000) as i16
    }
}

/// The unsigned number with the same 32-bit two's-complement representation.
pub open spec fn u32_of_i32(x: i32) -> u32 {
    if x >= 0 {
        x as u32
    } else {
        (x + 0x1_0000_0000) as u32
    }
}

/// Inverse of [`u32_of_i32`].
pub open spec fn i32_of_u32(x: u32) -> i32 {
    if x < 0x8000_0000 {
        x as i32
    } else {
        (x - 0x1_0000_0000) as i32
    }
}

/// The unsigned number with the same 64-bit two's-complement representation.
pub open spec fn u64_of_i64(x: i64) -> u64 {
    if x >= 0 {
        x as u64
    } else {
        (x + 0x1_0000_0000_0000_0000) as u64
    }
}

/// Inverse of [`u64_of_i64`].
pub open spec fn i64_of_u64(x: u64) -> i64 {
    if x < 0x8000_0000_0000_0000 {
        x as i64
    } else {
        (x - 0x1_0000_0000_0000_0000) as i64
    }
}

/// A value that can travel in a packet payload as a fixed number of
/// little-endian bytes.
pub trait PacketVector: Sized {
    /// How many bytes the wire representation occupies.
    spec fn osu_width() -> nat;

    /// The wire bytes of this value.
    spec fn osu_encoding(self) -> Seq<u8>;

    /// The value whose wire bytes are `s` (of length [`Self::osu_width`]).
    spec fn osu_decoding(s: Seq<u8>) -> Self;

    /// Encoding always has the declared width, and decoding inverts it.
    proof fn lemma_osu_encoding_props(self)
        ensures
            self.osu_encoding().len() == Self::osu_width(),
            Self::osu_decoding(self.osu_encoding()) == self,
    ;

    /// The declared width, as a runtime value.
    fn osu_width_exec() -> (w: usize)
        ensures
            w == Self::osu_width(),
    ;

    fn to_osu_vec(&self) -> (r: Vec<u8>)
        ensures
            r@ == self.osu_encoding(),
    ;

    /// Reads one value from the front of `bytes`, returning the number of
    /// bytes consumed alongside it.
    fn from_osu_vec(bytes: Vec<u8>) -> (r: (usize, Self))
        requires
            bytes@.len() >= Self::osu_width(),
        ensures
            r.0 == Self::osu_width(),
            r.1 == Self::osu_decoding(bytes@.take(Self::osu_width() as int)),
    ;
}

impl PacketVector for u8 {
    open spec fn osu_width() -> nat {
        1
    }

    open spec fn osu_encoding(self) -> Seq<u8> {
        seq![self]
    }

    open spec fn osu_decoding(s: Seq<u8>) -> u8 {
        s[0]
    }

    proof fn lemma_osu_encoding_props(self) {
    }

    fn osu_width_exec() -> usize {
        1
    }

    fn to_osu_vec(&self) -> (r: Vec<u8>) {
        let mut v: Vec<u8> = Vec::new();
        v.push(*self);
        v
    }

    fn from_osu_vec(bytes: Vec<u8>) -> (r: (usize, u8)) {
        (1, bytes[0])
    }
}

impl PacketVector for i8 {
    open spec fn osu_width() -> nat {
        1
    }

    open spec fn osu_encoding(self) -> Seq<u8> {
        seq![u8_of_i8(self)]
    }

    open spec fn osu_decoding(s: Seq<u8>) -> i8 {
        i8_of_u8(s[0])
    }

    proof fn lemma_osu_encoding_props(self) {
    }

    fn osu_width_exec() -> usize {
        1
    }

    fn to_osu_vec(&self) -> (r: Vec<u8>) {
        let b: u8 = if *self >= 0 {
            *self as u8
        } else {
            ((*self as i16) + 0x100) as u8
        };
        let mut v: Vec<u8> = Vec::new();
        v.push(b);
        v
    }

    fn from_osu_vec(bytes: Vec<u8>) -> (r: (usize, i8)) {
        let b = bytes[0];
        let x: i8 = if b < 0x80 {
            b as i8
        } else {
            ((b as i16) - 0x100) as i8
        };
        (1, x)
    }
}

impl PacketVector for u16 {
    open spec fn osu_width() -> nat {
        2
    }

    open spec fn osu_encoding(self) -> Seq<u8> {
        spec_u16_to_le_bytes(self)
    }

    open spec fn osu_decoding(s: Seq<u8>) -> u16 {
        spec_u16_from_le_bytes(s)
    }

    proof fn lemma_osu_encoding_props(self) {
        lemma_auto_spec_u16_to_from_le_bytes();
        assert(spec_u16_to_le_bytes(self).len() == 2);
    }

    fn osu_width_exec() -> usize {
        2
    }

    fn to_osu_vec(&self) -> (r: Vec<u8>) {
        u16_to_le_bytes(*self)
    }

    fn from_osu_vec(bytes: Vec<u8>) -> (r: (usize, u16)) {
        let x = u16_from_le_bytes(slice_subrange(bytes.as_slice(), 0, 2));
        assert(bytes@.subrange(0, 2) =~= bytes@.take(2));
        (2, x)
    }
}

impl PacketVector for i16 {
    open spec fn osu_width() -> nat {
        2
    }

    open spec fn osu_encoding(self) -> Seq<u8> {
        spec_u16_to_le_bytes(u16_of_i16(self))
    }

    open spec fn osu_decoding(s: Seq<u8>) -> i16 {
        i16_of_u16(spec_u16_from_le_bytes(s))
    }

    proof fn lemma_osu_encoding_props(self) {
        lemma_auto_spec_u16_to_from_le_bytes();
        assert(spec_u16_to_le_bytes(u16_of_i16(self)).len() == 2);
    }

    fn osu_width_exec() -> usize {
        2
    }

    fn to_osu_vec(&self) -> (r: Vec<u8>) {
        let u: u16 = if *self >= 0 {
            *self as u16
        } else {
            ((*self as i32) + 0x1_0000) as u16
        };
        u16_to_le_bytes(u)
    }

    fn from_osu_vec(bytes: Vec<u8>) -> (r: (usize, i16)) {
        let u = u16_from_le_bytes(slice_subrange(bytes.as_slice(), 0, 2));
        assert(bytes@.subrange(0, 2) =~= bytes@.take(2));
        let x: i16 = if u < 0x8000 {
            u as i16
        } else {
            ((u as i32) - 0x1_0000) as i16
        };
        (2, x)
    }
}

impl PacketVector for u32 {
    open spec fn osu_width() -> nat {
        4
    }

    open spec fn osu_encoding(self) -> Seq<u8> {
        spec_u32_to_le_bytes(self)
    }

    open spec fn osu_decoding(s: Seq<u8>) -> u32 {
        spec_u32_from_le_bytes(s)
    }

    proof fn lemma_osu_encoding_props(self) {
        lemma_auto_spec_u32_to_from_le_bytes();
        assert(spec_u32_to_le_bytes(self).len() == 4);
    }

    fn osu_width_exec() -> usize {
        4
    }

    fn to_osu_vec(&self) -> (r: Vec<u8>) {
        u32_to_le_bytes(*self)
    }

    fn from_osu_vec(bytes: Vec<u8>) -> (r: (usize, u32)) {
        let x = u32_from_le_bytes(slice_subrange(bytes.as_slice(), 0, 4));
        assert(bytes@.subrange(0, 4) =~= bytes@.take(4));
        (4, x)
    }
}

impl PacketVector for i32 {
    open spec fn osu_width() -> nat {
        4
    }

    open spec fn osu_encoding(self) -> Seq<u8> {
        spec_u32_to_le_bytes(u32_of_i32(self))
    }

    open spec fn osu_decoding(s: Seq<u8>) -> i32 {
        i32_of_u32(spec_u32_from_le_bytes(s))
    }

    proof fn lemma_osu_encoding_props(self) {
        lemma_auto_spec_u32_to_from_le_bytes();
        assert(spec_u32_to_le_bytes(u32_of_i32(self)).len() == 4);
    }

    fn osu_width_exec() -> usize {
        4
    }

    fn to_osu_vec(&self) -> (r: Vec<u8>) {
        let u: u32 = if *self >= 0 {
            *self as u32
        } else {
            ((*self as i64) + 0x1_0000_0000) as u32
        };
        u32_to_le_bytes(u)
    }

    fn from_osu_vec(bytes: Vec<u8>) -> (r: (usize, i32)) {
        let u = u32_from_le_bytes(slice_subrange(bytes.as_slice(), 0, 4));
        assert(bytes@.subrange(0, 4) =~= bytes@.take(4));
        let x: i32 = if u < 0x8000_0000 {
            u as i32
        } else {
            ((u as i64) - 0x1_0000_0000) as i32
        };
        (4, x)
    }
}

impl PacketVector for u64 {
    open spec fn osu_width() -> nat {
        8
    }

    open spec fn osu_encoding(self) -> Seq<u8> {
        spec_u64_to_le_bytes(self)
    }

    open spec fn osu_decoding(s: Seq<u8>) -> u64 {
        spec_u64_from_le_bytes(s)
    }

    proof fn lemma_osu_encoding_props(self) {
        lemma_auto_spec_u64_to_from_le_bytes();
        assert(spec_u64_to_le_bytes(self).len() == 8);
    }

    fn osu_width_exec() -> usize {
        8
    }

    fn to_osu_vec(&self) -> (r: Vec<u8>) {
        u64_to_le_bytes(*self)
    }

    fn from_osu_vec(bytes: Vec<u8>) -> (r: (usize, u64)) {
        let x = u64_from_le_bytes(slice_subrange(bytes.as_slice(), 0, 8));
        assert(bytes@.subrange(0, 8) =~= bytes@.take(8));
        (8, x)
    }
}

impl PacketVector for i64 {
    open spec fn osu_width() -> nat {
        8
    }

    open spec fn osu_encoding(self) -> Seq<u8> {
        spec_u64_to_le_bytes(u64_of_i64(self))
    }

    open spec fn osu_decoding(s: Seq<u8>) -> i64 {
        i64_of_u64(spec_u64_from_le_bytes(s))
    }

    proof fn lemma_osu_encoding_props(self) {
        lemma_auto_spec_u64_to_from_le_bytes();
        assert(spec_u64_to_le_bytes(u64_of_i64(self)).len() == 8);
    }

    fn osu_width_exec() -> usize {
        8
    }

    fn to_osu_vec(&self) -> (r: Vec<u8>) {
        let u: u64 = if *self >= 0 {
            *self as u64
        } else {
            ((*self as i128) + 0x1_0000_0000_0000_0000) as u64
        };
        u64_to_le_bytes(u)
    }

    fn from_osu_vec(bytes: Vec<u8>) -> (r: (usize, i64)) {
        let u = u64_from_le_bytes(slice_subrange(bytes.as_slice(), 0, 8));
        assert(bytes@.subrange(0, 8) =~= bytes@.take(8));
        let x: i64 = if u < 0x8000_0000_0000_0000 {
            u as i64
        } else {
            ((u as i128) - 0x1_0000_0000_0000_0000) as i64
        };
        (8, x)
    }
}

/// ULEB128 encoding of a natural number: seven data bits per byte, least
/// significant group first, high bit set on every byte but the last.
pub open spec fn uleb128_spec(n: nat) -> Seq<u8>
    decreases n,
{
    if n < 0x80 {
        seq![n as u8]
    } else {
        seq![(0x80 + (n % 0x80)) as u8] + uleb128_spec(n / 0x80)
    }
}

/// ULEB128 decoding of a prefix of `s`: the decoded value and how many bytes
/// it occupied, or `None` when `s` ends before a terminating byte.
pub open spec fn uleb128_decode_spec(s: Seq<u8>) -> Option<(nat, int)>
    decreases s.len(),
{
    if s.len() == 0 {
        None
    } else if s[0] < 0x80 {
        Some((s[0] as nat, 1))
    } else {
        match uleb128_decode_spec(s.skip(1)) {
            None => None,
            Some((v, k)) => Some((((s[0] - 0x80) as nat + 0x80 * v) as nat, k + 1)),
        }
    }
}

/// The ULEB128 encoding is symmetric: decoding an encoded value, with any
/// bytes following it, yields the value back and consumes exactly its bytes.
pub proof fn lemma_uleb128_round_trip(n: nat, rest: Seq<u8>)
    ensures
        uleb128_decode_spec(uleb128_spec(n) + rest) == Some(
            (n, uleb128_spec(n).len() as int),
        ),
    decreases n,
{
    if n < 0x80 {
        assert((uleb128_spec(n) + rest)[0] == n as u8);
    } else {
        lemma_uleb128_round_trip(n / 0x80, rest);
        assert((uleb128_spec(n) + rest).skip(1) =~= uleb128_spec(n / 0x80) + rest);
        assert((uleb128_spec(n) + rest)[0] == (0x80 + (n % 0x80)) as u8);
    }
}

/// Wire encoding of a string inside a payload: a single `0x00` for the empty
/// string, else `0x0b`, the ULEB128 UTF-8 byte length, and the UTF-8 bytes.
pub open spec fn osu_string_spec(s: Seq<char>) -> Seq<u8> {
    if vstd::utf8::encode_utf8(s).len() == 0 {
        seq![0u8]
    } else {
        seq![0x0bu8] + uleb128_spec(vstd::utf8::encode_utf8(s).len()) + vstd::utf8::encode_utf8(s)
    }
}

/// Wire bytes of a sequence of 32-bit signed integers, one after another.
pub open spec fn i32_seq_bytes(l: Seq<i32>) -> Seq<u8>
    decreases l.len(),
{
    if l.len() == 0 {
        Seq::<u8>::empty()
    } else {
        i32_seq_bytes(l.drop_last()) + spec_u32_to_le_bytes(u32_of_i32(l.last()))
    }
}

/// Wire encoding of an integer list: a 16-bit count, then the elements.
pub open spec fn osu_i32_list_spec(l: Seq<i32>) -> Seq<u8>
    recommends
        l.len() <= u16::MAX,
{
    spec_u16_to_le_bytes(l.len() as u16) + i32_seq_bytes(l)
}

/// The final wire form of a whole packet: little-endian 16-bit id, one zero
/// padding byte, little-endian 32-bit payload length, then the payload.
pub open spec fn packet_spec(id: u16, payload: Seq<u8>) -> Seq<u8>
    recommends
        payload.len() <= u32::MAX,
{
    spec_u16_to_le_bytes(id) + seq![0u8] + spec_u32_to_le_bytes(payload.len() as u32) + payload
}

/// A built packet with payload length `L` is exactly `7 + L` bytes long, and
/// bytes 3 to 6 hold `L` in little-endian order.
pub proof fn lemma_packet_framing(id: u16, payload: Seq<u8>)
    requires
        payload.len() <= u32::MAX,
    ensures
        packet_spec(id, payload).len() == 7 + payload.len(),
        packet_spec(id, payload).subrange(3, 7) == spec_u32_to_le_bytes(payload.len() as u32),
        packet_spec(id, payload).subrange(0, 2) == spec_u16_to_le_bytes(id),
        packet_spec(id, payload).subrange(7, packet_spec(id, payload).len() as int) == payload,
{
    lemma_auto_spec_u16_to_from_le_bytes();
    lemma_auto_spec_u32_to_from_le_bytes();
    assert(spec_u16_to_le_bytes(id).len() == 2);
    assert(spec_u32_to_le_bytes(payload.len() as u32).len() == 4);
    assert(packet_spec(id, payload).subrange(3, 7) =~= spec_u32_to_le_bytes(
        payload.len() as u32,
    ));
    assert(packet_spec(id, payload).subrange(0, 2) =~= spec_u16_to_le_bytes(id));
    assert(packet_spec(id, payload).subrange(7, packet_spec(id, payload).len() as int)
        =~= payload);
}

/// Accumulates the payload of one outgoing packet, tied to one packet id.
pub struct Writer {
    id: u16,
    buffer: Vec<u8>,
}

impl Writer {
    /// The packet id this writer was created for.
    pub closed spec fn id_spec(&self) -> u16 {
        self.id
    }

    /// The payload bytes accumulated so far.
    pub closed spec fn buffer_spec(&self) -> Seq<u8> {
        self.buffer@
    }

    /// Creates a writer for the given packet id, with an empty payload.
    pub fn new(packet_id: u16) -> (w: Writer)
        ensures
            w.id_spec() == packet_id,
            w.buffer_spec() == Seq::<u8>::empty(),
    {
        Writer { id: packet_id, buffer: Vec::new() }
    }

    /// Appends the little-endian bytes of one fixed-width integer.
    pub fn write_int<T: PacketVector>(&mut self, num: &T)
        ensures
            final(self).id_spec() == old(self).id_spec(),
            final(self).buffer_spec() == old(self).buffer_spec() + num.osu_encoding(),
    {
        let mut b = num.to_osu_vec();
        self.buffer.append(&mut b);
    }

    /// Appends the ULEB128 encoding of `num`.
    pub fn write_uleb128(&mut self, num: u32)
        ensures
            final(self).id_spec() == old(self).id_spec(),
            final(self).buffer_spec() == old(self).buffer_spec() + uleb128_spec(num as nat),
    {
        let ghost pre = self.buffer@;
        let mut n = num;
        while n >= 0x80
            invariant
                self.id == old(self).id,
                pre + uleb128_spec(num as nat) == self.buffer@ + uleb128_spec(n as nat),
            decreases n,
        {
            self.buffer.push((0x80 + (n % 0x80)) as u8);
            n = n / 0x80;
        }
        self.buffer.push(n as u8);
        assert(uleb128_spec(n as nat) =~= seq![n as u8]);
        assert(final(self).buffer_spec() =~= pre + uleb128_spec(num as nat));
    }

    /// Appends the wire encoding of a string: `0x00` when empty, else `0x0b`,
    /// the ULEB128 byte length, and the UTF-8 bytes.
    pub fn write_string(&mut self, s: &String)
        requires
            vstd::utf8::encode_utf8(s@).len() <= u32::MAX,
        ensures
            final(self).id_spec() == old(self).id_spec(),
            final(self).buffer_spec() == old(self).buffer_spec() + osu_string_spec(s@),
    {
        let str_len = s.as_str().len();
        if str_len == 0 {
            self.buffer.push(0);
            assert(final(self).buffer_spec() =~= old(self).buffer_spec() + osu_string_spec(s@));
        } else {
            self.buffer.push(0x0b);
            self.write_uleb128(str_len as u32);
            let mut b = s.as_str().as_bytes_vec();
            self.buffer.append(&mut b);
            assert(final(self).buffer_spec() =~= old(self).buffer_spec() + osu_string_spec(s@));
        }
    }

    /// Appends the wire encoding of a list of 32-bit integers: a 16-bit count
    /// followed by the elements.
    pub fn write_i32_list(&mut self, l: Vec<i32>)
        requires
            l@.len() <= u16::MAX,
        ensures
            final(self).id_spec() == old(self).id_spec(),
            final(self).buffer_spec() == old(self).buffer_spec() + osu_i32_list_spec(l@),
    {
        let l_len = l.len() as u16;
        self.write_int(&l_len);
        let ghost pre = self.buffer@;
        let mut i: usize = 0;
        while i < l.len()
            invariant
                self.id == old(self).id,
                i <= l@.len(),
                self.buffer@ == pre + i32_seq_bytes(l@.take(i as int)),
            decreases l@.len() - i,
        {
            let num = l[i];
            self.write_int(&num);
            proof {
                lemma_auto_spec_u32_to_from_le_bytes();
                assert(l@.take(i + 1).drop_last() =~= l@.take(i as int));
                assert(l@.take(i + 1).last() == l@[i as int]);
            }
            i = i + 1;
        }
        assert(l@.take(l@.len() as int) =~= l@);
    }

    /// Produces the final packet bytes: id, padding byte, payload length, and
    /// the payload itself. The payload buffer is drained in the process.
    pub fn build(&mut self) -> (packet: Vec<u8>)
        requires
            old(self).buffer_spec().len() <= u32::MAX,
        ensures
            packet@ == packet_spec(old(self).id_spec(), old(self).buffer_spec()),
            final(self).id_spec() == old(self).id_spec(),
            final(self).buffer_spec() == Seq::<u8>::empty(),
    {
        let mut packet = u16_to_le_bytes(self.id);
        packet.push(0);
        let packet_len = self.buffer.len() as u32;
        let mut len_bytes = u32_to_le_bytes(packet_len);
        packet.append(&mut len_bytes);
        packet.append(&mut self.buffer);
        assert(packet@ =~= packet_spec(old(self).id_spec(), old(self).buffer_spec()));
        packet
    }
}

/// A failure while reading from a packet buffer. Such a failure aborts the
/// dispatch of the request it occurred in, and nothing more.
#[derive(Clone, Copy, PartialEq, Eq, Structural, Debug)]
pub enum CodecError {
    /// A read asked for more bytes than remain in the buffer.
    BufferUnderrun,
    /// A ULEB128 length did not fit in 32 bits.
    LengthOverflow,
}

/// 128 raised to the power `n`: the weight of the `n`-th ULEB128 group.
pub open spec fn pow128(n: nat) -> nat
    decreases n,
{
    if n == 0 {
        1
    } else {
        128 * pow128((n - 1) as nat)
    }
}

/// What reading one wire string from the front of `rem` yields: the string's
/// characters and the bytes consumed, or the failure. A marker byte other
/// than `0x0b` is an empty string; so is a payload that is not valid UTF-8.
pub open spec fn read_string_spec(rem: Seq<u8>) -> Result<(Seq<char>, int), CodecError> {
    if rem.len() == 0 {
        Err(CodecError::BufferUnderrun)
    } else if rem[0] != 0x0b {
        Ok((Seq::<char>::empty(), 1))
    } else {
        match uleb128_decode_spec(rem.skip(1)) {
            None => Err(CodecError::BufferUnderrun),
            Some((v, k)) => if v > u32::MAX {
                Err(CodecError::LengthOverflow)
            } else if rem.len() < 1 + k + v {
                Err(CodecError::BufferUnderrun)
            } else {
                let bytes = rem.subrange(1 + k, 1 + k + v);
                if vstd::utf8::valid_utf8(bytes) {
                    Ok((vstd::utf8::decode_utf8(bytes), 1 + k + v))
                } else {
                    Ok((Seq::<char>::empty(), 1 + k + v))
                }
            },
        }
    }
}

/// The values of `n` integers read back to back from the front of `s`.
pub open spec fn i32_seq_decode(s: Seq<u8>, n: nat) -> Seq<i32>
    decreases n,
{
    if n == 0 {
        Seq::<i32>::empty()
    } else {
        seq![i32_of_u32(spec_u32_from_le_bytes(s.take(4)))] + i32_seq_decode(
            s.skip(4),
            (n - 1) as nat,
        )
    }
}

/// Relies on `String::from_utf8`: it returns the string holding exactly the
/// given bytes when they are valid UTF-8, and refuses them otherwise.
#[verifier::external_body]
pub(crate) fn string_from_utf8(bytes: Vec<u8>) -> (r: Option<String>)
    ensures
        r is Some <==> vstd::utf8::valid_utf8(bytes@),
        r matches Some(s) ==> s@ == vstd::utf8::decode_utf8(bytes@),
{
    String::from_utf8(bytes).ok()
}

/// Consumes a byte buffer left to right, one packet field at a time.
pub struct Reader {
    buf: Vec<u8>,
    pos: usize,
}

impl Reader {
    /// The position never runs past the end of the buffer.
    pub closed spec fn wf(&self) -> bool {
        self.pos <= self.buf@.len()
    }

    /// The bytes not yet consumed.
    pub closed spec fn remaining(&self) -> Seq<u8> {
        self.buf@.skip(self.pos as int)
    }

    pub fn new(packet: Vec<u8>) -> (r: Reader)
        ensures
            r.wf(),
            r.remaining() == packet@,
    {
        let r = Reader { buf: packet, pos: 0 };
        proof {
            assert(r.remaining() =~= r.buf@);
        }
        r
    }

    /// How many bytes remain.
    pub fn remaining_len(&self) -> (n: usize)
        requires
            self.wf(),
        ensures
            n == self.remaining().len(),
    {
        self.buf.len() - self.pos
    }

    /// True when no bytes remain.
    pub fn empty(&self) -> (b: bool)
        requires
            self.wf(),
        ensures
            b == (self.remaining().len() == 0),
    {
        self.pos == self.buf.len()
    }

    /// Discards `am` bytes without interpreting them, or everything that is
    /// left when fewer remain.
    pub fn incr_buffer(&mut self, am: usize)
        requires
            old(self).wf(),
        ensures
            final(self).wf(),
            am <= old(self).remaining().len() ==> final(self).remaining() == old(
                self,
            ).remaining().skip(am as int),
            am > old(self).remaining().len() ==> final(self).remaining() == Seq::<u8>::empty(),
    {
        if am < self.buf.len() - self.pos {
            self.pos = self.pos + am;
            proof {
                assert(self.buf@.skip(self.pos as int) =~= old(self).remaining().skip(am as int));
            }
        } else {
            self.pos = self.buf.len();
            proof {
                assert(self.buf@.skip(self.pos as int) =~= Seq::<u8>::empty());
                if am <= old(self).remaining().len() {
                    assert(old(self).remaining().skip(am as int) =~= Seq::<u8>::empty());
                }
            }
        }
    }

    /// Reads one fixed-width little-endian integer, or fails without moving
    /// when fewer bytes remain than its width.
    pub fn read_int<T: PacketVector>(&mut self) -> (r: Result<T, CodecError>)
        requires
            old(self).wf(),
        ensures
            final(self).wf(),
            old(self).remaining().len() >= T::osu_width() ==> (r matches Ok(v) && v
                == T::osu_decoding(old(self).remaining().take(T::osu_width() as int))
                && final(self).remaining() == old(self).remaining().skip(T::osu_width() as int)),
            old(self).remaining().len() < T::osu_width() ==> (r == Err::<T, CodecError>(
                CodecError::BufferUnderrun,
            ) && *final(self) == *old(self)),
    {
        let w = T::osu_width_exec();
        if self.buf.len() - self.pos < w {
            return Err(CodecError::BufferUnderrun);
        }
        let tail = vstd::slice::slice_to_vec(
            slice_subrange(self.buf.as_slice(), self.pos, self.buf.len()),
        );
        proof {
            assert(tail@ =~= self.remaining());
        }
        let (offs, int_val) = T::from_osu_vec(tail);
        self.pos = self.pos + offs;
        proof {
            assert(final(self).remaining() =~= old(self).remaining().skip(
                T::osu_width() as int,
            ));
        }
        Ok(int_val)
    }

    /// Reads a ULEB128-encoded length. Fails without moving when the buffer
    /// ends before a terminating byte, or when the value needs more than 32
    /// bits.
    /// Reads a ULEB128-encoded length. Fails without moving when the buffer
    /// ends before a terminating byte, or when the value needs more than 32
    /// bits.
    pub fn read_uleb128(&mut self) -> (r: Result<u32, CodecError>)
        requires
            old(self).wf(),
        ensures
            final(self).wf(),
            match uleb128_decode_spec(old(self).remaining()) {
                None => r == Err::<u32, CodecError>(CodecError::BufferUnderrun) && *final(self)
                    == *old(self),
                Some((v, k)) => if v <= u32::MAX {
                    r == Ok::<u32, CodecError>(v as u32) && final(self).remaining() == old(
                        self,
                    ).remaining().skip(k)
                } else {
                    r == Err::<u32, CodecError>(CodecError::LengthOverflow) && *final(self)
                        == *old(self)
                },
            },
    {
        proof {
            lemma_pow128_small();
        }
        let ghost rem0 = self.remaining();
        let mut i: usize = 0;
        let mut acc: u64 = 0;
        let mut mult: u64 = 1;
        let mut big = false;
        let ghost mut gval: nat = 0nat;
        proof {
            assert(rem0.skip(0) =~= rem0);
            assert(pow128(0) == 1);
        }
        loop
            invariant
                self.wf(),
                *self == *old(self),
                rem0 == self.remaining(),
                i <= rem0.len(),
                self.pos + i <= self.buf@.len(),
                uleb128_decode_spec(rem0) == match uleb128_decode_spec(rem0.skip(i as int)) {
                    None => None::<(nat, int)>,
                    Some((v, k)) => Some(((gval + pow128(i as nat) * v) as nat, k + i)),
                },
                acc < pow128(if i < 5 { i as nat } else { 5nat }),
                !big ==> gval == acc,
                big ==> gval > u32::MAX,
                i <= 4 ==> mult == pow128(i as nat),
            decreases rem0.len() - i,
        {
            proof {
                lemma_pow128_small();
                lemma_pow128_increases(if i < 5 { i as nat } else { 5nat }, 5);
            }
            let blen = self.buf.len();
            if self.pos + i == blen {
                proof {
                    assert(rem0.skip(i as int).len() == 0);
                }
                return Err(CodecError::BufferUnderrun);
            }
            let b = self.buf[self.pos + i];
            proof {
                assert(rem0.skip(i as int)[0] == rem0[i as int]);
                assert(rem0[i as int] == self.buf@[self.pos + i]);
            }
            let gbits: u8 = if b < 0x80 {
                b
            } else {
                b - 0x80
            };
            let ghost entry_gval = gval;
            let ghost p = pow128(i as nat);
            if i <= 4 {
                proof {
                    lemma_pow128_increases(i as nat, 4);
                    assert((gbits as u64) * mult <= 127 * 0x1000_0000) by (nonlinear_arith)
                        requires
                            gbits <= 127,
                            mult <= 0x1000_0000,
                    ;
                }
                acc = acc + (gbits as u64) * mult;
                proof {
                    gval = (gval + p * (gbits as nat)) as nat;
                    assert((gbits as u64) * mult == p * (gbits as nat)) by (nonlinear_arith)
                        requires
                            mult == p,
                    ;
                    assert((gbits as u64) * mult <= 127 * p) by (nonlinear_arith)
                        requires
                            gbits <= 127,
                            mult == p,
                            p >= 0,
                    ;
                    assert(acc < pow128((i + 1) as nat)) by {
                        assert(pow128((i + 1) as nat) == 128 * p);
                    }
                }
            } else if gbits > 0 {
                big = true;
                proof {
                    lemma_pow128_increases(5, i as nat);
                    assert(p * (gbits as nat) >= p) by (nonlinear_arith)
                        requires
                            gbits >= 1,
                            p >= 0,
                    ;
                    gval = (gval + p * (gbits as nat)) as nat;
                }
            } else {
                proof {
                    assert(p * (gbits as nat) == 0) by (nonlinear_arith)
                        requires
                            gbits == 0,
                    ;
                }
            }
            proof {
                assert(gval == entry_gval + p * (gbits as nat));
            }
            if b < 0x80 {
                proof {
                    assert(uleb128_decode_spec(rem0.skip(i as int)) == Some((b as nat, 1int)));
                    assert(uleb128_decode_spec(rem0) == Some(
                        ((entry_gval + p * (b as nat)) as nat, 1 + i),
                    ));
                }
                if big || acc > 0xFFFF_FFFFu64 {
                    return Err(CodecError::LengthOverflow);
                }
                self.pos = self.pos + i + 1;
                proof {
                    assert(final(self).remaining() =~= rem0.skip(1 + i));
                }
                return Ok(acc as u32);
            }
            proof {
                let s_i = rem0.skip(i as int);
                let s_i1 = rem0.skip(i + 1);
                assert(s_i.skip(1) =~= s_i1);
                assert(pow128((i + 1) as nat) == 128 * p);
                match uleb128_decode_spec(s_i1) {
                    None => {
                        assert(uleb128_decode_spec(s_i) is None);
                        assert(uleb128_decode_spec(rem0) is None);
                    },
                    Some((v, k)) => {
                        let g = (b - 0x80) as nat;
                        assert(uleb128_decode_spec(s_i) == Some(((g + 0x80 * v) as nat, k + 1)));
                        assert(uleb128_decode_spec(rem0) == Some(
                            ((entry_gval + p * (g + 0x80 * v)) as nat, k + 1 + i),
                        ));
                        assert(entry_gval + p * (g + 0x80 * v) == (entry_gval + p * g) + (128 * p)
                            * v) by (nonlinear_arith);
                        assert(g == gbits as nat);
                    },
                }
            }
            if i < 4 {
                mult = mult * 128;
            }
            i = i + 1;
        }
    }

    /// Reads a packet header: a 16-bit id, one ignored padding byte, and a
    /// 32-bit payload length. Fails without moving when fewer than 7 bytes
    /// remain.
    pub fn read_headers(&mut self) -> (r: Result<(u16, u32), CodecError>)
        requires
            old(self).wf(),
        ensures
            final(self).wf(),
            old(self).remaining().len() >= 7 ==> r == Ok::<(u16, u32), CodecError>(
                (
                    spec_u16_from_le_bytes(old(self).remaining().take(2)),
                    spec_u32_from_le_bytes(old(self).remaining().subrange(3, 7)),
                ),
            ) && final(self).remaining() == old(self).remaining().skip(7),
            old(self).remaining().len() < 7 ==> r == Err::<(u16, u32), CodecError>(
                CodecError::BufferUnderrun,
            ) && *final(self) == *old(self),
    {
        let ghost rem0 = self.remaining();
        if self.buf.len() - self.pos < 7 {
            return Err(CodecError::BufferUnderrun);
        }
        let packet_id: u16 = match self.read_int() {
            Ok(v) => v,
            Err(_) => {
                proof {
                    assert(false);
                }
                return Err(CodecError::BufferUnderrun);
            },
        };
        self.incr_buffer(1);
        proof {
            assert(rem0.skip(2).skip(1) =~= rem0.skip(3));
        }
        let packet_len: u32 = match self.read_int() {
            Ok(v) => v,
            Err(_) => {
                proof {
                    assert(false);
                }
                return Err(CodecError::BufferUnderrun);
            },
        };
        proof {
            assert(rem0.skip(3).take(4) =~= rem0.subrange(3, 7));
            assert(rem0.skip(3).skip(4) =~= rem0.skip(7));
        }
        Ok((packet_id, packet_len))
    }

    /// Reads one wire string. A marker byte other than `0x0b` yields the
    /// empty string at once; a payload that is not valid UTF-8 yields the
    /// empty string rather than failing.
    pub fn read_string(&mut self) -> (r: Result<String, CodecError>)
        requires
            old(self).wf(),
        ensures
            final(self).wf(),
            match read_string_spec(old(self).remaining()) {
                Ok((chars, consumed)) => r matches Ok(out) && out@ == chars
                    && final(self).remaining() == old(self).remaining().skip(consumed),
                Err(e) => r matches Err(e2) && e2 == e,
            },
    {
        let ghost rem0 = self.remaining();
        if self.pos == self.buf.len() {
            return Err(CodecError::BufferUnderrun);
        }
        let marker = self.buf[self.pos];
        proof {
            assert(rem0[0] == marker);
        }
        self.pos = self.pos + 1;
        proof {
            assert(self.remaining() =~= rem0.skip(1));
        }
        if marker != 0x0b {
            return Ok(String::new());
        }
        let len = match self.read_uleb128() {
            Ok(v) => v,
            Err(e) => {
                return Err(e);
            },
        };
        let ghost (v, k) = uleb128_decode_spec(rem0.skip(1)).unwrap();
        proof {
            lemma_uleb128_decode_bounds(rem0.skip(1));
            assert(self.remaining() =~= rem0.skip(1 + k));
        }
        let len_us = len as usize;
        if self.buf.len() - self.pos < len_us {
            proof {
                assert(rem0.len() < 1 + k + v);
            }
            return Err(CodecError::BufferUnderrun);
        }
        let ghost cur = self.remaining();
        let bytes = vstd::slice::slice_to_vec(
            slice_subrange(self.buf.as_slice(), self.pos, self.pos + len_us),
        );
        proof {
            assert(bytes@ =~= cur.take(v as int));
            assert(cur.take(v as int) =~= rem0.subrange(1 + k, 1 + k + v));
        }
        self.pos = self.pos + len_us;
        proof {
            assert(self.remaining() =~= cur.skip(v as int));
            assert(cur.skip(v as int) =~= rem0.skip(1 + k + v));
        }
        match string_from_utf8(bytes) {
            Some(out) => Ok(out),
            None => Ok(String::new()),
        }
    }

    /// Reads a 16-bit count and then that many 32-bit signed integers.
    pub fn read_i32_l(&mut self) -> (r: Result<Vec<i32>, CodecError>)
        requires
            old(self).wf(),
        ensures
            final(self).wf(),
            match i32_list_decode_spec(old(self).remaining()) {
                Some((l, consumed)) => r matches Ok(out) && out@ == l && final(self).remaining()
                    == old(self).remaining().skip(consumed),
                None => r == Err::<Vec<i32>, CodecError>(CodecError::BufferUnderrun),
            },
    {
        let ghost rem0 = self.remaining();
        let l_len: u16 = match self.read_int() {
            Ok(v) => v,
            Err(e) => {
                return Err(CodecError::BufferUnderrun);
            },
        };
        let ghost s2 = rem0.skip(2);
        let ghost n = spec_u16_from_le_bytes(rem0.take(2)) as nat;
        let need = 4 * (l_len as usize);
        if self.buf.len() - self.pos < need {
            return Err(CodecError::BufferUnderrun);
        }
        let mut l: Vec<i32> = Vec::new();
        let mut i: usize = 0;
        while i < l_len as usize
            invariant
                self.wf(),
                i <= n,
                n == l_len,
                l@ == i32_seq_decode(s2, i as nat),
                self.remaining() == s2.skip(4 * i),
                s2.len() >= 4 * n,
            decreases n - i,
        {
            let x: i32 = match self.read_int() {
                Ok(v) => v,
                Err(_) => {
                    proof {
                        assert(false);
                    }
                    return Err(CodecError::BufferUnderrun);
                },
            };
            l.push(x);
            proof {
                lemma_i32_seq_decode_snoc(s2, i as nat);
                assert(s2.skip(4 * i).take(4) =~= s2.subrange(4 * i, 4 * i + 4));
                assert(s2.skip(4 * i).skip(4) =~= s2.skip(4 * (i + 1)));
            }
            i = i + 1;
        }
        proof {
            assert(s2.skip(4 * (n as int)) =~= rem0.skip(2 + 4 * (n as int)));
        }
        Ok(l)
    }
}

/// Decoding a list at the front of `rem`: the count read first fixes how many
/// integers follow; `None` when the buffer is too short for them.
pub open spec fn i32_list_decode_spec(rem: Seq<u8>) -> Option<(Seq<i32>, int)> {
    if rem.len() < 2 {
        None
    } else {
        let n = spec_u16_from_le_bytes(rem.take(2)) as nat;
        if rem.len() < 2 + 4 * (n as int) {
            None
        } else {
            Some((i32_seq_decode(rem.skip(2), n), 2 + 4 * (n as int)))
        }
    }
}

/// Reading one more integer extends the decoded sequence by the next four
/// bytes' value.
proof fn lemma_i32_seq_decode_snoc(s: Seq<u8>, m: nat)
    requires
        s.len() >= 4 * (m + 1),
    ensures
        i32_seq_decode(s, m + 1) == i32_seq_decode(s, m) + seq![
            i32_of_u32(spec_u32_from_le_bytes(s.skip(4 * (m as int)).take(4))),
        ],
    decreases m,
{
    let first = seq![i32_of_u32(spec_u32_from_le_bytes(s.take(4)))];
    if m == 0 {
        assert(s.skip(0) =~= s);
        assert(i32_seq_decode(s.skip(4), 0nat) == Seq::<i32>::empty());
        assert(i32_seq_decode(s, 0nat) == Seq::<i32>::empty());
        assert(i32_seq_decode(s, 1nat) == first + i32_seq_decode(s.skip(4), 0nat));
        assert(i32_seq_decode(s, 1nat) =~= i32_seq_decode(s, 0nat) + seq![
            i32_of_u32(spec_u32_from_le_bytes(s.skip(0).take(4))),
        ]);
    } else {
        lemma_i32_seq_decode_snoc(s.skip(4), (m - 1) as nat);
        assert(s.skip(4).skip(4 * (m - 1)) =~= s.skip(4 * (m as int)));
        assert(i32_seq_decode(s, m + 1) == first + i32_seq_decode(s.skip(4), m));
        assert(i32_seq_decode(s, m) == first + i32_seq_decode(s.skip(4), (m - 1) as nat));
        assert(i32_seq_decode(s, m + 1) =~= i32_seq_decode(s, m) + seq![
            i32_of_u32(spec_u32_from_le_bytes(s.skip(4 * (m as int)).take(4))),
        ]);
    }
}

/// A decoded ULEB128 value always occupies between one byte and the whole
/// remainder of the buffer.
proof fn lemma_uleb128_decode_bounds(s: Seq<u8>)
    ensures
        match uleb128_decode_spec(s) {
            None => true,
            Some((v, k)) => 1 <= k <= s.len(),
        },
    decreases s.len(),
{
    if s.len() == 0 {
    } else if s[0] < 0x80 {
    } else {
        lemma_uleb128_decode_bounds(s.skip(1));
    }
}

/// The UTF-8 encoding of a character sequence is empty exactly when the
/// sequence itself is.
pub proof fn lemma_encode_utf8_empty(s: Seq<char>)
    ensures
        (vstd::utf8::encode_utf8(s).len() == 0) <==> (s.len() == 0),
{
    if s.len() > 0 {
        assert(vstd::utf8::encode_scalar(s[0] as u32).len() >= 1);
    }
}

/// A written string reads back as itself, whatever bytes follow it; writing
/// then reading the empty string touches exactly one byte.
pub proof fn lemma_string_round_trip(s: Seq<char>, rest: Seq<u8>)
    requires
        vstd::utf8::encode_utf8(s).len() <= u32::MAX,
    ensures
        read_string_spec(osu_string_spec(s) + rest) == Ok::<(Seq<char>, int), CodecError>(
            (s, osu_string_spec(s).len() as int),
        ),
        s.len() == 0 ==> osu_string_spec(s).len() == 1,
{
    broadcast use vstd::utf8::encode_utf8_valid_utf8, vstd::utf8::encode_utf8_decode_utf8;

    let bytes = vstd::utf8::encode_utf8(s);
    lemma_encode_utf8_empty(s);
    if bytes.len() == 0 {
        assert((osu_string_spec(s) + rest)[0] == 0u8);
        assert(s =~= Seq::<char>::empty());
    } else {
        let enc = osu_string_spec(s);
        let rem = enc + rest;
        let ul = uleb128_spec(bytes.len());
        assert(rem[0] == 0x0b);
        assert(rem.skip(1) =~= ul + (bytes + rest));
        lemma_uleb128_round_trip(bytes.len(), bytes + rest);
        let k = ul.len() as int;
        let v = bytes.len() as int;
        assert(rem.subrange(1 + k, 1 + k + v) =~= bytes);
        assert(vstd::utf8::valid_utf8(bytes));
        assert(vstd::utf8::decode_utf8(bytes) == s);
    }
}

/// A plain accumulator of already-built packet bytes, for gathering several
/// packets before handing them out at once.
pub struct SimplePacketQueue {
    bytes: Vec<u8>,
}

impl SimplePacketQueue {
    /// The bytes queued so far.
    pub closed spec fn bytes_spec(&self) -> Seq<u8> {
        self.bytes@
    }

    /// Creates an empty queue.
    pub fn new() -> (q: SimplePacketQueue)
        ensures
            q.bytes_spec() == Seq::<u8>::empty(),
    {
        SimplePacketQueue { bytes: Vec::new() }
    }

    /// Appends a vector of bytes to the tail of the queue.
    pub fn queue(&mut self, b: Vec<u8>)
        ensures
            final(self).bytes_spec() == old(self).bytes_spec() + b@,
    {
        let mut taken = b;
        self.bytes.append(&mut taken);
    }

    /// Hands out the queued bytes, consuming the queue.
    pub fn as_bytes(self) -> (r: Vec<u8>)
        ensures
            r@ == self.bytes_spec(),
    {
        self.bytes
    }
}

impl From<Vec<u8>> for SimplePacketQueue {
    fn from(b: Vec<u8>) -> (q: SimplePacketQueue)
        ensures
            q.bytes_spec() == b@,
    {
        SimplePacketQueue { bytes: b }
    }
}

impl vstd::std_specs::convert::FromSpecImpl<Vec<u8>> for SimplePacketQueue {
    open spec fn obeys_from_spec() -> bool {
        true
    }

    closed spec fn from_spec(b: Vec<u8>) -> SimplePacketQueue {
        SimplePacketQueue { bytes: b }
    }
}

/// The first few values of [`pow128`], spelled out.
proof fn lemma_pow128_small()
    ensures
        pow128(0) == 1nat,
        pow128(1) == 128nat,
        pow128(2) == 0x4000nat,
        pow128(3) == 0x20_0000nat,
        pow128(4) == 0x1000_0000nat,
        pow128(5) == 0x8_0000_0000nat,
{
    assert(pow128(0) == 1nat);
    assert(pow128(1) == 128nat);
    assert(pow128(2) == 0x4000nat);
    assert(pow128(3) == 0x20_0000nat);
    assert(pow128(4) == 0x1000_0000nat);
    assert(pow128(5) == 0x8_0000_0000nat);
}

/// `pow128` grows with its exponent.
proof fn lemma_pow128_increases(a: nat, b: nat)
    requires
        a <= b,
    ensures
        pow128(a) <= pow128(b),
    decreases b,
{
    if a < b {
        lemma_pow128_increases(a, (b - 1) as nat);
        assert(pow128(b) == 128 * pow128((b - 1) as nat));
        assert(pow128((b - 1) as nat) <= 128 * pow128((b - 1) as nat)) by (nonlinear_arith)
            requires
                pow128((b - 1) as nat) >= 0,
        ;
    }
}

} // verus!
