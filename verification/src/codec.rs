//! The wire codec: values to bytes and back.
//!
//! The format is structural. Integers are fixed-width and big-endian; a
//! string, a sequence or a mapping is a 64-bit count followed by its
//! content; a record is its fields in declaration order. Nothing in the
//! bytes names a type, so both ends must agree on the shape.

use vstd::prelude::*;
use vstd::slice::*;
use vstd::utf8::*;

verus! {

/// Why a decode produced no value.
#[derive(Clone, Copy, Debug, PartialEq, Eq, Structural)]
pub enum CodecError {
    /// The buffer ends before the value does. More bytes may complete it.
    Incomplete,
    /// The bytes present cannot begin a value of the expected shape.
    Invalid,
}

/// A value shape the codec carries.
///
/// `wire` and `parse` are the format itself, stated over the value's view,
/// and `write` and `read` are held to them. `lemma_round_trip` and
/// `lemma_parse_exact` say that the two are mutually inverse;
/// `lemma_invalid_stays` says that a reader on a stream may trust the
/// difference between incomplete and invalid.
pub trait Wire: Sized + DeepView {
    /// Whether the format can carry `v`: every length in it fits the 64-bit
    /// count that precedes it. Every value in memory does.
    spec fn fits(v: Self::V) -> bool;

    /// The bytes that stand for `v`.
    spec fn wire(v: Self::V) -> Seq<u8>;

    /// The value at the front of `bytes` with the number of bytes it takes,
    /// or the reason there is none.
    spec fn parse(bytes: Seq<u8>) -> Result<(Self::V, nat), CodecError>;

    /// Decoding what was encoded gives the value back and stops exactly at
    /// its end, whatever follows it in the buffer.
    proof fn lemma_round_trip(v: Self::V, rest: Seq<u8>)
        requires
            Self::fits(v),
        ensures
            Self::parse(Self::wire(v) + rest) == Ok::<(Self::V, nat), CodecError>(
                (v, Self::wire(v).len()),
            ),
    ;

    /// A decode never claims more bytes than it was given, and what it
    /// yields can be encoded again.
    proof fn lemma_parse_within(bytes: Seq<u8>)
        ensures
            Self::parse(bytes) matches Ok(p) ==> p.1 <= bytes.len() && Self::fits(p.0),
    ;

    /// Encoding what was decoded gives back exactly the bytes that were
    /// read: a value has one encoding and no other.
    proof fn lemma_parse_exact(bytes: Seq<u8>)
        ensures
            Self::parse(bytes) matches Ok(p) ==> Self::wire(p.0) == bytes.take(p.1 as int),
    ;

    /// Bytes that are invalid stay invalid whatever arrives after them:
    /// there is nothing to wait for.
    proof fn lemma_invalid_stays(bytes: Seq<u8>, more: Seq<u8>)
        ensures
            Self::parse(bytes) == Err::<(Self::V, nat), CodecError>(CodecError::Invalid)
                ==> Self::parse(bytes + more) == Err::<(Self::V, nat), CodecError>(
                CodecError::Invalid,
            ),
    ;

    /// Appends the encoding of `self` to `out`.
    fn write(&self, out: &mut Vec<u8>)
        ensures
            Self::fits(self.deep_view()),
            final(out)@ == old(out)@ + Self::wire(self.deep_view()),
    ;

    /// Decodes one value from `bytes` starting at `at`; on success also
    /// returns the position just past it.
    fn read(bytes: &[u8], at: usize) -> (r: Result<(Self, usize), CodecError>)
        requires
            at <= bytes@.len(),
        ensures
            match Self::parse(bytes@.skip(at as int)) {
                Ok(p) => r matches Ok(q) && q.0.deep_view() == p.0 && q.1 == at + p.1,
                Err(e) => r matches Err(x) && x == e,
            },
    ;
}

pub open spec fn u8_parse(bytes: Seq<u8>) -> Result<(u8, nat), CodecError> {
    if bytes.len() < 1 {
        Err(CodecError::Incomplete)
    } else {
        Ok((bytes[0], 1nat))
    }
}

impl Wire for u8 {
    open spec fn fits(v: u8) -> bool {
        true
    }

    open spec fn wire(v: u8) -> Seq<u8> {
        seq![v]
    }

    open spec fn parse(bytes: Seq<u8>) -> Result<(u8, nat), CodecError> {
        u8_parse(bytes)
    }

    proof fn lemma_round_trip(v: u8, rest: Seq<u8>) {
    }

    proof fn lemma_parse_within(bytes: Seq<u8>) {
    }

    proof fn lemma_parse_exact(bytes: Seq<u8>) {
        if bytes.len() >= 1 {
            assert(seq![bytes[0]] =~= bytes.take(1));
        }
    }

    proof fn lemma_invalid_stays(bytes: Seq<u8>, more: Seq<u8>) {
    }

    fn write(&self, out: &mut Vec<u8>) {
        out.push(*self);
    }

    fn read(bytes: &[u8], at: usize) -> (r: Result<(u8, usize), CodecError>) {
        if bytes.len() - at < 1 {
            Err(CodecError::Incomplete)
        } else {
            Ok((bytes[at], at + 1))
        }
    }
}

/// The big-endian bytes of a 32-bit integer.
pub open spec fn u32_wire(v: u32) -> Seq<u8> {
    seq![
        (v / 0x100_0000) as u8,
        ((v / 0x1_0000) % 256) as u8,
        ((v / 0x100) % 256) as u8,
        (v % 256) as u8,
    ]
}

/// The 32-bit integer whose big-endian bytes are the first four of `b`.
pub open spec fn u32_value(b: Seq<u8>) -> u32 {
    (b[0] * 0x100_0000 + b[1] * 0x1_0000 + b[2] * 0x100 + b[3]) as u32
}

pub open spec fn u32_parse(bytes: Seq<u8>) -> Result<(u32, nat), CodecError> {
    if bytes.len() < 4 {
        Err(CodecError::Incomplete)
    } else {
        Ok((u32_value(bytes), 4nat))
    }
}

impl Wire for u32 {
    open spec fn fits(v: u32) -> bool {
        true
    }

    open spec fn wire(v: u32) -> Seq<u8> {
        u32_wire(v)
    }

    open spec fn parse(bytes: Seq<u8>) -> Result<(u32, nat), CodecError> {
        u32_parse(bytes)
    }

    proof fn lemma_round_trip(v: u32, rest: Seq<u8>) {
    }

    proof fn lemma_parse_within(bytes: Seq<u8>) {
    }

    proof fn lemma_parse_exact(bytes: Seq<u8>) {
        if bytes.len() >= 4 {
            lemma_u32_exact(bytes);
        }
    }

    proof fn lemma_invalid_stays(bytes: Seq<u8>, more: Seq<u8>) {
    }

    fn write(&self, out: &mut Vec<u8>) {
        let v: u32 = *self;
        out.push((v / 0x100_0000) as u8);
        out.push(((v / 0x1_0000) % 256) as u8);
        out.push(((v / 0x100) % 256) as u8);
        out.push((v % 256) as u8);
        assert(out@ == old(out)@ + u32_wire(v));
    }

    fn read(bytes: &[u8], at: usize) -> (r: Result<(u32, usize), CodecError>) {
        if bytes.len() - at < 4 {
            Err(CodecError::Incomplete)
        } else {
            let b0: u32 = bytes[at] as u32;
            let b1: u32 = bytes[at + 1] as u32;
            let b2: u32 = bytes[at + 2] as u32;
            let b3: u32 = bytes[at + 3] as u32;
            Ok((b0 * 0x100_0000 + b1 * 0x1_0000 + b2 * 0x100 + b3, at + 4))
        }
    }
}


/// The big-endian bytes of a 16-bit integer.
pub open spec fn u16_wire(v: u16) -> Seq<u8> {
    seq![(v / 0x100) as u8, (v % 256) as u8]
}

/// The 16-bit integer whose big-endian bytes are the first two of `b`.
pub open spec fn u16_value(b: Seq<u8>) -> u16 {
    (b[0] * 0x100 + b[1]) as u16
}

pub open spec fn u16_parse(bytes: Seq<u8>) -> Result<(u16, nat), CodecError> {
    if bytes.len() < 2 {
        Err(CodecError::Incomplete)
    } else {
        Ok((u16_value(bytes), 2nat))
    }
}

impl Wire for u16 {
    open spec fn fits(v: u16) -> bool {
        true
    }

    open spec fn wire(v: u16) -> Seq<u8> {
        u16_wire(v)
    }

    open spec fn parse(bytes: Seq<u8>) -> Result<(u16, nat), CodecError> {
        u16_parse(bytes)
    }

    proof fn lemma_round_trip(v: u16, rest: Seq<u8>) {
    }

    proof fn lemma_parse_within(bytes: Seq<u8>) {
    }

    proof fn lemma_parse_exact(bytes: Seq<u8>) {
        if bytes.len() >= 2 {
            let v = u16_value(bytes);
            assert(v == bytes[0] * 0x100 + bytes[1]);
            assert(u16_wire(v) =~= bytes.take(2));
        }
    }

    proof fn lemma_invalid_stays(bytes: Seq<u8>, more: Seq<u8>) {
    }

    fn write(&self, out: &mut Vec<u8>) {
        let v: u16 = *self;
        out.push((v / 0x100) as u8);
        out.push((v % 256) as u8);
        assert(out@ == old(out)@ + u16_wire(v));
    }

    fn read(bytes: &[u8], at: usize) -> (r: Result<(u16, usize), CodecError>) {
        if bytes.len() - at < 2 {
            Err(CodecError::Incomplete)
        } else {
            let b0: u16 = bytes[at] as u16;
            let b1: u16 = bytes[at + 1] as u16;
            Ok((b0 * 0x100 + b1, at + 2))
        }
    }
}

/// The big-endian bytes of a 64-bit integer: its upper half, then its
/// lower half.
pub open spec fn u64_wire(v: u64) -> Seq<u8> {
    u32_wire((v / 0x1_0000_0000) as u32) + u32_wire((v % 0x1_0000_0000) as u32)
}

/// The 64-bit integer whose big-endian bytes are the first eight of `b`.
pub open spec fn u64_value(b: Seq<u8>) -> u64 {
    (u32_value(b) * 0x1_0000_0000 + u32_value(b.skip(4))) as u64
}

pub open spec fn u64_parse(bytes: Seq<u8>) -> Result<(u64, nat), CodecError> {
    if bytes.len() < 8 {
        Err(CodecError::Incomplete)
    } else {
        Ok((u64_value(bytes), 8nat))
    }
}

impl Wire for u64 {
    open spec fn fits(v: u64) -> bool {
        true
    }

    open spec fn wire(v: u64) -> Seq<u8> {
        u64_wire(v)
    }

    open spec fn parse(bytes: Seq<u8>) -> Result<(u64, nat), CodecError> {
        u64_parse(bytes)
    }

    proof fn lemma_round_trip(v: u64, rest: Seq<u8>) {
        let hi = (v / 0x1_0000_0000) as u32;
        let lo = (v % 0x1_0000_0000) as u32;
        let all = u64_wire(v) + rest;
        assert(all =~= u32_wire(hi) + (u32_wire(lo) + rest));
        assert(all.skip(4) =~= u32_wire(lo) + rest);
        u32::lemma_round_trip(hi, u32_wire(lo) + rest);
        u32::lemma_round_trip(lo, rest);
        assert(u32_value(all) == hi);
        assert(u32_value(all.skip(4)) == lo);
        assert(hi * 0x1_0000_0000 + lo == v);
    }

    proof fn lemma_parse_within(bytes: Seq<u8>) {
    }

    proof fn lemma_parse_exact(bytes: Seq<u8>) {
        if bytes.len() >= 8 {
            let hi = u32_value(bytes);
            let lo = u32_value(bytes.skip(4));
            let v = u64_value(bytes);
            assert(v == hi * 0x1_0000_0000 + lo);
            assert(v / 0x1_0000_0000 == hi);
            assert(v % 0x1_0000_0000 == lo);
            lemma_u32_exact(bytes);
            lemma_u32_exact(bytes.skip(4));
            assert(bytes.take(4) + bytes.skip(4).take(4) =~= bytes.take(8));
        }
    }

    proof fn lemma_invalid_stays(bytes: Seq<u8>, more: Seq<u8>) {
    }

    fn write(&self, out: &mut Vec<u8>) {
        let v: u64 = *self;
        let hi: u32 = (v / 0x1_0000_0000) as u32;
        let lo: u32 = (v % 0x1_0000_0000) as u32;
        hi.write(out);
        lo.write(out);
        assert(out@ == old(out)@ + u64_wire(v));
    }

    fn read(bytes: &[u8], at: usize) -> (r: Result<(u64, usize), CodecError>) {
        if bytes.len() - at < 8 {
            Err(CodecError::Incomplete)
        } else {
            let b0: u64 = bytes[at] as u64;
            let b1: u64 = bytes[at + 1] as u64;
            let b2: u64 = bytes[at + 2] as u64;
            let b3: u64 = bytes[at + 3] as u64;
            let b4: u64 = bytes[at + 4] as u64;
            let b5: u64 = bytes[at + 5] as u64;
            let b6: u64 = bytes[at + 6] as u64;
            let b7: u64 = bytes[at + 7] as u64;
            let hi: u64 = b0 * 0x100_0000 + b1 * 0x1_0000 + b2 * 0x100 + b3;
            let lo: u64 = b4 * 0x100_0000 + b5 * 0x1_0000 + b6 * 0x100 + b7;
            Ok((hi * 0x1_0000_0000 + lo, at + 8))
        }
    }
}

pub open spec fn bool_parse(bytes: Seq<u8>) -> Result<(bool, nat), CodecError> {
    if bytes.len() < 1 {
        Err(CodecError::Incomplete)
    } else if bytes[0] == 0 {
        Ok((false, 1nat))
    } else if bytes[0] == 1 {
        Ok((true, 1nat))
    } else {
        Err(CodecError::Invalid)
    }
}

impl Wire for bool {
    open spec fn fits(v: bool) -> bool {
        true
    }

    /// One byte: 1 for true, 0 for false.
    open spec fn wire(v: bool) -> Seq<u8> {
        seq![if v { 1u8 } else { 0u8 }]
    }

    open spec fn parse(bytes: Seq<u8>) -> Result<(bool, nat), CodecError> {
        bool_parse(bytes)
    }

    proof fn lemma_round_trip(v: bool, rest: Seq<u8>) {
    }

    proof fn lemma_parse_within(bytes: Seq<u8>) {
    }

    proof fn lemma_parse_exact(bytes: Seq<u8>) {
        if bytes.len() >= 1 && (bytes[0] == 0 || bytes[0] == 1) {
            assert(seq![bytes[0]] =~= bytes.take(1));
        }
    }

    proof fn lemma_invalid_stays(bytes: Seq<u8>, more: Seq<u8>) {
        if bytes.len() >= 1 {
            assert((bytes + more)[0] == bytes[0]);
        }
    }

    fn write(&self, out: &mut Vec<u8>) {
        if *self {
            out.push(1u8);
        } else {
            out.push(0u8);
        }
    }

    fn read(bytes: &[u8], at: usize) -> (r: Result<(bool, usize), CodecError>) {
        if bytes.len() - at < 1 {
            Err(CodecError::Incomplete)
        } else if bytes[at] == 0 {
            Ok((false, at + 1))
        } else if bytes[at] == 1 {
            Ok((true, at + 1))
        } else {
            Err(CodecError::Invalid)
        }
    }
}

/// Appends every byte of `bytes` to `out`.
pub fn push_all(out: &mut Vec<u8>, bytes: &[u8])
    ensures
        final(out)@ == old(out)@ + bytes@,
{
    let mut i: usize = 0;
    while i < bytes.len()
        invariant
            i <= bytes@.len(),
            out@ == old(out)@ + bytes@.take(i as int),
        decreases bytes@.len() - i,
    {
        out.push(bytes[i]);
        i += 1;
        assert(bytes@.take(i as int) == bytes@.take(i - 1).push(bytes@[i - 1]));
    }
    assert(bytes@.take(i as int) == bytes@);
}

/// Builds a string from its UTF-8 encoding, by `String::from_utf8`: there
/// is a string exactly when the bytes are well-formed UTF-8, and its
/// encoding is then the bytes given.
#[verifier::external_body]
pub(crate) fn string_from_utf8(bytes: Vec<u8>) -> (r: Option<String>)
    ensures
        r is Some <==> valid_utf8(bytes@),
        r matches Some(s) ==> encode_utf8(s@) == bytes@,
{
    match String::from_utf8(bytes) {
        Ok(s) => Some(s),
        Err(_) => None,
    }
}

/// A string on the wire: the length of its UTF-8 encoding, then the
/// encoding.
pub open spec fn string_wire(s: Seq<char>) -> Seq<u8> {
    u64_wire(encode_utf8(s).len() as u64) + encode_utf8(s)
}

pub open spec fn string_parse(bytes: Seq<u8>) -> Result<(Seq<char>, nat), CodecError> {
    if bytes.len() < 8 {
        Err(CodecError::Incomplete)
    } else {
        let n = u64_value(bytes) as int;
        if bytes.len() - 8 < n {
            Err(CodecError::Incomplete)
        } else if !valid_utf8(bytes.subrange(8, 8 + n)) {
            Err(CodecError::Invalid)
        } else {
            Ok((decode_utf8(bytes.subrange(8, 8 + n)), (8 + n) as nat))
        }
    }
}

impl Wire for String {
    open spec fn fits(v: Seq<char>) -> bool {
        encode_utf8(v).len() <= u64::MAX
    }

    open spec fn wire(v: Seq<char>) -> Seq<u8> {
        string_wire(v)
    }

    open spec fn parse(bytes: Seq<u8>) -> Result<(Seq<char>, nat), CodecError> {
        string_parse(bytes)
    }

    proof fn lemma_round_trip(v: Seq<char>, rest: Seq<u8>) {
        let body = encode_utf8(v);
        let n = body.len() as u64;
        let all = string_wire(v) + rest;
        u64::lemma_round_trip(n, body + rest);
        assert(all =~= u64_wire(n) + (body + rest));
        assert(all.subrange(8, 8 + n) =~= body);
        encode_utf8_valid_utf8(v);
        encode_utf8_decode_utf8(v);
    }

    proof fn lemma_parse_within(bytes: Seq<u8>) {
        if string_parse(bytes) is Ok {
            let n = u64_value(bytes) as int;
            decode_utf8_encode_utf8(bytes.subrange(8, 8 + n));
        }
    }

    proof fn lemma_parse_exact(bytes: Seq<u8>) {
        if let Ok(p) = string_parse(bytes) {
            let n = u64_value(bytes) as int;
            let body = bytes.subrange(8, 8 + n);
            decode_utf8_encode_utf8(body);
            u64::lemma_parse_exact(bytes);
            assert(bytes.take(8) + body =~= bytes.take(8 + n));
        }
    }

    proof fn lemma_invalid_stays(bytes: Seq<u8>, more: Seq<u8>) {
        if string_parse(bytes) == Err::<(Seq<char>, nat), CodecError>(CodecError::Invalid) {
            let all = bytes + more;
            let n = u64_value(bytes) as int;
            lemma_u64_value_more(bytes, more);
            assert(all.subrange(8, 8 + n) =~= bytes.subrange(8, 8 + n));
        }
    }

    fn write(&self, out: &mut Vec<u8>) {
        let body: &[u8] = self.as_str().as_bytes();
        let n: u64 = body.len() as u64;
        n.write(out);
        push_all(out, body);
        assert(out@ == old(out)@ + string_wire(self@));
    }

    fn read(bytes: &[u8], at: usize) -> (r: Result<(String, usize), CodecError>) {
        match u64::read(bytes, at) {
            Err(e) => Err(e),
            Ok((n, body_at)) => {
                if n > (bytes.len() - body_at) as u64 {
                    Err(CodecError::Incomplete)
                } else {
                    let len: usize = n as usize;
                    let body = slice_to_vec(slice_subrange(bytes, body_at, body_at + len));
                    assert(body@ == bytes@.skip(at as int).subrange(8, 8 + n));
                    match string_from_utf8(body) {
                        None => Err(CodecError::Invalid),
                        Some(s) => {
                            proof {
                                encode_utf8_decode_utf8(s@);
                            }
                            Ok((s, body_at + len))
                        },
                    }
                }
            },
        }
    }
}


/// The encodings of the items of `s`, one after another.
pub open spec fn items_wire<T: Wire>(s: Seq<T::V>) -> Seq<u8>
    decreases s.len(),
{
    if s.len() == 0 {
        Seq::empty()
    } else {
        T::wire(s[0]) + items_wire::<T>(s.drop_first())
    }
}

/// Whether every item of `s` can be carried.
pub open spec fn items_fit<T: Wire>(s: Seq<T::V>) -> bool {
    forall|i: int| 0 <= i < s.len() ==> T::fits(#[trigger] s[i])
}

/// `count` items decoded one after another from the front of `bytes`.
pub open spec fn items_parse<T: Wire>(bytes: Seq<u8>, count: nat) -> Result<
    (Seq<T::V>, nat),
    CodecError,
>
    decreases count,
{
    if count == 0 {
        Ok((Seq::empty(), 0nat))
    } else {
        match T::parse(bytes) {
            Err(e) => Err(e),
            Ok(head) => match items_parse::<T>(bytes.skip(head.1 as int), (count - 1) as nat) {
                Err(e) => Err(e),
                Ok(tail) => Ok((seq![head.0] + tail.0, head.1 + tail.1)),
            },
        }
    }
}

/// What a decode in progress amounts to: the items already read and the
/// bytes they took, followed by the outcome for the rest.
pub open spec fn items_after<V>(
    done: Seq<V>,
    used: nat,
    rest: Result<(Seq<V>, nat), CodecError>,
) -> Result<(Seq<V>, nat), CodecError> {
    match rest {
        Err(e) => Err(e),
        Ok(tail) => Ok((done + tail.0, used + tail.1)),
    }
}

pub proof fn lemma_items_wire_push<T: Wire>(s: Seq<T::V>, x: T::V)
    ensures
        items_wire::<T>(s.push(x)) == items_wire::<T>(s) + T::wire(x),
    decreases s.len(),
{
    if s.len() == 0 {
        assert(s.push(x).drop_first() =~= Seq::<T::V>::empty());
        assert(items_wire::<T>(s.push(x).drop_first()) =~= Seq::<u8>::empty());
        assert(items_wire::<T>(s.push(x)) =~= T::wire(x));
    } else {
        assert(s.push(x).drop_first() =~= s.drop_first().push(x));
        lemma_items_wire_push::<T>(s.drop_first(), x);
        assert(items_wire::<T>(s.push(x)) =~= items_wire::<T>(s) + T::wire(x));
    }
}

/// Items decode back from their encodings, in order, whatever follows.
pub proof fn lemma_items_round_trip<T: Wire>(s: Seq<T::V>, rest: Seq<u8>)
    requires
        items_fit::<T>(s),
    ensures
        items_parse::<T>(items_wire::<T>(s) + rest, s.len()) == Ok::<(Seq<T::V>, nat), CodecError>(
            (s, items_wire::<T>(s).len()),
        ),
    decreases s.len(),
{
    if s.len() == 0 {
        assert(s =~= Seq::<T::V>::empty());
    } else {
        let head = T::wire(s[0]);
        let tail = items_wire::<T>(s.drop_first());
        let all = items_wire::<T>(s) + rest;
        assert(all =~= head + (tail + rest));
        T::lemma_round_trip(s[0], tail + rest);
        assert(all.skip(head.len() as int) =~= tail + rest);
        lemma_items_round_trip::<T>(s.drop_first(), rest);
        assert(seq![s[0]] + s.drop_first() =~= s);
    }
}

pub proof fn lemma_items_parse_within<T: Wire>(bytes: Seq<u8>, count: nat)
    ensures
        items_parse::<T>(bytes, count) matches Ok(p) ==> p.1 <= bytes.len() && p.0.len() == count
            && items_fit::<T>(p.0),
    decreases count,
{
    if count > 0 {
        T::lemma_parse_within(bytes);
        if let Ok(head) = T::parse(bytes) {
            lemma_items_parse_within::<T>(bytes.skip(head.1 as int), (count - 1) as nat);
        }
    }
}

/// A sequence on the wire: the number of items, then the items.
pub open spec fn seq_wire<T: Wire>(s: Seq<T::V>) -> Seq<u8> {
    u64_wire(s.len() as u64) + items_wire::<T>(s)
}

pub open spec fn seq_parse<T: Wire>(bytes: Seq<u8>) -> Result<(Seq<T::V>, nat), CodecError> {
    if bytes.len() < 8 {
        Err(CodecError::Incomplete)
    } else {
        items_after(Seq::empty(), 8, items_parse::<T>(bytes.skip(8), u64_value(bytes) as nat))
    }
}

impl<T: Wire> Wire for Vec<T> {
    open spec fn fits(v: Seq<T::V>) -> bool {
        v.len() <= u64::MAX && items_fit::<T>(v)
    }

    open spec fn wire(v: Seq<T::V>) -> Seq<u8> {
        seq_wire::<T>(v)
    }

    open spec fn parse(bytes: Seq<u8>) -> Result<(Seq<T::V>, nat), CodecError> {
        seq_parse::<T>(bytes)
    }

    proof fn lemma_round_trip(v: Seq<T::V>, rest: Seq<u8>) {
        let n = v.len() as u64;
        let all = seq_wire::<T>(v) + rest;
        assert(all =~= u64_wire(n) + (items_wire::<T>(v) + rest));
        u64::lemma_round_trip(n, items_wire::<T>(v) + rest);
        assert(all.skip(8) =~= items_wire::<T>(v) + rest);
        lemma_items_round_trip::<T>(v, rest);
        assert(Seq::<T::V>::empty() + v =~= v);
    }

    proof fn lemma_parse_within(bytes: Seq<u8>) {
        if bytes.len() >= 8 {
            lemma_items_parse_within::<T>(bytes.skip(8), u64_value(bytes) as nat);
            if let Ok(p) = items_parse::<T>(bytes.skip(8), u64_value(bytes) as nat) {
                assert(Seq::<T::V>::empty() + p.0 =~= p.0);
            }
        }
    }

    proof fn lemma_parse_exact(bytes: Seq<u8>) {
        if bytes.len() >= 8 {
            let count = u64_value(bytes) as nat;
            lemma_items_parse_within::<T>(bytes.skip(8), count);
            lemma_items_parse_exact::<T>(bytes.skip(8), count);
            if let Ok(p) = items_parse::<T>(bytes.skip(8), count) {
                assert(Seq::<T::V>::empty() + p.0 =~= p.0);
                u64::lemma_parse_exact(bytes);
                assert(bytes.take(8) + bytes.skip(8).take(p.1 as int) =~= bytes.take((8 + p.1) as int));
            }
        }
    }

    proof fn lemma_invalid_stays(bytes: Seq<u8>, more: Seq<u8>) {
        if bytes.len() >= 8 {
            lemma_u64_value_more(bytes, more);
            assert((bytes + more).skip(8) =~= bytes.skip(8) + more);
            lemma_items_invalid_stay::<T>(bytes.skip(8), more, u64_value(bytes) as nat);
        }
    }

    fn write(&self, out: &mut Vec<u8>) {
        let n: u64 = self.len() as u64;
        n.write(out);
        let mut i: usize = 0;
        while i < self.len()
            invariant
                i <= self@.len(),
                out@ == old(out)@ + u64_wire(n) + items_wire::<T>(self.deep_view().take(i as int)),
                items_fit::<T>(self.deep_view().take(i as int)),
            decreases self@.len() - i,
        {
            let ghost before = self.deep_view().take(i as int);
            self[i].write(out);
            proof {
                lemma_items_wire_push::<T>(before, self@[i as int].deep_view());
                assert(self.deep_view().take(i + 1) =~= before.push(self@[i as int].deep_view()));
            }
            i += 1;
        }
        assert(self.deep_view().take(i as int) =~= self.deep_view());
    }

    fn read(bytes: &[u8], at: usize) -> (r: Result<(Vec<T>, usize), CodecError>) {
        match u64::read(bytes, at) {
            Err(e) => Err(e),
            Ok((n, start)) => {
                let ghost body = bytes@.skip(at as int).skip(8);
                let ghost goal = items_parse::<T>(body, n as nat);
                let mut items: Vec<T> = Vec::new();
                let mut pos: usize = start;
                let mut i: u64 = 0;
                assert(items.deep_view() =~= Seq::<T::V>::empty());
                assert(body.skip(0) =~= body);
                while i < n
                    invariant
                        i <= n,
                        at + 8 == start <= pos <= bytes@.len(),
                        body == bytes@.skip(at as int).skip(8),
                        goal == items_parse::<T>(body, n as nat),
                        seq_parse::<T>(bytes@.skip(at as int)) == items_after(
                            Seq::empty(),
                            8,
                            goal,
                        ),
                        goal == items_after(
                            items.deep_view(),
                            (pos - start) as nat,
                            items_parse::<T>(body.skip(pos - start), (n - i) as nat),
                        ),
                    decreases n - i,
                {
                    let ghost from = body.skip(pos - start);
                    assert(from =~= bytes@.skip(pos as int));
                    proof {
                        T::lemma_parse_within(from);
                    }
                    match T::read(bytes, pos) {
                        Err(e) => {
                            return Err(e);
                        },
                        Ok((item, next)) => {
                            let ghost done = items.deep_view();
                            let ghost head = T::parse(from)->Ok_0;
                            assert(from.skip(head.1 as int) =~= body.skip(next - start));
                            items.push(item);
                            assert(items.deep_view() =~= done.push(head.0));
                            proof {
                                let rest = items_parse::<T>(
                                    body.skip(next - start),
                                    (n - i - 1) as nat,
                                );
                                if let Ok(tail) = rest {
                                    assert(done + (seq![head.0] + tail.0) =~= done.push(head.0)
                                        + tail.0);
                                }
                            }
                            pos = next;
                            i += 1;
                        },
                    }
                }
                assert(items.deep_view() + Seq::<T::V>::empty() =~= items.deep_view());
                assert(Seq::<T::V>::empty() + items.deep_view() =~= items.deep_view());
                Ok((items, pos))
            },
        }
    }
}


pub open spec fn pair_parse<A: Wire, B: Wire>(bytes: Seq<u8>) -> Result<
    ((A::V, B::V), nat),
    CodecError,
> {
    match A::parse(bytes) {
        Err(e) => Err(e),
        Ok(a) => match B::parse(bytes.skip(a.1 as int)) {
            Err(e) => Err(e),
            Ok(b) => Ok(((a.0, b.0), a.1 + b.1)),
        },
    }
}

/// A pair is its first part followed by its second.
impl<A: Wire, B: Wire> Wire for (A, B) {
    open spec fn fits(v: (A::V, B::V)) -> bool {
        A::fits(v.0) && B::fits(v.1)
    }

    open spec fn wire(v: (A::V, B::V)) -> Seq<u8> {
        A::wire(v.0) + B::wire(v.1)
    }

    open spec fn parse(bytes: Seq<u8>) -> Result<((A::V, B::V), nat), CodecError> {
        pair_parse::<A, B>(bytes)
    }

    proof fn lemma_round_trip(v: (A::V, B::V), rest: Seq<u8>) {
        let all = A::wire(v.0) + B::wire(v.1) + rest;
        assert(all =~= A::wire(v.0) + (B::wire(v.1) + rest));
        A::lemma_round_trip(v.0, B::wire(v.1) + rest);
        assert(all.skip(A::wire(v.0).len() as int) =~= B::wire(v.1) + rest);
        B::lemma_round_trip(v.1, rest);
    }

    proof fn lemma_parse_within(bytes: Seq<u8>) {
        A::lemma_parse_within(bytes);
        if let Ok(a) = A::parse(bytes) {
            B::lemma_parse_within(bytes.skip(a.1 as int));
        }
    }

    proof fn lemma_parse_exact(bytes: Seq<u8>) {
        A::lemma_parse_within(bytes);
        A::lemma_parse_exact(bytes);
        if let Ok(a) = A::parse(bytes) {
            let rest = bytes.skip(a.1 as int);
            B::lemma_parse_within(rest);
            B::lemma_parse_exact(rest);
            if let Ok(b) = B::parse(rest) {
                assert(bytes.take(a.1 as int) + rest.take(b.1 as int) =~= bytes.take(
                    (a.1 + b.1) as int,
                ));
            }
        }
    }

    proof fn lemma_invalid_stays(bytes: Seq<u8>, more: Seq<u8>) {
        A::lemma_invalid_stays(bytes, more);
        lemma_parse_more::<A>(bytes, more);
        A::lemma_parse_within(bytes);
        if let Ok(a) = A::parse(bytes) {
            assert((bytes + more).skip(a.1 as int) =~= bytes.skip(a.1 as int) + more);
            B::lemma_invalid_stays(bytes.skip(a.1 as int), more);
        }
    }

    fn write(&self, out: &mut Vec<u8>) {
        self.0.write(out);
        self.1.write(out);
        assert(out@ =~= old(out)@ + (A::wire(self.0.deep_view()) + B::wire(self.1.deep_view())));
    }

    fn read(bytes: &[u8], at: usize) -> (r: Result<((A, B), usize), CodecError>) {
        proof {
            A::lemma_parse_within(bytes@.skip(at as int));
        }
        match A::read(bytes, at) {
            Err(e) => Err(e),
            Ok((a, mid)) => {
                assert(bytes@.skip(at as int).skip(mid - at) =~= bytes@.skip(mid as int));
                match B::read(bytes, mid) {
                    Err(e) => Err(e),
                    Ok((b, end)) => Ok(((a, b), end)),
                }
            },
        }
    }
}


/// Reads the 32-bit integer at `at`, which the caller knows to be there.
pub fn u32_at(bytes: &[u8], at: usize) -> (v: u32)
    requires
        at + 4 <= bytes@.len(),
    ensures
        v == u32_value(bytes@.skip(at as int)),
{
    let b0: u32 = bytes[at] as u32;
    let b1: u32 = bytes[at + 1] as u32;
    let b2: u32 = bytes[at + 2] as u32;
    let b3: u32 = bytes[at + 3] as u32;
    b0 * 0x100_0000 + b1 * 0x1_0000 + b2 * 0x100 + b3
}

/// The integers at fixed offsets of a record decode back from their
/// encodings laid end to end.
pub proof fn lemma_u32_at(front: Seq<u8>, v: u32, rest: Seq<u8>)
    ensures
        u32_value((front + u32_wire(v) + rest).skip(front.len() as int)) == v,
{
    let all = front + u32_wire(v) + rest;
    assert(all.skip(front.len() as int) =~= u32_wire(v) + rest);
    u32::lemma_round_trip(v, rest);
}


/// Encodes one value.
pub fn encode<T: Wire>(value: &T) -> (bytes: Vec<u8>)
    ensures
        bytes@ == T::wire(value.deep_view()),
        T::parse(bytes@) == Ok::<(T::V, nat), CodecError>((value.deep_view(), bytes@.len())),
{
    let mut bytes: Vec<u8> = Vec::new();
    value.write(&mut bytes);
    proof {
        let v = value.deep_view();
        T::lemma_round_trip(v, Seq::empty());
        assert(T::wire(v) + Seq::<u8>::empty() =~= T::wire(v));
        assert(bytes@ =~= T::wire(v));
    }
    bytes
}

/// Decodes the value at the front of `bytes`. What follows the value is
/// not looked at.
pub fn decode<T: Wire>(bytes: &[u8]) -> (r: Result<T, CodecError>)
    ensures
        match T::parse(bytes@) {
            Ok(p) => r matches Ok(v) && v.deep_view() == p.0,
            Err(e) => r matches Err(x) && x == e,
        },
{
    assert(bytes@.skip(0) =~= bytes@);
    match T::read(bytes, 0) {
        Ok((value, _)) => Ok(value),
        Err(e) => Err(e),
    }
}


/// Four bytes are the big-endian bytes of the number they stand for.
pub proof fn lemma_u32_exact(bytes: Seq<u8>)
    requires
        bytes.len() >= 4,
    ensures
        u32_wire(u32_value(bytes)) == bytes.take(4),
{
    let v = u32_value(bytes);
    assert(v == bytes[0] * 0x100_0000 + bytes[1] * 0x1_0000 + bytes[2] * 0x100 + bytes[3]);
    assert(v / 0x100_0000 == bytes[0]);
    assert((v / 0x1_0000) % 256 == bytes[1]);
    assert((v / 0x100) % 256 == bytes[2]);
    assert(v % 256 == bytes[3]);
    assert(u32_wire(v) =~= bytes.take(4));
}

/// Items that were decoded encode back to exactly the bytes that were
/// read.
pub proof fn lemma_items_parse_exact<T: Wire>(bytes: Seq<u8>, count: nat)
    ensures
        items_parse::<T>(bytes, count) matches Ok(p) ==> items_wire::<T>(p.0) == bytes.take(
            p.1 as int,
        ),
    decreases count,
{
    if count == 0 {
        assert(items_wire::<T>(Seq::<T::V>::empty()) =~= bytes.take(0));
    } else {
        T::lemma_parse_within(bytes);
        T::lemma_parse_exact(bytes);
        if let Ok(head) = T::parse(bytes) {
            let rest = bytes.skip(head.1 as int);
            lemma_items_parse_within::<T>(rest, (count - 1) as nat);
            lemma_items_parse_exact::<T>(rest, (count - 1) as nat);
            if let Ok(tail) = items_parse::<T>(rest, (count - 1) as nat) {
                let all = seq![head.0] + tail.0;
                assert(all[0] == head.0);
                assert(all.drop_first() =~= tail.0);
                assert(bytes.take(head.1 as int) + rest.take(tail.1 as int) =~= bytes.take(
                    (head.1 + tail.1) as int,
                ));
            }
        }
    }
}

/// A decode that succeeded is not changed by bytes that arrive after it:
/// a reader on a stream never has to decode a value twice.
pub proof fn lemma_parse_more<T: Wire>(bytes: Seq<u8>, more: Seq<u8>)
    ensures
        T::parse(bytes) is Ok ==> T::parse(bytes + more) == T::parse(bytes),
{
    if let Ok(p) = T::parse(bytes) {
        T::lemma_parse_within(bytes);
        T::lemma_parse_exact(bytes);
        let rest = bytes.skip(p.1 as int) + more;
        T::lemma_round_trip(p.0, rest);
        assert(bytes + more =~= bytes.take(p.1 as int) + rest);
    }
}


/// The number that eight bytes stand for does not depend on what follows
/// them.
pub proof fn lemma_u64_value_more(bytes: Seq<u8>, more: Seq<u8>)
    requires
        bytes.len() >= 8,
    ensures
        u64_value(bytes + more) == u64_value(bytes),
{
    let all = bytes + more;
    assert(forall|i: int| 0 <= i < 8 ==> all[i] == bytes[i]);
    assert(forall|i: int| 0 <= i < 4 ==> all.skip(4)[i] == bytes.skip(4)[i]);
}

/// Items that are invalid stay invalid whatever arrives after them.
pub proof fn lemma_items_invalid_stay<T: Wire>(bytes: Seq<u8>, more: Seq<u8>, count: nat)
    ensures
        items_parse::<T>(bytes, count) == Err::<(Seq<T::V>, nat), CodecError>(CodecError::Invalid)
            ==> items_parse::<T>(bytes + more, count) == Err::<(Seq<T::V>, nat), CodecError>(
            CodecError::Invalid,
        ),
    decreases count,
{
    if count > 0 {
        T::lemma_invalid_stays(bytes, more);
        lemma_parse_more::<T>(bytes, more);
        T::lemma_parse_within(bytes);
        if let Ok(head) = T::parse(bytes) {
            assert((bytes + more).skip(head.1 as int) =~= bytes.skip(head.1 as int) + more);
            lemma_items_invalid_stay::<T>(bytes.skip(head.1 as int), more, (count - 1) as nat);
        }
    }
}


/// An encoding cut short is incomplete, never invalid and never another
/// value: a reader on a stream that holds part of a value is told to wait.
pub proof fn lemma_prefix_incomplete<T: Wire>(v: T::V, k: int)
    requires
        T::fits(v),
        0 <= k < T::wire(v).len(),
    ensures
        T::parse(T::wire(v).take(k)) == Err::<(T::V, nat), CodecError>(CodecError::Incomplete),
{
    let whole = T::wire(v);
    let front = whole.take(k);
    let back = whole.skip(k);
    assert(front + back == whole) by {
        assert(front + back =~= whole);
    }
    assert(whole + Seq::<u8>::empty() == whole) by {
        assert(whole + Seq::<u8>::empty() =~= whole);
    }
    T::lemma_round_trip(v, Seq::empty());
    assert(T::parse(whole) == Ok::<(T::V, nat), CodecError>((v, whole.len())));
    T::lemma_parse_within(front);
    lemma_parse_more::<T>(front, back);
    T::lemma_invalid_stays(front, back);
    match T::parse(front) {
        Ok(p) => {
            assert(T::parse(front + back) == T::parse(front));
            assert(p.1 <= front.len());
            assert(false);
        },
        Err(CodecError::Invalid) => {
            assert(T::parse(front + back) is Err);
            assert(false);
        },
        Err(CodecError::Incomplete) => {},
    }
}

} // verus!
