//! Definite-length Basic Encoding Rules: a cursor over borrowed bytes that
//! reads tags, lengths and primitives, and a writer that emits them.
use vstd::prelude::*;
use crate::bytes::{get_be16, get_le16, get_le32, put_bytes};
use crate::error::{tag_mismatch_text, ErrorKind, PduError, Result};

verus! {

/// Universal tag numbers of the primitives in use.
#[derive(Debug, Clone, Copy, PartialEq, Eq, Structural)]
pub enum BerTag {
    Boolean,
    Integer,
    OctetString,
    Enumerated,
    Sequence,
}

impl BerTag {
    pub open spec fn spec_as_u8(self) -> u8 {
        match self {
            BerTag::Boolean => 0x01,
            BerTag::Integer => 0x02,
            BerTag::OctetString => 0x04,
            BerTag::Enumerated => 0x0A,
            BerTag::Sequence => 0x30,
        }
    }

    /// The tag byte.
    pub fn as_u8(self) -> (r: u8)
        ensures
            r == self.spec_as_u8(),
    {
        match self {
            BerTag::Boolean => 0x01,
            BerTag::Integer => 0x02,
            BerTag::OctetString => 0x04,
            BerTag::Enumerated => 0x0A,
            BerTag::Sequence => 0x30,
        }
    }
}

/// Tag classes, as the two high bits of a tag byte.
#[derive(Debug, Clone, Copy, PartialEq, Eq, Structural)]
pub enum BerClass {
    Universal,
    Application,
    ContextSpecific,
    Private,
}

impl BerClass {
    pub open spec fn spec_as_u8(self) -> u8 {
        match self {
            BerClass::Universal => 0x00,
            BerClass::Application => 0x40,
            BerClass::ContextSpecific => 0x80,
            BerClass::Private => 0xC0,
        }
    }

    /// The class bits.
    pub fn as_u8(self) -> (r: u8)
        ensures
            r == self.spec_as_u8(),
    {
        match self {
            BerClass::Universal => 0x00,
            BerClass::Application => 0x40,
            BerClass::ContextSpecific => 0x80,
            BerClass::Private => 0xC0,
        }
    }
}

pub const TAG_BOOLEAN: u8 = 0x01;
pub const TAG_INTEGER: u8 = 0x02;
pub const TAG_OCTET_STRING: u8 = 0x04;
pub const TAG_ENUMERATED: u8 = 0x0A;
pub const TAG_SEQUENCE: u8 = 0x30;
pub const CLASS_APPLICATION: u8 = 0x40;
pub const CLASS_CONTEXT: u8 = 0x80;

// ---------------------------------------------------------------------------
// The mathematical model of the encoding.

/// The minimal big-endian digits of `n` in base 256 (empty for zero).
pub open spec fn be_digits(n: nat) -> Seq<u8>
    decreases n,
{
    if n == 0 {
        Seq::empty()
    } else {
        be_digits(n / 256).push((n % 256) as u8)
    }
}

/// The number that big-endian base-256 digits stand for.
pub open spec fn be_value(s: Seq<u8>) -> nat
    decreases s.len(),
{
    if s.len() == 0 {
        0
    } else {
        be_value(s.drop_last()) * 256 + s.last() as nat
    }
}

pub open spec fn pow256(k: nat) -> nat
    decreases k,
{
    if k == 0 {
        1
    } else {
        256 * pow256((k - 1) as nat)
    }
}

/// A BER length field: short form below 128, else the count of digits with
/// bit 7 set, followed by the minimal big-endian digits.
pub open spec fn ber_length(n: nat) -> Seq<u8> {
    if n < 128 {
        seq![n as u8]
    } else {
        seq![(128 + be_digits(n).len()) as u8] + be_digits(n)
    }
}

/// Tag, length, then the content.
pub open spec fn ber_tlv(tag: u8, content: Seq<u8>) -> Seq<u8> {
    seq![tag] + ber_length(content.len()) + content
}

/// The content octets of a BER INTEGER for an unsigned value: minimal digits,
/// with a leading zero where the top bit of the first digit is set.
pub open spec fn int_content(v: u32) -> Seq<u8> {
    if v == 0 {
        seq![0u8]
    } else if be_digits(v as nat)[0] >= 128 {
        seq![0u8] + be_digits(v as nat)
    } else {
        be_digits(v as nat)
    }
}

pub open spec fn ber_integer(v: u32) -> Seq<u8> {
    ber_tlv(TAG_INTEGER, int_content(v))
}

pub open spec fn ber_enumerated(v: u8) -> Seq<u8> {
    ber_tlv(TAG_ENUMERATED, seq![v])
}

pub open spec fn ber_boolean(b: bool) -> Seq<u8> {
    ber_tlv(TAG_BOOLEAN, seq![if b { 0xFFu8 } else { 0u8 }])
}

pub open spec fn ber_octet_string(d: Seq<u8>) -> Seq<u8> {
    ber_tlv(TAG_OCTET_STRING, d)
}

/// What a length field at the start of `s` says, and how many bytes it takes.
#[verifier::opaque]
pub open spec fn parse_length(s: Seq<u8>) -> core::result::Result<(usize, int), ErrorKind> {
    if s.len() < 1 {
        Err(ErrorKind::InsufficientData { needed: 1, available: 0 })
    } else if s[0] < 128 {
        Ok((s[0] as usize, 1))
    } else {
        let n = s[0] - 128;
        if n == 0 || n > 4 {
            Err(ErrorKind::ParseError)
        } else if s.len() - 1 < n {
            Err(ErrorKind::InsufficientData { needed: n as usize, available: (s.len() - 1) as usize })
        } else {
            Ok((be_value(s.subrange(1, 1 + n)) as usize, 1 + n))
        }
    }
}

/// A tag byte that must equal `tag`, then a length field.
#[verifier::opaque]
pub open spec fn parse_header(s: Seq<u8>, tag: u8) -> core::result::Result<(usize, int), ErrorKind> {
    if s.len() < 1 {
        Err(ErrorKind::InsufficientData { needed: 1, available: 0 })
    } else if s[0] != tag {
        Err(ErrorKind::ParseError)
    } else {
        match parse_length(s.skip(1)) {
            Ok((len, c)) => Ok((len, 1 + c)),
            Err(e) => Err(e),
        }
    }
}

/// A BER INTEGER of one to four content octets.
#[verifier::opaque]
pub open spec fn parse_integer(s: Seq<u8>) -> core::result::Result<(u32, int), ErrorKind> {
    match parse_header(s, TAG_INTEGER) {
        Err(e) => Err(e),
        Ok((len, h)) => if len == 0 || len > 4 {
            Err(ErrorKind::ParseError)
        } else if s.len() - h < len {
            Err(ErrorKind::InsufficientData { needed: len, available: (s.len() - h) as usize })
        } else {
            Ok((be_value(s.subrange(h as int, h + len)) as u32, h + len))
        },
    }
}

/// A one-octet primitive (ENUMERATED or BOOLEAN) under `tag`.
#[verifier::opaque]
pub open spec fn parse_octet(s: Seq<u8>, tag: u8) -> core::result::Result<(u8, int), ErrorKind> {
    match parse_header(s, tag) {
        Err(e) => Err(e),
        Ok((len, h)) => if len != 1 {
            Err(ErrorKind::ParseError)
        } else if s.len() - h < 1 {
            Err(ErrorKind::InsufficientData { needed: 1, available: 0 })
        } else {
            Ok((s[h as int], h + 1))
        },
    }
}

/// A BER OCTET STRING: the content, and the count of bytes taken.
#[verifier::opaque]
pub open spec fn parse_octet_string(s: Seq<u8>) -> core::result::Result<(Seq<u8>, int), ErrorKind> {
    match parse_header(s, TAG_OCTET_STRING) {
        Err(e) => Err(e),
        Ok((len, h)) => if s.len() - h < len {
            Err(ErrorKind::InsufficientData { needed: len, available: (s.len() - h) as usize })
        } else {
            Ok((s.subrange(h as int, h + len), h + len))
        },
    }
}

/// Where the first byte of `before` is not `tag`, `res` is a parse error whose
/// text names the expected and the observed tag in hexadecimal.
pub open spec fn tag_error<T>(res: Result<T>, before: Seq<u8>, tag: u8) -> bool {
    before.len() >= 1 && before[0] != tag ==> (res matches Err(PduError::ParseError(m)) && m@
        == tag_mismatch_text(tag, before[0]))
}

/// The cursor moved over exactly the bytes it consumed: its position plus
/// the count of bytes left is the same before and after.
pub open spec fn consumed(before: BerReader, after: BerReader) -> bool {
    after.spec_position() + after.rest().len() == before.spec_position() + before.rest().len()
}

/// A read that consumed `n` bytes leaves the cursor `n` bytes further on.
pub proof fn lemma_position_after(before: BerReader, after: BerReader, n: int)
    requires
        consumed(before, after),
        0 <= n <= before.rest().len(),
        after.rest() == before.rest().skip(n),
    ensures
        after.spec_position() == before.spec_position() + n,
{
}

/// `res` is what `parsed` describes: the same value with the cursor moved on
/// by the count, or an error of the same kind.
pub open spec fn reads<T>(
    res: Result<T>,
    parsed: core::result::Result<(T, int), ErrorKind>,
    before: Seq<u8>,
    after: Seq<u8>,
) -> bool {
    match parsed {
        Ok((v, n)) => res == Ok::<T, PduError>(v) && 0 <= n <= before.len() && after == before.skip(
            n as int,
        ),
        Err(k) => res is Err && res->Err_0.spec_kind() == k,
    }
}

/// `res` is what `parsed` describes, compared by view: the same model with
/// the cursor moved on by the count, or an error of the same kind.
pub open spec fn reads_view<T: View>(
    res: Result<T>,
    parsed: core::result::Result<(T::V, int), ErrorKind>,
    before: Seq<u8>,
    after: Seq<u8>,
) -> bool {
    match parsed {
        Ok((v, n)) => res is Ok && res->Ok_0@ == v && 0 <= n <= before.len() && after == before.skip(
            n as int,
        ),
        Err(k) => res is Err && res->Err_0.spec_kind() == k,
    }
}

/// A tag byte `tag`, a length, and that many bytes: the body and the count of
/// bytes taken.
#[verifier::opaque]
pub open spec fn parse_envelope(s: Seq<u8>, tag: u8) -> core::result::Result<(Seq<u8>, int), ErrorKind> {
    match parse_header(s, tag) {
        Err(e) => Err(e),
        Ok((len, h)) => if s.len() - h < len {
            Err(ErrorKind::InsufficientData { needed: len, available: (s.len() - h) as usize })
        } else {
            Ok((s.subrange(h as int, h + len), h + len))
        },
    }
}

/// `k` INTEGERs one after another.
pub open spec fn parse_integers(s: Seq<u8>, k: nat) -> core::result::Result<(Seq<u32>, int), ErrorKind>
    decreases k,
{
    if k == 0 {
        Ok((Seq::empty(), 0))
    } else {
        match parse_integers(s, (k - 1) as nat) {
            Err(e) => Err(e),
            Ok((vs, m)) => match parse_integer(s.skip(m)) {
                Err(e) => Err(e),
                Ok((v, n)) => Ok((vs.push(v), m + n)),
            },
        }
    }
}

// ---------------------------------------------------------------------------
// Facts about the model.

/// Reading `k` INTEGERs in a row gives `k` values.
pub proof fn lemma_integers_len(s: Seq<u8>, k: nat)
    requires
        parse_integers(s, k) is Ok,
    ensures
        parse_integers(s, k)->Ok_0.0.len() == k,
        0 <= parse_integers(s, k)->Ok_0.1 <= s.len(),
    decreases k,
{
    if k > 0 {
        lemma_integers_len(s, (k - 1) as nat);
        let m = parse_integers(s, (k - 1) as nat)->Ok_0.1;
        lemma_parse_integer_len(s.skip(m));
    }
}

pub proof fn lemma_parse_integer_len(s: Seq<u8>)
    requires
        parse_integer(s) is Ok,
    ensures
        0 < parse_integer(s)->Ok_0.1 <= s.len(),
{
    reveal(parse_integer);
    reveal(parse_header);
    reveal(parse_length);
}

/// Once reading INTEGERs in a row has failed, reading more fails the same way.
pub proof fn lemma_integers_error_sticks(s: Seq<u8>, j: nat, k: nat)
    requires
        j <= k,
        parse_integers(s, j) is Err,
    ensures
        parse_integers(s, k) == parse_integers(s, j),
    decreases k - j,
{
    if j < k {
        lemma_integers_error_sticks(s, j, (k - 1) as nat);
    }
}

pub proof fn lemma_be_value_digits(n: nat)
    ensures
        be_value(be_digits(n)) == n,
    decreases n,
{
    if n > 0 {
        lemma_be_value_digits(n / 256);
        assert(be_digits(n).drop_last() =~= be_digits(n / 256));
    }
}

pub proof fn lemma_digits_len(n: nat, k: nat)
    requires
        n < pow256(k),
    ensures
        be_digits(n).len() <= k,
        n > 0 ==> be_digits(n).len() > 0,
        n > 0 ==> be_digits(n)[0] > 0,
    decreases n,
{
    if n > 0 {
        if k == 0 {
            assert(false);
        } else {
            lemma_digits_len(n / 256, (k - 1) as nat);
            if n / 256 == 0 {
                assert(be_digits(n / 256).len() == 0);
            } else {
                assert(be_digits(n)[0] == be_digits(n / 256)[0]);
            }
        }
    }
}

pub proof fn lemma_be_value_bound(s: Seq<u8>)
    ensures
        be_value(s) < pow256(s.len()),
    decreases s.len(),
{
    if s.len() > 0 {
        lemma_be_value_bound(s.drop_last());
        assert(be_value(s.drop_last()) * 256 + (s.last() as nat) < pow256(s.len())) by (
        nonlinear_arith)
            requires
                be_value(s.drop_last()) < pow256(s.drop_last().len()),
                pow256(s.len()) == 256 * pow256(s.drop_last().len()),
                s.last() < 256,
        ;
    }
}

proof fn lemma_pow256_values()
    ensures
        pow256(1) == 256,
        pow256(2) == 65536,
        pow256(3) == 16777216,
        pow256(4) == 4294967296,
        pow256(8) == 18446744073709551616,
{
    reveal_with_fuel(pow256, 9);
}

/// The length field is read back as written, for every length up to 2^32 - 1.
pub proof fn lemma_length_round_trip(n: nat, tail: Seq<u8>)
    requires
        n < 4294967296,
    ensures
        parse_length(ber_length(n) + tail) == Ok::<(usize, int), ErrorKind>(
            (n as usize, ber_length(n).len() as int),
        ),
{
    reveal(parse_length);
    let s = ber_length(n) + tail;
    if n >= 128 {
        lemma_pow256_values();
        lemma_digits_len(n, 4);
        lemma_be_value_digits(n);
        assert(s.subrange(1, 1 + be_digits(n).len() as int) =~= be_digits(n));
    }
}

/// A tag-length-value triple is read back as written.
pub proof fn lemma_header_round_trip(tag: u8, content: Seq<u8>, tail: Seq<u8>)
    requires
        content.len() < 4294967296,
    ensures
        parse_header(ber_tlv(tag, content) + tail, tag) == Ok::<(usize, int), ErrorKind>(
            (content.len() as usize, 1 + ber_length(content.len()).len() as int),
        ),
        (ber_tlv(tag, content) + tail).skip(1 + ber_length(content.len()).len() as int) =~= content
            + tail,
{
    reveal(parse_header);
    let s = ber_tlv(tag, content) + tail;
    lemma_length_round_trip(content.len(), content + tail);
    assert(s.skip(1) =~= ber_length(content.len()) + (content + tail));
}

/// The first digit weighs at least its place value.
pub proof fn lemma_be_value_lower(s: Seq<u8>)
    requires
        s.len() > 0,
    ensures
        be_value(s) >= s[0] * pow256((s.len() - 1) as nat),
    decreases s.len(),
{
    if s.len() > 1 {
        let d = s.drop_last();
        lemma_be_value_lower(d);
        assert(d[0] == s[0]);
        let x = be_value(d);
        let p = pow256((d.len() - 1) as nat);
        let q = pow256((s.len() - 1) as nat);
        let f = s[0] as int;
        assert(q == 256 * p);
        assert(be_value(s) == x * 256 + s.last() as nat);
        assert(x * 256 + (s.last() as nat) >= f * q) by (nonlinear_arith)
            requires
                x >= f * p,
                q == 256 * p,
        ;
        assert(be_value(s) >= f * q);
    } else {
        assert(be_value(s.drop_last()) == 0);
        assert(pow256(0) == 1);
        assert(s.last() == s[0]);
        assert(be_value(s) == s[0] as nat);
        assert((s.len() - 1) as nat == 0);
        assert(pow256((s.len() - 1) as nat) == 1);
    }
}

/// An INTEGER below 2^31 is read back as written. (From 2^31 on the writer
/// needs five content octets, which the reader refuses.)
pub proof fn lemma_integer_round_trip(v: u32, tail: Seq<u8>)
    requires
        v < 0x8000_0000,
    ensures
        parse_integer(ber_integer(v) + tail) == Ok::<(u32, int), ErrorKind>(
            (v, ber_integer(v).len() as int),
        ),
{
    reveal(parse_integer);
    let c = int_content(v);
    lemma_pow256_values();
    if v > 0 {
        lemma_digits_len(v as nat, 4);
        lemma_be_value_digits(v as nat);
    }
    assert(c.len() <= 5);
    lemma_header_round_trip(TAG_INTEGER, c, tail);
    let h = 1 + ber_length(c.len()).len();
    let s = ber_integer(v) + tail;
    assert(s.subrange(h as int, h + c.len() as int) =~= c);
    if v == 0 {
        assert(be_value(c) == 0) by {
            assert(c.drop_last().len() == 0);
            assert(be_value(c.drop_last()) == 0);
        }
    } else if be_digits(v as nat)[0] >= 128 {
        lemma_leading_zero(be_digits(v as nat));
    }
    if c.len() == 5 {
        // five octets only come from a value of four digits with its top bit set
        lemma_be_value_digits(v as nat);
        lemma_be_value_lower(be_digits(v as nat));
        assert(pow256(3) == 16777216);
        assert(be_digits(v as nat)[0] * 16777216 >= 128 * 16777216) by (nonlinear_arith)
            requires
                be_digits(v as nat)[0] >= 128,
        ;
        assert(false);
    }
}

pub proof fn lemma_leading_zero(s: Seq<u8>)
    ensures
        be_value(seq![0u8] + s) == be_value(s),
    decreases s.len(),
{
    let z = seq![0u8] + s;
    if s.len() == 0 {
        assert(z.drop_last().len() == 0);
        assert(be_value(z.drop_last()) == 0);
        assert(z.last() == 0);
    } else {
        lemma_leading_zero(s.drop_last());
        assert(z.drop_last() =~= seq![0u8] + s.drop_last());
        assert(z.last() == s.last());
    }
}

// ---------------------------------------------------------------------------
// The reader.

/// A cursor over borrowed bytes. Every decoder in this crate reads from one.
pub struct BerReader<'a> {
    buffer: &'a [u8],
    position: usize,
}

impl<'a> BerReader<'a> {
    /// The bytes not read yet.
    pub closed spec fn rest(&self) -> Seq<u8> {
        if self.position <= self.buffer@.len() {
            self.buffer@.subrange(self.position as int, self.buffer@.len() as int)
        } else {
            Seq::empty()
        }
    }

    pub closed spec fn spec_position(&self) -> nat {
        self.position as nat
    }

    /// A cursor at the start of `buffer`.
    pub fn new(buffer: &'a [u8]) -> (r: Self)
        ensures
            r.rest() == buffer@,
            r.spec_position() == 0,
    {
        let r = BerReader { buffer, position: 0 };
        assert(r.rest() =~= buffer@);
        r
    }

    /// How many bytes have been read.
    pub fn position(&self) -> (r: usize)
        ensures
            r == self.spec_position(),
    {
        self.position
    }

    /// How many bytes are left.
    pub fn remaining(&self) -> (r: usize)
        ensures
            r == self.rest().len(),
    {
        if self.position <= self.buffer.len() {
            self.buffer.len() - self.position
        } else {
            0
        }
    }

    fn insufficient(&self, needed: usize) -> (e: PduError)
        ensures
            e.spec_kind() == (ErrorKind::InsufficientData {
                needed,
                available: self.rest().len() as usize,
            }),
    {
        PduError::InsufficientData { needed, available: self.remaining() }
    }

    /// Takes one byte, which must be there.
    pub fn take_u8(&mut self) -> (v: u8)
        requires
            old(self).rest().len() >= 1,
        ensures
            consumed(*old(self), *final(self)),
            v == old(self).rest()[0],
            final(self).rest() == old(self).rest().skip(1),
            final(self).spec_position() == old(self).spec_position() + 1,
    {
        let v = self.buffer[self.position];
        self.position = self.position + 1;
        assert(self.rest() =~= old(self).rest().skip(1));
        v
    }

    /// Takes a little-endian 16-bit value, which must be there.
    pub fn take_u16_le(&mut self) -> (v: u16)
        requires
            old(self).rest().len() >= 2,
        ensures
            consumed(*old(self), *final(self)),
            v == get_le16(old(self).rest(), 0),
            final(self).rest() == old(self).rest().skip(2),
            final(self).spec_position() == old(self).spec_position() + 2,
    {
        let a = self.take_u8();
        let b = self.take_u8();
        assert(old(self).rest().skip(1).skip(1) =~= old(self).rest().skip(2));
        a as u16 + (b as u16) * 256
    }

    /// Takes a big-endian 16-bit value, which must be there.
    pub fn take_u16_be(&mut self) -> (v: u16)
        requires
            old(self).rest().len() >= 2,
        ensures
            consumed(*old(self), *final(self)),
            v == get_be16(old(self).rest(), 0),
            final(self).rest() == old(self).rest().skip(2),
            final(self).spec_position() == old(self).spec_position() + 2,
    {
        let a = self.take_u8();
        let b = self.take_u8();
        assert(old(self).rest().skip(1).skip(1) =~= old(self).rest().skip(2));
        (a as u16) * 256 + b as u16
    }

    /// Takes a little-endian 32-bit value, which must be there.
    pub fn take_u32_le(&mut self) -> (v: u32)
        requires
            old(self).rest().len() >= 4,
        ensures
            consumed(*old(self), *final(self)),
            v == get_le32(old(self).rest(), 0),
            final(self).rest() == old(self).rest().skip(4),
            final(self).spec_position() == old(self).spec_position() + 4,
    {
        let a = self.take_u8();
        let b = self.take_u8();
        let c = self.take_u8();
        let d = self.take_u8();
        assert(old(self).rest().skip(1).skip(1).skip(1).skip(1) =~= old(self).rest().skip(4));
        a as u32 + (b as u32) * 256 + (c as u32) * 65536 + (d as u32) * 16777216
    }

    /// Takes `n` bytes, which must be there.
    pub fn take_bytes(&mut self, n: usize) -> (v: Vec<u8>)
        requires
            old(self).rest().len() >= n,
        ensures
            consumed(*old(self), *final(self)),
            v@ == old(self).rest().take(n as int),
            final(self).rest() == old(self).rest().skip(n as int),
            final(self).spec_position() == old(self).spec_position() + n,
    {
        let mut v: Vec<u8> = Vec::new();
        if n == 0 {
            assert(v@ =~= old(self).rest().take(0));
            assert(self.rest() =~= old(self).rest().skip(0));
            return v;
        }
        let start = self.position;
        let mut i: usize = 0;
        while i < n
            invariant
                consumed(*old(self), *self),
                i <= n,
                start == old(self).position,
                self.buffer == old(self).buffer,
                self.position == start + i,
                start + n <= self.buffer@.len(),
                v@ == old(self).rest().take(i as int),
            decreases n - i,
        {
            let b = self.buffer[self.position];
            v.push(b);
            self.position = self.position + 1;
            i = i + 1;
            assert(v@ =~= old(self).rest().take(i as int));
        }
        assert(self.rest() =~= old(self).rest().skip(n as int));
        v
    }

    /// Takes everything that is left.
    pub fn read_to_end(&mut self) -> (v: Vec<u8>)
        ensures
            consumed(*old(self), *final(self)),
            v@ == old(self).rest(),
            final(self).rest().len() == 0,
    {
        let n = self.remaining();
        let v = self.take_bytes(n);
        assert(old(self).rest().take(n as int) =~= old(self).rest());
        v
    }

    /// Reads one byte.
    pub fn read_u8(&mut self) -> (r: Result<u8>)
        ensures
            consumed(*old(self), *final(self)),
            reads(
                r,
                if old(self).rest().len() >= 1 {
                    Ok((old(self).rest()[0], 1))
                } else {
                    Err(ErrorKind::InsufficientData { needed: 1, available: 0 })
                },
                old(self).rest(),
                final(self).rest(),
            ),
    {
        if self.remaining() < 1 {
            return Err(self.insufficient(1));
        }
        Ok(self.take_u8())
    }

    /// Reads a single tag byte.
    pub fn read_tag(&mut self) -> (r: Result<u8>)
        ensures
            consumed(*old(self), *final(self)),
            reads(
                r,
                if old(self).rest().len() >= 1 {
                    Ok((old(self).rest()[0], 1))
                } else {
                    Err(ErrorKind::InsufficientData { needed: 1, available: 0 })
                },
                old(self).rest(),
                final(self).rest(),
            ),
    {
        self.read_u8()
    }

    /// Reads a length field in short or long form.
    pub fn read_length(&mut self) -> (r: Result<usize>)
        ensures
            consumed(*old(self), *final(self)),
            reads(r, parse_length(old(self).rest()), old(self).rest(), final(self).rest()),
    {
        reveal(parse_length);
        if self.remaining() < 1 {
            return Err(self.insufficient(1));
        }
        let first = self.take_u8();
        if first < 128 {
            return Ok(first as usize);
        }
        let num_octets = (first - 128) as usize;
        if num_octets == 0 {
            return Err(PduError::parse("indefinite length not supported"));
        }
        if num_octets > 4 {
            return Err(PduError::parse("length octets too large"));
        }
        if self.remaining() < num_octets {
            return Err(self.insufficient(num_octets));
        }
        let ghost s = old(self).rest();
        let mut length: usize = 0;
        let mut i: usize = 0;
        while i < num_octets
            invariant
                consumed(*old(self), *self),
                i <= num_octets <= 4,
                self.rest().len() >= num_octets - i,
                self.rest() == s.skip(1 + i),
                s.len() >= 1 + num_octets,
                length == be_value(s.subrange(1, 1 + i)),
                length < pow256(i as nat),
            decreases num_octets - i,
        {
            proof {
                lemma_pow256_values();
                assert(pow256(i as nat) <= pow256(3)) by {
                    reveal_with_fuel(pow256, 4);
                }
            }
            let b = self.take_u8();
            assert(s.subrange(1, 1 + i + 1).drop_last() =~= s.subrange(1, 1 + i));
            length = length * 256 + b as usize;
            i = i + 1;
            assert(self.rest() =~= s.skip(1 + i));
            proof {
                lemma_be_value_bound(s.subrange(1, 1 + i));
            }
        }
        Ok(length)
    }

    /// Reads a tag byte that must be `tag`, then a length field.
    fn read_header(&mut self, tag: u8) -> (r: Result<usize>)
        ensures
            consumed(*old(self), *final(self)),
            tag_error(r, old(self).rest(), tag),
            reads(r, parse_header(old(self).rest(), tag), old(self).rest(), final(self).rest()),
    {
        reveal(parse_header);
        if self.remaining() < 1 {
            return Err(self.insufficient(1));
        }
        let t = self.take_u8();
        if t != tag {
            return Err(PduError::tag_mismatch(tag, t));
        }
        let r = self.read_length();
        proof {
            if r is Ok {
                assert(final(self).rest() =~= old(self).rest().skip(
                    parse_header(old(self).rest(), tag)->Ok_0.1 as int,
                ));
            }
        }
        r
    }

    /// Reads an INTEGER of one to four content octets.
    pub fn read_integer(&mut self) -> (r: Result<u32>)
        ensures
            consumed(*old(self), *final(self)),
            tag_error(r, old(self).rest(), TAG_INTEGER),
            reads(r, parse_integer(old(self).rest()), old(self).rest(), final(self).rest()),
    {
        reveal(parse_integer);
        reveal(parse_header);
        let ghost s = old(self).rest();
        let length = self.read_header(TAG_INTEGER)?;
        if length == 0 || length > 4 {
            return Err(PduError::parse("invalid INTEGER length"));
        }
        if self.remaining() < length {
            return Err(self.insufficient(length));
        }
        let ghost h = parse_header(s, TAG_INTEGER)->Ok_0.1;
        let ghost body = self.rest();
        let mut value: u32 = 0;
        let mut i: usize = 0;
        while i < length
            invariant
                consumed(*old(self), *self),
                i <= length <= 4,
                body == s.skip(h as int),
                body.len() >= length,
                self.rest() == body.skip(i as int),
                value == be_value(body.subrange(0, i as int)),
                value < pow256(i as nat),
            decreases length - i,
        {
            proof {
                lemma_pow256_values();
                assert(pow256(i as nat) <= pow256(3)) by {
                    reveal_with_fuel(pow256, 4);
                }
            }
            let b = self.take_u8();
            assert(body.subrange(0, i + 1).drop_last() =~= body.subrange(0, i as int));
            value = value * 256 + b as u32;
            i = i + 1;
            assert(self.rest() =~= body.skip(i as int));
            proof {
                lemma_be_value_bound(body.subrange(0, i as int));
            }
        }
        assert(body.subrange(0, length as int) =~= s.subrange(h as int, h + length));
        assert(self.rest() =~= s.skip(h + length));
        Ok(value)
    }

    /// Reads a one-octet primitive under `tag`.
    fn read_octet(&mut self, tag: u8) -> (r: Result<u8>)
        ensures
            consumed(*old(self), *final(self)),
            tag_error(r, old(self).rest(), tag),
            reads(r, parse_octet(old(self).rest(), tag), old(self).rest(), final(self).rest()),
    {
        reveal(parse_octet);
        reveal(parse_header);
        let ghost s = old(self).rest();
        let length = self.read_header(tag)?;
        if length != 1 {
            return Err(PduError::parse("invalid primitive length"));
        }
        if self.remaining() < 1 {
            return Err(self.insufficient(1));
        }
        let v = self.take_u8();
        assert(self.rest() =~= s.skip(parse_header(s, tag)->Ok_0.1 + 1));
        Ok(v)
    }

    /// Reads an ENUMERATED of exactly one content octet.
    pub fn read_enumerated(&mut self) -> (r: Result<u8>)
        ensures
            consumed(*old(self), *final(self)),
            tag_error(r, old(self).rest(), TAG_ENUMERATED),
            reads(
                r,
                parse_octet(old(self).rest(), TAG_ENUMERATED),
                old(self).rest(),
                final(self).rest(),
            ),
    {
        self.read_octet(TAG_ENUMERATED)
    }

    /// Reads a BOOLEAN: false exactly when its octet is zero.
    pub fn read_boolean(&mut self) -> (r: Result<bool>)
        ensures
            consumed(*old(self), *final(self)),
            tag_error(r, old(self).rest(), TAG_BOOLEAN),
            match parse_octet(old(self).rest(), TAG_BOOLEAN) {
                Ok((v, n)) => r == Ok::<bool, PduError>(v != 0) && final(self).rest() == old(self).rest().skip(n as int),
                Err(k) => r is Err && r->Err_0.spec_kind() == k,
            },
    {
        let v = self.read_octet(TAG_BOOLEAN)?;
        Ok(v != 0)
    }

    /// Reads `length` bytes.
    pub fn read_bytes(&mut self, length: usize) -> (r: Result<Vec<u8>>)
        ensures
            consumed(*old(self), *final(self)),
            old(self).rest().len() >= length ==> r is Ok && r->Ok_0@ == old(self).rest().take(
                length as int,
            ) && final(self).rest() == old(self).rest().skip(length as int),
            old(self).rest().len() < length ==> r is Err && r->Err_0.spec_kind()
                == (ErrorKind::InsufficientData {
                needed: length,
                available: old(self).rest().len() as usize,
            }),
    {
        if self.remaining() < length {
            return Err(self.insufficient(length));
        }
        Ok(self.take_bytes(length))
    }

    /// Reads an OCTET STRING into an owned buffer.
    pub fn read_octet_string(&mut self) -> (r: Result<Vec<u8>>)
        ensures
            consumed(*old(self), *final(self)),
            tag_error(r, old(self).rest(), TAG_OCTET_STRING),
            match parse_octet_string(old(self).rest()) {
                Ok((v, n)) => r is Ok && r->Ok_0@ == v && final(self).rest() == old(self).rest().skip(n as int),
                Err(k) => r is Err && r->Err_0.spec_kind() == k,
            },
    {
        reveal(parse_octet_string);
        reveal(parse_header);
        let ghost s = old(self).rest();
        let length = self.read_header(TAG_OCTET_STRING)?;
        let ghost h = parse_header(s, TAG_OCTET_STRING)->Ok_0.1;
        let v = self.read_bytes(length)?;
        assert(v@ =~= s.subrange(h as int, h + length));
        assert(self.rest() =~= s.skip(h + length));
        Ok(v)
    }

    /// Reads a tag byte `tag`, a length, and the body that the length announces.
    pub fn read_envelope(&mut self, tag: u8) -> (r: Result<Vec<u8>>)
        ensures
            consumed(*old(self), *final(self)),
            tag_error(r, old(self).rest(), tag),
            match parse_envelope(old(self).rest(), tag) {
                Ok((v, n)) => r is Ok && r->Ok_0@ == v && 0 <= n <= old(self).rest().len() && final(self).rest() == old(self).rest().skip(n as int),
                Err(k) => r is Err && r->Err_0.spec_kind() == k,
            },
    {
        reveal(parse_envelope);
        reveal(parse_header);
        let ghost s = old(self).rest();
        let length = self.read_header(tag)?;
        let ghost h = parse_header(s, tag)->Ok_0.1;
        let v = self.read_bytes(length)?;
        assert(v@ =~= s.subrange(h as int, h + length));
        assert(self.rest() =~= s.skip(h + length));
        Ok(v)
    }

    /// Reads `k` INTEGERs.
    pub fn read_integers(&mut self, k: usize) -> (r: Result<Vec<u32>>)
        ensures
            consumed(*old(self), *final(self)),
            match parse_integers(old(self).rest(), k as nat) {
                Ok((v, n)) => r is Ok && r->Ok_0@ == v && 0 <= n <= old(self).rest().len() && final(self).rest() == old(self).rest().skip(n as int),
                Err(e) => r is Err && r->Err_0.spec_kind() == e,
            },
    {
        let ghost s = old(self).rest();
        let mut vs: Vec<u32> = Vec::new();
        let mut i: usize = 0;
        let ghost mut m: int = 0;
        assert(s.skip(0) =~= s);
        while i < k
            invariant
                consumed(*old(self), *self),
                i <= k,
                s == old(self).rest(),
                parse_integers(s, i as nat) == Ok::<(Seq<u32>, int), ErrorKind>((vs@, m)),
                0 <= m <= s.len(),
                self.rest() == s.skip(m),
            decreases k - i,
        {
            let v = match self.read_integer() {
                Ok(v) => v,
                Err(e) => {
                    proof {
                        assert(((i + 1) as nat - 1) as nat == i as nat);
                        assert(parse_integers(s, (i + 1) as nat) == Err::<(Seq<u32>, int), ErrorKind>(e.spec_kind()));
                        lemma_integers_error_sticks(s, (i + 1) as nat, k as nat);
                    }
                    return Err(e);
                },
            };
            let ghost n = parse_integer(s.skip(m))->Ok_0.1;
            proof {
                assert(s.skip(m).skip(n) =~= s.skip(m + n));
                m = m + n;
            }
            vs.push(v);
            i = i + 1;
        }
        Ok(vs)
    }

    /// Reads an APPLICATION tag with number `tag` and returns its length.
    pub fn read_application_tag(&mut self, tag: u8) -> (r: Result<usize>)
        ensures
            consumed(*old(self), *final(self)),
            tag_error(r, old(self).rest(), CLASS_APPLICATION | tag),
            reads(
                r,
                parse_header(old(self).rest(), CLASS_APPLICATION | tag),
                old(self).rest(),
                final(self).rest(),
            ),
    {
        self.read_header(CLASS_APPLICATION | tag)
    }

    /// Reads a context-specific tag with number `tag` and returns its length.
    pub fn read_context_tag(&mut self, tag: u8) -> (r: Result<usize>)
        ensures
            consumed(*old(self), *final(self)),
            tag_error(r, old(self).rest(), CLASS_CONTEXT | tag),
            reads(
                r,
                parse_header(old(self).rest(), CLASS_CONTEXT | tag),
                old(self).rest(),
                final(self).rest(),
            ),
    {
        self.read_header(CLASS_CONTEXT | tag)
    }
}

// ---------------------------------------------------------------------------
// The writer.

/// Appends the minimal big-endian digits of `n`.
fn push_be_digits(out: &mut Vec<u8>, n: usize)
    ensures
        final(out)@ == old(out)@ + be_digits(n as nat),
    decreases n,
{
    if n == 0 {
        assert(old(out)@ + be_digits(0) =~= old(out)@);
        return;
    }
    push_be_digits(out, n / 256);
    out.push((n % 256) as u8);
    assert(final(out)@ =~= old(out)@ + be_digits(n as nat));
}

/// How many digits `push_be_digits` writes for `n`.
fn digit_count(n: usize) -> (k: u8)
    ensures
        k as nat == be_digits(n as nat).len(),
        k <= 8,
{
    proof {
        lemma_pow256_values();
        lemma_digits_len(n as nat, 8);
    }
    let mut temp = n;
    let mut k: u8 = 0;
    while temp > 0
        invariant
            k as nat + be_digits(temp as nat).len() == be_digits(n as nat).len(),
            be_digits(n as nat).len() <= 8,
        decreases temp,
    {
        temp = temp / 256;
        k = k + 1;
    }
    k
}

/// A BER writer over an owned, growing buffer.
pub struct BerWriter {
    buffer: Vec<u8>,
}

impl View for BerWriter {
    type V = Seq<u8>;

    closed spec fn view(&self) -> Seq<u8> {
        self.buffer@
    }
}

impl BerWriter {
    /// An empty writer.
    pub fn new() -> (w: Self)
        ensures
            w@ == Seq::<u8>::empty(),
    {
        BerWriter { buffer: Vec::new() }
    }

    /// The bytes written.
    pub fn into_bytes(self) -> (v: Vec<u8>)
        ensures
            v@ == self@,
    {
        self.buffer
    }

    /// The bytes written so far.
    pub fn as_bytes(&self) -> (v: &[u8])
        ensures
            v@ == self@,
    {
        self.buffer.as_slice()
    }

    /// Appends one tag byte.
    pub fn write_tag(&mut self, tag: u8)
        ensures
            final(self)@ == old(self)@.push(tag),
    {
        self.buffer.push(tag);
    }

    /// Appends a length field: short form below 128, else the minimal long form.
    pub fn write_length(&mut self, length: usize)
        ensures
            final(self)@ == old(self)@ + ber_length(length as nat),
    {
        if length < 128 {
            self.buffer.push(length as u8);
            assert(final(self)@ =~= old(self)@ + ber_length(length as nat));
        } else {
            let k = digit_count(length);
            self.buffer.push(0x80 + k);
            push_be_digits(&mut self.buffer, length);
            assert(final(self)@ =~= old(self)@ + ber_length(length as nat));
        }
    }

    /// Appends `data` verbatim.
    pub fn write_raw(&mut self, data: &[u8])
        ensures
            final(self)@ == old(self)@ + data@,
    {
        put_bytes(&mut self.buffer, data);
    }

    /// Appends tag, length and content.
    pub fn write_tlv(&mut self, tag: u8, content: &[u8])
        ensures
            final(self)@ == old(self)@ + ber_tlv(tag, content@),
    {
        self.write_tag(tag);
        self.write_length(content.len());
        self.write_raw(content);
        assert(final(self)@ =~= old(self)@ + ber_tlv(tag, content@));
    }

    /// Appends an INTEGER: minimal content octets, never read as negative.
    pub fn write_integer(&mut self, value: u32)
        ensures
            final(self)@ == old(self)@ + ber_integer(value),
    {
        let mut content: Vec<u8> = Vec::new();
        if value == 0 {
            content.push(0);
            assert(content@ =~= int_content(value));
        } else {
            proof {
                lemma_pow256_values();
                lemma_digits_len(value as nat, 4);
            }
            let mut digits: Vec<u8> = Vec::new();
            push_be_digits(&mut digits, value as usize);
            assert(digits@ =~= be_digits(value as nat));
            if digits[0] >= 128 {
                content.push(0);
            }
            put_bytes(&mut content, digits.as_slice());
            assert(content@ =~= int_content(value));
        }
        self.write_tlv(TAG_INTEGER, content.as_slice());
    }

    /// Appends an OCTET STRING.
    pub fn write_octet_string(&mut self, data: &[u8])
        ensures
            final(self)@ == old(self)@ + ber_octet_string(data@),
    {
        self.write_tlv(TAG_OCTET_STRING, data);
    }

    /// Appends a BOOLEAN, 0xFF for true.
    pub fn write_boolean(&mut self, value: bool)
        ensures
            final(self)@ == old(self)@ + ber_boolean(value),
    {
        let content: [u8; 1] = [if value { 0xFF } else { 0x00 }];
        assert(content@ =~= seq![if value { 0xFFu8 } else { 0u8 }]);
        self.write_tlv(TAG_BOOLEAN, content.as_slice());
    }

    /// Appends an ENUMERATED of one octet.
    pub fn write_enumerated(&mut self, value: u8)
        ensures
            final(self)@ == old(self)@ + ber_enumerated(value),
    {
        let content: [u8; 1] = [value];
        assert(content@ =~= seq![value]);
        self.write_tlv(TAG_ENUMERATED, content.as_slice());
    }

    /// Appends a SEQUENCE around the already encoded `content`.
    pub fn write_sequence(&mut self, content: &[u8])
        ensures
            final(self)@ == old(self)@ + ber_tlv(TAG_SEQUENCE, content@),
    {
        self.write_tlv(TAG_SEQUENCE, content);
    }

    /// Appends an APPLICATION tag with number `tag` around `content`.
    pub fn write_application_tag(&mut self, tag: u8, content: &[u8])
        ensures
            final(self)@ == old(self)@ + ber_tlv(CLASS_APPLICATION | tag, content@),
    {
        self.write_tlv(CLASS_APPLICATION | tag, content);
    }

    /// Appends a context-specific tag with number `tag` around `content`.
    pub fn write_context_tag(&mut self, tag: u8, content: &[u8])
        ensures
            final(self)@ == old(self)@ + ber_tlv(CLASS_CONTEXT | tag, content@),
    {
        self.write_tlv(CLASS_CONTEXT | tag, content);
    }
}

impl Default for BerWriter {
    fn default() -> (w: Self)
        ensures
            w@ == Seq::<u8>::empty(),
    {
        BerWriter::new()
    }
}

/// A long-form length whose first byte is 0x80 (the indefinite form) is
/// refused as a parse error.
pub proof fn lemma_indefinite_length_refused(s: Seq<u8>)
    requires
        s.len() >= 1,
        s[0] == 0x80,
    ensures
        parse_length(s) == Err::<(usize, int), ErrorKind>(ErrorKind::ParseError),
{
    reveal(parse_length);
}

/// A tag-length-value triple is read back as its body, and the bytes after
/// it stay unread.
pub proof fn lemma_envelope_round_trip(tag: u8, content: Seq<u8>, tail: Seq<u8>)
    requires
        content.len() < 4294967296,
    ensures
        parse_envelope(ber_tlv(tag, content) + tail, tag) == Ok::<(Seq<u8>, int), ErrorKind>(
            (content, ber_tlv(tag, content).len() as int),
        ),
        (ber_tlv(tag, content) + tail).skip(ber_tlv(tag, content).len() as int) == tail,
{
    reveal(parse_envelope);
    lemma_header_round_trip(tag, content, tail);
    let s = ber_tlv(tag, content) + tail;
    let h = 1 + ber_length(content.len()).len();
    assert(s.subrange(h as int, h + content.len() as int) =~= content);
    assert(s.skip(ber_tlv(tag, content).len() as int) =~= tail);
}

/// A one-octet primitive is read back as written.
pub proof fn lemma_octet_round_trip(tag: u8, v: u8, tail: Seq<u8>)
    ensures
        parse_octet(ber_tlv(tag, seq![v]) + tail, tag) == Ok::<(u8, int), ErrorKind>((v, 3)),
        ber_tlv(tag, seq![v]).len() == 3,
        (ber_tlv(tag, seq![v]) + tail).skip(3) == tail,
{
    reveal(parse_octet);
    lemma_header_round_trip(tag, seq![v], tail);
    let s = ber_tlv(tag, seq![v]) + tail;
    assert(s.skip(3) =~= tail);
}

/// An INTEGER takes at most seven bytes.
pub proof fn lemma_integer_len(v: u32)
    ensures
        3 <= ber_integer(v).len() <= 7,
{
    lemma_pow256_values();
    if v > 0 {
        lemma_digits_len(v as nat, 4);
    }
}

/// An INTEGER below 2^31 followed by `tail` leaves `tail` once read.
pub proof fn lemma_integer_rest(v: u32, tail: Seq<u8>)
    requires
        v < 0x8000_0000,
    ensures
        parse_integer(ber_integer(v) + tail) == Ok::<(u32, int), ErrorKind>((v, ber_integer(v).len() as int)),
        (ber_integer(v) + tail).skip(ber_integer(v).len() as int) == tail,
{
    lemma_integer_round_trip(v, tail);
    assert((ber_integer(v) + tail).skip(ber_integer(v).len() as int) =~= tail);
}

/// INTEGERs one after another.
pub open spec fn integers_bytes(v: Seq<u32>) -> Seq<u8>
    decreases v.len(),
{
    if v.len() == 0 {
        Seq::empty()
    } else {
        integers_bytes(v.drop_last()) + ber_integer(v.last())
    }
}

/// INTEGERs below 2^31 written one after another are read back, and the
/// bytes after them stay unread.
pub proof fn lemma_integers_round_trip(v: Seq<u32>, tail: Seq<u8>)
    requires
        forall|i: int| 0 <= i < v.len() ==> #[trigger] v[i] < 0x8000_0000,
    ensures
        parse_integers(integers_bytes(v) + tail, v.len()) == Ok::<(Seq<u32>, int), ErrorKind>(
            (v, integers_bytes(v).len() as int),
        ),
    decreases v.len(),
{
    if v.len() == 0 {
        assert(v =~= Seq::<u32>::empty());
    } else {
        let init = v.drop_last();
        let last = v.last();
        let s = integers_bytes(v) + tail;
        assert(s =~= integers_bytes(init) + (ber_integer(last) + tail));
        assert forall|i: int| 0 <= i < init.len() implies #[trigger] init[i] < 0x8000_0000 by {
            assert(init[i] == v[i]);
        }
        lemma_integers_round_trip(init, ber_integer(last) + tail);
        assert(s.skip(integers_bytes(init).len() as int) =~= ber_integer(last) + tail);
        assert(v[v.len() - 1] < 0x8000_0000);
        lemma_integer_round_trip(last, tail);
        assert(init.push(last) =~= v);
        assert((v.len() - 1) as nat == init.len());
    }
}

/// An OCTET STRING is read back as written, and the bytes after it stay unread.
pub proof fn lemma_octet_string_round_trip(d: Seq<u8>, tail: Seq<u8>)
    requires
        d.len() < 4294967296,
    ensures
        parse_octet_string(ber_octet_string(d) + tail) == Ok::<(Seq<u8>, int), ErrorKind>(
            (d, ber_octet_string(d).len() as int),
        ),
        (ber_octet_string(d) + tail).skip(ber_octet_string(d).len() as int) == tail,
{
    reveal(parse_octet_string);
    lemma_header_round_trip(TAG_OCTET_STRING, d, tail);
    let s = ber_octet_string(d) + tail;
    let h = 1 + ber_length(d.len()).len();
    assert(s.subrange(h as int, h + d.len() as int) =~= d);
    assert(s.skip(ber_octet_string(d).len() as int) =~= tail);
}

/// A length field of a length below 2^32 takes at most five bytes.
pub proof fn lemma_tlv_len(tag: u8, content: Seq<u8>)
    requires
        content.len() < 4294967296,
    ensures
        ber_tlv(tag, content).len() <= 6 + content.len(),
{
    lemma_pow256_values();
    lemma_digits_len(content.len(), 4);
}

} // verus!
