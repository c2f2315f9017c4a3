//! UTF-16LE strings on the wire: counted and NUL-terminated, or in fixed-size
//! zero-padded fields.
use vstd::prelude::*;
use vstd::std_specs::iter::IteratorSpec;
use crate::ber::BerReader;
use crate::bytes::{get_le16, le16, put_u16_le};

verus! {

/// The UTF-16 code units of one character: itself below 0x10000, else a
/// surrogate pair.
pub open spec fn utf16_char(c: char) -> Seq<u16> {
    let v = c as u32;
    if v < 0x10000 {
        seq![v as u16]
    } else {
        seq![(0xD800 + (v - 0x10000) / 1024) as u16, (0xDC00 + (v - 0x10000) % 1024) as u16]
    }
}

/// The UTF-16 code units of a string.
pub open spec fn utf16_encode(s: Seq<char>) -> Seq<u16>
    decreases s.len(),
{
    if s.len() == 0 {
        Seq::empty()
    } else {
        utf16_encode(s.drop_last()) + utf16_char(s.last())
    }
}

/// Code units that some string encodes to.
pub open spec fn utf16_valid(u: Seq<u16>) -> bool {
    exists|c: Seq<char>| utf16_encode(c) == u
}

/// Code units as little-endian bytes.
pub open spec fn units_bytes(u: Seq<u16>) -> Seq<u8>
    decreases u.len(),
{
    if u.len() == 0 {
        Seq::empty()
    } else {
        units_bytes(u.drop_last()) + le16(u.last())
    }
}

/// The little-endian code units of `b`, two bytes each.
pub open spec fn units_of(b: Seq<u8>) -> Seq<u16> {
    Seq::new(b.len() / 2, |i: int| get_le16(b, 2 * i))
}

/// `u` without its trailing zero units.
pub open spec fn trim_zeros(u: Seq<u16>) -> Seq<u16>
    decreases u.len(),
{
    if u.len() > 0 && u.last() == 0 {
        trim_zeros(u.drop_last())
    } else {
        u
    }
}

/// `u` up to its first zero unit.
pub open spec fn until_zero(u: Seq<u16>) -> Seq<u16>
    decreases u.len(),
{
    if u.len() == 0 {
        u
    } else if u[0] == 0 {
        Seq::empty()
    } else {
        seq![u[0]] + until_zero(u.drop_first())
    }
}

/// Appends the UTF-16 code units of one character.
fn push_utf16_char(out: &mut Vec<u16>, c: char)
    ensures
        final(out)@ == old(out)@ + utf16_char(c),
{
    let v = c as u32;
    if v < 0x10000 {
        out.push(v as u16);
    } else {
        proof {
            vstd::utf8::char_is_scalar(c);
        }
        out.push((0xD800 + (v - 0x10000) / 1024) as u16);
        out.push((0xDC00 + (v - 0x10000) % 1024) as u16);
    }
    assert(final(out)@ =~= old(out)@ + utf16_char(c));
}

/// The UTF-16 code units of a string.
pub fn utf16_units(s: &str) -> (r: Vec<u16>)
    ensures
        r@ == utf16_encode(s@),
{
    broadcast use vstd::string::axiom_spec_iter, vstd::string::next_postcondition;

    let ghost all = s@;
    let mut it = s.chars();
    let mut out: Vec<u16> = Vec::new();
    let ghost mut k: int = 0;
    assert(all.skip(0) =~= all);
    assert(all.take(0) =~= Seq::<char>::empty());
    loop
        invariant
            all == s@,
            0 <= k <= all.len(),
            it.remaining() == all.skip(k),
            it.obeys_prophetic_iter_laws(),
            out@ == utf16_encode(all.take(k)),
        ensures
            out@ == utf16_encode(s@),
        decreases all.len() - k,
    {
        match it.next() {
            Some(c) => {
                push_utf16_char(&mut out, c);
                proof {
                    assert(all.take(k + 1).drop_last() =~= all.take(k));
                    assert(all.skip(k + 1) =~= all.skip(k).drop_first());
                    k = k + 1;
                }
            },
            None => {
                assert(all.take(k) =~= all);
                break;
            },
        }
    }
    out
}

/// Relies on `String::from_utf16`: the string whose code units these are, or
/// None where they hold an unpaired surrogate.
#[verifier::external_body]
pub fn string_from_utf16(v: &[u16]) -> (r: Option<String>)
    ensures
        r is Some <==> utf16_valid(v@),
        r matches Some(s) ==> utf16_encode(s@) == v@,
{
    String::from_utf16(v).ok()
}

/// Appends code units as little-endian bytes.
pub fn put_units(buffer: &mut Vec<u8>, u: &[u16])
    ensures
        final(buffer)@ == old(buffer)@ + units_bytes(u@),
{
    let ghost start = buffer@;
    let mut i: usize = 0;
    while i < u.len()
        invariant
            i <= u@.len(),
            buffer@ == start + units_bytes(u@.take(i as int)),
        decreases u@.len() - i,
    {
        put_u16_le(buffer, u[i]);
        assert(u@.take(i + 1).drop_last() =~= u@.take(i as int));
        i = i + 1;
        assert(buffer@ =~= start + units_bytes(u@.take(i as int)));
    }
    assert(u@.take(i as int) =~= u@);
}

/// Code units take two bytes each.
pub proof fn lemma_units_bytes_len(u: Seq<u16>)
    ensures
        units_bytes(u).len() == 2 * u.len(),
    decreases u.len(),
{
    if u.len() > 0 {
        lemma_units_bytes_len(u.drop_last());
    }
}

/// Reads `n` code units, which must be there.
pub fn take_units(buffer: &mut BerReader, n: usize) -> (r: Vec<u16>)
    requires
        old(buffer).rest().len() >= 2 * n,
    ensures
        crate::ber::consumed(*old(buffer), *final(buffer)),
        r@ == units_of(old(buffer).rest().take(2 * n)),
        final(buffer).rest() == old(buffer).rest().skip(2 * n),
{
    let ghost s = old(buffer).rest();
    let mut r: Vec<u16> = Vec::new();
    let mut i: usize = 0;
    assert(s.skip(0) =~= s);
    while i < n
        invariant
            crate::ber::consumed(*old(buffer), *buffer),
            i <= n,
            s == old(buffer).rest(),
            s.len() >= 2 * n,
            buffer.rest() == s.skip(2 * i),
            r@ =~= units_of(s.take(2 * i)),
        decreases n - i,
    {
        let v = buffer.take_u16_le();
        r.push(v);
        i = i + 1;
        assert(buffer.rest() =~= s.skip(2 * i));
        assert(r@ =~= units_of(s.take(2 * i)));
    }
    r
}

/// Drops the trailing zero units.
pub fn trim_trailing_zeros(u: &mut Vec<u16>)
    ensures
        final(u)@ == trim_zeros(old(u)@),
{
    while u.len() > 0 && u[u.len() - 1] == 0
        invariant
            trim_zeros(u@) == trim_zeros(old(u)@),
        decreases u@.len(),
    {
        let ghost before = u@;
        let _ = u.pop();
        assert(u@ =~= before.drop_last());
    }
}

/// The units before the first zero.
pub fn units_until_zero(u: &[u16]) -> (r: Vec<u16>)
    ensures
        r@ == until_zero(u@),
{
    let mut r: Vec<u16> = Vec::new();
    let mut i: usize = 0;
    assert(u@.skip(0) =~= u@);
    assert(r@ + until_zero(u@) =~= until_zero(u@));
    while i < u.len() && u[i] != 0
        invariant
            i <= u@.len(),
            forall|k: int| 0 <= k < i ==> u@[k] != 0,
            r@ == u@.take(i as int),
            until_zero(u@) == r@ + until_zero(u@.skip(i as int)),
        decreases u@.len() - i,
    {
        proof {
            let t = u@.skip(i as int);
            assert(t.drop_first() =~= u@.skip(i + 1));
            assert(until_zero(t) == seq![t[0]] + until_zero(t.drop_first()));
            assert(r@.push(u@[i as int]) + until_zero(u@.skip(i + 1)) =~= r@ + until_zero(t));
        }
        r.push(u[i]);
        i = i + 1;
        assert(r@ =~= u@.take(i as int));
    }
    proof {
        let t = u@.skip(i as int);
        if i < u@.len() {
            assert(t[0] == 0);
        } else {
            assert(t.len() == 0);
        }
        assert(r@ + until_zero(t) =~= r@);
    }
    r
}

/// The fixed 64-byte field of a UTF-16 name: at most `max` units, zero padded.
pub open spec fn name_field(u: Seq<u16>, max: nat) -> Seq<u8> {
    let k = if u.len() < max { u.len() } else { max };
    units_bytes(u.take(k as int)) + Seq::new((64 - 2 * k) as nat, |i: int| 0u8)
}

/// The name in a fixed 64-byte field: the units before the first zero, or
/// nothing where they are no valid UTF-16.
pub open spec fn parse_name_field(b: Seq<u8>) -> Seq<u16> {
    let u = until_zero(units_of(b));
    if utf16_valid(u) {
        u
    } else {
        Seq::empty()
    }
}

/// Writes the first `max` units of `name` into a 64-byte field.
pub fn put_name_field(buffer: &mut Vec<u8>, name: &str, max: usize)
    requires
        max <= 32,
    ensures
        final(buffer)@ == old(buffer)@ + name_field(utf16_encode(name@), max as nat),
{
    let units = utf16_units(name);
    let k: usize = if units.len() < max { units.len() } else { max };
    let mut head: Vec<u16> = Vec::new();
    let mut i: usize = 0;
    while i < k
        invariant
            i <= k <= units@.len(),
            k <= max <= 32,
            head@ == units@.take(i as int),
        decreases k - i,
    {
        head.push(units[i]);
        i = i + 1;
        assert(head@ =~= units@.take(i as int));
    }
    let ghost mid = buffer@;
    put_units(buffer, head.as_slice());
    proof {
        lemma_units_bytes_len(head@);
    }
    let ghost after_units = buffer@;
    let mut j: usize = 2 * k;
    while j < 64
        invariant
            k <= 32,
            2 * k <= j <= 64,
            buffer@ == after_units + Seq::new((j - 2 * k) as nat, |i: int| 0u8),
        decreases 64 - j,
    {
        buffer.push(0);
        j = j + 1;
        assert(buffer@ =~= after_units + Seq::new((j - 2 * k) as nat, |i: int| 0u8));
    }
    assert(final(buffer)@ =~= old(buffer)@ + name_field(utf16_encode(name@), max as nat));
}

/// Reads a 64-byte name field.
pub fn read_name_field(buffer: &mut BerReader) -> (r: String)
    requires
        old(buffer).rest().len() >= 64,
    ensures
        crate::ber::consumed(*old(buffer), *final(buffer)),
        utf16_encode(r@) == parse_name_field(old(buffer).rest().take(64)),
        final(buffer).rest() == old(buffer).rest().skip(64),
{
    let units = take_units(buffer, 32);
    let name = units_until_zero(units.as_slice());
    match string_from_utf16(name.as_slice()) {
        Some(s) => s,
        None => {
            let e = String::new();
            assert(utf16_encode(e@) =~= Seq::<u16>::empty()) by {
                assert(e@.len() == 0);
            }
            e
        },
    }
}


/// The bytes of code unit `i` are where `units_bytes` puts them.
pub proof fn lemma_units_bytes_index(u: Seq<u16>, i: int)
    requires
        0 <= i < u.len(),
    ensures
        units_bytes(u).len() == 2 * u.len(),
        get_le16(units_bytes(u), 2 * i) == u[i],
    decreases u.len(),
{
    lemma_units_bytes_len(u);
    let init = u.drop_last();
    lemma_units_bytes_len(init);
    if i < u.len() - 1 {
        lemma_units_bytes_index(init, i);
        assert(units_bytes(u)[2 * i] == units_bytes(init)[2 * i]);
        assert(units_bytes(u)[2 * i + 1] == units_bytes(init)[2 * i + 1]);
    } else {
        crate::bytes::lemma_le16(u.last());
        assert(units_bytes(u)[2 * i] == le16(u.last())[0]);
        assert(units_bytes(u)[2 * i + 1] == le16(u.last())[1]);
    }
}

/// Reading up to the first zero unit stops after `n` units when the first
/// `n` are nonzero and the next is zero or absent.
pub proof fn lemma_until_zero_stops(w: Seq<u16>, n: int)
    requires
        0 <= n <= w.len(),
        forall|i: int| 0 <= i < n ==> w[i] != 0,
        n == w.len() || w[n] == 0,
    ensures
        until_zero(w) == w.take(n),
    decreases n,
{
    if w.len() == 0 {
        assert(w.take(n) =~= w);
    } else if n == 0 {
        assert(w.take(0) =~= Seq::<u16>::empty());
    } else {
        let r = w.drop_first();
        assert forall|i: int| 0 <= i < n - 1 implies r[i] != 0 by {
            assert(r[i] == w[i + 1]);
        }
        if n < w.len() {
            assert(r[n - 1] == w[n]);
        }
        lemma_until_zero_stops(r, n - 1);
        assert(seq![w[0]] + r.take(n - 1) =~= w.take(n));
    }
}

/// A name of at most `max` nonzero units, written to its field, is read back.
pub proof fn lemma_name_field_round_trip(u: Seq<u16>, max: nat)
    requires
        u.len() <= max <= 32,
        utf16_valid(u),
        forall|i: int| 0 <= i < u.len() ==> u[i] != 0,
    ensures
        name_field(u, max).len() == 64,
        parse_name_field(name_field(u, max)) == u,
{
    let b = name_field(u, max);
    assert(u.take(u.len() as int) =~= u);
    lemma_units_bytes_len(u);
    let w = units_of(b);
    assert(w.len() == 32);
    assert forall|i: int| 0 <= i < u.len() implies w[i] == u[i] by {
        lemma_units_bytes_index(u, i);
        assert(b[2 * i] == units_bytes(u)[2 * i]);
        assert(b[2 * i + 1] == units_bytes(u)[2 * i + 1]);
    }
    if u.len() < 32 {
        assert(b[2 * u.len() as int] == 0u8);
        assert(b[2 * u.len() as int + 1] == 0u8);
        assert(w[u.len() as int] == 0);
    }
    lemma_until_zero_stops(w, u.len() as int);
    assert(w.take(u.len() as int) =~= u);
}

/// Code units written and read back two bytes each give the units again.
pub proof fn lemma_units_of_bytes(u: Seq<u16>, tail: Seq<u8>)
    ensures
        units_of((units_bytes(u) + tail).take(2 * u.len() as int)) == u,
{
    lemma_units_bytes_len(u);
    let b = (units_bytes(u) + tail).take(2 * u.len() as int);
    assert forall|i: int| 0 <= i < u.len() implies units_of(b)[i] == u[i] by {
        lemma_units_bytes_index(u, i);
        assert(b[2 * i] == units_bytes(u)[2 * i]);
        assert(b[2 * i + 1] == units_bytes(u)[2 * i + 1]);
    }
    assert(units_of(b) =~= u);
}

} // verus!
