//! Little-endian integers over byte sequences, and the primitive reads and
//! writes that every encoder and decoder of this crate is built from.

use crate::error::Error;
use vstd::prelude::*;
use vstd::slice::slice_subrange;

verus! {

/// The natural number that `bytes` spell, least significant byte first.
pub open spec fn le_value(bytes: Seq<u8>) -> nat
    decreases bytes.len(),
{
    if bytes.len() == 0 {
        0
    } else {
        bytes[0] as nat + 256 * le_value(bytes.drop_first())
    }
}

/// The `width` low-order bytes of `x`, least significant byte first.
pub open spec fn le_encoding(x: nat, width: nat) -> Seq<u8>
    decreases width,
{
    if width == 0 {
        Seq::empty()
    } else {
        seq![(x % 256) as u8] + le_encoding(x / 256, (width - 1) as nat)
    }
}

/// 256 to the power `width`: the first number that `width` bytes cannot hold.
pub open spec fn le_bound(width: nat) -> nat
    decreases width,
{
    if width == 0 {
        1
    } else {
        256 * le_bound((width - 1) as nat)
    }
}

/// The members of `parts` one after the other.
pub open spec fn concat(parts: Seq<Seq<u8>>) -> Seq<u8>
    decreases parts.len(),
{
    if parts.len() == 0 {
        Seq::empty()
    } else {
        parts[0] + concat(parts.drop_first())
    }
}

/// Reading an eight-byte unsigned integer off the front of `s`.
pub open spec fn parse_u64(s: Seq<u8>) -> Result<(u64, Seq<u8>), Error> {
    if s.len() < 8 {
        Err(Error::BufferTooShort)
    } else {
        Ok((le_value(s.take(8)) as u64, s.skip(8)))
    }
}

/// Reading a four-byte unsigned integer off the front of `s`.
pub open spec fn parse_u32(s: Seq<u8>) -> Result<(u32, Seq<u8>), Error> {
    if s.len() < 4 {
        Err(Error::BufferTooShort)
    } else {
        Ok((le_value(s.take(4)) as u32, s.skip(4)))
    }
}

/// An encoding has exactly the width asked for.
pub proof fn lemma_le_encoding_len(x: nat, width: nat)
    ensures
        le_encoding(x, width).len() == width,
    decreases width,
{
    if width > 0 {
        lemma_le_encoding_len(x / 256, (width - 1) as nat);
    }
}

/// What `bytes` spell is below 256 to the power of their number.
pub proof fn lemma_le_value_bound(bytes: Seq<u8>)
    ensures
        le_value(bytes) < le_bound(bytes.len()),
    decreases bytes.len(),
{
    if bytes.len() > 0 {
        lemma_le_value_bound(bytes.drop_first());
    }
}

/// Encoding a number that fits and reading it back gives the number.
pub proof fn lemma_le_value_of_encoding(x: nat, width: nat)
    requires
        x < le_bound(width),
    ensures
        le_value(le_encoding(x, width)) == x,
    decreases width,
{
    if width > 0 {
        let rest = le_encoding(x / 256, (width - 1) as nat);
        let e = le_encoding(x, width);
        lemma_le_value_of_encoding(x / 256, (width - 1) as nat);
        assert(e.drop_first() =~= rest);
        assert(e[0] == (x % 256) as u8);
    }
}

/// The bounds of the widths in use: four and eight bytes.
pub proof fn lemma_le_bound_values()
    ensures
        le_bound(4) == 0x1_0000_0000,
        le_bound(8) == 0x1_0000_0000_0000_0000,
        forall|w: nat, v: nat| w <= v ==> #[trigger] le_bound(w) <= #[trigger] le_bound(v),
{
    reveal_with_fuel(le_bound, 9);
    assert forall|w: nat, v: nat| w <= v implies #[trigger] le_bound(w) <= #[trigger] le_bound(
        v,
    ) by {
        lemma_le_bound_monotonic(w, v);
    }
}

proof fn lemma_le_bound_monotonic(w: nat, v: nat)
    requires
        w <= v,
    ensures
        1 <= le_bound(w) <= le_bound(v),
    decreases v,
{
    if v == 0 {
    } else if w == v {
        lemma_le_bound_monotonic((w - 1) as nat, (v - 1) as nat);
    } else {
        lemma_le_bound_monotonic(w, (v - 1) as nat);
    }
}

/// A number read from the front of an encoding followed by anything is the
/// number that was encoded.
pub proof fn lemma_parse_u64_of_encoding(x: u64, tail: Seq<u8>)
    ensures
        parse_u64(le_encoding(x as nat, 8) + tail) == Ok::<(u64, Seq<u8>), Error>((x, tail)),
{
    let e = le_encoding(x as nat, 8);
    lemma_le_encoding_len(x as nat, 8);
    lemma_le_bound_values();
    lemma_le_value_of_encoding(x as nat, 8);
    assert((e + tail).take(8) =~= e);
    assert((e + tail).skip(8) =~= tail);
}

/// The same for a four-byte integer.
pub proof fn lemma_parse_u32_of_encoding(x: u32, tail: Seq<u8>)
    ensures
        parse_u32(le_encoding(x as nat, 4) + tail) == Ok::<(u32, Seq<u8>), Error>((x, tail)),
{
    let e = le_encoding(x as nat, 4);
    lemma_le_encoding_len(x as nat, 4);
    lemma_le_bound_values();
    lemma_le_value_of_encoding(x as nat, 4);
    assert((e + tail).take(4) =~= e);
    assert((e + tail).skip(4) =~= tail);
}

/// Reading a number from a buffer that was cut off: too short where the
/// number's eight bytes are not all there, and else the same number,
/// followed by what is left of the rest.
pub proof fn lemma_parse_u64_prefix(s: Seq<u8>, m: nat)
    requires
        s.len() >= 8,
        m <= s.len(),
    ensures
        m < 8 ==> parse_u64(s.take(m as int)) == Err::<(u64, Seq<u8>), Error>(
            Error::BufferTooShort,
        ),
        m >= 8 ==> parse_u64(s.take(m as int)) == Ok::<(u64, Seq<u8>), Error>(
            (parse_u64(s)->Ok_0.0, parse_u64(s)->Ok_0.1.take(m - 8)),
        ),
{
    if m >= 8 {
        assert(s.take(m as int).take(8) =~= s.take(8));
        assert(s.take(m as int).skip(8) =~= s.skip(8).take(m - 8));
    }
}

/// Parts of one width take that width each.
pub proof fn lemma_concat_len(parts: Seq<Seq<u8>>, width: nat)
    requires
        forall|i: int| 0 <= i < parts.len() ==> (#[trigger] parts[i]).len() == width,
    ensures
        concat(parts).len() == width * parts.len(),
    decreases parts.len(),
{
    if parts.len() > 0 {
        let rest = parts.drop_first();
        assert forall|i: int| 0 <= i < rest.len() implies (#[trigger] rest[i]).len() == width by {
            assert(rest[i] == parts[i + 1]);
        }
        lemma_concat_len(rest, width);
        assert(width * parts.len() == width + width * rest.len()) by (nonlinear_arith)
            requires
                parts.len() == rest.len() + 1,
        ;
    }
}

/// Among parts of one width, the part at place `i` lies at `i` times the
/// width.
pub proof fn lemma_concat_part(parts: Seq<Seq<u8>>, width: nat, i: int)
    requires
        forall|j: int| 0 <= j < parts.len() ==> (#[trigger] parts[j]).len() == width,
        0 <= i < parts.len(),
    ensures
        width * i + width <= concat(parts).len(),
        concat(parts).subrange(width * i, width * i + width) == parts[i],
    decreases parts.len(),
{
    let rest = parts.drop_first();
    assert forall|j: int| 0 <= j < rest.len() implies (#[trigger] rest[j]).len() == width by {
        assert(rest[j] == parts[j + 1]);
    }
    lemma_concat_len(rest, width);
    if i == 0 {
        assert(concat(parts).subrange(0, width as int) =~= parts[0]);
    } else {
        lemma_concat_part(rest, width, i - 1);
        assert(width * i == width + width * (i - 1)) by (nonlinear_arith);
        assert(width * (i - 1) + width <= width * rest.len()) by (nonlinear_arith)
            requires
                i - 1 < rest.len(),
                0 <= width,
        ;
        assert(concat(parts).subrange(width * i, width * i + width) =~= concat(rest).subrange(
            width * (i - 1),
            width * (i - 1) + width,
        ));
        assert(rest[i - 1] == parts[i]);
    }
}

/// Appends the `width` low-order bytes of `x` to `out`, least significant
/// first.
pub(crate) fn append_le(out: &mut Vec<u8>, x: u64, width: usize)
    requires
        width <= 8,
    ensures
        final(out)@ == old(out)@ + le_encoding(x as nat, width as nat),
{
    let mut rest: u64 = x;
    let mut i: usize = 0;
    while i < width
        invariant
            i <= width,
            old(out)@ + le_encoding(x as nat, width as nat) == out@ + le_encoding(
                rest as nat,
                (width - i) as nat,
            ),
        decreases width - i,
    {
        let low: u8 = (rest % 256) as u8;
        proof {
            let k = (width - i) as nat;
            let tail = le_encoding((rest / 256) as nat, (k - 1) as nat);
            assert(le_encoding(rest as nat, k) == seq![low] + tail);
            assert(out@.push(low) + tail =~= out@ + (seq![low] + tail));
        }
        out.push(low);
        rest = rest / 256;
        i = i + 1;
    }
    assert(out@ + le_encoding(rest as nat, 0) =~= out@);
}

/// The number that the first `width` bytes of `buf` spell, least significant
/// byte first.
pub(crate) fn le_read(buf: &[u8], width: usize) -> (r: u64)
    requires
        width <= 8,
        width <= buf@.len(),
    ensures
        r as nat == le_value(buf@.take(width as int)),
{
    let mut acc: u64 = 0;
    let mut i: usize = width;
    proof {
        lemma_le_bound_values();
        assert(buf@.take(width as int).skip(width as int) =~= Seq::<u8>::empty());
    }
    while i > 0
        invariant
            i <= width <= 8,
            width <= buf@.len(),
            acc as nat == le_value(buf@.take(width as int).skip(i as int)),
            (acc as nat) < le_bound((width - i) as nat),
            le_bound(8) == 0x1_0000_0000_0000_0000,
            forall|w: nat, v: nat| w <= v ==> #[trigger] le_bound(w) <= #[trigger] le_bound(v),
        decreases i,
    {
        i = i - 1;
        let b: u8 = buf[i];
        proof {
            let head = buf@.take(width as int).skip(i as int);
            assert(head.drop_first() =~= buf@.take(width as int).skip(i + 1));
            assert(head[0] == b);
            assert(le_bound((width - i) as nat) == 256 * le_bound((width - i - 1) as nat));
            assert(le_bound((width - i) as nat) <= le_bound(8));
        }
        acc = acc * 256 + b as u64;
    }
    assert(buf@.take(width as int).skip(0) =~= buf@.take(width as int));
    acc
}

/// The first `N` bytes of `buf`, as an array.
pub(crate) fn copy_prefix<const N: usize>(buf: &[u8]) -> (r: [u8; N])
    requires
        N <= buf@.len(),
    ensures
        r@ == buf@.take(N as int),
{
    let mut r: [u8; N] = [0u8; N];
    let mut i: usize = 0;
    while i < N
        invariant
            i <= N <= buf@.len(),
            forall|j: int| 0 <= j < i ==> r@[j] == buf@[j],
        decreases N - i,
    {
        r[i] = buf[i];
        i = i + 1;
    }
    assert(r@ =~= buf@.take(N as int));
    r
}

/// Appends `bytes` to `out`.
pub fn append_bytes(out: &mut Vec<u8>, bytes: &[u8])
    ensures
        final(out)@ == old(out)@ + bytes@,
{
    let mut i: usize = 0;
    while i < bytes.len()
        invariant
            i <= bytes@.len(),
            out@ == old(out)@ + bytes@.take(i as int),
        decreases bytes@.len() - i,
    {
        out.push(bytes[i]);
        i = i + 1;
        assert(out@ =~= old(out)@ + bytes@.take(i as int));
    }
    assert(bytes@.take(bytes@.len() as int) =~= bytes@);
}

/// Reads an eight-byte little-endian integer off the front of `buf` and
/// returns it with the bytes that follow.
pub fn read_u64(buf: &[u8]) -> (r: Result<(u64, &[u8]), Error>)
    ensures
        match parse_u64(buf@) {
            Ok((x, rest)) => r matches Ok((y, after)) && y == x && after@ == rest,
            Err(e) => r == Err::<(u64, &[u8]), Error>(e),
        },
{
    if buf.len() < 8 {
        return Err(Error::BufferTooShort);
    }
    let x = le_read(buf, 8);
    let rest = slice_subrange(buf, 8, buf.len());
    proof {
        lemma_le_value_bound(buf@.take(8));
        lemma_le_bound_values();
        assert(rest@ =~= buf@.skip(8));
    }
    Ok((x, rest))
}

/// Reads a four-byte little-endian integer off the front of `buf` and returns
/// it with the bytes that follow.
pub fn read_u32(buf: &[u8]) -> (r: Result<(u32, &[u8]), Error>)
    ensures
        match parse_u32(buf@) {
            Ok((x, rest)) => r matches Ok((y, after)) && y == x && after@ == rest,
            Err(e) => r == Err::<(u32, &[u8]), Error>(e),
        },
{
    if buf.len() < 4 {
        return Err(Error::BufferTooShort);
    }
    let x = le_read(buf, 4);
    let rest = slice_subrange(buf, 4, buf.len());
    proof {
        lemma_le_value_bound(buf@.take(4));
        lemma_le_bound_values();
        assert(rest@ =~= buf@.skip(4));
    }
    Ok((x as u32, rest))
}

} // verus!
