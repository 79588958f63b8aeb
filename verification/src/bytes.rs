//! Little-endian numbers in byte sequences.

use crate::float::Float32;
use vstd::prelude::*;

verus! {

/// The `n` low bytes of `x`, the lowest first.
pub open spec fn le_bytes(x: nat, n: nat) -> Seq<u8>
    decreases n,
{
    if n == 0 {
        Seq::empty()
    } else {
        seq![(x % 256) as u8] + le_bytes(x / 256, (n - 1) as nat)
    }
}

/// The number that bytes make up, the lowest first.
pub open spec fn le_value(s: Seq<u8>) -> nat
    decreases s.len(),
{
    if s.len() == 0 {
        0
    } else {
        s[0] as nat + 256 * le_value(s.drop_first())
    }
}

/// The number in the `n` bytes from `offset` on.
pub open spec fn field(s: Seq<u8>, offset: int, n: int) -> nat {
    le_value(s.subrange(offset, offset + n))
}

/// How many values `n` bytes can take.
pub open spec fn byte_range(n: nat) -> nat
    decreases n,
{
    if n == 0 {
        1
    } else {
        256 * byte_range((n - 1) as nat)
    }
}

pub proof fn lemma_byte_ranges()
    ensures
        byte_range(2) == 0x1_0000,
        byte_range(4) == 0x1_0000_0000,
        byte_range(8) == 0x1_0000_0000_0000_0000,
{
    reveal_with_fuel(byte_range, 9);
}

pub proof fn lemma_le_bytes_len(x: nat, n: nat)
    ensures
        le_bytes(x, n).len() == n,
    decreases n,
{
    if n > 0 {
        lemma_le_bytes_len(x / 256, (n - 1) as nat);
    }
}

/// Reading back what was written gives the number, as far as it fits.
pub proof fn reading_gives_back_what_was_written(x: nat, n: nat)
    requires
        x < byte_range(n),
    ensures
        le_bytes(x, n).len() == n,
        le_value(le_bytes(x, n)) == x,
    decreases n,
{
    lemma_le_bytes_len(x, n);
    if n > 0 {
        let rest = le_bytes(x / 256, (n - 1) as nat);
        reading_gives_back_what_was_written(x / 256, (n - 1) as nat);
        assert(le_bytes(x, n).drop_first() =~= rest);
    }
}

/// Writing back what was read gives the bytes.
pub proof fn writing_gives_back_what_was_read(s: Seq<u8>)
    ensures
        le_value(s) < byte_range(s.len()),
        le_bytes(le_value(s), s.len()) == s,
    decreases s.len(),
{
    if s.len() > 0 {
        let rest = s.drop_first();
        writing_gives_back_what_was_read(rest);
        let x = le_value(s);
        assert(x % 256 == s[0]);
        assert(x / 256 == le_value(rest));
        assert(le_bytes(x, s.len()) =~= s);
    } else {
        assert(le_bytes(0, 0) =~= s);
    }
}

/// What a read of four bytes gives.
pub fn read_u32(input: &[u8], offset: usize) -> (r: u32)
    requires
        offset + 4 <= input@.len(),
    ensures
        r == field(input@, offset as int, 4),
{
    proof {
        let s = input@.subrange(offset as int, offset + 4);
        reveal_with_fuel(le_value, 5);
        assert(s.drop_first()[0] == s[1]);
        assert(s.drop_first().drop_first()[0] == s[2]);
        assert(s.drop_first().drop_first().drop_first()[0] == s[3]);
    }
    input[offset] as u32 + 256 * input[offset + 1] as u32 + 65536 * input[offset + 2] as u32
        + 16777216 * input[offset + 3] as u32
}

pub fn read_u16(input: &[u8], offset: usize) -> (r: u16)
    requires
        offset + 2 <= input@.len(),
    ensures
        r == field(input@, offset as int, 2),
{
    proof {
        let s = input@.subrange(offset as int, offset + 2);
        reveal_with_fuel(le_value, 3);
        assert(s.drop_first()[0] == s[1]);
    }
    input[offset] as u16 + 256 * input[offset + 1] as u16
}

pub fn read_u64(input: &[u8], offset: usize) -> (r: u64)
    requires
        offset + 8 <= input@.len(),
    ensures
        r == field(input@, offset as int, 8),
{
    let length: usize = input.len();
    assert(offset + 8 <= length);
    let low: u32 = read_u32(input, offset);
    let high: u32 = read_u32(input, offset + 4);
    let raised: u64 = (high as u64) * 4294967296u64;
    assert(raised == high * 4294967296);
    proof {
        let s = input@.subrange(offset as int, offset + 8);
        lemma_value_of_concat(s.take(4), s.skip(4));
        lemma_byte_ranges();
        assert(s.take(4) + s.skip(4) =~= s);
        assert(s.take(4) =~= input@.subrange(offset as int, offset + 4));
        assert(s.skip(4) =~= input@.subrange(offset + 4, offset + 8));
        let v = le_value(s.skip(4));
        let k = byte_range(4);
        assert(k * v == v * 4294967296) by (nonlinear_arith)
            requires
                k == 4294967296,
        ;
        assert(s.take(4).len() == 4);
    }
    low as u64 + raised
}

proof fn lemma_value_of_concat(a: Seq<u8>, b: Seq<u8>)
    ensures
        le_value(a + b) == le_value(a) + byte_range(a.len()) * le_value(b),
    decreases a.len(),
{
    if a.len() == 0 {
        assert(a + b =~= b);
        assert(1 * le_value(b) == le_value(b));
    } else {
        lemma_value_of_concat(a.drop_first(), b);
        assert((a + b).drop_first() =~= a.drop_first() + b);
        let k = byte_range((a.len() - 1) as nat);
        let v = le_value(b);
        assert(256 * (k * v) == (256 * k) * v) by (nonlinear_arith);
    }
}

pub fn append_u16(out: &mut Vec<u8>, x: u16)
    ensures
        final(out)@ == old(out)@ + le_bytes(x as nat, 2),
{
    out.push((x % 256) as u8);
    out.push((x / 256) as u8);
    proof {
        reveal_with_fuel(le_bytes, 3);
        assert(out@ =~= old(out)@ + le_bytes(x as nat, 2));
    }
}

pub fn append_u32(out: &mut Vec<u8>, x: u32)
    ensures
        final(out)@ == old(out)@ + le_bytes(x as nat, 4),
{
    out.push((x % 256) as u8);
    out.push((x / 256 % 256) as u8);
    out.push((x / 65536 % 256) as u8);
    out.push((x / 16777216) as u8);
    proof {
        reveal_with_fuel(le_bytes, 5);
        assert(x / 256 / 256 == x / 65536);
        assert(x / 256 / 256 / 256 == x / 16777216);
        assert(out@ =~= old(out)@ + le_bytes(x as nat, 4));
    }
}

pub fn append_u64(out: &mut Vec<u8>, x: u64)
    ensures
        final(out)@ == old(out)@ + le_bytes(x as nat, 8),
{
    let low: u32 = (x % 0x1_0000_0000) as u32;
    let high: u32 = (x / 0x1_0000_0000) as u32;
    append_u32(out, low);
    append_u32(out, high);
    proof {
        lemma_bytes_of_halves(low as nat, high as nat);
        assert(out@ =~= old(out)@ + le_bytes(x as nat, 8));
    }
}

proof fn lemma_bytes_of_halves(low: nat, high: nat)
    requires
        low < 0x1_0000_0000,
        high < 0x1_0000_0000,
    ensures
        le_bytes(low + 0x1_0000_0000 * high, 8) == le_bytes(low, 4) + le_bytes(high, 4),
{
    let s = le_bytes(low, 4) + le_bytes(high, 4);
    lemma_byte_ranges();
    reading_gives_back_what_was_written(low, 4);
    reading_gives_back_what_was_written(high, 4);
    lemma_value_of_concat(le_bytes(low, 4), le_bytes(high, 4));
    writing_gives_back_what_was_read(s);
}

/// It does not matter in which order three parts are put together.
pub proof fn lemma_concat(a: Seq<u8>, b: Seq<u8>, c: Seq<u8>)
    ensures
        (a + b) + c == a + (b + c),
{
    assert((a + b) + c =~= a + (b + c));
}

/// A number stands where the bytes before it end.
pub proof fn lemma_field_behind(before: Seq<u8>, x: nat, n: nat, after: Seq<u8>)
    requires
        x < byte_range(n),
    ensures
        field(before + le_bytes(x, n) + after, before.len() as int, n as int) == x,
        le_bytes(x, n).len() == n,
{
    reading_gives_back_what_was_written(x, n);
    let all = before + le_bytes(x, n) + after;
    assert(all.subrange(before.len() as int, (before.len() + n) as int) =~= le_bytes(x, n));
}

/// A number that was read is written as the bytes that it was read from.
pub proof fn lemma_bytes_of_field(s: Seq<u8>, offset: int, n: nat)
    requires
        0 <= offset,
        offset + n <= s.len(),
    ensures
        le_bytes(field(s, offset, n as int), n) == s.subrange(offset, offset + n),
        field(s, offset, n as int) < byte_range(n),
{
    writing_gives_back_what_was_read(s.subrange(offset, offset + n));
}

/// What stands from one place to the next and from there on stands in one piece.
pub proof fn lemma_joined(s: Seq<u8>, from: int, middle: int, to: int)
    requires
        0 <= from <= middle <= to <= s.len(),
    ensures
        s.subrange(from, middle) + s.subrange(middle, to) == s.subrange(from, to),
{
    assert(s.subrange(from, middle) + s.subrange(middle, to) =~= s.subrange(from, to));
}

/// The number that four bytes stand for where the highest bit is a sign.
pub open spec fn signed(raw: nat) -> int {
    if raw < 0x8000_0000 {
        raw as int
    } else {
        raw - 0x1_0000_0000
    }
}

pub fn as_signed(raw: u32) -> (r: i32)
    ensures
        r == signed(raw as nat),
{
    if raw < 0x8000_0000 {
        raw as i32
    } else {
        (raw as i64 - 0x1_0000_0000) as i32
    }
}

/// Floating-point numbers as they stand from `offset` on.
pub open spec fn floats_at(s: Seq<u8>, offset: int, count: nat) -> Seq<Float32> {
    Seq::new(count, |i: int| Float32 { bits: field(s, offset + 4 * i, 4) as u32 })
}

/// The bytes of floating-point numbers.
pub open spec fn float_bytes(values: Seq<Float32>) -> Seq<u8>
    decreases values.len(),
{
    if values.len() == 0 {
        Seq::empty()
    } else {
        float_bytes(values.drop_last()) + le_bytes(values.last().bits as nat, 4)
    }
}

pub proof fn lemma_float_bytes_len(values: Seq<Float32>)
    ensures
        float_bytes(values).len() == 4 * values.len(),
    decreases values.len(),
{
    if values.len() > 0 {
        lemma_float_bytes_len(values.drop_last());
        lemma_le_bytes_len(values.last().bits as nat, 4);
    }
}

/// Numbers that were written are the numbers that are read.
pub proof fn floats_are_read_as_written(before: Seq<u8>, values: Seq<Float32>, after: Seq<u8>)
    ensures
        floats_at(before + float_bytes(values) + after, before.len() as int, values.len())
            == values,
    decreases values.len(),
{
    let all = before + float_bytes(values) + after;
    if values.len() > 0 {
        let rest = values.drop_last();
        let x = values.last().bits as nat;
        let last = le_bytes(x, 4);
        floats_are_read_as_written(before, rest, last + after);
        lemma_float_bytes_len(rest);
        lemma_byte_ranges();
        reading_gives_back_what_was_written(x, 4);
        assert(before + float_bytes(rest) + (last + after) =~= all);
        let at = (before.len() + 4 * rest.len()) as int;
        assert(all.subrange(at, at + 4) =~= last);
        let read = floats_at(all, before.len() as int, values.len());
        let shorter = floats_at(all, before.len() as int, rest.len());
        assert forall|i: int| 0 <= i < values.len() implies read[i] == values[i] by {
            if i < rest.len() {
                assert(read[i] == shorter[i]);
                assert(shorter[i] == rest[i]);
            }
        }
        assert(read =~= values);
    } else {
        assert(floats_at(all, before.len() as int, 0) =~= values);
    }
}

pub fn append_floats(out: &mut Vec<u8>, values: &[Float32])
    ensures
        final(out)@ == old(out)@ + float_bytes(values@),
{
    let mut i: usize = 0;
    assert(values@.take(0) =~= Seq::<Float32>::empty());
    assert(out@ =~= old(out)@ + float_bytes(values@.take(0)));
    while i < values.len()
        invariant
            i <= values@.len(),
            out@ == old(out)@ + float_bytes(values@.take(i as int)),
        decreases values@.len() - i,
    {
        append_u32(out, values[i].bits);
        proof {
            let t = values@.take(i + 1);
            assert(t.drop_last() =~= values@.take(i as int));
            assert(out@ =~= old(out)@ + float_bytes(t));
        }
        i = i + 1;
    }
    assert(values@.take(i as int) =~= values@);
}

pub fn read_floats(input: &[u8], offset: usize, count: usize) -> (r: Vec<Float32>)
    requires
        offset + 4 * count <= input@.len(),
    ensures
        r@ == floats_at(input@, offset as int, count as nat),
{
    let length: usize = input.len();
    let mut r: Vec<Float32> = Vec::with_capacity(count);
    let mut i: usize = 0;
    while i < count
        invariant
            offset + 4 * count <= length == input@.len(),
            i <= count,
            r@ == floats_at(input@, offset as int, i as nat),
        decreases count - i,
    {
        let bits: u32 = read_u32(input, offset + 4 * i);
        r.push(Float32 { bits });
        assert(r@ =~= floats_at(input@, offset as int, (i + 1) as nat));
        i = i + 1;
    }
    r
}

/// Whether `input` starts with `prefix`.
pub open spec fn starts_with(input: Seq<u8>, prefix: Seq<u8>) -> bool {
    prefix.len() <= input.len() && input.subrange(0, prefix.len() as int) == prefix
}

pub fn begins_with(input: &[u8], prefix: &[u8]) -> (r: bool)
    ensures
        r == starts_with(input@, prefix@),
{
    if input.len() < prefix.len() {
        return false;
    }
    let ghost head = input@.subrange(0, prefix@.len() as int);
    let mut i: usize = 0;
    while i < prefix.len()
        invariant
            i <= prefix@.len() <= input@.len(),
            head == input@.subrange(0, prefix@.len() as int),
            forall|j: int| 0 <= j < i ==> head[j] == prefix@[j],
        decreases prefix@.len() - i,
    {
        if input[i] != prefix[i] {
            assert(head[i as int] != prefix@[i as int]);
            return false;
        }
        i = i + 1;
    }
    assert(head =~= prefix@);
    true
}

/// Numbers that were read are written as the bytes that they were read from.
pub proof fn floats_are_written_as_read(s: Seq<u8>, offset: int, count: nat)
    requires
        0 <= offset,
        offset + 4 * count <= s.len(),
    ensures
        float_bytes(floats_at(s, offset, count)) == s.subrange(offset, offset + 4 * count),
    decreases count,
{
    let values = floats_at(s, offset, count);
    if count == 0 {
        assert(s.subrange(offset, offset) =~= Seq::empty());
    } else {
        let fewer = (count - 1) as nat;
        let at = offset + 4 * fewer;
        floats_are_written_as_read(s, offset, fewer);
        assert(values.drop_last() =~= floats_at(s, offset, fewer));
        lemma_byte_ranges();
        lemma_bytes_of_field(s, at, 4);
        lemma_joined(s, offset, at, at + 4);
    }
}

/// A number has its lowest byte first: each further byte counts 256 times as much as the one before
/// it.
pub proof fn the_lowest_byte_comes_first(s: Seq<u8>, offset: int, n: int)
    requires
        0 <= offset,
        0 < n,
        offset + n <= s.len(),
    ensures
        field(s, offset, n) == s[offset] + 256 * field(s, offset + 1, n - 1),
        field(s, offset, 0) == 0,
        n == 1 ==> field(s, offset, 1) == s[offset],
        n == 2 ==> field(s, offset, 2) == s[offset] + 0x100 * s[offset + 1],
        n == 4 ==> field(s, offset, 4) == s[offset] + 0x100 * s[offset + 1] + 0x1_0000 * s[offset
            + 2] + 0x100_0000 * s[offset + 3],
        n == 8 ==> field(s, offset, 8) == s[offset] + 0x100 * s[offset + 1] + 0x1_0000 * s[offset
            + 2] + 0x100_0000 * s[offset + 3] + 0x1_0000_0000 * s[offset + 4]
            + 0x100_0000_0000 * s[offset + 5] + 0x1_0000_0000_0000 * s[offset + 6]
            + 0x100_0000_0000_0000 * s[offset + 7],
    decreases n,
{
    let whole = s.subrange(offset, offset + n);
    assert(whole.drop_first() =~= s.subrange(offset + 1, offset + 1 + (n - 1)));
    assert(s.subrange(offset, offset) =~= Seq::<u8>::empty());
    assert(s.subrange(offset + 1, offset + 1) =~= Seq::<u8>::empty());
    if n > 1 {
        the_lowest_byte_comes_first(s, offset + 1, n - 1);
    }
    if n == 4 || n == 8 {
        lemma_two_more(s, offset, n);
    }
    if n == 8 {
        lemma_two_more(s, offset + 2, 6);
        lemma_two_more(s, offset + 4, 4);
        lemma_two_more(s, offset + 6, 2);
    }
    if n == 4 {
        lemma_two_more(s, offset + 2, 2);
    }
}

proof fn lemma_two_more(s: Seq<u8>, offset: int, n: int)
    requires
        0 <= offset,
        2 <= n,
        offset + n <= s.len(),
    ensures
        field(s, offset, n) == s[offset] + 0x100 * s[offset + 1] + 0x1_0000 * field(
            s,
            offset + 2,
            n - 2,
        ),
        n == 2 ==> field(s, offset + 2, 0) == 0,
{
    let a = s.subrange(offset, offset + n);
    let b = s.subrange(offset + 1, offset + n);
    assert(a.drop_first() =~= b);
    let c = s.subrange(offset + 2, offset + 2 + (n - 2));
    assert(b.drop_first() =~= c);
    assert(le_value(b) == b[0] as nat + 256 * le_value(c));
    assert(le_value(a) == a[0] as nat + 256 * le_value(b));
    if n == 2 {
        assert(s.subrange(offset + 2, offset + 2) =~= Seq::<u8>::empty());
    }
}

/// Four bytes are a number below two to the 32nd, and eight one below two to the 64th.
pub proof fn fields_are_bounded(s: Seq<u8>, offset: int)
    requires
        0 <= offset,
    ensures
        offset + 2 <= s.len() ==> field(s, offset, 2) <= 0xffff,
        offset + 4 <= s.len() ==> field(s, offset, 4) <= 0xffff_ffff,
        offset + 8 <= s.len() ==> field(s, offset, 8) <= 0xffff_ffff_ffff_ffff,
{
    lemma_byte_ranges();
    if offset + 2 <= s.len() {
        writing_gives_back_what_was_read(s.subrange(offset, offset + 2));
    }
    if offset + 4 <= s.len() {
        writing_gives_back_what_was_read(s.subrange(offset, offset + 4));
    }
    if offset + 8 <= s.len() {
        writing_gives_back_what_was_read(s.subrange(offset, offset + 8));
    }
}

/// A signed number of four bytes: the two halves of the range follow each other, the negative one
/// last.
pub proof fn signed_numbers(raw: nat)
    requires
        raw <= 0xffff_ffff,
    ensures
        -0x8000_0000 <= signed(raw) <= 0x7fff_ffff,
        signed(raw) >= 0 ==> signed(raw) == raw,
        signed(raw) < 0 ==> signed(raw) + 0x1_0000_0000 == raw,
{
}

/// Numbers stand four bytes apart, each as its bits.
pub proof fn floats_stand_side_by_side(s: Seq<u8>, offset: int, count: nat, i: int)
    requires
        0 <= offset,
        0 <= i < count,
        offset + 4 * count <= s.len(),
    ensures
        floats_at(s, offset, count).len() == count,
        floats_at(s, offset, count)[i].bits == field(s, offset + 4 * i, 4),
{
    fields_are_bounded(s, offset + 4 * i);
}

} // verus!
