//! The plugin boundary in plain values: the layout of C structures, names in arrays of bytes and
//! sets of numbers in a word.

use crate::text;
use vstd::layout;
use vstd::prelude::*;
use vstd::string::*;
use vstd::utf8;

verus! {

/// The size and the alignment of a field of a C structure.
#[derive(Debug, Clone, Copy, PartialEq, Eq, Structural)]
pub struct Field {
    pub size: u32,
    pub align: u32,
}

impl Field {
    /// Small enough for structures of such fields to be counted in 32 bits.
    pub open spec fn is_small(self) -> bool {
        self.size <= 4096 && 1 <= self.align <= 16
    }

    /// A field of `n` values in a row.
    pub open spec fn times(self, n: u32) -> Field {
        Field { size: (self.size * n) as u32, align: self.align }
    }

    fn repeated(self, n: u32) -> (r: Field)
        requires
            self.size <= 16,
            n <= 256,
        ensures
            r == self.times(n),
            r.size <= 4096,
            r.align == self.align,
    {
        assert(self.size * n <= 16 * 256) by (nonlinear_arith)
            requires
                self.size <= 16,
                n <= 256,
        ;
        Field { size: self.size * n, align: self.align }
    }
}

/// A 32-bit field.
pub open spec fn half() -> Field {
    Field { size: 4, align: layout::align_of::<u32>() as u32 }
}

/// A 64-bit field.
pub open spec fn word() -> Field {
    Field { size: 8, align: layout::align_of::<u64>() as u32 }
}

/// A pointer, a callback or a number of a pointer's size.
pub open spec fn address() -> Field {
    Field { size: (usize::BITS / 8) as u32, align: layout::align_of::<usize>() as u32 }
}

/// An array of `n` characters.
pub open spec fn characters(n: u32) -> Field {
    Field { size: n, align: 1 }
}

proof fn lemma_divisor_is_no_larger(size: nat, align: nat)
    requires
        size > 0,
        align > 0,
        size % align == 0,
    ensures
        align <= size,
{
    assert(align <= size) by (nonlinear_arith)
        requires
            size > 0,
            align > 0,
            size % align == 0,
    ;
}

fn half_field() -> (r: Field)
    ensures
        r == half(),
        1 <= r.align <= 4,
{
    broadcast use vstd::layout::layout_of_primitives;

    layout::layout_for_type_is_valid::<u32>();
    proof {
        lemma_divisor_is_no_larger(layout::size_of::<u32>(), layout::align_of::<u32>());
    }
    let align: usize = core::mem::align_of::<u32>();
    Field { size: 4, align: align as u32 }
}

fn word_field() -> (r: Field)
    ensures
        r == word(),
        1 <= r.align <= 8,
{
    broadcast use vstd::layout::layout_of_primitives;

    layout::layout_for_type_is_valid::<u64>();
    proof {
        lemma_divisor_is_no_larger(layout::size_of::<u64>(), layout::align_of::<u64>());
    }
    let align: usize = core::mem::align_of::<u64>();
    Field { size: 8, align: align as u32 }
}

fn address_field() -> (r: Field)
    ensures
        r == address(),
        r.size <= 8,
        1 <= r.align <= 8,
{
    broadcast use vstd::layout::layout_of_primitives;

    layout::layout_for_type_is_valid::<usize>();
    proof {
        lemma_divisor_is_no_larger(layout::size_of::<usize>(), layout::align_of::<usize>());
    }
    let size: usize = core::mem::size_of::<usize>();
    let align: usize = core::mem::align_of::<usize>();
    Field { size: size as u32, align: align as u32 }
}

/// The least multiple of `align` that is not below `offset`.
pub open spec fn rounded_up(offset: int, align: int) -> int {
    (offset + align - 1) / align * align
}

fn round_up(offset: u32, align: u32) -> (r: u32)
    requires
        offset <= 0x100_0000,
        1 <= align <= 16,
    ensures
        r == rounded_up(offset as int, align as int),
        offset <= r < offset + align,
{
    let ghost above = offset + align - 1;
    proof {
        vstd::arithmetic::div_mod::lemma_fundamental_div_mod(above as int, align as int);
        vstd::arithmetic::mul::lemma_mul_is_commutative((above / align as int), align as int);
    }
    (offset + align - 1) / align * align
}

/// A C structure under construction: where its fields end so far and the widest of their
/// alignments.
#[derive(Debug, Clone, Copy, PartialEq, Eq, Structural)]
pub struct StructLayout {
    pub end: u32,
    pub align: u32,
}

impl StructLayout {
    pub open spec fn empty() -> StructLayout {
        StructLayout { end: 0, align: 1 }
    }

    /// With one more field, at the first place behind the others that its alignment permits.
    pub open spec fn with(self, field: Field) -> StructLayout {
        StructLayout {
            end: (rounded_up(self.end as int, field.align as int) + field.size) as u32,
            align: if field.align > self.align {
                field.align
            } else {
                self.align
            },
        }
    }

    /// The size of the structure, padding behind its last field included.
    pub open spec fn size(self) -> u32 {
        rounded_up(self.end as int, self.align as int) as u32
    }

    /// Small enough for one more field to be counted in 32 bits.
    pub open spec fn has_room(self) -> bool {
        self.end <= 0x10_0000 && 1 <= self.align <= 16
    }

    pub fn new() -> (r: StructLayout)
        ensures
            r == StructLayout::empty(),
    {
        StructLayout { end: 0, align: 1 }
    }

    fn append(self, field: Field) -> (r: StructLayout)
        requires
            self.has_room(),
            field.is_small(),
        ensures
            r == self.with(field),
            r.end <= self.end + 4112,
            1 <= r.align <= 16,
    {
        let end: u32 = round_up(self.end, field.align) + field.size;
        let align: u32 = if field.align > self.align {
            field.align
        } else {
            self.align
        };
        StructLayout { end, align }
    }

    /// Puts a 32-bit field behind the others.
    pub fn with_half(self) -> (r: StructLayout)
        requires
            self.has_room(),
        ensures
            r == self.with(half()),
            r.end <= self.end + 4112,
            1 <= r.align <= 16,
            is_usual_machine() ==> r.end == (self.end + 3) / 4 * 4 + 4,
            is_usual_machine() && self.align <= 4 ==> r.align == 4,
            is_usual_machine() && self.align > 4 ==> r.align == self.align,
    {
        self.append(half_field())
    }

    /// Puts `n` 32-bit values behind the others.
    pub fn with_halves(self, n: u32) -> (r: StructLayout)
        requires
            self.has_room(),
            n <= 256,
        ensures
            r == self.with(half().times(n)),
            r.end <= self.end + 4112,
            1 <= r.align <= 16,
            is_usual_machine() ==> r.end == (self.end + 3) / 4 * 4 + 4 * n,
            is_usual_machine() && self.align <= 4 ==> r.align == 4,
            is_usual_machine() && self.align > 4 ==> r.align == self.align,
    {
        self.append(half_field().repeated(n))
    }

    /// Puts a 64-bit field behind the others.
    pub fn with_word(self) -> (r: StructLayout)
        requires
            self.has_room(),
        ensures
            r == self.with(word()),
            r.end <= self.end + 4112,
            1 <= r.align <= 16,
            is_usual_machine() ==> r.end == (self.end + 7) / 8 * 8 + 8,
            is_usual_machine() && self.align <= 8 ==> r.align == 8,
            is_usual_machine() && self.align > 8 ==> r.align == self.align,
    {
        self.append(word_field())
    }

    /// Puts `n` 64-bit values behind the others.
    pub fn with_words(self, n: u32) -> (r: StructLayout)
        requires
            self.has_room(),
            n <= 256,
        ensures
            r == self.with(word().times(n)),
            r.end <= self.end + 4112,
            1 <= r.align <= 16,
            is_usual_machine() ==> r.end == (self.end + 7) / 8 * 8 + 8 * n,
            is_usual_machine() && self.align <= 8 ==> r.align == 8,
            is_usual_machine() && self.align > 8 ==> r.align == self.align,
    {
        self.append(word_field().repeated(n))
    }

    /// Puts a pointer behind the others.
    pub fn with_address(self) -> (r: StructLayout)
        requires
            self.has_room(),
        ensures
            r == self.with(address()),
            r.end <= self.end + 4112,
            1 <= r.align <= 16,
            is_usual_machine() ==> r.end == (self.end + 7) / 8 * 8 + 8,
            is_usual_machine() && self.align <= 8 ==> r.align == 8,
            is_usual_machine() && self.align > 8 ==> r.align == self.align,
    {
        self.append(address_field())
    }

    /// Puts `n` values of a pointer's size behind the others.
    pub fn with_addresses(self, n: u32) -> (r: StructLayout)
        requires
            self.has_room(),
            n <= 256,
        ensures
            r == self.with(address().times(n)),
            r.end <= self.end + 4112,
            1 <= r.align <= 16,
            is_usual_machine() ==> r.end == (self.end + 7) / 8 * 8 + 8 * n,
            is_usual_machine() && self.align <= 8 ==> r.align == 8,
            is_usual_machine() && self.align > 8 ==> r.align == self.align,
    {
        self.append(address_field().repeated(n))
    }

    /// Puts an array of `n` characters behind the others.
    pub fn with_characters(self, n: u32) -> (r: StructLayout)
        requires
            self.has_room(),
            n <= 4096,
        ensures
            r == self.with(characters(n)),
            r.end <= self.end + 4112,
            1 <= r.align <= 16,
            r.end == self.end + n,
            r.align == self.align,
    {
        self.append(Field { size: n, align: 1 })
    }

    /// The size of the structure.
    pub fn size_in_bytes(self) -> (r: u32)
        requires
            self.has_room(),
        ensures
            r == self.size(),
            self.align == 8 ==> r == (self.end + 7) / 8 * 8,
    {
        round_up(self.end, self.align)
    }
}

/// A machine of 64-bit pointers on which every number is aligned to its size.
pub open spec fn is_usual_machine() -> bool {
    &&& usize::BITS == 64
    &&& layout::align_of::<u32>() == 4
    &&& layout::align_of::<u64>() == 8
    &&& layout::align_of::<usize>() == 8
}

/// How many bytes stand before the first zero byte.
pub open spec fn name_length(bytes: Seq<u8>) -> nat
    decreases bytes.len(),
{
    if bytes.len() > 0 && bytes[0] != 0 {
        1 + name_length(bytes.drop_first())
    } else {
        0
    }
}

/// The bytes before the first zero byte.
pub open spec fn up_to_zero(bytes: Seq<u8>) -> Seq<u8> {
    bytes.take(name_length(bytes) as int)
}

proof fn lemma_name_length(bytes: Seq<u8>, n: int)
    requires
        0 <= n <= bytes.len(),
        forall|i: int| 0 <= i < n ==> bytes[i] != 0,
        n < bytes.len() ==> bytes[n] == 0,
    ensures
        name_length(bytes) == n,
    decreases n,
{
    if n > 0 {
        lemma_name_length(bytes.drop_first(), n - 1);
    }
}

/// What `String::from_utf8_lossy` makes of bytes: text in which a replacement character stands
/// for whatever is not UTF-8.
pub uninterp spec fn lossy_text(bytes: Seq<u8>) -> Seq<char>;

/// `String::from_utf8_lossy`: the text that valid UTF-8 encodes, and for other bytes a text that
/// the bytes alone decide.
#[verifier::external_body]
fn decode_lossily(bytes: &[u8]) -> (r: String)
    ensures
        r@ == lossy_text(bytes@),
        utf8::valid_utf8(bytes@) ==> r@ == utf8::decode_utf8(bytes@),
{
    String::from_utf8_lossy(bytes).into_owned()
}

/// The name in an array of bytes.
pub open spec fn name_in(array: Seq<u8>) -> Seq<char> {
    text::trimmed(lossy_text(up_to_zero(array)))
}

/// The text before the first zero byte.
pub fn decode_name(value: &[u8]) -> (r: String)
    ensures
        r@ == lossy_text(up_to_zero(value@)),
        utf8::valid_utf8(up_to_zero(value@)) ==> r@ == utf8::decode_utf8(up_to_zero(value@)),
{
    let mut bytes: Vec<u8> = Vec::new();
    let mut i: usize = 0;
    while i < value.len() && value[i] != 0
        invariant
            i <= value@.len(),
            bytes@ == value@.take(i as int),
            forall|j: int| 0 <= j < i ==> value@[j] != 0,
        decreases value@.len() - i,
    {
        bytes.push(value[i]);
        assert(bytes@ =~= value@.take(i + 1));
        i = i + 1;
    }
    proof {
        lemma_name_length(value@, i as int);
    }
    decode_lossily(bytes.as_slice())
}

/// The text of a name in an array of bytes: what stands before the first zero byte, without the
/// white space around it.
pub fn abi_chars_to_string(value: &[u8]) -> (r: String)
    ensures
        r@ == name_in(value@),
        utf8::valid_utf8(up_to_zero(value@)) ==> r@ == text::trimmed(
            utf8::decode_utf8(up_to_zero(value@)),
        ),
{
    let decoded = decode_name(value);
    trimmed_name(decoded.as_str())
}

/// The text of a name that is decoded already: without the white space around it.
pub fn trimmed_name(decoded: &str) -> (r: String)
    ensures
        r@ == text::trimmed(decoded@),
{
    text::trim(decoded).to_owned()
}

/// Bytes of a name in an array of `capacity` bytes: as many as leave room for a zero byte, and
/// zero bytes behind them.
pub open spec fn is_written_name(name: Seq<u8>, capacity: nat, array: Seq<u8>) -> bool {
    &&& array.len() == capacity
    &&& forall|i: int|
        #![trigger array[i]]
        0 <= i < capacity ==> array[i] == if i < name.len() && i + 1 < capacity {
            name[i]
        } else {
            0
        }
}

/// A name of 128 bytes that holds `value`, cut off where it is too long.
pub fn c_name(value: &[u8]) -> (r: [u8; 128])
    ensures
        is_written_name(value@, 128, r@),
{
    let mut output: [u8; 128] = [0; 128];
    let mut index: usize = 0;
    while index < value.len() && index + 1 < 128
        invariant
            index <= value@.len(),
            index <= 127,
            output@.len() == 128,
            forall|i: int|
                #![trigger output@[i]]
                0 <= i < 128 ==> output@[i] == if i < index {
                    value@[i]
                } else {
                    0
                },
        decreases value@.len() - index,
    {
        output[index] = value[index];
        index = index + 1;
    }
    output
}

/// A name of 64 bytes that holds `value`, cut off where it is too long.
pub fn short_c_name(value: &[u8]) -> (r: [u8; 64])
    ensures
        is_written_name(value@, 64, r@),
{
    let mut output: [u8; 64] = [0; 64];
    let mut index: usize = 0;
    while index < value.len() && index + 1 < 64
        invariant
            index <= value@.len(),
            index <= 63,
            output@.len() == 64,
            forall|i: int|
                #![trigger output@[i]]
                0 <= i < 64 ==> output@[i] == if i < index {
                    value@[i]
                } else {
                    0
                },
        decreases value@.len() - index,
    {
        output[index] = value[index];
        index = index + 1;
    }
    output
}

/// A name is read as it was written, up to what the array has room for.
pub proof fn a_name_is_read_as_written(name: Seq<u8>, capacity: nat, array: Seq<u8>)
    requires
        is_written_name(name, capacity, array),
        capacity > 0,
        forall|i: int| 0 <= i < name.len() ==> name[i] != 0,
    ensures
        name.len() < capacity ==> up_to_zero(array) == name,
        name.len() >= capacity ==> up_to_zero(array) == name.take(capacity - 1),
{
    let n = if name.len() < capacity {
        name.len() as int
    } else {
        capacity - 1
    };
    lemma_name_length(array, n);
    assert(up_to_zero(array) =~= name.take(n));
    assert(name.take(name.len() as int) =~= name);
}

/// Whether `bits` holds the number `n`.
pub open spec fn holds(bits: u64, n: u32) -> bool {
    n < 64 && bits & (1u64 << n) != 0
}

/// The set of `value` alone, or the empty set where a word has no room for it.
pub fn bit_for(value: u32) -> (r: u64)
    ensures
        r == if value < 64 {
            1u64 << value
        } else {
            0
        },
{
    if value < 64 {
        1u64 << value
    } else {
        0
    }
}

/// Whether `bits` holds `value`.
pub fn has_bit(bits: u64, value: u32) -> (r: bool)
    ensures
        r == holds(bits, value),
{
    let bit: u64 = bit_for(value);
    assert(bits & 0 == 0) by (bit_vector);
    bits & bit != 0
}

/// A word of one number holds that number and no other.
pub proof fn a_single_bit_holds_one_number(n: u32, m: u32)
    requires
        n < 64,
    ensures
        holds(1u64 << n, m) == (n == m),
{
    assert(m < 64 ==> ((1u64 << n) & (1u64 << m) != 0) == (n == m)) by (bit_vector)
        requires
            n < 64,
    ;
}

/// Putting two words together puts the numbers of both together.
pub proof fn united_words_hold_both(a: u64, b: u64, n: u32)
    ensures
        holds(a | b, n) == (holds(a, n) || holds(b, n)),
{
    assert(n < 64 ==> ((a | b) & (1u64 << n) != 0) == (a & (1u64 << n) != 0 || b & (1u64 << n)
        != 0)) by (bit_vector);
}

/// A word holds a number where that bit of it is set, counted from the lowest as zero. No word holds
/// a number that it has no bit for.
pub proof fn a_word_holds_the_numbers_of_its_bits(bits: u64, n: u32)
    ensures
        n < 64 ==> holds(bits, n) == ((bits >> n) % 2 == 1),
        n >= 64 ==> !holds(bits, n),
{
    assert(n < 64 ==> (bits & (1u64 << n) != 0) == ((bits >> n) % 2 == 1)) by (bit_vector);
}

/// A name ends before the first zero byte: no byte of it is zero, and it ends at a zero byte or at
/// the end.
pub proof fn a_name_ends_before_the_first_zero(bytes: Seq<u8>)
    ensures
        up_to_zero(bytes).len() <= bytes.len(),
        forall|i: int|
            #![trigger up_to_zero(bytes)[i]]
            0 <= i < up_to_zero(bytes).len() ==> up_to_zero(bytes)[i] == bytes[i] && bytes[i] != 0,
        up_to_zero(bytes).len() < bytes.len() ==> bytes[up_to_zero(bytes).len() as int] == 0,
{
    lemma_name_ends(bytes);
}

proof fn lemma_name_ends(bytes: Seq<u8>)
    ensures
        name_length(bytes) <= bytes.len(),
        forall|i: int| #![trigger bytes[i]] 0 <= i < name_length(bytes) ==> bytes[i] != 0,
        name_length(bytes) < bytes.len() ==> bytes[name_length(bytes) as int] == 0,
    decreases bytes.len(),
{
    if bytes.len() > 0 && bytes[0] != 0 {
        let rest = bytes.drop_first();
        lemma_name_ends(rest);
        assert forall|i: int| #![trigger bytes[i]] 0 <= i < name_length(bytes) implies bytes[i]
            != 0 by {
            if i > 0 {
                assert(rest[i - 1] == bytes[i]);
            }
        }
    }
}

/// A field of a structure starts at a multiple of its alignment, as near behind the others as that
/// allows, and the structure is padded to a multiple of the widest alignment.
pub proof fn fields_are_aligned(layout: StructLayout, field: Field)
    requires
        layout.has_room(),
        field.is_small(),
    ensures
        ({
            let start = layout.with(field).end - field.size;
            &&& start % (field.align as int) == 0
            &&& layout.end <= start < layout.end + field.align
            &&& layout.with(field).align == if field.align > layout.align {
                field.align
            } else {
                layout.align
            }
        }),
        layout.size() as int % (layout.align as int) == 0,
        layout.end <= layout.size() < layout.end + layout.align,
{
    lemma_rounded_up(layout.end as int, field.align as int);
    lemma_rounded_up(layout.end as int, layout.align as int);
}

proof fn lemma_rounded_up(offset: int, align: int)
    requires
        0 <= offset,
        1 <= align,
    ensures
        rounded_up(offset, align) % align == 0,
        offset <= rounded_up(offset, align) < offset + align,
{
    let above = offset + align - 1;
    vstd::arithmetic::div_mod::lemma_fundamental_div_mod(above, align);
    vstd::arithmetic::div_mod::lemma_mod_bound(above, align);
    vstd::arithmetic::mul::lemma_mul_is_commutative(above / align, align);
    vstd::arithmetic::div_mod::lemma_mod_multiples_basic(above / align, align);
}

} // verus!
