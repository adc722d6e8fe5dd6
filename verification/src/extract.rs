//! Raw memory-page byte extraction: reconstructs a contiguous byte buffer
//! from a page of 32-byte words given an arbitrary unaligned offset and
//! length, as used to read VM return data addressed by fat pointers.

use vstd::prelude::*;
use vstd::arithmetic::div_mod::{lemma_fundamental_div_mod, lemma_fundamental_div_mod_converse};
use crate::memory::SimpleMemory;
use crate::word::{Word, be_words_of, lemma_word_of_be_round_trip, word_be_byte, word_be_bytes,
    word_of_be};

verus! {

/// Exclusive upper bound on the byte offsets and lengths an extraction may
/// use: the VM's addressable-page size class.
pub const MAX_EXTRACTION_SPAN: u32 = 0x0100_0000;

/// Byte `b` of a page under the big-endian byte order of its 32-byte words.
pub open spec fn page_byte(m: SimpleMemory, page: u32, b: int) -> u8
    recommends
        b >= 0,
{
    word_be_byte(m.word_at(page, b / 32), b % 32)
}

/// Reconstructs the `length` bytes of `page` starting at byte `offset`:
/// reads exactly the word range overlapping the window and concatenates the
/// big-endian bytes of each word, skipping the unaligned prefix of the first
/// word and truncating the unaligned suffix of the last.
pub fn dump_memory_page_by_offset_and_length(
    memory: &SimpleMemory,
    page: u32,
    offset: usize,
    length: usize,
) -> (r: Vec<u8>)
    requires
        memory.wf(),
        offset < MAX_EXTRACTION_SPAN as usize,
        length < MAX_EXTRACTION_SPAN as usize,
    ensures
        r@.len() == length,
        forall|i: int| 0 <= i < length ==> r@[i] == page_byte(*memory, page, offset + i),
{
    let mut dump: Vec<u8> = Vec::new();
    if length == 0 {
        return dump;
    }

    let first_word = offset / 32;
    let end_byte = offset + length;
    let mut last_word = end_byte / 32;
    if end_byte % 32 != 0 {
        last_word += 1;
    }
    let unalignment = offset % 32;
    proof {
        lemma_fundamental_div_mod(offset as int, 32);
        lemma_fundamental_div_mod(end_byte as int, 32);
        assert(32 * (first_word as int) + unalignment == offset);
        assert(32 * (last_word as int) >= end_byte);
        assert(32 * ((last_word - first_word) as int) >= unalignment + length);
    }

    let page_part = memory.dump_page_content_as_u256_words(
        page,
        first_word as u32,
        last_word as u32,
    );

    let mut bytes: Vec<u8> = Vec::new();
    let mut j: usize = 0;
    while j < page_part.len()
        invariant
            j <= page_part@.len(),
            bytes@.len() == 32 * j,
            forall|b: int|
                0 <= b < bytes@.len() ==> bytes@[b] == word_be_byte(page_part@[b / 32], b % 32),
        decreases page_part@.len() - j,
    {
        let ghost bytes0 = bytes@;
        let mut wb = page_part[j].to_be_bytes();
        proof {
            assert(wb@ == word_be_bytes(page_part@[j as int]));
        }
        bytes.append(&mut wb);
        proof {
            assert forall|b: int|
                0 <= b < bytes@.len() implies
                bytes@[b] == word_be_byte(page_part@[b / 32], b % 32) by {
                if b < bytes0.len() {
                    assert(bytes@[b] == bytes0[b]);
                } else {
                    lemma_fundamental_div_mod_converse(b, 32, j as int, b - 32 * (j as int));
                    assert(bytes@[b] == word_be_bytes(page_part@[j as int])[b - 32 * (j as int)]);
                }
            }
        }
        j += 1;
    }

    let mut i: usize = 0;
    while i < length
        invariant
            i <= length,
            length < MAX_EXTRACTION_SPAN as usize,
            dump@.len() == i,
            unalignment + length <= bytes@.len(),
            bytes@.len() == 32 * page_part@.len(),
            page_part@.len() == last_word - first_word,
            forall|b: int|
                0 <= b < bytes@.len() ==> bytes@[b] == word_be_byte(page_part@[b / 32], b % 32),
            forall|k: int|
                0 <= k < page_part@.len()
                    ==> page_part@[k] == memory.word_at(page, first_word + k),
            32 * (first_word as int) + unalignment == offset,
            unalignment < 32,
            forall|k: int| 0 <= k < i ==> dump@[k] == page_byte(*memory, page, offset + k),
        decreases length - i,
    {
        let p = unalignment + i;
        dump.push(bytes[p]);
        proof {
            let pp = p as int;
            lemma_fundamental_div_mod(pp, 32);
            assert(bytes@[pp] == word_be_byte(page_part@[pp / 32], pp % 32));
            assert(page_part@[pp / 32] == memory.word_at(page, first_word + pp / 32));
            lemma_fundamental_div_mod_converse(
                offset + i,
                32,
                first_word + pp / 32,
                pp % 32,
            );
            assert((offset + i) / 32 == first_word + pp / 32);
            assert((offset + i) % 32 == pp % 32);
            assert(dump@[i as int] == page_byte(*memory, page, offset + i));
        }
        i += 1;
    }
    dump
}

/// Checked extraction entry: refuses (with `None`) an offset or length at or
/// over the defensive bound instead of extracting; it never silently
/// truncates a window.
pub fn try_dump_memory_page_by_offset_and_length(
    memory: &SimpleMemory,
    page: u32,
    offset: usize,
    length: usize,
) -> (r: Option<Vec<u8>>)
    requires
        memory.wf(),
    ensures
        match r {
            Some(v) => {
                &&& offset < MAX_EXTRACTION_SPAN as usize
                &&& length < MAX_EXTRACTION_SPAN as usize
                &&& v@.len() == length
                &&& forall|i: int| 0 <= i < length ==> v@[i] == page_byte(*memory, page, offset + i)
            },
            None => offset >= MAX_EXTRACTION_SPAN as usize
                || length >= MAX_EXTRACTION_SPAN as usize,
        },
{
    if offset >= MAX_EXTRACTION_SPAN as usize || length >= MAX_EXTRACTION_SPAN as usize {
        None
    } else {
        Some(dump_memory_page_by_offset_and_length(memory, page, offset, length))
    }
}

/// A tagged value encoding (memory page, start offset, length, consumed
/// offset), addressing a byte range within VM memory.
#[derive(Clone, Copy, Debug, PartialEq, Eq, Structural)]
pub struct FatPointer {
    pub offset: u32,
    pub memory_page: u32,
    pub start: u32,
    pub length: u32,
}

/// The fat pointer packed into the low 128 bits of a word: offset, memory
/// page, start and length as consecutive 32-bit fields from the bottom.
pub open spec fn fat_pointer_of(w: Word) -> FatPointer {
    FatPointer {
        offset: (w.limb0 & 0xffff_ffff) as u32,
        memory_page: (w.limb0 >> 32u64) as u32,
        start: (w.limb1 & 0xffff_ffff) as u32,
        length: (w.limb1 >> 32u64) as u32,
    }
}

impl FatPointer {
    /// Decodes a fat pointer from the low 128 bits of a 256-bit word.
    pub fn from_u256(value: &Word) -> (r: FatPointer)
        ensures
            r == fat_pointer_of(*value),
    {
        FatPointer {
            offset: (value.limb0 & 0xffff_ffff) as u32,
            memory_page: (value.limb0 >> 32u64) as u32,
            start: (value.limb1 & 0xffff_ffff) as u32,
            length: (value.limb1 >> 32u64) as u32,
        }
    }
}

/// A register value: a word together with its pointer tag.
#[derive(Clone, Copy, Debug, PartialEq, Eq, Structural)]
pub struct PrimitiveValue {
    pub value: Word,
    pub is_pointer: bool,
}

/// Whether a fat pointer addresses a window the extractor accepts: the
/// consumed prefix lies within the pointed range and the resulting offset
/// and length are under the defensive bound.
pub open spec fn fat_pointer_in_bounds(p: FatPointer) -> bool {
    &&& p.offset <= p.length
    &&& p.start + p.offset < MAX_EXTRACTION_SPAN
    &&& p.length - p.offset < MAX_EXTRACTION_SPAN
}

/// Dumps the bytes a fat pointer addresses: the not-yet-consumed part of its
/// range, from `start + offset`, of length `length - offset`.
pub fn dump_memory_page_using_fat_pointer(memory: &SimpleMemory, fat_ptr: FatPointer) -> (r: Vec<
    u8,
>)
    requires
        memory.wf(),
        fat_pointer_in_bounds(fat_ptr),
    ensures
        r@.len() == fat_ptr.length - fat_ptr.offset,
        forall|i: int|
            0 <= i < r@.len() ==> r@[i] == page_byte(
                *memory,
                fat_ptr.memory_page,
                fat_ptr.start + fat_ptr.offset + i,
            ),
{
    dump_memory_page_by_offset_and_length(
        memory,
        fat_ptr.memory_page,
        (fat_ptr.start + fat_ptr.offset) as usize,
        (fat_ptr.length - fat_ptr.offset) as usize,
    )
}

/// Dumps the bytes a register value addresses: empty unless the value is
/// tagged as a pointer, else the window of the fat pointer it encodes.
pub fn dump_memory_page_using_primitive_value(memory: &SimpleMemory, ptr: PrimitiveValue) -> (r:
    Vec<u8>)
    requires
        memory.wf(),
        ptr.is_pointer ==> fat_pointer_in_bounds(fat_pointer_of(ptr.value)),
    ensures
        !ptr.is_pointer ==> r@.len() == 0,
        ptr.is_pointer ==> {
            let p = fat_pointer_of(ptr.value);
            &&& r@.len() == p.length - p.offset
            &&& forall|i: int|
                0 <= i < r@.len() ==> r@[i] == page_byte(
                    *memory,
                    p.memory_page,
                    p.start + p.offset + i,
                )
        },
{
    if !ptr.is_pointer {
        let r: Vec<u8> = Vec::new();
        return r;
    }
    let fat_ptr = FatPointer::from_u256(&ptr.value);
    dump_memory_page_using_fat_pointer(memory, fat_ptr)
}

/// Law (byte extraction round trip): when a page holds the words cut from a
/// byte buffer, every in-range window of page bytes reads back exactly the
/// corresponding slice of the buffer — including empty windows, windows
/// starting mid-word, and windows spanning several words.
pub proof fn lemma_extraction_round_trip(
    m: SimpleMemory,
    page: u32,
    data: Seq<u8>,
    offset: int,
    length: int,
)
    requires
        data.len() % 32 == 0,
        forall|j: int| 0 <= j < data.len() / 32 ==> m.word_at(page, j) == be_words_of(data)[j],
        0 <= offset,
        0 <= length,
        offset + length <= data.len(),
    ensures
        forall|i: int|
            0 <= i < length ==> #[trigger] page_byte(m, page, offset + i) == data[offset + i],
{
    lemma_fundamental_div_mod(data.len() as int, 32);
    assert forall|i: int|
        0 <= i < length implies #[trigger] page_byte(m, page, offset + i) == data[offset
        + i] by {
        let b = offset + i;
        lemma_fundamental_div_mod(b, 32);
        let q = b / 32;
        let r = b % 32;
        assert(b == 32 * q + r);
        assert(q < data.len() / 32);
        assert(m.word_at(page, q) == be_words_of(data)[q]);
        let chunk = data.subrange(32 * q, 32 * q + 32);
        assert(be_words_of(data)[q] == word_of_be(chunk));
        lemma_word_of_be_round_trip(chunk);
        assert(word_be_bytes(word_of_be(chunk))[r] == chunk[r]);
        assert(chunk[r] == data[32 * q + r]);
    }
}

} // verus!
