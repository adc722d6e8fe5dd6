use vm_core::extract::{FatPointer, PrimitiveValue, dump_memory_page_by_offset_and_length,
    dump_memory_page_using_fat_pointer, dump_memory_page_using_primitive_value,
    try_dump_memory_page_by_offset_and_length};
use vm_core::memory::{MemoryIndex, MemoryLocation, MemoryPage, MemoryQuery, SimpleMemory};
use vm_core::timestamps::Timestamp;
use vm_core::word::{Word, bytes_to_be_words, word_from_be};

fn write_word(memory: &mut SimpleMemory, page: u32, index: u32, value: Word) {
    memory.specialized_code_query(
        0,
        MemoryQuery {
            timestamp: Timestamp(0),
            location: MemoryLocation { page: MemoryPage(page), index: MemoryIndex(index) },
            value,
            value_is_pointer: false,
            rw_flag: true,
        },
    );
}

fn memory_with_bytes(page: u32, data: &Vec<u8>) -> SimpleMemory {
    let mut memory = SimpleMemory::new();
    let words = bytes_to_be_words(data);
    for (i, word) in words.iter().enumerate() {
        write_word(&mut memory, page, i as u32, *word);
    }
    memory
}

#[test]
fn extraction_round_trips_known_bytes() {
    // 96 known bytes across three full words.
    let data: Vec<u8> = (0u8..96).collect();
    let memory = memory_with_bytes(4, &data);

    // Empty window.
    assert_eq!(dump_memory_page_by_offset_and_length(&memory, 4, 0, 0), Vec::<u8>::new());
    // Aligned full read.
    assert_eq!(dump_memory_page_by_offset_and_length(&memory, 4, 0, 96), data);
    // Mid-word window inside one word.
    assert_eq!(dump_memory_page_by_offset_and_length(&memory, 4, 5, 10), data[5..15].to_vec());
    // Window spanning exactly two words.
    assert_eq!(dump_memory_page_by_offset_and_length(&memory, 4, 30, 4), data[30..34].to_vec());
    // Window spanning three words.
    assert_eq!(dump_memory_page_by_offset_and_length(&memory, 4, 31, 34), data[31..65].to_vec());
    // Zero-length window at a non-zero offset.
    assert_eq!(dump_memory_page_by_offset_and_length(&memory, 4, 17, 0), Vec::<u8>::new());
}

#[test]
fn extraction_beyond_written_words_reads_zeros() {
    let data: Vec<u8> = (1u8..=32).collect();
    let memory = memory_with_bytes(4, &data);
    let out = dump_memory_page_by_offset_and_length(&memory, 4, 30, 6);
    assert_eq!(out, vec![31, 32, 0, 0, 0, 0]);
    // An entirely unwritten page reads as zeros.
    assert_eq!(dump_memory_page_by_offset_and_length(&memory, 9, 3, 5), vec![0; 5]);
}

#[test]
fn extraction_bound_is_enforced() {
    // Offsets or lengths at or over 2^24 are refused, never truncated.
    let memory = SimpleMemory::new();
    let bound: usize = 1 << 24;
    assert_eq!(try_dump_memory_page_by_offset_and_length(&memory, 0, bound, 1), None);
    assert_eq!(try_dump_memory_page_by_offset_and_length(&memory, 0, 1, bound), None);
    assert_eq!(try_dump_memory_page_by_offset_and_length(&memory, 0, bound + 7, bound + 7), None);
    let ok = try_dump_memory_page_by_offset_and_length(&memory, 0, bound - 1, 2);
    assert_eq!(ok, Some(vec![0, 0]));
}

#[test]
fn word_byte_codec_round_trips() {
    let data: Vec<u8> = (100u8..132).collect();
    let word = word_from_be(&data, 0);
    assert_eq!(word.to_be_bytes(), data);
    let mut reversed = data.clone();
    reversed.reverse();
    assert_eq!(word.to_le_bytes(), reversed);
}

#[test]
fn word_byte_codec_exact_limbs() {
    let mut data = vec![0u8; 32];
    data[0] = 0xab;
    data[7] = 0x01;
    data[31] = 0x7f;
    let word = word_from_be(&data, 0);
    assert_eq!(word.limb3, 0xab00_0000_0000_0001);
    assert_eq!(word.limb2, 0);
    assert_eq!(word.limb1, 0);
    assert_eq!(word.limb0, 0x7f);
}

#[test]
fn fat_pointer_decodes_packed_fields() {
    let value = Word {
        limb0: (11u64 << 32) | 7u64,  // memory page 11, offset 7
        limb1: (40u64 << 32) | 13u64,  // length 40, start 13
        limb2: 0,
        limb3: 0,
    };
    let fat_ptr = FatPointer::from_u256(&value);
    assert_eq!(fat_ptr.offset, 7);
    assert_eq!(fat_ptr.memory_page, 11);
    assert_eq!(fat_ptr.start, 13);
    assert_eq!(fat_ptr.length, 40);
}

#[test]
fn fat_pointer_dump_reads_unconsumed_window() {
    let data: Vec<u8> = (0u8..64).collect();
    let memory = memory_with_bytes(11, &data);
    let fat_ptr = FatPointer { offset: 7, memory_page: 11, start: 13, length: 40 };
    // Window starts at byte 13 + 7 = 20 and is 40 - 7 = 33 bytes long.
    let out = dump_memory_page_using_fat_pointer(&memory, fat_ptr);
    assert_eq!(out, data[20..53].to_vec());
}

#[test]
fn primitive_value_dump_requires_pointer_tag() {
    let data: Vec<u8> = (0u8..64).collect();
    let memory = memory_with_bytes(11, &data);
    let raw = Word { limb0: 11u64 << 32, limb1: 8u64 << 32, limb2: 0, limb3: 0 };
    let not_pointer = PrimitiveValue { value: raw, is_pointer: false };
    assert_eq!(dump_memory_page_using_primitive_value(&memory, not_pointer), Vec::<u8>::new());
    let pointer = PrimitiveValue { value: raw, is_pointer: true };
    assert_eq!(dump_memory_page_using_primitive_value(&memory, pointer), data[0..8].to_vec());
}
