use evm_riscv::memory::{Memory, CHUNK_SIZE, WORD_SIZE};

#[test]
fn test_word_operations() {
    let mut mem = Memory::new();

    let test_word = [1u8; WORD_SIZE];
    mem.write_word(64, test_word);

    assert_eq!(mem.read_word(64), test_word);
    assert_eq!(mem.read_word(65), test_word); // Should read the same word

    assert_eq!(mem.size(), 96); // 64 + 32
}

#[test]
fn test_byte_operations() {
    let mut mem = Memory::new();

    mem.write_byte(100, 42);
    assert_eq!(mem.read_byte(100), 42);

    // Check that it's in the correct position within the word
    let word = mem.read_word(96); // 96 is the word-aligned address for byte 100
    assert_eq!(word[4], 42);
}

#[test]
fn test_expansion() {
    let mut mem = Memory::new();

    mem.expand(CHUNK_SIZE + 100);
    assert_eq!(mem.chunk_count(), 2);

    mem.write_word(CHUNK_SIZE, [5u8; WORD_SIZE]);
    assert_eq!(mem.read_word(CHUNK_SIZE), [5u8; WORD_SIZE]);
}

#[test]
fn fresh_memory_reads_zero_everywhere() {
    let mem = Memory::new();
    assert_eq!(mem.size(), 0);
    assert_eq!(mem.chunk_count(), 1);
    assert_eq!(mem.read_word(0), [0u8; 32]);
    assert_eq!(mem.read_word(CHUNK_SIZE - 1), [0u8; 32]);
    assert_eq!(mem.read_word(CHUNK_SIZE), [0u8; 32]);
    assert_eq!(mem.read_word(10 * CHUNK_SIZE + 7), [0u8; 32]);
    assert_eq!(mem.read_byte(12345), 0);
}

#[test]
fn a_read_returns_the_word_that_holds_the_offset() {
    let mut mem = Memory::new();
    let mut word = [0u8; 32];
    for (i, b) in word.iter_mut().enumerate() {
        *b = i as u8 + 1;
    }
    mem.write_word(128, word);
    for k in 0..32 {
        assert_eq!(mem.read_word(128 + k), word);
        assert_eq!(mem.read_byte(128 + k), k as u8 + 1);
    }
    assert_eq!(mem.read_word(127), [0u8; 32]);
    assert_eq!(mem.read_word(160), [0u8; 32]);
}

#[test]
fn an_unaligned_write_lands_on_the_aligned_word() {
    let mut mem = Memory::new();
    mem.write_word(70, [9u8; 32]);
    assert_eq!(mem.read_word(64), [9u8; 32]);
    assert_eq!(mem.read_word(95), [9u8; 32]);
    assert_eq!(mem.read_word(96), [0u8; 32]);
    assert_eq!(mem.size(), 96);
}

#[test]
fn size_is_the_end_of_the_highest_word_touched() {
    let mut mem = Memory::new();
    mem.write_word(0, [1u8; 32]);
    assert_eq!(mem.size(), 32);
    mem.write_word(320, [1u8; 32]);
    assert_eq!(mem.size(), 352);
    mem.write_word(64, [1u8; 32]);
    assert_eq!(mem.size(), 352);
    mem.write_byte(353, 1);
    assert_eq!(mem.size(), 384);
}

#[test]
fn words_beyond_the_dense_region_are_kept_sparsely() {
    let mut mem = Memory::new();
    let far = 5 * CHUNK_SIZE + 96;
    mem.write_word(far + 3, [7u8; 32]);
    assert_eq!(mem.chunk_count(), 1);
    assert_eq!(mem.read_word(far), [7u8; 32]);
    assert_eq!(mem.read_word(far + 31), [7u8; 32]);
    assert_eq!(mem.read_word(far + 32), [0u8; 32]);
    assert_eq!(mem.size(), far + 32);
    mem.write_byte(far + 1, 200);
    let word = mem.read_word(far);
    assert_eq!(word[0], 7);
    assert_eq!(word[1], 200);
    assert_eq!(word[2], 7);
}

#[test]
fn expand_rounds_up_and_never_shrinks() {
    let mut mem = Memory::new();
    mem.expand(1);
    assert_eq!(mem.size(), 32);
    mem.expand(33);
    assert_eq!(mem.size(), 64);
    mem.expand(10);
    assert_eq!(mem.size(), 64);
    mem.expand(0);
    assert_eq!(mem.size(), 64);
    assert_eq!(mem.chunk_count(), 1);
    mem.expand(CHUNK_SIZE);
    assert_eq!(mem.size(), CHUNK_SIZE);
    assert_eq!(mem.chunk_count(), 1);
    mem.expand(CHUNK_SIZE + 1);
    assert_eq!(mem.size(), CHUNK_SIZE + 32);
    assert_eq!(mem.chunk_count(), 2);
    mem.expand(3 * CHUNK_SIZE);
    assert_eq!(mem.chunk_count(), 3);
    assert_eq!(mem.read_word(3 * CHUNK_SIZE - 32), [0u8; 32]);
}

#[test]
fn expand_keeps_what_the_dense_region_holds() {
    let mut mem = Memory::new();
    mem.write_word(32, [3u8; 32]);
    mem.expand(2 * CHUNK_SIZE);
    assert_eq!(mem.read_word(32), [3u8; 32]);
    assert_eq!(mem.read_word(CHUNK_SIZE + 32), [0u8; 32]);
}

#[test]
fn byte_write_keeps_the_rest_of_the_word() {
    let mut mem = Memory::new();
    mem.write_word(0, [8u8; 32]);
    mem.write_byte(5, 1);
    let word = mem.read_word(0);
    for (i, b) in word.iter().enumerate() {
        assert_eq!(*b, if i == 5 { 1 } else { 8 });
    }
}

#[test]
fn expand_keeps_the_words_it_comes_to_cover() {
    let mut mem = Memory::new();
    mem.write_word(CHUNK_SIZE + 64, [4u8; 32]);
    mem.write_word(5 * CHUNK_SIZE, [6u8; 32]);
    mem.write_byte(7 * CHUNK_SIZE + 3, 9);
    assert_eq!(mem.read_word(CHUNK_SIZE + 64), [4u8; 32]);
    assert_eq!(mem.size(), 7 * CHUNK_SIZE + 32);
    assert_eq!(mem.chunk_count(), 1);
    mem.expand(7 * CHUNK_SIZE + 64);
    assert_eq!(mem.size(), 7 * CHUNK_SIZE + 64);
    assert_eq!(mem.chunk_count(), 8);
    assert_eq!(mem.read_word(CHUNK_SIZE + 64), [4u8; 32]);
    assert_eq!(mem.read_word(CHUNK_SIZE + 95), [4u8; 32]);
    assert_eq!(mem.read_word(CHUNK_SIZE + 32), [0u8; 32]);
    assert_eq!(mem.read_word(CHUNK_SIZE + 96), [0u8; 32]);
    assert_eq!(mem.read_word(5 * CHUNK_SIZE), [6u8; 32]);
    assert_eq!(mem.read_byte(7 * CHUNK_SIZE + 3), 9);
    assert_eq!(mem.read_byte(7 * CHUNK_SIZE + 4), 0);
    mem.write_word(CHUNK_SIZE + 64, [1u8; 32]);
    assert_eq!(mem.read_word(CHUNK_SIZE + 64), [1u8; 32]);
}

#[test]
fn expand_after_a_write_past_the_first_chunk() {
    let mut mem = Memory::new();
    mem.write_word(32768, [5u8; 32]);
    mem.expand(32768 + 100);
    assert_eq!(mem.read_word(32768), [5u8; 32]);
    assert_eq!(mem.chunk_count(), 2);
    assert_eq!(mem.size(), 32768 + 128);
}

#[test]
fn expand_below_the_size_changes_nothing() {
    let mut mem = Memory::new();
    mem.write_word(2 * CHUNK_SIZE, [3u8; 32]);
    mem.expand(CHUNK_SIZE + 1);
    assert_eq!(mem.chunk_count(), 1);
    assert_eq!(mem.read_word(2 * CHUNK_SIZE), [3u8; 32]);
    assert_eq!(mem.size(), 2 * CHUNK_SIZE + 32);
    mem.expand(2 * CHUNK_SIZE + 33);
    assert_eq!(mem.chunk_count(), 3);
    assert_eq!(mem.read_word(2 * CHUNK_SIZE), [3u8; 32]);
    assert_eq!(mem.size(), 2 * CHUNK_SIZE + 64);
}
