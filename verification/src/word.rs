//! 256-bit words and their big-endian / little-endian byte codec.

use vstd::prelude::*;

verus! {

/// A 256-bit unsigned word stored as four 64-bit limbs, least significant
/// limb first. Words identify bytecode blobs (code hashes) and carry the
/// contents of VM memory cells.
#[derive(Clone, Copy, Debug, PartialEq, Eq, Structural)]
pub struct Word {
    pub limb0: u64,
    pub limb1: u64,
    pub limb2: u64,
    pub limb3: u64,
}

/// The all-zero word.
pub open spec fn word_zero() -> Word {
    Word { limb0: 0, limb1: 0, limb2: 0, limb3: 0 }
}

/// Big-endian byte `j` (0 = most significant) of a 64-bit limb.
pub open spec fn limb_be_byte(x: u64, j: int) -> u8 {
    ((x >> (((7 - j) * 8) as u64)) & 0xff) as u8
}

/// Big-endian byte `i` (0 = most significant) of a 256-bit word.
pub open spec fn word_be_byte(w: Word, i: int) -> u8 {
    if i < 8 {
        limb_be_byte(w.limb3, i)
    } else if i < 16 {
        limb_be_byte(w.limb2, i - 8)
    } else if i < 24 {
        limb_be_byte(w.limb1, i - 16)
    } else {
        limb_be_byte(w.limb0, i - 24)
    }
}

/// The 32 big-endian bytes of a word, most significant first.
pub open spec fn word_be_bytes(w: Word) -> Seq<u8> {
    Seq::new(32, |i: int| word_be_byte(w, i))
}

/// The 32 little-endian bytes of a word: the big-endian bytes reversed.
pub open spec fn word_le_bytes(w: Word) -> Seq<u8> {
    Seq::new(32, |i: int| word_be_byte(w, 31 - i))
}

/// The 64-bit limb assembled from the eight big-endian bytes of `s`
/// starting at `base`.
pub open spec fn be_limb_of(s: Seq<u8>, base: int) -> u64 {
    ((s[base] as u64) << 56u64) | ((s[base + 1] as u64) << 48u64)
        | ((s[base + 2] as u64) << 40u64) | ((s[base + 3] as u64) << 32u64)
        | ((s[base + 4] as u64) << 24u64) | ((s[base + 5] as u64) << 16u64)
        | ((s[base + 6] as u64) << 8u64) | (s[base + 7] as u64)
}

/// The word whose big-endian bytes are the 32-byte sequence `s`.
pub open spec fn word_of_be(s: Seq<u8>) -> Word {
    Word {
        limb3: be_limb_of(s, 0),
        limb2: be_limb_of(s, 8),
        limb1: be_limb_of(s, 16),
        limb0: be_limb_of(s, 24),
    }
}

/// The word sequence obtained by cutting a byte sequence (whose length is a
/// multiple of 32) into consecutive 32-byte big-endian words.
pub open spec fn be_words_of(s: Seq<u8>) -> Seq<Word>
    recommends
        s.len() % 32 == 0,
{
    Seq::new(s.len() / 32, |i: int| word_of_be(s.subrange(32 * i, 32 * i + 32)))
}

/// The bytecode length in 32-byte words that a code hash carries in its
/// big-endian bytes 2 and 3.
pub open spec fn hash_len_in_words(w: Word) -> u16 {
    ((w.limb3 >> 32u64) & 0xffff) as u16
}

fn limb_byte_at(x: u64, j: usize) -> (r: u8)
    requires
        j < 8,
    ensures
        r == limb_be_byte(x, j as int),
{
    ((x >> (((7 - j) * 8) as u64)) & 0xff) as u8
}

fn word_byte_at(w: &Word, i: usize) -> (r: u8)
    requires
        i < 32,
    ensures
        r == word_be_byte(*w, i as int),
{
    if i < 8 {
        limb_byte_at(w.limb3, i)
    } else if i < 16 {
        limb_byte_at(w.limb2, i - 8)
    } else if i < 24 {
        limb_byte_at(w.limb1, i - 16)
    } else {
        limb_byte_at(w.limb0, i - 24)
    }
}

impl Word {
    /// The zero word.
    pub fn zero() -> (r: Word)
        ensures
            r == word_zero(),
    {
        Word { limb0: 0, limb1: 0, limb2: 0, limb3: 0 }
    }

    /// The word with the given low 64 bits and zero elsewhere.
    pub fn from_u64(x: u64) -> (r: Word)
        ensures
            r == (Word { limb0: x, limb1: 0, limb2: 0, limb3: 0 }),
    {
        Word { limb0: x, limb1: 0, limb2: 0, limb3: 0 }
    }

    /// The 32 big-endian bytes of the word.
    pub fn to_be_bytes(&self) -> (r: Vec<u8>)
        ensures
            r@ == word_be_bytes(*self),
    {
        let mut r: Vec<u8> = Vec::new();
        let mut i: usize = 0;
        while i < 32
            invariant
                i <= 32,
                r@.len() == i,
                forall|k: int| 0 <= k < i ==> r@[k] == word_be_byte(*self, k),
            decreases 32 - i,
        {
            r.push(word_byte_at(self, i));
            i += 1;
        }
        proof {
            assert(r@ =~= word_be_bytes(*self));
        }
        r
    }

    /// The 32 little-endian bytes of the word.
    pub fn to_le_bytes(&self) -> (r: Vec<u8>)
        ensures
            r@ == word_le_bytes(*self),
    {
        let mut r: Vec<u8> = Vec::new();
        let mut i: usize = 0;
        while i < 32
            invariant
                i <= 32,
                r@.len() == i,
                forall|k: int| 0 <= k < i ==> r@[k] == word_be_byte(*self, 31 - k),
            decreases 32 - i,
        {
            r.push(word_byte_at(self, 31 - i));
            i += 1;
        }
        proof {
            assert(r@ =~= word_le_bytes(*self));
        }
        r
    }
}

fn be_limb_from(bytes: &Vec<u8>, base: usize) -> (r: u64)
    requires
        base + 8 <= bytes@.len(),
    ensures
        r == be_limb_of(bytes@, base as int),
{
    let _n: usize = bytes.len();
    ((bytes[base] as u64) << 56u64) | ((bytes[base + 1] as u64) << 48u64)
        | ((bytes[base + 2] as u64) << 40u64) | ((bytes[base + 3] as u64) << 32u64)
        | ((bytes[base + 4] as u64) << 24u64) | ((bytes[base + 5] as u64) << 16u64)
        | ((bytes[base + 6] as u64) << 8u64) | (bytes[base + 7] as u64)
}

/// Reads the 32-byte big-endian word that starts at byte `offset` of `bytes`.
pub fn word_from_be(bytes: &Vec<u8>, offset: usize) -> (r: Word)
    requires
        offset + 32 <= bytes@.len(),
    ensures
        r == word_of_be(bytes@.subrange(offset as int, offset as int + 32)),
{
    let _n: usize = bytes.len();
    let r = Word {
        limb3: be_limb_from(bytes, offset),
        limb2: be_limb_from(bytes, offset + 8),
        limb1: be_limb_from(bytes, offset + 16),
        limb0: be_limb_from(bytes, offset + 24),
    };
    proof {
        let s = bytes@.subrange(offset as int, offset as int + 32);
        assert(forall|j: int| 0 <= j < 32 ==> s[j] == bytes@[offset + j]);
        assert(r.limb3 == be_limb_of(s, 0));
        assert(r.limb2 == be_limb_of(s, 8));
        assert(r.limb1 == be_limb_of(s, 16));
        assert(r.limb0 == be_limb_of(s, 24));
    }
    r
}

/// Cuts a byte buffer whose length is a multiple of 32 into consecutive
/// 32-byte big-endian words.
pub fn bytes_to_be_words(bytes: &Vec<u8>) -> (r: Vec<Word>)
    requires
        bytes@.len() % 32 == 0,
    ensures
        r@ == be_words_of(bytes@),
{
    proof {
        vstd::arithmetic::div_mod::lemma_fundamental_div_mod(bytes@.len() as int, 32);
    }
    let n = bytes.len() / 32;
    let mut r: Vec<Word> = Vec::new();
    let mut i: usize = 0;
    while i < n
        invariant
            i <= n,
            n == bytes@.len() / 32,
            bytes@.len() == 32 * n,
            bytes@.len() <= usize::MAX,
            r@.len() == i,
            forall|k: int| 0 <= k < i ==> r@[k] == be_words_of(bytes@)[k],
        decreases n - i,
    {
        let w = word_from_be(bytes, 32 * i);
        proof {
            assert(be_words_of(bytes@)[i as int]
                == word_of_be(bytes@.subrange(32 * (i as int), 32 * (i as int) + 32)));
        }
        r.push(w);
        i += 1;
    }
    proof {
        assert(r@ =~= be_words_of(bytes@));
    }
    r
}

/// The bytecode length in 32-byte words that a code hash encodes in its
/// big-endian bytes 2 and 3.
pub fn bytecode_len_in_words(hash: &Word) -> (r: u16)
    ensures
        r == hash_len_in_words(*hash),
{
    ((hash.limb3 >> 32u64) & 0xffff) as u16
}

/// Copies a word sequence.
pub fn clone_words(v: &Vec<Word>) -> (r: Vec<Word>)
    ensures
        r@ == v@,
{
    let mut r: Vec<Word> = Vec::new();
    let mut i: usize = 0;
    while i < v.len()
        invariant
            i <= v@.len(),
            r@.len() == i,
            forall|k: int| 0 <= k < i ==> r@[k] == v@[k],
        decreases v@.len() - i,
    {
        r.push(v[i]);
        i += 1;
    }
    proof {
        assert(r@ =~= v@);
    }
    r
}

proof fn lemma_limb_round_trip(x0: u8, x1: u8, x2: u8, x3: u8, x4: u8, x5: u8, x6: u8, x7: u8)
    ensures
        limb_be_byte(
            ((x0 as u64) << 56u64) | ((x1 as u64) << 48u64) | ((x2 as u64) << 40u64)
                | ((x3 as u64) << 32u64) | ((x4 as u64) << 24u64) | ((x5 as u64) << 16u64)
                | ((x6 as u64) << 8u64) | (x7 as u64),
            0,
        ) == x0,
        limb_be_byte(
            ((x0 as u64) << 56u64) | ((x1 as u64) << 48u64) | ((x2 as u64) << 40u64)
                | ((x3 as u64) << 32u64) | ((x4 as u64) << 24u64) | ((x5 as u64) << 16u64)
                | ((x6 as u64) << 8u64) | (x7 as u64),
            1,
        ) == x1,
        limb_be_byte(
            ((x0 as u64) << 56u64) | ((x1 as u64) << 48u64) | ((x2 as u64) << 40u64)
                | ((x3 as u64) << 32u64) | ((x4 as u64) << 24u64) | ((x5 as u64) << 16u64)
                | ((x6 as u64) << 8u64) | (x7 as u64),
            2,
        ) == x2,
        limb_be_byte(
            ((x0 as u64) << 56u64) | ((x1 as u64) << 48u64) | ((x2 as u64) << 40u64)
                | ((x3 as u64) << 32u64) | ((x4 as u64) << 24u64) | ((x5 as u64) << 16u64)
                | ((x6 as u64) << 8u64) | (x7 as u64),
            3,
        ) == x3,
        limb_be_byte(
            ((x0 as u64) << 56u64) | ((x1 as u64) << 48u64) | ((x2 as u64) << 40u64)
                | ((x3 as u64) << 32u64) | ((x4 as u64) << 24u64) | ((x5 as u64) << 16u64)
                | ((x6 as u64) << 8u64) | (x7 as u64),
            4,
        ) == x4,
        limb_be_byte(
            ((x0 as u64) << 56u64) | ((x1 as u64) << 48u64) | ((x2 as u64) << 40u64)
                | ((x3 as u64) << 32u64) | ((x4 as u64) << 24u64) | ((x5 as u64) << 16u64)
                | ((x6 as u64) << 8u64) | (x7 as u64),
            5,
        ) == x5,
        limb_be_byte(
            ((x0 as u64) << 56u64) | ((x1 as u64) << 48u64) | ((x2 as u64) << 40u64)
                | ((x3 as u64) << 32u64) | ((x4 as u64) << 24u64) | ((x5 as u64) << 16u64)
                | ((x6 as u64) << 8u64) | (x7 as u64),
            6,
        ) == x6,
        limb_be_byte(
            ((x0 as u64) << 56u64) | ((x1 as u64) << 48u64) | ((x2 as u64) << 40u64)
                | ((x3 as u64) << 32u64) | ((x4 as u64) << 24u64) | ((x5 as u64) << 16u64)
                | ((x6 as u64) << 8u64) | (x7 as u64),
            7,
        ) == x7,
{
    assert((((((x0 as u64) << 56u64) | ((x1 as u64) << 48u64) | ((x2 as u64) << 40u64)
        | ((x3 as u64) << 32u64) | ((x4 as u64) << 24u64) | ((x5 as u64) << 16u64)
        | ((x6 as u64) << 8u64) | (x7 as u64)) >> 56u64) & 0xff) == x0 as u64)
        by (bit_vector);
    assert((((((x0 as u64) << 56u64) | ((x1 as u64) << 48u64) | ((x2 as u64) << 40u64)
        | ((x3 as u64) << 32u64) | ((x4 as u64) << 24u64) | ((x5 as u64) << 16u64)
        | ((x6 as u64) << 8u64) | (x7 as u64)) >> 48u64) & 0xff) == x1 as u64)
        by (bit_vector);
    assert((((((x0 as u64) << 56u64) | ((x1 as u64) << 48u64) | ((x2 as u64) << 40u64)
        | ((x3 as u64) << 32u64) | ((x4 as u64) << 24u64) | ((x5 as u64) << 16u64)
        | ((x6 as u64) << 8u64) | (x7 as u64)) >> 40u64) & 0xff) == x2 as u64)
        by (bit_vector);
    assert((((((x0 as u64) << 56u64) | ((x1 as u64) << 48u64) | ((x2 as u64) << 40u64)
        | ((x3 as u64) << 32u64) | ((x4 as u64) << 24u64) | ((x5 as u64) << 16u64)
        | ((x6 as u64) << 8u64) | (x7 as u64)) >> 32u64) & 0xff) == x3 as u64)
        by (bit_vector);
    assert((((((x0 as u64) << 56u64) | ((x1 as u64) << 48u64) | ((x2 as u64) << 40u64)
        | ((x3 as u64) << 32u64) | ((x4 as u64) << 24u64) | ((x5 as u64) << 16u64)
        | ((x6 as u64) << 8u64) | (x7 as u64)) >> 24u64) & 0xff) == x4 as u64)
        by (bit_vector);
    assert((((((x0 as u64) << 56u64) | ((x1 as u64) << 48u64) | ((x2 as u64) << 40u64)
        | ((x3 as u64) << 32u64) | ((x4 as u64) << 24u64) | ((x5 as u64) << 16u64)
        | ((x6 as u64) << 8u64) | (x7 as u64)) >> 16u64) & 0xff) == x5 as u64)
        by (bit_vector);
    assert((((((x0 as u64) << 56u64) | ((x1 as u64) << 48u64) | ((x2 as u64) << 40u64)
        | ((x3 as u64) << 32u64) | ((x4 as u64) << 24u64) | ((x5 as u64) << 16u64)
        | ((x6 as u64) << 8u64) | (x7 as u64)) >> 8u64) & 0xff) == x6 as u64)
        by (bit_vector);
    assert((((((x0 as u64) << 56u64) | ((x1 as u64) << 48u64) | ((x2 as u64) << 40u64)
        | ((x3 as u64) << 32u64) | ((x4 as u64) << 24u64) | ((x5 as u64) << 16u64)
        | ((x6 as u64) << 8u64) | (x7 as u64)) >> 0u64) & 0xff) == x7 as u64)
        by (bit_vector);
}

proof fn lemma_limb_of_be_bytes(s: Seq<u8>, base: int)
    requires
        0 <= base,
        base + 8 <= s.len(),
    ensures
        forall|j: int| 0 <= j < 8 ==> limb_be_byte(be_limb_of(s, base), j) == s[base + j],
{
    lemma_limb_round_trip(
        s[base],
        s[base + 1],
        s[base + 2],
        s[base + 3],
        s[base + 4],
        s[base + 5],
        s[base + 6],
        s[base + 7],
    );
    assert forall|j: int| 0 <= j < 8 implies limb_be_byte(be_limb_of(s, base), j) == s[base + j] by {
        if j == 0 {
        } else if j == 1 {
        } else if j == 2 {
        } else if j == 3 {
        } else if j == 4 {
        } else if j == 5 {
        } else if j == 6 {
        } else {
            assert(j == 7);
        }
    }
}

/// Cutting 32 bytes into a word and reading the word's big-endian bytes
/// gives the original bytes back.
pub proof fn lemma_word_of_be_round_trip(s: Seq<u8>)
    requires
        s.len() == 32,
    ensures
        word_be_bytes(word_of_be(s)) == s,
{
    let w = word_of_be(s);
    lemma_limb_of_be_bytes(s, 0);
    lemma_limb_of_be_bytes(s, 8);
    lemma_limb_of_be_bytes(s, 16);
    lemma_limb_of_be_bytes(s, 24);
    assert forall|i: int| 0 <= i < 32 implies word_be_byte(w, i) == s[i] by {
        if i < 8 {
            assert(limb_be_byte(be_limb_of(s, 0), i) == s[i]);
        } else if i < 16 {
            assert(limb_be_byte(be_limb_of(s, 8), i - 8) == s[8 + (i - 8)]);
        } else if i < 24 {
            assert(limb_be_byte(be_limb_of(s, 16), i - 16) == s[16 + (i - 16)]);
        } else {
            assert(limb_be_byte(be_limb_of(s, 24), i - 24) == s[24 + (i - 24)]);
        }
    }
    assert(word_be_bytes(w) =~= s);
}

} // verus!
