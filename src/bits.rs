use vstd::prelude::*;

verus! {

/// Whether bit `k` (0 = least significant) of word `w` is set.
pub open spec fn word_bit(w: u64, k: u64) -> bool {
    (w >> k) & 1u64 == 1u64
}

/// Whether bit `k` of byte `b` is set.
pub open spec fn byte_bit(b: u8, k: u8) -> bool {
    (b >> k) & 1u8 == 1u8
}

/// Byte `j` of `w` in little-endian order.
pub open spec fn byte_of_word(w: u64, j: u64) -> u8 {
    ((w >> ((8 * j) as u64)) & 0xffu64) as u8
}

/// The bits of a word array, word after word, least significant bit first.
pub open spec fn bits_of_words(ws: Seq<u64>) -> Seq<bool> {
    Seq::new(ws.len() * 64, |g: int| word_bit(ws[g / 64], (g % 64) as u64))
}

/// The bits of a byte array, byte after byte, least significant bit first.
pub open spec fn bits_of_bytes(bs: Seq<u8>) -> Seq<bool> {
    Seq::new(bs.len() * 8, |g: int| byte_bit(bs[g / 8], (g % 8) as u8))
}

proof fn lemma_set_bit_word(w: u64, k: u64, t: u64)
    requires
        k < 64,
        t < 64,
    ensures
        word_bit(w | (1u64 << k), t) == (word_bit(w, t) || t == k),
{
    assert(((w | (1u64 << k)) >> t) & 1u64 == 1u64 <==> ((w >> t) & 1u64 == 1u64 || t == k))
        by (bit_vector)
        requires
            k < 64,
            t < 64,
    ;
}

proof fn lemma_word_bit_by_byte(w: u64, k: u64)
    requires
        k < 64,
    ensures
        word_bit(w, k) == byte_bit(byte_of_word(w, k / 8), (k % 8) as u8),
{
    assert(((w >> k) & 1u64 == 1u64) == (((((w >> ((8 * (k / 8)) as u64)) & 0xffu64) as u8) >> ((k
        % 8) as u8)) & 1u8 == 1u8)) by (bit_vector)
        requires
            k < 64,
    ;
}

/// Splits a bit index into its word and the bit inside it.
proof fn lemma_word_split(g: int, w: int, k: int)
    requires
        0 <= k < 64,
        g == w * 64 + k,
    ensures
        g / 64 == w,
        g % 64 == k,
{
    assert(g / 64 == w && g % 64 == k) by (nonlinear_arith)
        requires
            0 <= k < 64,
            g == w * 64 + k,
    ;
}

/// Relates the byte and bit of a bit index to its word, byte in the word,
/// and bit in the byte.
pub(crate) proof fn lemma_byte_split(g: int)
    requires
        0 <= g,
    ensures
        (g / 64) * 8 + (g % 64) / 8 == g / 8,
        (g % 64) % 8 == g % 8,
        (g / 8) % 8 == (g % 64) / 8,
        (g / 8) / 8 == g / 64,
{
    let q = g / 64;
    let r = g % 64;
    assert(g == q * 64 + r && 0 <= r < 64);
    let a = r / 8;
    let b = r % 8;
    assert(r == a * 8 + b && 0 <= b < 8);
    assert(g == (q * 8 + a) * 8 + b) by (nonlinear_arith)
        requires
            g == q * 64 + r,
            r == a * 8 + b,
    ;
    assert(g / 8 == q * 8 + a && g % 8 == b) by (nonlinear_arith)
        requires
            g == (q * 8 + a) * 8 + b,
            0 <= b < 8,
    ;
    assert((q * 8 + a) % 8 == a && (q * 8 + a) / 8 == q) by (nonlinear_arith)
        requires
            0 <= a < 8,
    ;
}

/// Bit `g` of a word array, read through the byte that holds it.
pub(crate) proof fn lemma_bit_by_byte(ws: Seq<u64>, g: int)
    requires
        0 <= g < ws.len() * 64,
    ensures
        bits_of_words(ws)[g] == byte_bit(
            byte_of_word(ws[g / 64], ((g / 8) % 8) as u64),
            (g % 8) as u8,
        ),
{
    let k = (g % 64) as u64;
    lemma_word_bit_by_byte(ws[g / 64], k);
    lemma_byte_split(g);
}

/// Sets bit `k` of word `wi`.
pub fn set_bit(words: &mut Vec<u64>, wi: usize, k: u32)
    requires
        wi < old(words)@.len(),
        k < 64,
    ensures
        final(words)@.len() == old(words)@.len(),
        bits_of_words(final(words)@) == bits_of_words(old(words)@).update(
            wi as int * 64 + k as int,
            true,
        ),
    no_unwind
{
    let ghost before = bits_of_words(words@);
    let w = words[wi];
    words[wi] = w | (1u64 << k);
    let ghost after = bits_of_words(words@);
    let ghost g0 = wi as int * 64 + k as int;
    assert forall|g: int| 0 <= g < after.len() implies after[g] == before.update(g0, true)[g] by {
        let q = g / 64;
        let t = g % 64;
        lemma_word_split(g, q, t);
        if q == wi {
            lemma_set_bit_word(w, k as u64, t as u64);
            if t == k {
                lemma_word_split(g0, wi as int, k as int);
            } else {
                assert(g != g0);
            }
        } else {
            assert(g0 / 64 == wi) by {
                lemma_word_split(g0, wi as int, k as int);
            }
        }
    }
    assert(after =~= before.update(g0, true));
}

/// Whether bit `k` of word `wi` is set.
pub fn test_bit(words: &Vec<u64>, wi: usize, k: u32) -> (r: bool)
    requires
        wi < words@.len(),
        k < 64,
    ensures
        r == bits_of_words(words@)[wi as int * 64 + k as int],
{
    proof {
        lemma_word_split(wi as int * 64 + k as int, wi as int, k as int);
    }
    (words[wi] >> k) & 1u64 == 1u64
}

/// The word whose little-endian bytes are `bs[at..at + 8]`.
pub fn word_from_le_bytes(bs: &Vec<u8>, at: usize) -> (r: u64)
    requires
        at + 8 <= bs.len(),
    ensures
        forall|j: u64| j < 8 ==> #[trigger] byte_of_word(r, j) == bs@[at + j],
{
    let b0 = bs[at] as u64;
    let b1 = bs[at + 1] as u64;
    let b2 = bs[at + 2] as u64;
    let b3 = bs[at + 3] as u64;
    let b4 = bs[at + 4] as u64;
    let b5 = bs[at + 5] as u64;
    let b6 = bs[at + 6] as u64;
    let b7 = bs[at + 7] as u64;
    let w = b0 | (b1 << 8u64) | (b2 << 16u64) | (b3 << 24u64) | (b4 << 32u64) | (b5 << 40u64) | (b6
        << 48u64) | (b7 << 56u64);
    assert(forall|j: u64|
        j < 8 ==> #[trigger] byte_of_word(w, j) == (if j == 0 {
            b0
        } else if j == 1 {
            b1
        } else if j == 2 {
            b2
        } else if j == 3 {
            b3
        } else if j == 4 {
            b4
        } else if j == 5 {
            b5
        } else if j == 6 {
            b6
        } else {
            b7
        })) by (bit_vector)
        requires
            b0 < 256,
            b1 < 256,
            b2 < 256,
            b3 < 256,
            b4 < 256,
            b5 < 256,
            b6 < 256,
            b7 < 256,
            w == b0 | (b1 << 8u64) | (b2 << 16u64) | (b3 << 24u64) | (b4 << 32u64) | (b5 << 40u64)
                | (b6 << 48u64) | (b7 << 56u64),
    ;
    w
}

/// Byte `j` of `w` in little-endian order.
pub fn le_byte(w: u64, j: u32) -> (r: u8)
    requires
        j < 8,
    ensures
        r == byte_of_word(w, j as u64),
{
    ((w >> (8 * j)) & 0xffu64) as u8
}

} // verus!
