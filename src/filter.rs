use vstd::prelude::*;

use crate::bits::{
    bits_of_bytes,
    bits_of_words,
    byte_of_word,
    lemma_bit_by_byte,
    lemma_byte_split,
    le_byte,
    set_bit,
    test_bit,
    word_from_le_bytes,
};
use crate::mapping::{
    bit_position,
    block_index,
    block_of,
    probe_bit,
    probe_step,
    step_of,
    NUM_PROBES,
};
use crate::sizing::{calc_bytes, calc_num_blocks, filter_bytes};

verus! {

/// Whether `bits` is the bit content of a filter: a positive whole number
/// of 512-bit blocks.
pub open spec fn valid_bits(bits: Seq<bool>) -> bool {
    bits.len() > 0 && bits.len() % 512 == 0
}

/// Whether a byte buffer of `len` bytes can be adopted as a filter.
pub open spec fn loadable(len: nat) -> bool {
    len > 0 && len % 64 == 0
}

/// Index, among all the filter's bits, of the `i`-th probe of `h` in a filter
/// of `num_blocks` blocks.
pub open spec fn key_bit(h: u32, num_blocks: nat, i: nat) -> int {
    (block_of(h, num_blocks) * 512 + probe_bit(h, i)) as int
}

/// Whether bit `g` is one of the first `count` probes of `h`.
pub open spec fn probed_by(h: u32, num_blocks: nat, count: nat, g: int) -> bool {
    exists|i: nat| i < count && #[trigger] key_bit(h, num_blocks, i) == g
}

/// Whether every probe of `h` is set in `bits`.
pub open spec fn holds_key(bits: Seq<bool>, h: u32) -> bool {
    forall|i: nat| i < NUM_PROBES ==> bits[#[trigger] key_bit(h, bits.len() / 512, i)]
}

/// `bits` with the first `count` probes of `h` set.
pub open spec fn with_probes(bits: Seq<bool>, h: u32, count: nat) -> Seq<bool> {
    Seq::new(bits.len(), |g: int| bits[g] || probed_by(h, bits.len() / 512, count, g))
}

/// `bits` after inserting `h`: all its probes set, nothing else changed.
pub open spec fn with_key(bits: Seq<bool>, h: u32) -> Seq<bool> {
    with_probes(bits, h, NUM_PROBES as nat)
}

/// `bits` after inserting the hashes of `hs` in order.
pub open spec fn with_keys(bits: Seq<bool>, hs: Seq<u32>) -> Seq<bool>
    decreases hs.len(),
{
    if hs.len() == 0 {
        bits
    } else {
        with_key(with_keys(bits, hs.drop_last()), hs.last())
    }
}

/// Error of adopting a buffer whose length is not a positive multiple of 64.
#[derive(Debug, Clone, Copy, PartialEq, Eq)]
pub struct InvalidLayout {
    pub len: usize,
}

/// A blocked Bloom filter: an array of 64-byte blocks, each held as eight
/// 64-bit words.
pub struct BlockedBloomFilter {
    words: Vec<u64>,
    num_blocks: usize,
}

impl View for BlockedBloomFilter {
    type V = Seq<bool>;

    /// The filter's bits, block after block.
    closed spec fn view(&self) -> Seq<bool> {
        bits_of_words(self.words@)
    }
}

/// Every probe of a key lies inside the filter.
proof fn lemma_key_bit_in_range(h: u32, num_blocks: nat, i: nat)
    requires
        num_blocks > 0,
    ensures
        0 <= key_bit(h, num_blocks, i) < num_blocks * 512,
{
    assert(block_of(h, num_blocks) < num_blocks) by (nonlinear_arith)
        requires
            num_blocks > 0,
            h < 0x1_0000_0000,
            block_of(h, num_blocks) == ((h as nat) * num_blocks) / 0x1_0000_0000,
    ;
    assert(block_of(h, num_blocks) * 512 + 512 <= num_blocks * 512) by (nonlinear_arith)
        requires
            block_of(h, num_blocks) < num_blocks,
    ;
}

impl BlockedBloomFilter {
    #[verifier::type_invariant]
    spec fn well_formed(self) -> bool {
        &&& self.num_blocks >= 1
        &&& self.words@.len() == self.num_blocks * 8
        &&& self.num_blocks * 64 <= usize::MAX
    }

    /// A zeroed filter sized for `num_keys` expected keys.
    pub fn create_filter(num_keys: usize) -> (r: Self)
        requires
            filter_bytes(num_keys as nat) <= usize::MAX,
        ensures
            r@ == Seq::new(filter_bytes(num_keys as nat) * 8, |g: int| false),
            valid_bits(r@),
            forall|h: u32| !holds_key(r@, h),
    {
        let bytes = calc_bytes(num_keys);
        let num_blocks = calc_num_blocks(bytes);
        let num_words = num_blocks * 8;
        let mut words: Vec<u64> = Vec::with_capacity(num_words);
        let mut i: usize = 0;
        while i < num_words
            invariant
                i <= num_words,
                words@.len() == i,
                forall|j: int| 0 <= j < i ==> words@[j] == 0,
            decreases num_words - i,
        {
            words.push(0u64);
            i = i + 1;
        }
        let r = BlockedBloomFilter { words, num_blocks };
        proof {
            let bits = bits_of_words(r.words@);
            assert forall|g: int| 0 <= g < bits.len() implies !bits[g] by {
                let t = (g % 64) as u64;
                assert((0u64 >> t) & 1u64 == 0u64) by (bit_vector);
            }
            assert(bits =~= Seq::new(filter_bytes(num_keys as nat) * 8, |g: int| false));
            lemma_empty_rejects_all(bits);
        }
        r
    }

    /// Adopts `v` as the filter's bytes, as written by `to_bytes`; refuses a
    /// length that is not a positive multiple of 64.
    pub fn from_vec(v: Vec<u8>) -> (r: Result<Self, InvalidLayout>)
        ensures
            r is Ok <==> loadable(v@.len()),
            r matches Ok(f) ==> f@ == bits_of_bytes(v@) && valid_bits(f@),
            r matches Err(e) ==> e == (InvalidLayout { len: v.len() }),
    {
        let len = v.len();
        if len == 0 || len % 64 != 0 {
            return Err(InvalidLayout { len });
        }
        let num_blocks = calc_num_blocks(len);
        let num_words = len / 8;
        let mut words: Vec<u64> = Vec::with_capacity(num_words);
        let mut i: usize = 0;
        while i < num_words
            invariant
                num_words * 8 == len,
                len == v@.len(),
                i <= num_words,
                words@.len() == i,
                forall|j: int, k: u64|
                    0 <= j < i && k < 8 ==> #[trigger] byte_of_word(words@[j], k) == v@[j * 8
                        + k],
            decreases num_words - i,
        {
            let w = word_from_le_bytes(&v, i * 8);
            words.push(w);
            i = i + 1;
        }
        let r = BlockedBloomFilter { words, num_blocks };
        proof {
            let wb = bits_of_words(r.words@);
            let bb = bits_of_bytes(v@);
            assert forall|g: int| 0 <= g < wb.len() implies wb[g] == bb[g] by {
                lemma_bit_by_byte(r.words@, g);
                lemma_byte_split(g);
            }
            assert(wb =~= bb);
        }
        Ok(r)
    }

    /// The filter's bytes: each word in little-endian order, block after block.
    pub fn to_bytes(&self) -> (r: Vec<u8>)
        ensures
            bits_of_bytes(r@) == self@,
    {
        proof {
            use_type_invariant(self);
        }
        let num_words = self.words.len();
        let mut out: Vec<u8> = Vec::with_capacity(num_words * 8);
        let mut i: usize = 0;
        while i < num_words
            invariant
                num_words == self.words@.len(),
                num_words * 8 <= usize::MAX,
                i <= num_words,
                out@.len() == i * 8,
                forall|j: int, k: u64|
                    0 <= j < i && k < 8 ==> out@[j * 8 + k] == #[trigger] byte_of_word(
                        self.words@[j],
                        k,
                    ),
            decreases num_words - i,
        {
            let w = self.words[i];
            let mut k: u32 = 0;
            while k < 8
                invariant
                    k <= 8,
                    i < num_words,
                    out@.len() == i * 8 + k,
                    forall|j: int, k2: u64|
                        0 <= j < i && k2 < 8 ==> out@[j * 8 + k2] == #[trigger] byte_of_word(
                            self.words@[j],
                            k2,
                        ),
                    forall|k2: u64| k2 < k ==> out@[i * 8 + k2] == #[trigger] byte_of_word(w, k2),
                    w == self.words@[i as int],
                decreases 8 - k,
            {
                out.push(le_byte(w, k));
                k = k + 1;
            }
            i = i + 1;
        }
        proof {
            let wb = bits_of_words(self.words@);
            let bb = bits_of_bytes(out@);
            assert forall|g: int| 0 <= g < bb.len() implies bb[g] == wb[g] by {
                lemma_bit_by_byte(self.words@, g);
                lemma_byte_split(g);
                let j = g / 64;
                let k = ((g / 8) % 8) as u64;
                assert(out@[j * 8 + k] == byte_of_word(self.words@[j], k));
            }
            assert(bb =~= wb);
        }
        out
    }

    /// Inserts hash `h`: sets each of its probes in its block.
    pub fn add(&mut self, h: u32)
        ensures
            final(self)@ == with_key(old(self)@, h),
            holds_key(final(self)@, h),
            forall|g: u32| holds_key(old(self)@, g) ==> holds_key(final(self)@, g),
    {
        proof {
            use_type_invariant(&*self);
        }
        let ghost start = self@;
        let ghost nb = (self.num_blocks) as nat;
        assert(start.len() / 512 == nb) by (nonlinear_arith)
            requires
                start.len() == self.words@.len() * 64,
                self.words@.len() == nb * 8,
        ;
        let block = block_index(h, self.num_blocks);
        let step = step_of(h);
        let mut i: usize = 0;
        while i < NUM_PROBES
            invariant
                i <= NUM_PROBES,
                block == block_of(h, nb),
                block < nb,
                step == probe_step(h),
                nb >= 1,
                self.words@.len() == nb * 8,
                nb * 64 <= usize::MAX,
                self.num_blocks == nb,
                start.len() / 512 == nb,
                start.len() == nb * 512,
                self@ == with_probes(start, h, i as nat),
            decreases NUM_PROBES - i,
        {
            let pos = bit_position(h, step, i);
            let wi = block * 8 + pos / 64;
            let k = (pos % 64) as u32;
            proof {
                assert(wi < nb * 8 && wi as int * 64 + k as int == key_bit(h, nb, i as nat))
                    by (nonlinear_arith)
                    requires
                        block < nb,
                        pos < 512,
                        wi == block * 8 + pos / 64,
                        k == pos % 64,
                        key_bit(h, nb, i as nat) == block * 512 + pos,
                ;
            }
            let ghost before = self@;
            set_bit(&mut self.words, wi, k);
            proof {
                let g0 = key_bit(h, nb, i as nat);
                assert(self@ == before.update(g0, true));
                assert forall|g: int| 0 <= g < start.len() implies self@[g] == with_probes(
                    start,
                    h,
                    (i + 1) as nat,
                )[g] by {
                    if g == g0 {
                        assert(probed_by(h, nb, (i + 1) as nat, g));
                    } else if probed_by(h, nb, (i + 1) as nat, g) {
                        let j = choose|j: nat| j < i + 1 && #[trigger] key_bit(h, nb, j) == g;
                        assert(j != i);
                        assert(probed_by(h, nb, i as nat, g));
                    }
                }
                assert(self@ =~= with_probes(start, h, (i + 1) as nat));
            }
            i = i + 1;
        }
        proof {
            lemma_with_key_holds(start, h);
            assert forall|g: u32| holds_key(start, g) implies holds_key(self@, g) by {
                lemma_with_key_keeps(start, h, g);
            }
        }
    }

    /// Whether `h` may have been inserted: true exactly when all its probes
    /// are set. Never false for an inserted hash.
    pub fn may_contain(&self, h: u32) -> (r: bool)
        ensures
            r == holds_key(self@, h),
    {
        proof {
            use_type_invariant(self);
        }
        let ghost bits = self@;
        let ghost nb = self.num_blocks as nat;
        assert(bits.len() / 512 == nb) by (nonlinear_arith)
            requires
                bits.len() == self.words@.len() * 64,
                self.words@.len() == nb * 8,
        ;
        let block = block_index(h, self.num_blocks);
        let step = step_of(h);
        let mut i: usize = 0;
        while i < NUM_PROBES
            invariant
                i <= NUM_PROBES,
                block == block_of(h, nb),
                block < nb,
                nb >= 1,
                step == probe_step(h),
                self.words@.len() == nb * 8,
                nb * 64 <= usize::MAX,
                bits == self@,
                bits.len() / 512 == nb,
                forall|j: nat| j < i ==> bits[#[trigger] key_bit(h, nb, j)],
            decreases NUM_PROBES - i,
        {
            let pos = bit_position(h, step, i);
            let wi = block * 8 + pos / 64;
            let k = (pos % 64) as u32;
            proof {
                assert(wi < nb * 8 && wi as int * 64 + k as int == key_bit(h, nb, i as nat))
                    by (nonlinear_arith)
                    requires
                        block < nb,
                        pos < 512,
                        wi == block * 8 + pos / 64,
                        k == pos % 64,
                        key_bit(h, nb, i as nat) == block * 512 + pos,
                ;
            }
            if !test_bit(&self.words, wi, k) {
                return false;
            }
            i = i + 1;
        }
        true
    }

    /// Size of the filter in bytes.
    pub fn len(&self) -> (r: usize)
        ensures
            r * 8 == self@.len(),
            r % 64 == 0,
            r >= 64,
    {
        proof {
            use_type_invariant(self);
        }
        self.num_blocks * 64
    }

    /// Number of 64-byte blocks.
    pub fn num_blocks(&self) -> (r: usize)
        ensures
            r * 512 == self@.len(),
            r >= 1,
    {
        proof {
            use_type_invariant(self);
        }
        self.num_blocks
    }
}

/// A filter whose build phase is over: it answers queries and can be shared
/// for concurrent reads, but takes no more insertions.
pub struct FrozenBloomFilter {
    inner: BlockedBloomFilter,
}

impl View for FrozenBloomFilter {
    type V = Seq<bool>;

    closed spec fn view(&self) -> Seq<bool> {
        self.inner@
    }
}

impl BlockedBloomFilter {
    /// Ends the build phase.
    pub fn freeze(self) -> (r: FrozenBloomFilter)
        ensures
            r@ == self@,
    {
        FrozenBloomFilter { inner: self }
    }
}

impl FrozenBloomFilter {
    /// Whether `h` may have been inserted: true exactly when all its probes
    /// are set.
    pub fn may_contain(&self, h: u32) -> (r: bool)
        ensures
            r == holds_key(self@, h),
    {
        self.inner.may_contain(h)
    }

    /// Size of the filter in bytes.
    pub fn len(&self) -> (r: usize)
        ensures
            r * 8 == self@.len(),
            r % 64 == 0,
            r >= 64,
    {
        self.inner.len()
    }

    /// The filter's bytes, as `BlockedBloomFilter::to_bytes` writes them.
    pub fn to_bytes(&self) -> (r: Vec<u8>)
        ensures
            bits_of_bytes(r@) == self@,
    {
        self.inner.to_bytes()
    }
}

/// Inserting `h` sets all its probes.
proof fn lemma_with_key_holds(bits: Seq<bool>, h: u32)
    requires
        valid_bits(bits),
    ensures
        holds_key(with_key(bits, h), h),
{
    let nb = bits.len() / 512;
    let after = with_key(bits, h);
    assert forall|i: nat| i < NUM_PROBES implies after[#[trigger] key_bit(h, after.len() / 512, i)] by {
        lemma_key_bit_in_range(h, nb, i);
        assert(probed_by(h, nb, NUM_PROBES as nat, key_bit(h, nb, i)));
    }
}

/// Inserting a hash keeps every hash that was held before.
proof fn lemma_with_key_keeps(bits: Seq<bool>, h: u32, g: u32)
    requires
        valid_bits(bits),
        holds_key(bits, g),
    ensures
        holds_key(with_key(bits, h), g),
{
    let nb = bits.len() / 512;
    assert forall|i: nat| i < NUM_PROBES implies with_key(bits, h)[#[trigger] key_bit(g, nb, i)] by {
        lemma_key_bit_in_range(g, nb, i);
    }
}

/// Every filter with no bit set rejects every hash.
pub proof fn lemma_empty_rejects_all(bits: Seq<bool>)
    requires
        valid_bits(bits),
        forall|g: int| 0 <= g < bits.len() ==> !bits[g],
    ensures
        forall|h: u32| !holds_key(bits, h),
{
    assert forall|h: u32| !holds_key(bits, h) by {
        let nb = bits.len() / 512;
        lemma_key_bit_in_range(h, nb, 0);
        assert(!bits[key_bit(h, nb, 0)]);
    }
}

/// No false negatives: after inserting the hashes of `hs` in order into any
/// filter, each of them is reported as present, however many insertions
/// followed it.
pub proof fn lemma_no_false_negatives(bits: Seq<bool>, hs: Seq<u32>, i: int)
    requires
        valid_bits(bits),
        0 <= i < hs.len(),
    ensures
        holds_key(with_keys(bits, hs), hs[i]),
        valid_bits(with_keys(bits, hs)),
    decreases hs.len(),
{
    let prefix = hs.drop_last();
    lemma_with_keys_valid(bits, prefix);
    let before = with_keys(bits, prefix);
    if i == hs.len() - 1 {
        lemma_with_key_holds(before, hs.last());
    } else {
        lemma_no_false_negatives(bits, prefix, i);
        lemma_with_key_keeps(before, hs.last(), hs[i]);
    }
}

/// Insertions keep the filter's size.
proof fn lemma_with_keys_valid(bits: Seq<bool>, hs: Seq<u32>)
    requires
        valid_bits(bits),
    ensures
        with_keys(bits, hs).len() == bits.len(),
    decreases hs.len(),
{
    if hs.len() > 0 {
        lemma_with_keys_valid(bits, hs.drop_last());
    }
}

/// Round trip: bytes that hold a filter's bits can be loaded, and the loaded
/// filter answers every query as the original did.
pub proof fn lemma_round_trip(bits: Seq<bool>, bytes: Seq<u8>)
    requires
        valid_bits(bits),
        bits_of_bytes(bytes) == bits,
    ensures
        loadable(bytes.len()),
        forall|h: u32| holds_key(bits_of_bytes(bytes), h) == holds_key(bits, h),
{
    assert(bytes.len() * 8 == bits.len());
    assert(bytes.len() % 64 == 0) by (nonlinear_arith)
        requires
            bytes.len() * 8 == bits.len(),
            bits.len() % 512 == 0,
    ;
}

} // verus!
