use vstd::prelude::*;

verus! {

/// Bits in one block (64 bytes).
pub const BLOCK_BITS: usize = 512;

/// Bits set per key: about ln 2 times the bits budgeted per key.
pub const NUM_PROBES: usize = 7;

/// Odd multiplier (the 32-bit golden ratio) that scrambles a hash into the
/// stride between probes.
pub const STEP_MIX: u64 = 0x9E37_79B9;

/// Block that hash `h` lands in: the high 32 bits of `h * num_blocks`.
pub open spec fn block_of(h: u32, num_blocks: nat) -> nat {
    ((h as nat) * num_blocks) / 0x1_0000_0000
}

/// Stride between consecutive probes of `h`: the top byte of the low 32 bits
/// of `h * STEP_MIX`, made odd.
pub open spec fn probe_step(h: u32) -> nat {
    2 * ((((h as nat) * 0x9E37_79B9) % 0x1_0000_0000) / 0x100_0000) + 1
}

/// Position, inside its block, of the `i`-th bit of `h`.
pub open spec fn probe_bit(h: u32, i: nat) -> nat {
    ((h as nat) + i * probe_step(h)) % 512
}

/// Index of the block that hash `h` maps to among `num_blocks` blocks.
pub fn block_index(h: u32, num_blocks: usize) -> (r: usize)
    ensures
        r == block_of(h, num_blocks as nat),
        num_blocks > 0 ==> r < num_blocks,
{
    let hh = h as u128;
    let nb = num_blocks as u128;
    assert(hh * nb < 0x1_0000_0000_0000_0000_0000_0000) by (nonlinear_arith)
        requires
            hh < 0x1_0000_0000,
            nb < 0x1_0000_0000_0000_0000,
    ;
    let product: u128 = hh * nb;
    let high: u128 = product >> 32u32;
    assert(high == product / 0x1_0000_0000) by (bit_vector)
        requires
            high == product >> 32u32,
    ;
    assert(high * 0x1_0000_0000 <= product) by (nonlinear_arith)
        requires
            high == product / 0x1_0000_0000,
    ;
    assert(nb > 0 ==> product < nb * 0x1_0000_0000) by (nonlinear_arith)
        requires
            product == hh * nb,
            hh < 0x1_0000_0000,
    ;
    assert(nb > 0 ==> high < nb) by (nonlinear_arith)
        requires
            high * 0x1_0000_0000 <= product,
            nb > 0 ==> product < nb * 0x1_0000_0000,
    ;
    assert(product <= nb * 0x1_0000_0000) by (nonlinear_arith)
        requires
            product == hh * nb,
            hh < 0x1_0000_0000,
    ;
    assert(high <= nb) by (nonlinear_arith)
        requires
            high * 0x1_0000_0000 <= product,
            product <= nb * 0x1_0000_0000,
    ;
    high as usize
}

/// Stride between consecutive probes of `h`; always odd and below 512.
pub fn step_of(h: u32) -> (r: u64)
    ensures
        r == probe_step(h),
        r % 2 == 1,
        r < 512,
{
    let hh = h as u64;
    assert(hh * STEP_MIX < 0x1_0000_0000_0000_0000) by (nonlinear_arith)
        requires
            hh < 0x1_0000_0000,
    ;
    let product: u64 = hh * STEP_MIX;
    let low: u64 = product & 0xffff_ffff;
    let top: u64 = low >> 24u32;
    assert(low == product % 0x1_0000_0000 && top == low / 0x100_0000 && top < 256) by (bit_vector)
        requires
            low == product & 0xffff_ffff,
            top == low >> 24u32,
    ;
    top * 2 + 1
}

/// Position inside the block of the `i`-th bit of `h`, given its stride.
pub fn bit_position(h: u32, step: u64, i: usize) -> (r: usize)
    requires
        step == probe_step(h),
        i < NUM_PROBES,
    ensures
        r == probe_bit(h, i as nat),
        r < 512,
{
    assert((i as u64) * step <= 7 * 512) by (nonlinear_arith)
        requires
            i < 7,
            step <= 512,
    ;
    let pos: u64 = ((h as u64) + (i as u64) * step) % (BLOCK_BITS as u64);
    pos as usize
}

/// With a single block every hash lands in block 0, and every probe falls
/// inside the block's 512 bits.
pub proof fn lemma_single_block(h: u32)
    ensures
        block_of(h, 1) == 0,
        forall|i: nat| #[trigger] probe_bit(h, i) < 512,
{
    assert(block_of(h, 1) == 0);
}

} // verus!
