use vstd::prelude::*;

verus! {

/// Filter bits budgeted for each expected key.
pub const BITS_PER_KEY: usize = 10;

/// Bytes in one block: one cache line.
pub const BLOCK_BYTES: usize = 64;

/// Bytes of a filter sized for `num_keys` expected keys: the key bits as
/// bytes, one byte of slack and a block of headroom, cut to a block boundary,
/// and never less than one block.
pub open spec fn filter_bytes(num_keys: nat) -> nat {
    let padded = (num_keys * 10) / 8 + 1 + 64;
    let aligned = (padded / 64) * 64;
    if aligned < 64 {
        64
    } else {
        aligned as nat
    }
}

/// Byte size of a filter built for `num_keys` expected keys.
pub fn calc_bytes(num_keys: usize) -> (r: usize)
    requires
        filter_bytes(num_keys as nat) <= usize::MAX,
    ensures
        r == filter_bytes(num_keys as nat),
        r % 64 == 0,
        r >= 64,
{
    let ghost n = num_keys as nat;
    // num_keys * 10 / 8, computed without forming num_keys * 10
    let whole: usize = num_keys / 8;
    let rest: usize = num_keys % 8;
    proof {
        lemma_key_bytes_split(n);
        lemma_padded_fits(n);
    }
    let key_bytes: usize = whole * BITS_PER_KEY + rest * BITS_PER_KEY / 8;
    let padded: usize = key_bytes + 1 + BLOCK_BYTES;
    let aligned: usize = padded / BLOCK_BYTES * BLOCK_BYTES;
    if aligned < BLOCK_BYTES {
        BLOCK_BYTES
    } else {
        aligned
    }
}

proof fn lemma_key_bytes_split(n: nat)
    ensures
        (n * 10) / 8 == (n / 8) * 10 + ((n % 8) * 10) / 8,
        (n % 8) * 10 / 8 < 10,
{
    assert((n * 10) / 8 == (n / 8) * 10 + ((n % 8) * 10) / 8) by (nonlinear_arith);
}

/// The padded byte count stays in range whenever its aligned size does.
proof fn lemma_padded_fits(n: nat)
    requires
        filter_bytes(n) <= usize::MAX,
    ensures
        (n * 10) / 8 + 1 + 64 <= usize::MAX,
{
    let padded = (n * 10) / 8 + 1 + 64;
    let m = usize::MAX as int + 1;
    assert(m % 64 == 0) by {
        assert(usize::MAX == 0xffff_ffff || usize::MAX == 0xffff_ffff_ffff_ffff);
    }
    assert((padded / 64) * 64 <= usize::MAX);
    if padded > usize::MAX {
        assert(padded >= m);
        assert(padded / 64 >= m / 64) by (nonlinear_arith)
            requires
                padded >= m,
        ;
        assert((padded / 64) * 64 >= (m / 64) * 64) by (nonlinear_arith)
            requires
                padded / 64 >= m / 64,
        ;
        assert((m / 64) * 64 == m) by (nonlinear_arith)
            requires
                m % 64 == 0,
        ;
    }
}

/// A filter for no keys still holds one block, and every size is a whole
/// number of blocks.
pub proof fn lemma_size_floor(n: nat)
    ensures
        filter_bytes(0) == 64,
        filter_bytes(n) % 64 == 0,
        filter_bytes(n) >= 64,
{
    let padded = (n * 10) / 8 + 1 + 64;
    assert(((padded / 64) * 64) % 64 == 0) by (nonlinear_arith);
}

/// More expected keys never give a smaller filter.
pub proof fn lemma_size_monotonic(n1: nat, n2: nat)
    requires
        n1 < n2,
    ensures
        filter_bytes(n1) <= filter_bytes(n2),
{
    assert(n1 * 10 <= n2 * 10);
    assert((n1 * 10) / 8 <= (n2 * 10) / 8) by (nonlinear_arith)
        requires
            n1 * 10 <= n2 * 10,
    ;
    let p1 = (n1 * 10) / 8 + 1 + 64;
    let p2 = (n2 * 10) / 8 + 1 + 64;
    assert((p1 / 64) * 64 <= (p2 / 64) * 64) by (nonlinear_arith)
        requires
            p1 <= p2,
    ;
}

/// Number of blocks in a buffer of `bytes` bytes.
pub fn calc_num_blocks(bytes: usize) -> (r: usize)
    ensures
        r == bytes / 64,
{
    bytes / BLOCK_BYTES
}

} // verus!
