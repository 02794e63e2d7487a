//! How a share's plaintext is cut into blocks, and which ciphertext each
//! block becomes.
use crate::crypto::{block_nonce, xchacha20poly1305_seal};
use vstd::arithmetic::div_mod::{lemma_fundamental_div_mod, lemma_fundamental_div_mod_converse};
use vstd::arithmetic::mul::{lemma_mul_inequality, lemma_mul_is_distributive_add};
use vstd::prelude::*;

verus! {

/// Number of blocks of a share of `size` plaintext bytes cut into blocks of
/// `bs` bytes: ⌈size / bs⌉, and a single block for an empty file.
pub open spec fn num_blocks(size: nat, bs: nat) -> nat {
    if size == 0 {
        1
    } else if size % bs == 0 {
        size / bs
    } else {
        size / bs + 1
    }
}

/// Plaintext bytes of block `i` (0-based): `bs` for every block but the
/// last, and what is left, `size - (n - 1) * bs`, for the last.
pub open spec fn block_len(size: nat, bs: nat, i: int) -> nat {
    if i + 1 < num_blocks(size, bs) {
        bs
    } else {
        (size - (num_blocks(size, bs) - 1) * bs) as nat
    }
}

/// The plaintext of block `i` of a share of `size` bytes, read from `pt`.
pub open spec fn block_plain(pt: Seq<u8>, size: nat, bs: nat, i: int) -> Seq<u8> {
    pt.subrange(i * bs, i * bs + block_len(size, bs, i))
}

/// The ciphertext of block `i` of a share of `size` bytes: `plain` sealed
/// under the STREAM nonce of position `i`, flagged as last for the final block.
pub open spec fn block_seal(key: Seq<u8>, prefix: Seq<u8>, size: nat, bs: nat, i: int, plain: Seq<u8>) -> Seq<u8> {
    xchacha20poly1305_seal(key, block_nonce(prefix, i, i + 1 == num_blocks(size, bs)), plain)
}

/// The ciphertext blocks of the share of `pt`, in order.
pub open spec fn sealed_blocks(key: Seq<u8>, prefix: Seq<u8>, bs: nat, pt: Seq<u8>) -> Seq<Seq<u8>> {
    Seq::new(
        num_blocks(pt.len(), bs),
        |i: int| block_seal(key, prefix, pt.len(), bs, i, block_plain(pt, pt.len(), bs, i)),
    )
}

/// A share of `p * bs + b` bytes, with `0 <= b <= bs` and `b > 0` once
/// `p > 0`, has `p + 1` blocks: `p` full ones and a last one of `b` bytes.
pub proof fn lemma_shape(size: nat, bs: nat, p: nat, b: nat)
    requires
        bs >= 1,
        size == p * bs + b,
        b <= bs,
        p > 0 ==> b > 0,
    ensures
        num_blocks(size, bs) == p + 1,
        block_len(size, bs, p as int) == b,
        forall|i: int| 0 <= i < p ==> #[trigger] block_len(size, bs, i) == bs,
{
    if size == 0 {
        assert(p == 0) by (nonlinear_arith)
            requires size == 0, size == p * bs + b, p > 0 ==> b > 0, bs >= 1, p >= 0, b >= 0;
    } else if b == bs {
        assert(size == (p + 1) * bs + 0) by (nonlinear_arith)
            requires size == p * bs + b, b == bs;
        lemma_fundamental_div_mod_converse(size as int, bs as int, (p + 1) as int, 0);
    } else {
        lemma_fundamental_div_mod_converse(size as int, bs as int, p as int, b as int);
    }
}

/// Every share has the shape of `lemma_shape`: its full blocks, then a last
/// block of at most `bs` bytes, which is empty only for an empty file.
pub proof fn lemma_last_block(size: nat, bs: nat)
    requires
        bs >= 1,
    ensures
        num_blocks(size, bs) >= 1,
        size == (num_blocks(size, bs) - 1) * bs + block_len(size, bs, num_blocks(size, bs) - 1),
        block_len(size, bs, num_blocks(size, bs) - 1) <= bs,
        size > 0 ==> block_len(size, bs, num_blocks(size, bs) - 1) > 0,
{
    let n = num_blocks(size, bs);
    if size > 0 {
        lemma_fundamental_div_mod(size as int, bs as int);
        let q = size as int / bs as int;
        let r = size as int % bs as int;
        assert(size == q * bs + r) by (nonlinear_arith)
            requires size == bs * q + r;
        if r == 0 {
            assert(q >= 1) by (nonlinear_arith)
                requires size == q * bs, size > 0, bs >= 1, q >= 0;
            assert((q - 1) * bs + bs == q * bs) by (nonlinear_arith);
        }
    }
}

/// Each block's plaintext lies within the share: block `i` starts at
/// `i * bs`, and ends at `(i + 1) * bs`, or at `size` for the last block.
pub proof fn lemma_block_bounds(size: nat, bs: nat, i: int)
    requires
        bs >= 1,
        0 <= i < num_blocks(size, bs),
    ensures
        0 <= i * bs,
        i * bs + block_len(size, bs, i) <= size,
        i + 1 < num_blocks(size, bs) ==> (i + 1) * bs <= size,
        i + 1 == num_blocks(size, bs) ==> i * bs + block_len(size, bs, i) == size,
{
    lemma_last_block(size, bs);
    let n = num_blocks(size, bs);
    lemma_mul_inequality(i, n - 1, bs as int);
    assert(0 <= i * bs) by (nonlinear_arith)
        requires 0 <= i, bs >= 1;
    if i + 1 < n {
        lemma_mul_inequality(i + 1, n - 1, bs as int);
        assert((i + 1) * bs == i * bs + bs) by (nonlinear_arith);
    }
}

/// The blocks of a share put back together, in order, give the share's
/// plaintext, each block holding exactly `block_len` bytes of it.
pub proof fn lemma_blocks_rejoin(pt: Seq<u8>, bs: nat)
    requires
        bs >= 1,
    ensures
        forall|i: int| 0 <= i < num_blocks(pt.len(), bs)
            ==> (#[trigger] block_plain(pt, pt.len(), bs, i)).len() == block_len(pt.len(), bs, i),
        forall|k: int| 0 <= k < num_blocks(pt.len(), bs)
            ==> pt.subrange(0, k * bs) + #[trigger] block_plain(pt, pt.len(), bs, k)
                == pt.subrange(0, k * bs + block_len(pt.len(), bs, k)),
        pt.subrange(0, (num_blocks(pt.len(), bs) - 1) * bs + block_len(pt.len(), bs, num_blocks(pt.len(), bs) - 1)) == pt,
{
    assert forall|i: int| 0 <= i < num_blocks(pt.len(), bs)
        implies (#[trigger] block_plain(pt, pt.len(), bs, i)).len() == block_len(pt.len(), bs, i) by {
        lemma_block_bounds(pt.len(), bs, i);
    }
    assert forall|k: int| 0 <= k < num_blocks(pt.len(), bs)
        implies pt.subrange(0, k * bs) + #[trigger] block_plain(pt, pt.len(), bs, k)
            == pt.subrange(0, k * bs + block_len(pt.len(), bs, k)) by {
        lemma_block_bounds(pt.len(), bs, k);
        assert(pt.subrange(0, k * bs) + block_plain(pt, pt.len(), bs, k)
            =~= pt.subrange(0, k * bs + block_len(pt.len(), bs, k)));
    }
    lemma_last_block(pt.len(), bs);
    assert(pt.subrange(0, pt.len() as int) =~= pt);
}

/// An empty file is one block, holding no plaintext: after sealing, the
/// tag alone.
pub proof fn lemma_empty_share(bs: nat)
    requires
        bs >= 1,
    ensures
        num_blocks(0, bs) == 1,
        block_len(0, bs, 0) == 0,
{
}

/// A file of exactly `k >= 1` blocks' worth of bytes is cut into `k` blocks,
/// all of them full, the last one included.
pub proof fn lemma_exact_multiple(k: nat, bs: nat)
    requires
        k >= 1,
        bs >= 1,
    ensures
        num_blocks(k * bs, bs) == k,
        forall|i: int| 0 <= i < k ==> #[trigger] block_len(k * bs, bs, i) == bs,
{
    assert(k * bs == (k - 1) * bs + bs) by (nonlinear_arith);
    lemma_shape(k * bs, bs, (k - 1) as nat, bs);
}

/// The plaintext lengths of the blocks add up to the file's size: every
/// block before the last holds `bs` bytes and the last what is left.
pub proof fn lemma_block_lens_sum(size: nat, bs: nat)
    requires
        bs >= 1,
    ensures
        forall|i: int| 0 <= i < num_blocks(size, bs) - 1 ==> #[trigger] block_len(size, bs, i) == bs,
        (num_blocks(size, bs) - 1) * bs + block_len(size, bs, num_blocks(size, bs) - 1) == size,
{
    lemma_last_block(size, bs);
}

/// ⌈size / block_size⌉ blocks, and one for an empty file.
pub fn block_count(size: usize, block_size: usize) -> (n: usize)
    requires
        block_size > 0,
    ensures
        n == num_blocks(size as nat, block_size as nat),
{
    if size == 0 {
        1
    } else if size % block_size == 0 {
        size / block_size
    } else {
        proof {
            lemma_fundamental_div_mod(size as int, block_size as int);
            let q = size as int / block_size as int;
            assert(q * 2 <= size) by (nonlinear_arith)
                requires size == block_size * q + size as int % block_size as int, block_size >= 2, q >= 0,
                    size as int % block_size as int >= 0;
        }
        size / block_size + 1
    }
}

} // verus!
