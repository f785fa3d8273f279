//! Dimensions handed to the device kernels, which take 32-bit signed integers.

use vstd::prelude::*;

verus! {

/// The 32-bit signed integer that agrees with `n` in its low 32 bits.
pub open spec fn low_i32(n: nat) -> int {
    let low = n as int % 0x1_0000_0000;
    if low < 0x8000_0000 {
        low
    } else {
        low - 0x1_0000_0000
    }
}

/// The integer differs from `n` by a multiple of 2^32 and has 32 bits.
pub proof fn low_i32_agrees_in_the_low_bits(n: nat)
    ensures
        (n - low_i32(n)) % 0x1_0000_0000 == 0,
        -0x8000_0000 <= low_i32(n) < 0x8000_0000,
{
}

/// A dimension as a kernel takes it. Real dimensions are far below the limit,
/// and pass unchanged.
pub fn kernel_dim(n: usize) -> (r: i32)
    ensures
        r == low_i32(n as nat),
        (n - r) % 0x1_0000_0000 == 0,
        n <= i32::MAX ==> r == n,
{
    let wide: u64 = n as u64;
    let r: i32 = #[verifier::truncate]
    (wide as i32);
    proof {
        let low: u64 = wide % 0x1_0000_0000;
        assert(low < 0x8000_0000 ==> (wide as i32) == low) by (bit_vector)
            requires
                low == wide % 0x1_0000_0000,
        ;
        assert(low >= 0x8000_0000 ==> (wide as i32) == low - 0x1_0000_0000) by (bit_vector)
            requires
                low == wide % 0x1_0000_0000,
        ;
    }
    r
}

/// Dimensions of `C = A * B`: `A` is m x k, `B` is k x n, `C` is m x n.
pub struct MatmulDims {
    pub m: i32,
    pub n: i32,
    pub k: i32,
}

impl MatmulDims {
    /// The dimensions as the kernel takes them.
    pub fn new(m: usize, n: usize, k: usize) -> (r: Self)
        ensures
            r.m == low_i32(m as nat),
            r.n == low_i32(n as nat),
            r.k == low_i32(k as nat),
            (m - r.m) % 0x1_0000_0000 == 0,
            (n - r.n) % 0x1_0000_0000 == 0,
            (k - r.k) % 0x1_0000_0000 == 0,
            m <= i32::MAX ==> r.m == m,
            n <= i32::MAX ==> r.n == n,
            k <= i32::MAX ==> r.k == k,
    {
        MatmulDims { m: kernel_dim(m), n: kernel_dim(n), k: kernel_dim(k) }
    }
}

/// Dimensions of RMSNorm over `num_tokens` rows of `hidden_size` elements.
pub struct RmsNormDims {
    pub num_tokens: i32,
    pub hidden_size: i32,
}

impl RmsNormDims {
    /// The dimensions as the kernel takes them.
    pub fn new(num_tokens: usize, hidden_size: usize) -> (r: Self)
        ensures
            r.num_tokens == low_i32(num_tokens as nat),
            r.hidden_size == low_i32(hidden_size as nat),
            (num_tokens - r.num_tokens) % 0x1_0000_0000 == 0,
            (hidden_size - r.hidden_size) % 0x1_0000_0000 == 0,
            num_tokens <= i32::MAX ==> r.num_tokens == num_tokens,
            hidden_size <= i32::MAX ==> r.hidden_size == hidden_size,
    {
        RmsNormDims { num_tokens: kernel_dim(num_tokens), hidden_size: kernel_dim(hidden_size) }
    }
}

/// Dimensions of RoPE over `num_tokens` rows of `num_heads * head_dim`
/// elements.
pub struct RopeDims {
    pub num_tokens: i32,
    pub num_heads: i32,
    pub head_dim: i32,
}

impl RopeDims {
    /// The dimensions as the kernel takes them.
    pub fn new(num_tokens: usize, num_heads: usize, head_dim: usize) -> (r: Self)
        ensures
            r.num_tokens == low_i32(num_tokens as nat),
            r.num_heads == low_i32(num_heads as nat),
            r.head_dim == low_i32(head_dim as nat),
            (num_tokens - r.num_tokens) % 0x1_0000_0000 == 0,
            (num_heads - r.num_heads) % 0x1_0000_0000 == 0,
            (head_dim - r.head_dim) % 0x1_0000_0000 == 0,
            num_tokens <= i32::MAX ==> r.num_tokens == num_tokens,
            num_heads <= i32::MAX ==> r.num_heads == num_heads,
            head_dim <= i32::MAX ==> r.head_dim == head_dim,
    {
        RopeDims {
            num_tokens: kernel_dim(num_tokens),
            num_heads: kernel_dim(num_heads),
            head_dim: kernel_dim(head_dim),
        }
    }
}

/// Dimensions of attention with grouped key/value heads.
pub struct AttentionDims {
    pub batch: i32,
    pub num_heads: i32,
    pub num_heads_k: i32,
    pub seqlen_q: i32,
    pub seqlen_k: i32,
    pub head_dim: i32,
}

impl AttentionDims {
    /// The dimensions as the kernel takes them.
    pub fn new(
        batch: usize,
        num_heads: usize,
        num_heads_k: usize,
        seqlen_q: usize,
        seqlen_k: usize,
        head_dim: usize,
    ) -> (r: Self)
        ensures
            r.batch == low_i32(batch as nat),
            r.num_heads == low_i32(num_heads as nat),
            r.num_heads_k == low_i32(num_heads_k as nat),
            r.seqlen_q == low_i32(seqlen_q as nat),
            r.seqlen_k == low_i32(seqlen_k as nat),
            r.head_dim == low_i32(head_dim as nat),
            (batch - r.batch) % 0x1_0000_0000 == 0,
            (num_heads - r.num_heads) % 0x1_0000_0000 == 0,
            (num_heads_k - r.num_heads_k) % 0x1_0000_0000 == 0,
            (seqlen_q - r.seqlen_q) % 0x1_0000_0000 == 0,
            (seqlen_k - r.seqlen_k) % 0x1_0000_0000 == 0,
            (head_dim - r.head_dim) % 0x1_0000_0000 == 0,
            batch <= i32::MAX ==> r.batch == batch,
            num_heads <= i32::MAX ==> r.num_heads == num_heads,
            num_heads_k <= i32::MAX ==> r.num_heads_k == num_heads_k,
            seqlen_q <= i32::MAX ==> r.seqlen_q == seqlen_q,
            seqlen_k <= i32::MAX ==> r.seqlen_k == seqlen_k,
            head_dim <= i32::MAX ==> r.head_dim == head_dim,
    {
        AttentionDims {
            batch: kernel_dim(batch),
            num_heads: kernel_dim(num_heads),
            num_heads_k: kernel_dim(num_heads_k),
            seqlen_q: kernel_dim(seqlen_q),
            seqlen_k: kernel_dim(seqlen_k),
            head_dim: kernel_dim(head_dim),
        }
    }
}

} // verus!
