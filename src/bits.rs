//! Bit-level view of byte strings and of streams of 11-bit word indices.
use vstd::arithmetic::power2::*;
use vstd::prelude::*;

verus! {

/// Bit `j` of a byte string, most significant bit of each byte first.
pub open spec fn byte_bit(b: Seq<u8>, j: int) -> nat {
    ((b[j / 8] >> ((7 - j % 8) as u8)) & 1u8) as nat
}

/// Bit `j` of the stream formed by concatenating 11-bit indices, most
/// significant bit of each index first.
pub open spec fn index_bit(w: Seq<u32>, j: int) -> nat {
    ((w[j / 11] >> ((10 - j % 11) as u32)) & 1u32) as nat
}

/// The bits of a byte string, as a function of their position.
pub open spec fn byte_bits(b: Seq<u8>) -> spec_fn(int) -> nat {
    |j: int| byte_bit(b, j)
}

/// The bits of a stream of 11-bit indices, as a function of their position.
pub open spec fn index_bits(w: Seq<u32>) -> spec_fn(int) -> nat {
    |j: int| index_bit(w, j)
}

/// The unsigned value of the `n` bits of `f` that start at `start`, read most
/// significant bit first.
pub open spec fn pack(f: spec_fn(int) -> nat, start: int, n: nat) -> nat
    decreases n,
{
    if n == 0 {
        0
    } else {
        2 * pack(f, start, (n - 1) as nat) + f(start + n - 1)
    }
}

/// Two bit sources that agree on a range pack to the same value there.
pub proof fn lemma_pack_ext(f: spec_fn(int) -> nat, g: spec_fn(int) -> nat, start: int, n: nat)
    requires
        forall|j: int| start <= j < start + n ==> #[trigger] f(j) == g(j),
    ensures
        pack(f, start, n) == pack(g, start, n),
    decreases n,
{
    if n > 0 {
        lemma_pack_ext(f, g, start, (n - 1) as nat);
    }
}

/// `n` bits pack to a value below `2^n`.
pub proof fn lemma_pack_bound(f: spec_fn(int) -> nat, start: int, n: nat)
    requires
        forall|j: int| start <= j < start + n ==> #[trigger] f(j) <= 1,
    ensures
        pack(f, start, n) < pow2(n),
    decreases n,
{
    if n == 0 {
        lemma2_to64();
    } else {
        lemma_pack_bound(f, start, (n - 1) as nat);
        lemma_pow2_unfold(n);
    }
}

proof fn lemma_small_pow2(n: nat)
    requires
        n <= 11,
    ensures
        pow2(n) <= 2048,
        n <= 10 ==> pow2(n) <= 1024,
        n == 8 ==> pow2(n) == 256,
{
    lemma2_to64();
    if n < 11 {
        lemma_pow2_strictly_increases(n, 11);
    }
    if n < 10 {
        lemma_pow2_strictly_increases(n, 10);
    }
}

pub proof fn lemma_byte_bits_bound(b: Seq<u8>, start: int, n: nat)
    requires
        0 <= start,
        start + n <= 8 * b.len(),
        n <= 11,
    ensures
        pack(byte_bits(b), start, n) < pow2(n),
        pack(byte_bits(b), start, n) < 2048,
        n <= 10 ==> pack(byte_bits(b), start, n) < 1024,
{
    assert forall|j: int| start <= j < start + n implies #[trigger] byte_bits(b)(j) <= 1 by {
        let x = b[j / 8];
        let s = (7 - j % 8) as u8;
        assert((x >> s) & 1u8 <= 1u8) by (bit_vector);
    }
    lemma_pack_bound(byte_bits(b), start, n);
    lemma_small_pow2(n);
}

pub proof fn lemma_index_bits_bound(w: Seq<u32>, start: int, n: nat)
    requires
        0 <= start,
        start + n <= 11 * w.len(),
        n <= 8,
    ensures
        pack(index_bits(w), start, n) < pow2(n),
        pack(index_bits(w), start, n) < 256,
{
    assert forall|j: int| start <= j < start + n implies #[trigger] index_bits(w)(j) <= 1 by {
        let x = w[j / 11];
        let s = (10 - j % 11) as u32;
        assert((x >> s) & 1u32 <= 1u32) by (bit_vector);
    }
    lemma_pack_bound(index_bits(w), start, n);
    lemma_small_pow2(n);
    lemma2_to64();
    if n < 8 {
        lemma_pow2_strictly_increases(n, 8);
    }
}

proof fn lemma_shift_step(v: u32, c: u32, x: u32, m: u32)
    requires
        v < 1024,
        c <= 1,
        x == 2 * v + c,
        m < 11,
    ensures
        (x >> ((m + 1) as u32)) & 1 == (v >> m) & 1,
        x & 1 == c,
        x >> 0u32 == x,
{
    assert((x >> ((m + 1) as u32)) & 1 == (v >> m) & 1) by (bit_vector)
        requires
            v < 1024,
            c <= 1,
            x == 2 * v + c,
            m < 11,
    ;
    assert(x & 1 == c) by (bit_vector)
        requires
            v < 1024,
            c <= 1,
            x == 2 * v + c,
    ;
    assert(x >> 0u32 == x) by (bit_vector);
}

/// Bit `k` (most significant first) of an `n`-bit packed value is the `k`-th bit
/// of its source.
proof fn lemma_unpack(f: spec_fn(int) -> nat, start: int, n: nat, k: nat)
    requires
        n <= 11,
        k < n,
        forall|j: int| start <= j < start + n ==> #[trigger] f(j) <= 1,
    ensures
        pack(f, start, n) < 2048,
        (((pack(f, start, n) as u32) >> ((n - 1 - k) as u32)) & 1u32) as nat == f(start + k),
    decreases n,
{
    lemma_pack_bound(f, start, n);
    lemma_small_pow2(n);
    let m = (n - 1) as nat;
    let v = pack(f, start, m);
    lemma_pack_bound(f, start, m);
    lemma_small_pow2(m);
    let c = f(start + m);
    let x = pack(f, start, n) as u32;
    if k < m {
        lemma_unpack(f, start, m, k);
        lemma_shift_step(v as u32, c as u32, x, (m - 1 - k) as u32);
    } else {
        lemma_shift_step(v as u32, c as u32, x, 0);
    }
}

/// The eight bits of a byte pack back to the byte.
proof fn lemma_repack_byte(f: spec_fn(int) -> nat, start: int, x: u8, n: nat)
    requires
        n <= 8,
        forall|t: int| 0 <= t < n ==> #[trigger] f(start + t) == ((x >> ((7 - t) as u8)) & 1u8) as nat,
    ensures
        pack(f, start, n) == (x >> ((8 - n) as u8)) as nat,
    decreases n,
{
    if n == 0 {
        assert(x >> 8u8 == 0u8) by (bit_vector);
    } else {
        let m = (n - 1) as nat;
        lemma_repack_byte(f, start, x, m);
        let s = (8 - n) as u8;
        let hi = x >> ((s + 1) as u8);
        let lo = (x >> s) & 1u8;
        assert(2 * hi + lo == x >> s) by (bit_vector)
            requires
                s < 8,
                hi == x >> ((s + 1) as u8),
                lo == (x >> s) & 1u8,
        ;
    }
}

/// The 24 indices of 11 bits each that cover a 33-byte stream.
pub open spec fn indices_of_stream(stream: Seq<u8>) -> Seq<u32> {
    Seq::new(24, |i: int| pack(byte_bits(stream), 11 * i, 11) as u32)
}

/// The 33 bytes spelled by 24 indices of 11 bits each.
pub open spec fn stream_of_indices(w: Seq<u32>) -> Seq<u8> {
    Seq::new(33, |k: int| pack(index_bits(w), 8 * k, 8) as u8)
}

/// Cutting a 33-byte stream into 11-bit indices and joining them again gives
/// back the stream.
pub proof fn lemma_stream_round_trip(stream: Seq<u8>)
    requires
        stream.len() == 33,
    ensures
        stream_of_indices(indices_of_stream(stream)) == stream,
{
    let w = indices_of_stream(stream);
    let f = byte_bits(stream);
    assert forall|j: int| 0 <= j < 264 implies #[trigger] index_bits(w)(j) == f(j) by {
        let i = j / 11;
        let k = j % 11;
        assert(0 <= i < 24);
        assert(j == 11 * i + k);
        lemma_byte_bits_bound(stream, 11 * i, 11);
        assert forall|jj: int| 11 * i <= jj < 11 * i + 11 implies #[trigger] f(jj) <= 1 by {
            let x = stream[jj / 8];
            let s = (7 - jj % 8) as u8;
            assert((x >> s) & 1u8 <= 1u8) by (bit_vector);
        }
        lemma_unpack(f, 11 * i, 11, k as nat);
    }
    assert forall|k: int| 0 <= k < 33 implies stream_of_indices(w)[k] == stream[k] by {
        lemma_pack_ext(index_bits(w), f, 8 * k, 8);
        assert forall|t: int| 0 <= t < 8 implies #[trigger] f(8 * k + t) == ((stream[k] >> ((7 - t) as u8))
            & 1u8) as nat by {
            assert((8 * k + t) / 8 == k);
            assert((8 * k + t) % 8 == t);
        }
        lemma_repack_byte(f, 8 * k, stream[k], 8);
        let x = stream[k];
        assert(x >> 0u8 == x) by (bit_vector);
    }
    assert(stream_of_indices(w) =~= stream);
}

/// Changing the last index but not its top three bits keeps the first 32
/// bytes and changes the last one.
pub proof fn lemma_last_index_change(w: Seq<u32>, v: u32)
    requires
        w.len() == 24,
        forall|i: int| 0 <= i < 24 ==> #[trigger] w[i] < 2048,
        v < 2048,
        v != w[23],
        v >> 8u32 == w[23] >> 8u32,
    ensures
        stream_of_indices(w.update(23, v)).take(32) == stream_of_indices(w).take(32),
        stream_of_indices(w.update(23, v))[32] != stream_of_indices(w)[32],
{
    let w2 = w.update(23, v);
    let u = w[23];
    assert forall|j: int| 0 <= j < 256 implies #[trigger] index_bits(w2)(j) == index_bits(w)(j) by {
        if j / 11 == 23 {
            let s = (10 - j % 11) as u32;
            assert(8 <= s <= 10);
            assert((v >> s) & 1u32 == (u >> s) & 1u32) by (bit_vector)
                requires
                    v >> 8u32 == u >> 8u32,
                    8 <= s <= 10,
            ;
        }
    }
    assert forall|k: int| 0 <= k < 32 implies #[trigger] stream_of_indices(w2)[k] == stream_of_indices(w)[k] by {
        lemma_pack_ext(index_bits(w2), index_bits(w), 8 * k, 8);
    }
    assert(stream_of_indices(w2).take(32) =~= stream_of_indices(w).take(32));
    let xu = (u & 255u32) as u8;
    let xv = (v & 255u32) as u8;
    assert forall|t: int| 0 <= t < 8 implies #[trigger] index_bits(w)(256 + t) == ((xu >> ((7 - t) as u8)) & 1u8) as nat by {
        assert((256 + t) / 11 == 23);
        assert((256 + t) % 11 == 3 + t);
        let s = (7 - t) as u32;
        let s8 = (7 - t) as u8;
        assert((u >> s) & 1u32 == ((xu >> s8) & 1u8) as u32) by (bit_vector)
            requires
                xu == (u & 255u32) as u8,
                s < 8,
                s8 == s as u8,
        ;
    }
    assert forall|t: int| 0 <= t < 8 implies #[trigger] index_bits(w2)(256 + t) == ((xv >> ((7 - t) as u8)) & 1u8) as nat by {
        assert((256 + t) / 11 == 23);
        assert((256 + t) % 11 == 3 + t);
        let s = (7 - t) as u32;
        let s8 = (7 - t) as u8;
        assert((v >> s) & 1u32 == ((xv >> s8) & 1u8) as u32) by (bit_vector)
            requires
                xv == (v & 255u32) as u8,
                s < 8,
                s8 == s as u8,
        ;
    }
    lemma_repack_byte(index_bits(w), 256, xu, 8);
    lemma_repack_byte(index_bits(w2), 256, xv, 8);
    assert(xu >> 0u8 == xu) by (bit_vector);
    assert(xv >> 0u8 == xv) by (bit_vector);
    assert(xu != xv) by (bit_vector)
        requires
            xu == (u & 255u32) as u8,
            xv == (v & 255u32) as u8,
            v >> 8u32 == u >> 8u32,
            v != u,
            u < 2048,
            v < 2048,
    ;
}

} // verus!
