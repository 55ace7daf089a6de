use vstd::prelude::*;

verus! {

/// Whether bit `k` of `v` is set. A position outside `0..32` holds no bit.
pub open spec fn bit(v: u32, k: int) -> bool {
    0 <= k < 32 && (v >> (k as u32)) & 1 == 1
}

proof fn bv_logic(a: u32, b: u32, k: u32)
    by (bit_vector)
    requires
        k < 32,
    ensures
        (((a ^ b) >> k) & 1 == 1) == (((a >> k) & 1 == 1) != ((b >> k) & 1 == 1)),
        (((a | b) >> k) & 1 == 1) == (((a >> k) & 1 == 1) || ((b >> k) & 1 == 1)),
        (((a & b) >> k) & 1 == 1) == (((a >> k) & 1 == 1) && ((b >> k) & 1 == 1)),
        (((!a) >> k) & 1 == 1) == !((a >> k) & 1 == 1),
{
}

proof fn bv_shl(a: u32, s: u32, k: u32)
    by (bit_vector)
    requires
        s < 32,
        k < 32,
    ensures
        (((a << s) >> k) & 1 == 1) == (k >= s && ((a >> ((k - s) as u32)) & 1 == 1)),
{
}

proof fn bv_shr(a: u32, s: u32, k: u32)
    by (bit_vector)
    requires
        s < 32,
        k < 32,
    ensures
        (((a >> s) >> k) & 1 == 1) == (k + s < 32 && ((a >> ((k + s) as u32)) & 1 == 1)),
{
}

proof fn bv_small(a: u32, k: u32)
    by (bit_vector)
    requires
        k < 32,
    ensures
        a >> 0 == a,
        a & 1 <= 1,
        a <= 1 ==> (((a >> k) & 1 == 1) == (k == 0 && a == 1)),
{
}

proof fn bv_xor_self(a: u32, b: u32)
    by (bit_vector)
    ensures
        a ^ b == 0 ==> a == b,
        (a ^ b) ^ b == a,
{
}

/// Bits of `a ^ b`, `a | b`, `a & b` and `!a`, position by position.
pub proof fn lemma_bit_logic(a: u32, b: u32)
    ensures
        forall|k: int| #[trigger] bit(a ^ b, k) == (bit(a, k) != bit(b, k)),
        forall|k: int| #[trigger] bit(a | b, k) == (bit(a, k) || bit(b, k)),
        forall|k: int| #[trigger] bit(a & b, k) == (bit(a, k) && bit(b, k)),
        forall|k: int| 0 <= k < 32 ==> #[trigger] bit(!a, k) == !bit(a, k),
{
    assert forall|k: int| #[trigger] bit(a ^ b, k) == (bit(a, k) != bit(b, k)) by {
        if 0 <= k < 32 {
            bv_logic(a, b, k as u32);
        }
    }
    assert forall|k: int| #[trigger] bit(a | b, k) == (bit(a, k) || bit(b, k)) by {
        if 0 <= k < 32 {
            bv_logic(a, b, k as u32);
        }
    }
    assert forall|k: int| #[trigger] bit(a & b, k) == (bit(a, k) && bit(b, k)) by {
        if 0 <= k < 32 {
            bv_logic(a, b, k as u32);
        }
    }
    assert forall|k: int| 0 <= k < 32 implies #[trigger] bit(!a, k) == !bit(a, k) by {
        bv_logic(a, b, k as u32);
    }
}

/// Shifting left by `s` moves every bit up by `s` and drops what leaves the word.
pub proof fn lemma_bit_shl(a: u32, s: u32)
    requires
        s < 32,
    ensures
        forall|k: int| #[trigger] bit(a << s, k) == (s <= k < 32 && bit(a, k - s)),
{
    assert forall|k: int| #[trigger] bit(a << s, k) == (s <= k < 32 && bit(a, k - s)) by {
        if 0 <= k < 32 {
            bv_shl(a, s, k as u32);
        }
    }
}

/// Shifting right by `s` moves every bit down by `s`.
pub proof fn lemma_bit_shr(a: u32, s: u32)
    requires
        s < 32,
    ensures
        forall|k: int| #[trigger] bit(a >> s, k) == (k >= 0 && bit(a, k + s)),
{
    assert forall|k: int| #[trigger] bit(a >> s, k) == (k >= 0 && bit(a, k + s)) by {
        if 0 <= k < 32 {
            bv_shr(a, s, k as u32);
        }
    }
}

/// The bits of zero and of one.
pub proof fn lemma_bit_unit(a: u32)
    requires
        a <= 1,
    ensures
        forall|k: int| #[trigger] bit(a, k) == (k == 0 && a == 1),
{
    assert forall|k: int| #[trigger] bit(a, k) == (k == 0 && a == 1) by {
        if 0 <= k < 32 {
            bv_small(a, k as u32);
        }
    }
}

/// The lowest bit as a number.
pub proof fn lemma_low_bit(a: u32)
    ensures
        a & 1 <= 1,
        (a & 1 == 1) == bit(a, 0),
{
    bv_small(a, 0);
}

/// Two words with the same bits are the same word.
pub proof fn lemma_bit_extensional(a: u32, b: u32)
    requires
        forall|k: int| 0 <= k < 32 ==> bit(a, k) == bit(b, k),
    ensures
        a == b,
{
    let d = a ^ b;
    lemma_bit_logic(a, b);
    vstd::std_specs::bits::axiom_u32_trailing_zeros(d);
    let t = vstd::std_specs::bits::u32_trailing_zeros(d);
    if d != 0 {
        assert(bit(d, t as int));
        assert(bit(a, t as int) == bit(b, t as int));
    }
    bv_xor_self(a, b);
}

/// Toggling the same bits twice changes nothing.
pub proof fn lemma_xor_twice(a: u32, b: u32)
    ensures
        (a ^ b) ^ b == a,
{
    bv_xor_self(a, b);
}

proof fn bv_bounds(v: u32)
    by (bit_vector)
    ensures
        (v >> 18 == 0) == (v <= 0x3FFFF),
        (v >> 5 == 0) == (v < 32),
{
}

/// A word none of whose bits from `n` upwards is set vanishes when shifted right by `n`.
pub proof fn lemma_high_bits_clear(v: u32, n: u32)
    requires
        n < 32,
        forall|k: int| n <= k < 32 ==> !bit(v, k),
    ensures
        v >> n == 0,
{
    lemma_bit_shr(v, n);
    lemma_bit_unit(0);
    lemma_bit_extensional(v >> n, 0);
}

/// A word that vanishes when shifted right by `n` has no bit set from `n` upwards.
pub proof fn lemma_high_bits_of_small(v: u32, n: u32)
    requires
        n < 32,
        v >> n == 0,
    ensures
        forall|k: int| n <= k ==> !#[trigger] bit(v, k),
{
    lemma_bit_shr(v, n);
    lemma_bit_unit(0);
    assert forall|k: int| n <= k implies !#[trigger] bit(v, k) by {
        if k < 32 {
            assert(bit(v >> n, k - n) == bit(v, k));
        }
    }
}

/// A word fits in eighteen bits exactly when it is at most `0x3FFFF`,
/// and in five bits exactly when it is below 32.
pub proof fn lemma_width_bounds(v: u32)
    ensures
        (v >> 18 == 0) == (v <= 0x3FFFF),
        (v >> 5 == 0) == (v < 32),
{
    bv_bounds(v);
}

/// The word whose bit `k`, for `k` below `n`, is set exactly when `f(k)` holds.
pub open spec fn pack(f: spec_fn(int) -> bool, n: int) -> u32
    decreases n,
{
    if n <= 0 {
        0
    } else {
        pack(f, n - 1) | (if f(n - 1) {
            1u32 << ((n - 1) as u32)
        } else {
            0u32
        })
    }
}

/// `pack` sets bit `k` exactly when `k` is below `n` and `f(k)` holds.
pub proof fn lemma_pack_bits(f: spec_fn(int) -> bool, n: int)
    requires
        0 <= n <= 32,
    ensures
        forall|k: int| #[trigger] bit(pack(f, n), k) == (0 <= k < n && f(k)),
    decreases n,
{
    lemma_bit_unit(0);
    if n > 0 {
        lemma_pack_bits(f, n - 1);
        let s = (n - 1) as u32;
        let term = if f(n - 1) {
            1u32 << s
        } else {
            0u32
        };
        lemma_bit_logic(pack(f, n - 1), term);
        lemma_bit_shl(1, s);
        lemma_bit_unit(1);
        assert forall|k: int| #[trigger] bit(pack(f, n), k) == (0 <= k < n && f(k)) by {
            assert(bit(pack(f, n), k) == (bit(pack(f, n - 1), k) || bit(term, k)));
            if f(n - 1) {
                assert(bit(term, k) == (s <= k < 32 && bit(1, k - s)));
            }
        }
    }
}

/// A word whose bits are those of `pack(f, n)` is `pack(f, n)`.
pub proof fn lemma_is_pack(v: u32, f: spec_fn(int) -> bool, n: int)
    requires
        0 <= n <= 32,
        forall|k: int| 0 <= k < 32 ==> bit(v, k) == (k < n && f(k)),
    ensures
        v == pack(f, n),
{
    lemma_pack_bits(f, n);
    lemma_bit_extensional(v, pack(f, n));
}

proof fn bv_low_eighteen(k: u32)
    by (bit_vector)
    requires
        k < 32,
    ensures
        ((0x3FFFFu32 >> k) & 1 == 1) == (k < 18),
{
}

/// The word `0x3FFFF` has its eighteen lowest bits set and no other.
pub proof fn lemma_low_eighteen()
    ensures
        forall|k: int| #[trigger] bit(0x3FFFF, k) == (0 <= k < 18),
{
    assert forall|k: int| #[trigger] bit(0x3FFFF, k) == (0 <= k < 18) by {
        if 0 <= k < 32 {
            bv_low_eighteen(k as u32);
        }
    }
}

/// How many of the numbers below `n` satisfy `p`.
pub open spec fn count_where(p: spec_fn(int) -> bool, n: int) -> int
    decreases n,
{
    if n <= 0 {
        0
    } else {
        count_where(p, n - 1) + (if p(n - 1) {
            1int
        } else {
            0int
        })
    }
}

/// How many of the `n` lowest bits of `v` are set.
pub open spec fn count_bits(v: u32, n: int) -> int
    decreases n,
{
    if n <= 0 {
        0
    } else {
        count_bits(v, n - 1) + (if bit(v, n - 1) {
            1int
        } else {
            0int
        })
    }
}

/// A count of numbers below `n` lies between 0 and `n`.
pub proof fn lemma_count_where_bounds(p: spec_fn(int) -> bool, n: int)
    requires
        0 <= n,
    ensures
        0 <= count_where(p, n) <= n,
    decreases n,
{
    if n > 0 {
        lemma_count_where_bounds(p, n - 1);
    }
}

/// The set bits of a word, counted, are as many as the numbers that satisfy a
/// predicate which holds exactly at the set bits.
pub proof fn lemma_count_bits_where(v: u32, p: spec_fn(int) -> bool, n: int)
    requires
        forall|k: int| 0 <= k < n ==> bit(v, k) == #[trigger] p(k),
    ensures
        count_bits(v, n) == count_where(p, n),
    decreases n,
{
    if n > 0 {
        lemma_count_bits_where(v, p, n - 1);
    }
}

/// Counting the bits of a word: the lowest bit, and the bits of the word shifted right by one.
pub proof fn lemma_count_bits_shift(v: u32, n: int)
    requires
        0 <= n < 32,
    ensures
        count_bits(v, n + 1) == count_bits(v >> 1, n) + (if bit(v, 0) {
            1int
        } else {
            0int
        }),
    decreases n,
{
    lemma_bit_shr(v, 1);
    if n > 0 {
        lemma_count_bits_shift(v, n - 1);
        assert(bit(v >> 1, n - 1) == bit(v, n));
    } else {
        assert(count_bits(v, 0) == 0);
        assert(count_bits(v >> 1, 0) == 0);
    }
}

} // verus!
