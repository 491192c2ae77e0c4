//! The 77 bits of a message as numbered fields, the most significant bit of a
//! field first.
use vstd::prelude::*;
use vstd::arithmetic::power2::{lemma_pow2_pos, lemma_pow2_unfold, pow2};

verus! {

/// Bit `k` of `v`, counted from the least significant.
pub open spec fn bit(v: nat, k: nat) -> nat {
    (v / pow2(k)) % 2
}

/// The number that the `len` bits from `start` write.
pub open spec fn field(bits: Seq<u8>, start: int, len: nat) -> nat
    decreases len,
{
    if len == 0 {
        0
    } else {
        field(bits, start, (len - 1) as nat) * 2 + (bits[start + len - 1] % 2) as nat
    }
}

/// `bits` with the low `len` bits of `v` written from `start` on.
pub open spec fn written(bits: Seq<u8>, start: int, len: nat, v: nat) -> Seq<u8> {
    Seq::new(
        bits.len(),
        |i: int|
            if start <= i < start + len {
                bit(v, (start + len - 1 - i) as nat) as u8
            } else {
                bits[i]
            },
    )
}

/// A message before anything is written into it.
pub open spec fn blank() -> Seq<u8> {
    Seq::new(77, |i: int| 0u8)
}

/// Halving twice is one division by the product.
proof fn lemma_div_twice(v: nat, k: nat)
    ensures
        v / pow2(k) / 2 == v / pow2(k + 1),
{
    lemma_pow2_pos(k);
    lemma_pow2_unfold(k + 1);
    vstd::arithmetic::div_mod::lemma_div_denominator(v as int, pow2(k) as int, 2);
    assert(pow2(k) * 2 == pow2(k + 1)) by (nonlinear_arith)
        requires
            pow2(k + 1) == 2 * pow2(k),
    ;
}

/// A number below `2^j` has no part above bit `j`.
pub proof fn lemma_small(v: nat, j: nat)
    requires
        v < pow2(j),
    ensures
        v % pow2(j) == v,
        v / pow2(j) == 0,
{
    vstd::arithmetic::div_mod::lemma_small_mod(v, pow2(j));
    vstd::arithmetic::div_mod::lemma_basic_div(v as int, pow2(j) as int);
}

/// The low `j + 1` bits are the low `j` bits of the half, and the last bit.
proof fn lemma_low_bits(v: nat, j: nat)
    ensures
        v % pow2(j + 1) == ((v / 2) % pow2(j)) * 2 + v % 2,
{
    lemma_pow2_pos(j);
    lemma_pow2_unfold(j + 1);
    let p = pow2(j) as int;
    let q = (v / 2) as int / p;
    let r = (v / 2) as int % p;
    vstd::arithmetic::div_mod::lemma_fundamental_div_mod((v / 2) as int, p);
    assert(v == q * (2 * p) + (r * 2 + v % 2)) by (nonlinear_arith)
        requires
            (v / 2) as int == p * q + r,
            v == (v / 2) * 2 + v % 2,
    ;
    assert(0 <= r < p) by {
        vstd::arithmetic::div_mod::lemma_mod_bound((v / 2) as int, p);
    }
    vstd::arithmetic::div_mod::lemma_fundamental_div_mod_converse(
        v as int,
        2 * p,
        q,
        r * 2 + v % 2,
    );
}

/// Reading the first `j` bits of a field just written gives its top `j` bits.
proof fn lemma_field_written_prefix(bits: Seq<u8>, start: int, len: nat, v: nat, j: nat)
    requires
        0 <= start,
        start + len <= bits.len(),
        j <= len,
    ensures
        field(written(bits, start, len, v), start, j) == (v / pow2((len - j) as nat)) % pow2(j),
    decreases j,
{
    let w = written(bits, start, len, v);
    if j == 0 {
        vstd::arithmetic::power2::lemma2_to64();
    } else {
        let k = (len - j) as nat;
        lemma_field_written_prefix(bits, start, len, v, (j - 1) as nat);
        lemma_div_twice(v, k);
        lemma_low_bits(v / pow2(k), (j - 1) as nat);
        assert(w[start + j - 1] == bit(v, k) as u8);
        assert(bit(v, k) < 2);
    }
}

/// A field reads back as the low bits of what was written into it.
pub proof fn lemma_field_written(bits: Seq<u8>, start: int, len: nat, v: nat)
    requires
        0 <= start,
        start + len <= bits.len(),
    ensures
        field(written(bits, start, len, v), start, len) == v % pow2(len),
{
    lemma_field_written_prefix(bits, start, len, v, len);
    vstd::arithmetic::power2::lemma2_to64();
    assert(v / 1 == v);
}

/// A field's number depends on its own bits alone.
pub proof fn lemma_field_same(a: Seq<u8>, b: Seq<u8>, start: int, len: nat)
    requires
        forall|i: int| start <= i < start + len ==> #[trigger] a[i] == b[i],
    ensures
        field(a, start, len) == field(b, start, len),
    decreases len,
{
    if len > 0 {
        lemma_field_same(a, b, start, (len - 1) as nat);
        assert(a[start + len - 1] == b[start + len - 1]);
    }
}

/// Writing one field leaves the others as they were.
pub proof fn lemma_field_kept(bits: Seq<u8>, start: int, len: nat, v: nat, s2: int, l2: nat)
    requires
        0 <= s2,
        s2 + l2 <= bits.len(),
        s2 + l2 <= start || start + len <= s2,
    ensures
        field(written(bits, start, len, v), s2, l2) == field(bits, s2, l2),
{
    lemma_field_same(written(bits, start, len, v), bits, s2, l2);
}

/// A field of `len` bits holds a number below `2^len`.
pub proof fn lemma_field_bound(bits: Seq<u8>, start: int, len: nat)
    ensures
        field(bits, start, len) < pow2(len),
    decreases len,
{
    if len == 0 {
        vstd::arithmetic::power2::lemma2_to64();
    } else {
        lemma_field_bound(bits, start, (len - 1) as nat);
        lemma_pow2_unfold(len);
    }
}

/// Shifting and masking reads one bit.
proof fn lemma_shift_is_bit(v: u32, k: u32)
    requires
        k < 32,
    ensures
        (v >> k) & 1 == bit(v as nat, k as nat),
{
    vstd::bits::lemma_u32_shr_is_div(v, k);
    let x: u32 = v >> k;
    assert(x & 1 == x % 2) by (bit_vector);
}

/// Write the low `len` bits of `val` into `msg` from `start` on, the most
/// significant first.
pub fn write_bits(msg: &mut [u8; 77], start: usize, len: usize, val: u32)
    requires
        len <= 32,
        start + len <= 77,
    ensures
        final(msg)@ == written(old(msg)@, start as int, len as nat, val as nat),
{
    let mut i: usize = 0;
    let ghost before = msg@;
    while i < len
        invariant
            i <= len <= 32,
            start + len <= 77,
            msg@.len() == 77,
            before.len() == 77,
            forall|k: int|
                0 <= k < 77 ==> #[trigger] msg@[k] == (if start <= k < start + i {
                    bit(val as nat, (start + len - 1 - k) as nat) as u8
                } else {
                    before[k]
                }),
        decreases len - i,
    {
        let k: u32 = (len - 1 - i) as u32;
        proof {
            lemma_shift_is_bit(val, k);
        }
        msg[start + i] = ((val >> k) & 1) as u8;
        i = i + 1;
    }
    assert(msg@ =~= written(before, start as int, len as nat, val as nat));
}

/// The number that the `len` bits of `bits` from `start` write.
pub fn read_bits(bits: &[u8; 77], start: usize, len: usize) -> (r: u32)
    requires
        len <= 32,
        start + len <= 77,
    ensures
        r == field(bits@, start as int, len as nat),
{
    let mut acc: u64 = 0;
    let mut i: usize = 0;
    while i < len
        invariant
            i <= len <= 32,
            start + len <= 77,
            acc == field(bits@, start as int, i as nat),
        decreases len - i,
    {
        proof {
            lemma_field_bound(bits@, start as int, i as nat);
            vstd::arithmetic::power2::lemma2_to64();
            vstd::arithmetic::power2::lemma_pow2_strictly_increases(i as nat, 32);
        }
        acc = acc * 2 + (bits[start + i] % 2) as u64;
        i = i + 1;
    }
    proof {
        lemma_field_bound(bits@, start as int, len as nat);
        vstd::arithmetic::power2::lemma2_to64();
        if len < 32 {
            vstd::arithmetic::power2::lemma_pow2_strictly_increases(len as nat, 32);
        }
    }
    acc as u32
}

// ── What holds of the whole ─────────────────────────────────────────────────

/// A field is written the most significant bit first, into its own bits and no
/// others.
pub proof fn law_a_field_is_written_into_its_own_bits(
    bits: Seq<u8>,
    start: int,
    len: nat,
    v: nat,
    i: int,
)
    requires
        0 <= start && start + len <= bits.len(),
        0 <= i < bits.len(),
    ensures
        written(bits, start, len, v).len() == bits.len(),
        i < start || start + len <= i ==> written(bits, start, len, v)[i] == bits[i],
        start <= i < start + len ==> written(bits, start, len, v)[i] == (v / pow2(
            (start + len - 1 - i) as nat,
        )) % 2,
{
}

/// A field is read the most significant bit first: each further bit doubles what
/// was read and adds itself.
pub proof fn law_a_field_is_read_bit_by_bit(bits: Seq<u8>, start: int, len: nat)
    ensures
        field(bits, start, 0) == 0,
        field(bits, start, len + 1) == 2 * field(bits, start, len) + bits[start + len] % 2,
{
}

} // verus!
