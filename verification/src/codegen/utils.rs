//! Hashing and PUSH encoding.
use vstd::prelude::*;
use tiny_keccak::{Hasher, Keccak};

verus! {

/// The Keccak-256 digest of `data`, as `tiny_keccak` computes it.
pub uninterp spec fn keccak256_digest(data: Seq<u8>) -> Seq<u8>;

/// Keccak-256 of `data`: hashes with `tiny_keccak::Keccak::v256`, `update` and
/// `finalize`. The contract names the digest; the hash function itself is not
/// stated.
#[verifier::external_body]
pub fn keccak256(data: &[u8]) -> (out: [u8; 32])
    ensures
        out@ == keccak256_digest(data@),
{
    let mut hasher = Keccak::v256();
    let mut output = [0u8; 32];
    hasher.update(data);
    hasher.finalize(&mut output);
    output
}

/// The 4-byte ABI selector of a function signature: the first four bytes of the
/// Keccak-256 digest of its UTF-8 text.
pub open spec fn selector_of(signature: Seq<char>) -> Seq<u8> {
    keccak256_digest(vstd::utf8::encode_utf8(signature)).take(4)
}

pub fn selector(signature: &str) -> (sel: [u8; 4])
    ensures
        sel@ == selector_of(signature@),
{
    let hash = keccak256(signature.as_bytes());
    let sel = [hash[0], hash[1], hash[2], hash[3]];
    assert(sel@ =~= selector_of(signature@));
    sel
}

/// The instruction `PUSHn value` for a value of `n` bytes.
pub open spec fn push_instr(value: Seq<u8>) -> Seq<u8> {
    seq![(0x5f + value.len()) as u8] + value
}

pub fn push_value(code: &mut Vec<u8>, value: &[u8])
    requires
        1 <= value@.len() <= 32,
    ensures
        final(code)@ == old(code)@ + push_instr(value@),
{
    let n = value.len();
    code.push(0x5f + n as u8);
    let ghost start = code@;
    let mut i: usize = 0;
    while i < n
        invariant
            n == value@.len(),
            i <= n,
            code@ == start + value@.take(i as int),
        decreases n - i,
    {
        code.push(value[i]);
        i = i + 1;
        assert(code@ =~= start + value@.take(i as int));
    }
    assert(value@.take(n as int) =~= value@);
    assert(final(code)@ =~= old(code)@ + push_instr(value@));
}

/// The shortest big-endian bytes of `v` (one zero byte for zero).
pub open spec fn minimal_be(v: nat) -> Seq<u8>
    decreases v,
{
    if v < 256 {
        seq![v as u8]
    } else {
        minimal_be(v / 256).push((v % 256) as u8)
    }
}

/// The number that big-endian bytes spell.
pub open spec fn be_value(bytes: Seq<u8>) -> nat
    decreases bytes.len(),
{
    if bytes.len() == 0 {
        0
    } else {
        be_value(bytes.drop_last()) * 256 + bytes.last() as nat
    }
}

pub open spec fn pow256(k: nat) -> nat
    decreases k,
{
    if k == 0 {
        1
    } else {
        256 * pow256((k - 1) as nat)
    }
}

/// The instruction that `push_u64` emits for `v`.
pub open spec fn push_u64_instr(v: u64) -> Seq<u8> {
    push_instr(minimal_be(v as nat))
}

proof fn lemma_minimal_be_len(v: nat, k: nat)
    requires
        k >= 1,
        v < pow256(k),
    ensures
        1 <= minimal_be(v).len() <= k,
    decreases v,
{
    if v >= 256 {
        assert(k >= 2) by {
            if k == 1 {
                assert(pow256(0) == 1);
            }
        }
        let p = pow256((k - 1) as nat);
        assert(v / 256 < p) by (nonlinear_arith)
            requires
                v < 256 * p,
        ;
        lemma_minimal_be_len(v / 256, (k - 1) as nat);
    }
}

proof fn lemma_u64_fits_eight_bytes()
    ensures
        pow256(8) == 0x1_0000_0000_0000_0000,
{
    reveal_with_fuel(pow256, 9);
}

/// `push_u64` writes `PUSHn` and the shortest big-endian bytes of the value:
/// between one and eight bytes, which read back as the value, and whose first
/// byte is not zero unless the value is zero.
pub proof fn lemma_push_u64_encoding(v: u64)
    ensures
        1 <= minimal_be(v as nat).len() <= 8,
        be_value(minimal_be(v as nat)) == v,
        v > 0 ==> minimal_be(v as nat)[0] != 0,
        push_u64_instr(v)[0] == 0x5f + minimal_be(v as nat).len(),
{
    lemma_u64_fits_eight_bytes();
    lemma_minimal_be_len(v as nat, 8);
    lemma_be_roundtrip(v as nat);
}

pub(crate) proof fn lemma_be_roundtrip(v: nat)
    ensures
        be_value(minimal_be(v)) == v,
        v > 0 ==> minimal_be(v)[0] != 0,
        minimal_be(v).len() >= 1,
    decreases v,
{
    if v >= 256 {
        lemma_be_roundtrip(v / 256);
        let m = minimal_be(v);
        assert(m.drop_last() =~= minimal_be(v / 256));
        assert(m.last() as nat == v % 256);
        assert(be_value(m) == be_value(m.drop_last()) * 256 + m.last() as nat);
        assert(v == (v / 256) * 256 + v % 256) by (nonlinear_arith);
    } else {
        let m = minimal_be(v);
        assert(m.drop_last() =~= Seq::<u8>::empty());
        assert(be_value(m.drop_last()) == 0);
        assert(m.last() as nat == v);
        assert(be_value(m) == be_value(m.drop_last()) * 256 + m.last() as nat);
    }
}

fn minimal_be_bytes(v: u64) -> (r: Vec<u8>)
    ensures
        r@ == minimal_be(v as nat),
{
    let mut rem: u64 = v;
    let mut acc: Vec<u8> = Vec::new();
    while rem >= 256
        invariant
            minimal_be(v as nat) == minimal_be(rem as nat) + acc@,
        decreases rem,
    {
        let b = (rem % 256) as u8;
        proof {
            assert(minimal_be(rem as nat) + acc@ =~= minimal_be((rem / 256) as nat) + acc@.insert(
                0,
                b,
            ));
        }
        acc.insert(0, b);
        rem = rem / 256;
    }
    let b = rem as u8;
    proof {
        assert(minimal_be(v as nat) =~= acc@.insert(0, b));
    }
    acc.insert(0, b);
    acc
}

/// Pushes `value` with the shortest PUSH instruction that holds it.
pub fn push_u64(code: &mut Vec<u8>, value: u64)
    ensures
        final(code)@ == old(code)@ + push_u64_instr(value),
{
    let bytes = minimal_be_bytes(value);
    proof {
        lemma_push_u64_encoding(value);
    }
    push_value(code, bytes.as_slice());
}

/// Ten to the power `k`.
pub open spec fn pow10(k: nat) -> nat
    decreases k,
{
    if k == 0 {
        1
    } else {
        10 * pow10((k - 1) as nat)
    }
}

/// The supply in the token's smallest unit: `supply * 10^decimals`.
pub open spec fn token_units(supply: u64, decimals: u64) -> nat {
    supply as nat * pow10(decimals as nat)
}

/// Numbers that fit in one 256-bit EVM word.
pub open spec fn fits_word(v: nat) -> bool {
    v < pow256(32)
}

proof fn lemma_be_cons(x: u8, s: Seq<u8>)
    ensures
        be_value(seq![x] + s) == x as nat * pow256(s.len()) + be_value(s),
    decreases s.len(),
{
    if s.len() == 0 {
        assert((seq![x] + s).drop_last() =~= Seq::<u8>::empty());
        assert((seq![x] + s).last() == x);
        assert(be_value(Seq::<u8>::empty()) == 0);
        assert(pow256(0) == 1);
        assert(s =~= Seq::<u8>::empty());
    } else {
        lemma_be_cons(x, s.drop_last());
        assert((seq![x] + s).drop_last() =~= seq![x] + s.drop_last());
        assert((seq![x] + s).last() == s.last());
        assert(be_value(seq![x] + s) == be_value(seq![x] + s.drop_last()) * 256 + s.last() as nat);
        assert(be_value(s) == be_value(s.drop_last()) * 256 + s.last() as nat);
        let p = pow256(s.drop_last().len());
        assert(pow256(s.len()) == 256 * p);
        assert((x as nat * p + be_value(s.drop_last())) * 256 + s.last() as nat == x as nat * (256
            * p) + (be_value(s.drop_last()) * 256 + s.last() as nat)) by (nonlinear_arith);
    }
}

proof fn lemma_be_bound(s: Seq<u8>)
    ensures
        be_value(s) < pow256(s.len()),
    decreases s.len(),
{
    if s.len() > 0 {
        lemma_be_bound(s.drop_last());
        let p = pow256(s.drop_last().len());
        let v = be_value(s.drop_last());
        assert(v * 256 + (s.last() as nat) < 256 * p) by (nonlinear_arith)
            requires
                v < p,
                s.last() < 256,
        ;
    }
}

/// Leading zero bytes do not change the value.
proof fn lemma_be_leading_zeros(s: Seq<u8>, k: int)
    requires
        0 <= k <= s.len(),
        forall|i: int| 0 <= i < k ==> s[i] == 0,
    ensures
        be_value(s) == be_value(s.subrange(k, s.len() as int)),
    decreases k,
{
    if k > 0 {
        lemma_be_leading_zeros(s, k - 1);
        let t = s.subrange(k - 1, s.len() as int);
        assert(t =~= seq![0u8] + s.subrange(k, s.len() as int));
        lemma_be_cons(0, s.subrange(k, s.len() as int));
        assert(0u8 as nat * pow256(s.subrange(k, s.len() as int).len()) == 0);
    } else {
        assert(s.subrange(0, s.len() as int) =~= s);
    }
}

/// Bytes without a leading zero (or a single byte) are the shortest form of
/// their value.
proof fn lemma_minimal_of_be(s: Seq<u8>)
    requires
        s.len() >= 1,
        s[0] != 0 || s.len() == 1,
    ensures
        minimal_be(be_value(s)) == s,
    decreases s.len(),
{
    let t = s.drop_last();
    if s.len() == 1 {
        assert(t =~= Seq::<u8>::empty());
        assert(be_value(t) == 0);
        assert(s.last() == s[0]);
        assert(be_value(s) == s[0] as nat);
        assert(minimal_be(be_value(s)) =~= s);
    } else {
        lemma_minimal_of_be(t);
        assert(t =~= seq![t[0]] + t.skip(1));
        lemma_be_cons(t[0], t.skip(1));
        let p = pow256(t.skip(1).len());
        assert(p >= 1) by {
            lemma_pow256_positive(t.skip(1).len());
        }
        assert(t[0] as nat * p >= 1) by (nonlinear_arith)
            requires
                t[0] >= 1,
                p >= 1,
        ;
        let v = be_value(s);
        assert(v == be_value(t) * 256 + s.last() as nat);
        assert(v / 256 == be_value(t) && v % 256 == s.last() as nat) by (nonlinear_arith)
            requires
                v == be_value(t) * 256 + s.last() as nat,
                s.last() < 256,
        ;
        assert(minimal_be(v) =~= s);
    }
}

proof fn lemma_pow256_positive(k: nat)
    ensures
        pow256(k) >= 1,
    decreases k,
{
    if k > 0 {
        lemma_pow256_positive((k - 1) as nat);
    }
}

proof fn lemma_pow10_grows(a: nat, b: nat, v: nat)
    requires
        a <= b,
    ensures
        v * pow10(a) <= v * pow10(b),
    decreases b,
{
    if a < b {
        lemma_pow10_grows(a, (b - 1) as nat, v);
        let q = pow10((b - 1) as nat);
        assert(v * q <= v * (10 * q)) by (nonlinear_arith);
    }
}

/// Multiplies the 32-byte big-endian word `w` by ten in place, returning the
/// part that spills over 256 bits.
fn times_ten(w: &mut Vec<u8>) -> (carry: u8)
    requires
        old(w)@.len() == 32,
    ensures
        final(w)@.len() == 32,
        carry < 10,
        be_value(final(w)@) + carry as nat * pow256(32) == 10 * be_value(old(w)@),
{
    let ghost w0 = w@;
    let mut carry: u8 = 0;
    let mut i: usize = 32;
    assert(w@.subrange(32, 32) =~= Seq::<u8>::empty());
    assert(pow256(0) == 1);
    while i > 0
        invariant
            w@.len() == 32,
            w0.len() == 32,
            i <= 32,
            carry < 10,
            w@.subrange(0, i as int) == w0.subrange(0, i as int),
            be_value(w@.subrange(i as int, 32)) + carry as nat * pow256((32 - i) as nat) == 10
                * be_value(w0.subrange(i as int, 32)),
        decreases i,
    {
        let j = i - 1;
        let t: u32 = w[j] as u32 * 10 + carry as u32;
        let ghost before = w@;
        let ghost x = w0[j as int];
        assert(before[j as int] == x) by {
            assert(before.subrange(0, i as int)[j as int] == w0.subrange(0, i as int)[j as int]);
        }
        w.set(j, (t % 256) as u8);
        let c2 = (t / 256) as u8;
        proof {
            let p = pow256((32 - i) as nat);
            let old_suffix = w0.subrange(i as int, 32);
            let new_suffix = w@.subrange(i as int, 32);
            assert(new_suffix =~= before.subrange(i as int, 32));
            assert(w@.subrange(j as int, 32) =~= seq![(t % 256) as u8] + new_suffix);
            assert(w0.subrange(j as int, 32) =~= seq![x] + old_suffix);
            lemma_be_cons((t % 256) as u8, new_suffix);
            lemma_be_cons(x, old_suffix);
            assert(pow256((32 - j) as nat) == 256 * p);
            let bn = be_value(new_suffix);
            let bo = be_value(old_suffix);
            assert((t % 256) as nat * p + bn + (t / 256) as nat * (256 * p) == 10 * (x as nat * p
                + bo)) by (nonlinear_arith)
                requires
                    bn + carry as nat * p == 10 * bo,
                    t == x as nat * 10 + carry as nat,
            ;
            assert(w@.subrange(0, j as int) =~= w0.subrange(0, j as int)) by {
                assert forall|k: int| 0 <= k < j implies w@.subrange(0, j as int)[k]
                    == w0.subrange(0, j as int)[k] by {
                    assert(before.subrange(0, i as int)[k] == w0.subrange(0, i as int)[k]);
                }
            }
        }
        carry = c2;
        i = j;
    }
    assert(w@.subrange(0, 32) =~= w@);
    assert(w0.subrange(0, 32) =~= w0);
    carry
}

/// The shortest big-endian bytes of the value of a 32-byte word.
fn trimmed(w: &Vec<u8>) -> (r: Vec<u8>)
    requires
        w@.len() == 32,
    ensures
        r@ == minimal_be(be_value(w@)),
        1 <= r@.len() <= 32,
{
    let mut k: usize = 0;
    while k < 31 && w[k] == 0
        invariant
            k <= 31,
            w@.len() == 32,
            forall|i: int| 0 <= i < k ==> w@[i] == 0,
        decreases 31 - k,
    {
        k = k + 1;
    }
    let mut r: Vec<u8> = Vec::new();
    let mut i: usize = k;
    while i < 32
        invariant
            k <= i <= 32,
            w@.len() == 32,
            r@ == w@.subrange(k as int, i as int),
        decreases 32 - i,
    {
        r.push(w[i]);
        i = i + 1;
        assert(r@ =~= w@.subrange(k as int, i as int));
    }
    proof {
        lemma_be_leading_zeros(w@, k as int);
        lemma_minimal_of_be(r@);
    }
    r
}

/// The shortest big-endian bytes of `supply * 10^decimals` when that number
/// fits in a 256-bit word, and `None` when it does not.
pub fn token_units_bytes(supply: u64, decimals: u64) -> (r: Option<Vec<u8>>)
    ensures
        match r {
            Some(b) => fits_word(token_units(supply, decimals)) && b@ == minimal_be(
                token_units(supply, decimals),
            ),
            None => !fits_word(token_units(supply, decimals)),
        },
{
    let m = minimal_be_bytes(supply);
    proof {
        lemma_push_u64_encoding(supply);
    }
    let mut w: Vec<u8> = Vec::new();
    while w.len() < 32 - m.len()
        invariant
            1 <= m@.len() <= 8,
            w@.len() <= 32 - m@.len(),
            forall|i: int| 0 <= i < w@.len() ==> w@[i] == 0,
        decreases 32 - m@.len() - w@.len(),
    {
        w.push(0);
    }
    let mut i: usize = 0;
    while i < m.len()
        invariant
            1 <= m@.len() <= 8,
            w@.len() == 32 - m@.len() + i,
            i <= m@.len(),
            forall|k: int| 0 <= k < 32 - m@.len() ==> w@[k] == 0,
            w@.subrange(32 - m@.len(), w@.len() as int) == m@.subrange(0, i as int),
        decreases m@.len() - i,
    {
        w.push(m[i]);
        i = i + 1;
        assert(w@.subrange(32 - m@.len(), w@.len() as int) =~= m@.subrange(0, i as int));
    }
    proof {
        lemma_be_leading_zeros(w@, 32 - m@.len());
        assert(m@.subrange(0, m@.len() as int) =~= m@);
        assert(pow10(0) == 1);
    }
    if supply == 0 {
        let z: Vec<u8> = vec![0u8];
        assert(minimal_be(token_units(supply, decimals)) =~= z@);
        proof {
            lemma_pow256_positive(32);
        }
        return Some(z);
    }
    let mut d: u64 = 0;
    while d < decimals
        invariant
            w@.len() == 32,
            d <= decimals,
            be_value(w@) == token_units(supply, d),
        decreases decimals - d,
    {
        let carry = times_ten(&mut w);
        if carry > 0 {
            proof {
                assert(token_units(supply, (d + 1) as u64) == 10 * token_units(supply, d)) by {
                    assert(pow10((d + 1) as nat) == 10 * pow10(d as nat));
                    assert(supply as nat * (10 * pow10(d as nat)) == 10 * (supply as nat * pow10(
                        d as nat,
                    ))) by (nonlinear_arith);
                }
                lemma_pow10_grows((d + 1) as nat, decimals as nat, supply as nat);
                let big = pow256(32);
                assert(carry as nat * big >= big) by (nonlinear_arith)
                    requires
                        carry >= 1,
                ;
            }
            return None;
        }
        proof {
            assert(pow10((d + 1) as nat) == 10 * pow10(d as nat));
            assert(supply as nat * (10 * pow10(d as nat)) == 10 * (supply as nat * pow10(
                d as nat,
            ))) by (nonlinear_arith);
        }
        d = d + 1;
    }
    proof {
        lemma_be_bound(w@);
    }
    Some(trimmed(&w))
}

/// The shortest form of a number that fits in a word has between one and 32
/// bytes.
pub proof fn lemma_minimal_be_fits_word(v: nat)
    requires
        fits_word(v),
    ensures
        1 <= minimal_be(v).len() <= 32,
{
    lemma_minimal_be_len(v, 32);
}

/// The topic of an event: the Keccak-256 digest of its signature.
pub fn event_topic(signature: &str) -> (t: [u8; 32])
    ensures
        t@ == keccak256_digest(vstd::utf8::encode_utf8(signature@)),
{
    keccak256(signature.as_bytes())
}

} // verus!
