//! Little-endian integers and BN254 scalar field elements as bytes.
use vstd::prelude::*;

verus! {

/// The order of the BN254 scalar field.
pub open spec fn fr_modulus() -> nat {
    21888242871839275222246405745257275088548364400416034343698204186575808495617nat
}

/// `256` to the power `k`.
pub open spec fn pow256(k: nat) -> nat
    decreases k,
{
    if k == 0 {
        1
    } else {
        256 * pow256((k - 1) as nat)
    }
}

/// The integer that `s` writes, least significant byte first.
pub open spec fn le_nat(s: Seq<u8>) -> nat
    decreases s.len(),
{
    if s.len() == 0 {
        0
    } else {
        s[0] as nat + 256 * le_nat(s.drop_first())
    }
}

/// The `k` lowest bytes of `n`, least significant first.
pub open spec fn le_bytes(n: nat, k: nat) -> Seq<u8>
    decreases k,
{
    if k == 0 {
        Seq::empty()
    } else {
        seq![(n % 256) as u8] + le_bytes(n / 256, (k - 1) as nat)
    }
}

/// The eight bytes that stand for `n`.
pub open spec fn u64_bytes(n: u64) -> Seq<u8> {
    le_bytes(n as nat, 8)
}

pub proof fn lemma_le_bytes_len(n: nat, k: nat)
    ensures
        le_bytes(n, k).len() == k,
    decreases k,
{
    if k > 0 {
        lemma_le_bytes_len(n / 256, (k - 1) as nat);
    }
}

pub proof fn lemma_le_nat_bound(s: Seq<u8>)
    ensures
        le_nat(s) < pow256(s.len()),
    decreases s.len(),
{
    if s.len() > 0 {
        lemma_le_nat_bound(s.drop_first());
        let t = le_nat(s.drop_first());
        let p = pow256((s.len() - 1) as nat);
        assert(s[0] as nat + 256 * t < 256 * p) by (nonlinear_arith)
            requires
                t < p,
                s[0] < 256,
        ;
    }
}

/// Reading back the `k` lowest bytes of a number below `256^k` gives it.
pub proof fn lemma_le_round_trip(n: nat, k: nat)
    requires
        n < pow256(k),
    ensures
        le_nat(le_bytes(n, k)) == n,
    decreases k,
{
    if k > 0 {
        let p = pow256((k - 1) as nat);
        assert(n / 256 < p) by (nonlinear_arith)
            requires
                n < 256 * p,
        ;
        lemma_le_round_trip(n / 256, (k - 1) as nat);
        let s = le_bytes(n, k);
        assert(s.drop_first() =~= le_bytes(n / 256, (k - 1) as nat));
        assert(n == n % 256 + 256 * (n / 256)) by (nonlinear_arith);
    }
}

pub proof fn lemma_pow256_8()
    ensures
        pow256(8) == 0x1_0000_0000_0000_0000,
{
    reveal_with_fuel(pow256, 9);
}

/// The eight bytes of a `u64` read back as that `u64`.
pub proof fn lemma_u64_round_trip(n: u64)
    ensures
        le_nat(u64_bytes(n)) == n as nat,
        u64_bytes(n).len() == 8,
{
    lemma_pow256_8();
    lemma_le_round_trip(n as nat, 8);
    lemma_le_bytes_len(n as nat, 8);
}

/// Appends the eight bytes of `v`, least significant first.
pub fn write_u64(out: &mut Vec<u8>, v: u64)
    ensures
        final(out)@ == old(out)@ + u64_bytes(v),
{
    let mut x: u64 = v;
    let mut i: usize = 0;
    while i < 8
        invariant
            i <= 8,
            out@ + le_bytes(x as nat, (8 - i) as nat) == old(out)@ + u64_bytes(v),
        decreases 8 - i,
    {
        let ghost before = out@;
        let ghost k = (8 - i - 1) as nat;
        assert(le_bytes(x as nat, (8 - i) as nat) == seq![(x as nat % 256) as u8] + le_bytes(
            x as nat / 256,
            k,
        ));
        out.push((x % 256) as u8);
        assert(out@ + le_bytes((x / 256) as nat, k) =~= before + le_bytes(x as nat, (8 - i) as nat));
        x = x / 256;
        i = i + 1;
    }
    assert(le_bytes(x as nat, 0) =~= Seq::<u8>::empty());
    assert(out@ =~= out@ + le_bytes(x as nat, 0));
}

/// Reads the eight bytes at `p` as a little-endian `u64`.
pub fn read_u64(s: &[u8], p: usize) -> (r: u64)
    requires
        p + 8 <= s@.len(),
    ensures
        r as nat == le_nat(s@.subrange(p as int, p + 8)),
{
    let len = s.len();
    let mut acc: u64 = 0;
    let mut j: usize = 8;
    proof {
        lemma_pow256_8();
    }
    while j > 0
        invariant
            j <= 8,
            p + 8 <= s@.len(),
            s@.len() == len,
            acc as nat == le_nat(s@.subrange(p + j, p + 8)),
            pow256(8) == 0x1_0000_0000_0000_0000,
        decreases j,
    {
        let ghost tail = s@.subrange(p + j, p + 8);
        let ghost next = s@.subrange(p + j - 1, p + 8);
        assert(next.drop_first() =~= tail);
        assert(le_nat(next) == s@[p + j - 1] as nat + 256 * le_nat(tail));
        proof {
            lemma_le_nat_bound(next);
            lemma_pow256_mono(next.len(), 8);
        }
        let b = s[p + j - 1];
        acc = acc * 256 + b as u64;
        j = j - 1;
    }
    assert(s@.subrange(p as int, p + 8) =~= s@.subrange(p + j, p + 8));
    acc
}

pub proof fn lemma_pow256_mono(a: nat, b: nat)
    requires
        a <= b,
    ensures
        pow256(a) <= pow256(b),
    decreases b,
{
    if a < b {
        lemma_pow256_mono(a, (b - 1) as nat);
        assert(pow256((b - 1) as nat) >= 1) by {
            lemma_pow256_pos((b - 1) as nat);
        }
    }
}

pub proof fn lemma_pow256_pos(k: nat)
    ensures
        pow256(k) >= 1,
    decreases k,
{
    if k > 0 {
        lemma_pow256_pos((k - 1) as nat);
    }
}

/// An element of the BN254 scalar field, held as its canonical encoding: 32
/// bytes, least significant first.
#[derive(Debug, Clone, PartialEq, Eq)]
pub struct Scalar {
    pub bytes: Vec<u8>,
}

impl Scalar {
    /// The 32 bytes hold an integer below the field's order.
    pub open spec fn wf(&self) -> bool {
        self.bytes@.len() == 32 && le_nat(self.bytes@) < fr_modulus()
    }

    /// The field element `v`.
    pub fn from_u64(v: u64) -> (r: Scalar)
        ensures
            r.wf(),
            le_nat(r.bytes@) == v as nat,
    {
        let mut bytes: Vec<u8> = Vec::new();
        write_u64(&mut bytes, v);
        proof {
            lemma_le_bytes_len(v as nat, 8);
            assert(bytes@ =~= u64_bytes(v));
            assert(bytes@.subrange(0, 8) =~= u64_bytes(v));
        }
        let mut i: usize = 8;
        while i < 32
            invariant
                8 <= i <= 32,
                bytes@.len() == i,
                bytes@.subrange(0, 8) == u64_bytes(v),
                forall|k: int| 8 <= k < i ==> bytes@[k] == 0,
            decreases 32 - i,
        {
            bytes.push(0);
            assert(bytes@.subrange(0, 8) =~= u64_bytes(v)) by {
                assert(bytes@.subrange(0, 8) =~= bytes@.subrange(0, i as int).subrange(0, 8));
            }
            i = i + 1;
        }
        proof {
            lemma_u64_round_trip(v);
            lemma_le_nat_zero_tail(bytes@, 8);
            lemma_pow256_8();
        }
        Scalar { bytes }
    }
}

/// Zero bytes past position `k` add nothing to the integer.
pub proof fn lemma_le_nat_zero_tail(s: Seq<u8>, k: nat)
    requires
        k <= s.len(),
        forall|i: int| k <= i < s.len() ==> s[i] == 0,
    ensures
        le_nat(s) == le_nat(s.subrange(0, k as int)),
    decreases s.len(),
{
    if s.len() > 0 {
        if k == 0 {
            lemma_le_nat_zero_tail(s.drop_first(), 0);
            assert(s.drop_first().subrange(0, 0) =~= Seq::<u8>::empty());
            assert(s.subrange(0, 0) =~= Seq::<u8>::empty());
        } else {
            lemma_le_nat_zero_tail(s.drop_first(), (k - 1) as nat);
            assert(s.subrange(0, k as int).drop_first() =~= s.drop_first().subrange(0, k - 1));
        }
    }
}

/// Relies on ark_bn254's `Fr` and its `CanonicalDeserialize` impl from
/// ark-ff: reading 32 bytes as a little-endian integer, it accepts them
/// exactly when that integer is below the field's order.
#[verifier::external_body]
pub(crate) fn fr_accepts(b: &[u8]) -> (r: bool)
    requires
        b@.len() == 32,
    ensures
        r == (le_nat(b@) < fr_modulus()),
{
    <ark_bn254::Fr as ark_serialize::CanonicalDeserialize>::deserialize_uncompressed(b).is_ok()
}

/// Reads a field element from the 32 bytes at `p`; `None` where they do not
/// hold an integer below the field's order.
pub fn read_scalar(s: &[u8], p: usize) -> (r: Option<Scalar>)
    requires
        p + 32 <= s@.len(),
    ensures
        r is Some <==> le_nat(s@.subrange(p as int, p + 32)) < fr_modulus(),
        r is Some ==> r->Some_0.bytes@ == s@.subrange(p as int, p + 32),
{
    let len = s.len();
    let mut bytes: Vec<u8> = Vec::new();
    let mut i: usize = 0;
    while i < 32
        invariant
            i <= 32,
            p + 32 <= s@.len(),
            s@.len() == len,
            bytes@ == s@.subrange(p as int, p + i),
        decreases 32 - i,
    {
        bytes.push(s[p + i]);
        assert(bytes@ =~= s@.subrange(p as int, p + i + 1));
        i = i + 1;
    }
    if fr_accepts(bytes.as_slice()) {
        Some(Scalar { bytes })
    } else {
        None
    }
}

} // verus!
