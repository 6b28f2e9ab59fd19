//! The byte layout of the sender's second message: each ciphertext preceded
//! by its length as eight little-endian bytes.
use crate::group::le_value;
use crate::protocol::AliceMessage2;
use vstd::prelude::*;

verus! {

/// The `k` low bytes of `n`, least significant first.
pub open spec fn le_bytes(n: nat, k: nat) -> Seq<u8>
    decreases k,
{
    if k == 0 {
        Seq::empty()
    } else {
        seq![(n % 256) as u8] + le_bytes(n / 256, (k - 1) as nat)
    }
}

/// 256 to the power `k`.
pub open spec fn pow256(k: nat) -> nat
    decreases k,
{
    if k == 0 {
        1
    } else {
        256 * pow256((k - 1) as nat)
    }
}

/// `bytes` frames the ciphertexts `c0` and `c1`: an eight-byte little-endian
/// length, `c0`, another such length, then `c1`.
pub open spec fn is_frame(bytes: Seq<u8>, c0: Seq<u8>, c1: Seq<u8>) -> bool {
    let n0 = c0.len() as int;
    &&& bytes.len() == 16 + n0 + c1.len()
    &&& le_value(bytes.subrange(0, 8)) == c0.len()
    &&& bytes.subrange(8, 8 + n0) == c0
    &&& le_value(bytes.subrange(8 + n0, 16 + n0)) == c1.len()
    &&& bytes.subrange(16 + n0, bytes.len() as int) == c1
}

proof fn lemma_pow256_positive(k: nat)
    ensures
        pow256(k) > 0,
    decreases k,
{
    if k > 0 {
        lemma_pow256_positive((k - 1) as nat);
    }
}

proof fn lemma_le_bytes_value(n: nat, k: nat)
    ensures
        le_bytes(n, k).len() == k,
        le_value(le_bytes(n, k)) == n % pow256(k),
    decreases k,
{
    lemma_pow256_positive(k);
    if k != 0 {
        let rest = le_bytes(n / 256, (k - 1) as nat);
        lemma_le_bytes_value(n / 256, (k - 1) as nat);
        assert(le_bytes(n, k).drop_first() =~= rest);
        let p = pow256((k - 1) as nat);
        lemma_pow256_positive((k - 1) as nat);
        vstd::arithmetic::div_mod::lemma_mod_breakdown(n as int, 256, p as int);
    }
}

proof fn lemma_le_value_bound(s: Seq<u8>)
    ensures
        le_value(s) < pow256(s.len()),
    decreases s.len(),
{
    if s.len() > 0 {
        lemma_le_value_bound(s.drop_first());
    }
}

proof fn lemma_pow256_monotonic(j: nat, k: nat)
    requires
        j <= k,
    ensures
        pow256(j) <= pow256(k),
    decreases k,
{
    if j < k {
        lemma_pow256_monotonic(j, (k - 1) as nat);
    }
}

/// Two framings of the same bytes frame the same ciphertexts.
pub proof fn lemma_frame_unique(bytes: Seq<u8>, c0: Seq<u8>, c1: Seq<u8>, d0: Seq<u8>, d1: Seq<u8>)
    requires
        is_frame(bytes, c0, c1),
        is_frame(bytes, d0, d1),
    ensures
        c0 == d0,
        c1 == d1,
{
}

/// Appends `n` as eight little-endian bytes.
fn push_length(out: &mut Vec<u8>, n: u64)
    ensures
        final(out)@ == old(out)@ + le_bytes(n as nat, 8),
{
    let mut x: u64 = n;
    let mut i: usize = 0;
    while i < 8
        invariant
            i <= 8,
            out@ + le_bytes(x as nat, (8 - i) as nat) == old(out)@ + le_bytes(n as nat, 8),
        decreases 8 - i,
    {
        let ghost before = out@;
        out.push((x % 256) as u8);
        assert(le_bytes(x as nat, (8 - i) as nat) =~= seq![(x % 256) as u8] + le_bytes(
            (x / 256) as nat,
            (8 - i - 1) as nat,
        ));
        assert(before + le_bytes(x as nat, (8 - i) as nat) =~= out@ + le_bytes(
            (x / 256) as nat,
            (8 - i - 1) as nat,
        ));
        x = x / 256;
        i = i + 1;
    }
    assert(le_bytes(x as nat, 0) =~= Seq::<u8>::empty());
    assert(out@ =~= old(out)@ + le_bytes(n as nat, 8));
}

/// Reads eight little-endian bytes at `start`.
fn read_length(bytes: &[u8], start: usize) -> (r: u64)
    requires
        start + 8 <= bytes@.len(),
    ensures
        r as nat == le_value(bytes@.subrange(start as int, start + 8)),
{
    let mut v: u64 = 0;
    let mut i: usize = 8;
    while i > 0
        invariant
            i <= 8,
            start + 8 <= bytes.len(),
            v as nat == le_value(bytes@.subrange(start + i, start + 8)),
        decreases i,
    {
        i = i - 1;
        let ghost tail = bytes@.subrange(start + i + 1, start + 8);
        proof {
            lemma_le_value_bound(tail);
            lemma_pow256_monotonic(tail.len(), 7);
            reveal_with_fuel(pow256, 8);
            assert(bytes@.subrange(start + i, start + 8).drop_first() =~= tail);
        }
        v = bytes[start + i] as u64 + 256 * v;
    }
    v
}

impl AliceMessage2 {
    /// The two ciphertexts, each after its length as eight little-endian bytes.
    pub fn to_bytes(&self) -> (r: Vec<u8>)
        requires
            self.encrypted_m0@.len() + self.encrypted_m1@.len() + 16 <= usize::MAX,
        ensures
            is_frame(r@, self.encrypted_m0@, self.encrypted_m1@),
    {
        let c0 = &self.encrypted_m0;
        let c1 = &self.encrypted_m1;
        let mut out: Vec<u8> = Vec::new();
        push_length(&mut out, c0.len() as u64);
        let mut i: usize = 0;
        while i < c0.len()
            invariant
                out@ == le_bytes(c0@.len(), 8) + c0@.subrange(0, i as int),
                i <= c0@.len(),
            decreases c0.len() - i,
        {
            out.push(c0[i]);
            i = i + 1;
        }
        push_length(&mut out, c1.len() as u64);
        let mut j: usize = 0;
        while j < c1.len()
            invariant
                out@ == le_bytes(c0@.len(), 8) + c0@ + le_bytes(c1@.len(), 8) + c1@.subrange(0, j as int),
                j <= c1@.len(),
            decreases c1.len() - j,
        {
            out.push(c1[j]);
            j = j + 1;
        }
        proof {
            lemma_le_bytes_value(c0@.len(), 8);
            lemma_le_bytes_value(c1@.len(), 8);
            reveal_with_fuel(pow256, 9);
            assert(c0@.subrange(0, c0@.len() as int) =~= c0@);
            assert(c1@.subrange(0, c1@.len() as int) =~= c1@);
            let n0 = c0@.len() as int;
            assert(out@.subrange(0, 8) =~= le_bytes(c0@.len(), 8));
            assert(out@.subrange(8, 8 + n0) =~= c0@);
            assert(out@.subrange(8 + n0, 16 + n0) =~= le_bytes(c1@.len(), 8));
            assert(out@.subrange(16 + n0, out@.len() as int) =~= c1@);
            assert(pow256(8) == 0x10000000000000000);
        }
        out
    }

    /// Splits framed bytes back into the two ciphertexts; `None` where the
    /// bytes frame no pair of ciphertexts.
    pub fn from_bytes(bytes: &[u8]) -> (r: Option<AliceMessage2>)
        ensures
            r matches Some(m) ==> is_frame(bytes@, m.encrypted_m0@, m.encrypted_m1@),
            r is None ==> forall|c0: Seq<u8>, c1: Seq<u8>| !is_frame(bytes@, c0, c1),
    {
        if bytes.len() < 8 {
            return None;
        }
        let n0 = read_length(bytes, 0);
        if bytes.len() < 16 || n0 > (bytes.len() - 16) as u64 {
            return None;
        }
        let end0: usize = 8 + n0 as usize;
        let n1 = read_length(bytes, end0);
        if n1 != (bytes.len() - end0 - 8) as u64 {
            return None;
        }
        let mut c0: Vec<u8> = Vec::new();
        let mut i: usize = 8;
        while i < end0
            invariant
                8 <= i <= end0,
                end0 + 8 <= bytes@.len(),
                c0@ == bytes@.subrange(8, i as int),
            decreases end0 - i,
        {
            c0.push(bytes[i]);
            i = i + 1;
        }
        let mut c1: Vec<u8> = Vec::new();
        let mut j: usize = end0 + 8;
        while j < bytes.len()
            invariant
                end0 + 8 <= j <= bytes@.len(),
                c1@ == bytes@.subrange(end0 + 8, j as int),
            decreases bytes.len() - j,
        {
            c1.push(bytes[j]);
            j = j + 1;
        }
        Some(AliceMessage2 { encrypted_m0: c0, encrypted_m1: c1 })
    }
}

} // verus!
