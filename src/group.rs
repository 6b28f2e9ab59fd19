//! Elements of the Ristretto group, modelled by their discrete logarithm to
//! the base point, and secret scalars held as little-endian bytes.
use curve25519_dalek::constants::RISTRETTO_BASEPOINT_POINT;
use curve25519_dalek::ristretto::CompressedRistretto;
use curve25519_dalek::scalar::Scalar;
use vstd::prelude::*;

verus! {

/// The prime order of the Ristretto group, 2^252 + 27742317777372353535851937790883648493.
pub open spec fn group_order() -> int {
    vstd::arithmetic::power2::pow2(252) as int + 27742317777372353535851937790883648493
}

/// The unsigned integer that `bytes` encode, least significant byte first.
pub open spec fn le_value(bytes: Seq<u8>) -> nat
    decreases bytes.len(),
{
    if bytes.len() == 0 {
        0
    } else {
        bytes[0] as nat + 256 * le_value(bytes.drop_first())
    }
}

/// The 32-byte compressed encoding of `k` times the Ristretto base point.
/// The group is cyclic of prime order, so every element is such a multiple.
pub uninterp spec fn base_encoding(k: int) -> Seq<u8>;

/// Relies on `Scalar::from_bytes_mod_order_wide` and `Scalar::to_bytes`: a
/// 512-bit little-endian integer reduced modulo the group order, written back
/// as its canonical little-endian bytes.
#[verifier::external_body]
fn reduce_wide(bytes: &[u8; 64]) -> (r: [u8; 32])
    ensures
        le_value(r@) == (le_value(bytes@) as int) % group_order(),
{
    Scalar::from_bytes_mod_order_wide(bytes).to_bytes()
}

/// Relies on `Scalar::from_bytes_mod_order`, `&Scalar * &RistrettoPoint` with
/// `RISTRETTO_BASEPOINT_POINT`, and `RistrettoPoint::compress`: the encoding of
/// the scalar's multiple of the base point. Reducing the scalar modulo the
/// group order does not change that multiple.
#[verifier::external_body]
fn mul_base(scalar: &[u8; 32]) -> (r: [u8; 32])
    ensures
        r@ == base_encoding(le_value(scalar@) as int),
{
    let s = Scalar::from_bytes_mod_order(*scalar);
    (&s * &RISTRETTO_BASEPOINT_POINT).compress().to_bytes()
}

/// Relies on `Scalar::from_bytes_mod_order`, `Scalar * RistrettoPoint`,
/// `CompressedRistretto::decompress` and `RistrettoPoint::compress`:
/// multiplying the element `k·B` by `s` gives `(s·k)·B`. Decompression
/// succeeds on every such encoding, which the precondition asks for.
#[verifier::external_body]
fn mul_point(scalar: &[u8; 32], point: &[u8; 32]) -> (r: [u8; 32])
    requires
        exists|k: int| point@ == base_encoding(k),
    ensures
        forall|k: int|
            point@ == #[trigger] base_encoding(k) ==> r@ == base_encoding(le_value(scalar@) * k),
{
    let s = Scalar::from_bytes_mod_order(*scalar);
    let p = CompressedRistretto(*point).decompress().unwrap();
    (s * p).compress().to_bytes()
}

/// Relies on `RistrettoPoint + RistrettoPoint`, with `decompress` and
/// `compress`: the sum of `j·B` and `k·B` is `(j + k)·B`.
#[verifier::external_body]
fn add_points(p: &[u8; 32], q: &[u8; 32]) -> (r: [u8; 32])
    requires
        exists|j: int| p@ == base_encoding(j),
        exists|k: int| q@ == base_encoding(k),
    ensures
        forall|j: int, k: int|
            p@ == #[trigger] base_encoding(j) && q@ == #[trigger] base_encoding(k) ==> r@
                == base_encoding(j + k),
{
    let a = CompressedRistretto(*p).decompress().unwrap();
    let b = CompressedRistretto(*q).decompress().unwrap();
    (a + b).compress().to_bytes()
}

/// Relies on `RistrettoPoint - RistrettoPoint`, with `decompress` and
/// `compress`: the difference of `j·B` and `k·B` is `(j - k)·B`.
#[verifier::external_body]
fn sub_points(p: &[u8; 32], q: &[u8; 32]) -> (r: [u8; 32])
    requires
        exists|j: int| p@ == base_encoding(j),
        exists|k: int| q@ == base_encoding(k),
    ensures
        forall|j: int, k: int|
            p@ == #[trigger] base_encoding(j) && q@ == #[trigger] base_encoding(k) ==> r@
                == base_encoding(j - k),
{
    let a = CompressedRistretto(*p).decompress().unwrap();
    let b = CompressedRistretto(*q).decompress().unwrap();
    (a - b).compress().to_bytes()
}

/// Relies on `CompressedRistretto::decompress`: it succeeds exactly on the
/// canonical encodings of group elements.
#[verifier::external_body]
fn is_encoding(bytes: &[u8; 32]) -> (r: bool)
    ensures
        r == exists|k: int| bytes@ == base_encoding(k),
{
    CompressedRistretto(*bytes).decompress().is_some()
}

/// A secret scalar drawn from 64 uniformly random bytes: the bytes read as a
/// little-endian integer and reduced modulo the group order, which leaves no
/// noticeable bias.
pub fn scalar_from_wide(bytes: &[u8; 64]) -> (r: [u8; 32])
    ensures
        le_value(r@) == (le_value(bytes@) as int) % group_order(),
{
    reduce_wide(bytes)
}

/// An element of the Ristretto group, held as its compressed encoding,
/// together with its discrete logarithm to the base point as a ghost value.
#[derive(Clone, Copy)]
pub struct GroupElement {
    bytes: [u8; 32],
    log: Ghost<int>,
}

impl GroupElement {
    #[verifier::type_invariant]
    spec fn encodes_log(&self) -> bool {
        self.bytes@ == base_encoding(self.log@)
    }

    /// A discrete logarithm of this element to the base point.
    pub closed spec fn log(&self) -> int {
        self.log@
    }

    /// The compressed encoding of this element.
    pub closed spec fn encoding(&self) -> Seq<u8> {
        self.bytes@
    }

    /// `scalar` times the base point.
    pub fn from_scalar(scalar: &[u8; 32]) -> (r: GroupElement)
        ensures
            r.log() == le_value(scalar@),
    {
        let bytes = mul_base(scalar);
        GroupElement { bytes, log: Ghost(le_value(scalar@) as int) }
    }

    /// Decodes a received compressed encoding; `None` where the bytes encode
    /// no group element.
    pub fn from_bytes(bytes: [u8; 32]) -> (r: Option<GroupElement>)
        ensures
            r is Some <==> exists|k: int| bytes@ == base_encoding(k),
            r matches Some(e) ==> e.encoding() == bytes@,
    {
        if is_encoding(&bytes) {
            let ghost k = choose|k: int| bytes@ == base_encoding(k);
            Some(GroupElement { bytes, log: Ghost(k) })
        } else {
            None
        }
    }

    /// The compressed encoding of this element.
    pub fn to_bytes(&self) -> (r: [u8; 32])
        ensures
            r@ == self.encoding(),
            r@ == base_encoding(self.log()),
    {
        proof {
            use_type_invariant(self);
        }
        self.bytes
    }

    /// This element multiplied by `scalar`.
    pub fn times(&self, scalar: &[u8; 32]) -> (r: GroupElement)
        ensures
            r.log() == le_value(scalar@) * self.log(),
    {
        proof {
            use_type_invariant(self);
        }
        let bytes = mul_point(scalar, &self.bytes);
        GroupElement { bytes, log: Ghost(le_value(scalar@) * self.log@) }
    }

    /// The sum of this element and `other`.
    pub fn plus(&self, other: &GroupElement) -> (r: GroupElement)
        ensures
            r.log() == self.log() + other.log(),
    {
        proof {
            use_type_invariant(self);
            use_type_invariant(other);
        }
        let bytes = add_points(&self.bytes, &other.bytes);
        GroupElement { bytes, log: Ghost(self.log@ + other.log@) }
    }

    /// This element minus `other`.
    pub fn minus(&self, other: &GroupElement) -> (r: GroupElement)
        ensures
            r.log() == self.log() - other.log(),
    {
        proof {
            use_type_invariant(self);
            use_type_invariant(other);
        }
        let bytes = sub_points(&self.bytes, &other.bytes);
        GroupElement { bytes, log: Ghost(self.log@ - other.log@) }
    }
}

} // verus!
