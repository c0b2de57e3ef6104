use p3_baby_bear::BabyBear;
use p3_field::PrimeField32;
use vstd::prelude::*;

verus! {

/// The order of the BabyBear prime field: 15 * 2^27 + 1.
pub const PRIME: u32 = 0x78000001;

/// A field element, held as an integer representative. The library's own
/// constructors (`new`, `add`, `zero`, `one`) always give the canonical one, below
/// `PRIME`; equality and order are on representatives, so two elements built by hand
/// from representatives that differ by `PRIME` compare as different.
#[derive(Clone, Copy, Debug, PartialEq, Eq, Structural, PartialOrd, Ord, Hash)]
pub struct Elt(pub u32);

impl Elt {
    /// The element is in canonical form: its representative is below the prime.
    pub open spec fn canonical(self) -> bool {
        self.0 < PRIME
    }

    /// The element whose representative is `x` reduced modulo the prime.
    pub fn new(x: u32) -> (r: Elt)
        ensures
            r.0 == x % PRIME,
            r.canonical(),
    {
        Elt(reduce(x))
    }

    pub fn zero() -> (r: Elt)
        ensures
            r.0 == 0,
    {
        Elt(0)
    }

    pub fn one() -> (r: Elt)
        ensures
            r.0 == 1,
    {
        Elt(1)
    }

    /// Field addition.
    pub fn add(self, other: Elt) -> (r: Elt)
        ensures
            r.0 == (self.0 + other.0) % (PRIME as int),
            r.canonical(),
    {
        Elt(field_add(self.0, other.0))
    }
}

/// Relies on `BabyBear::new` and `PrimeField32::as_canonical_u32`: any `u32` is
/// accepted and read back as its residue modulo the prime.
#[verifier::external_body]
fn reduce(x: u32) -> (r: u32)
    ensures
        r == x % PRIME,
{
    BabyBear::new(x).as_canonical_u32()
}

/// Relies on the `Add` impl of `BabyBear`: the canonical representative of the
/// sum is the integer sum reduced modulo the prime.
#[verifier::external_body]
fn field_add(a: u32, b: u32) -> (r: u32)
    ensures
        r == (a + b) % (PRIME as int),
{
    (BabyBear::new(a) + BabyBear::new(b)).as_canonical_u32()
}

} // verus!
