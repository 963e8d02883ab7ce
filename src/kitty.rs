//! Record layouts of the kitty collection, one per schema version, and the pure
//! conversions between them.
use vstd::prelude::*;

verus! {

/// A kitty as stored under schema version 0: a bare 16-byte DNA blob.
#[derive(Clone, Copy, Debug, PartialEq, Eq)]
pub struct V0Kitty(pub [u8; 16]);

/// A kitty as stored under schema version 1: its DNA and a 4-byte name.
#[derive(Clone, Copy, Debug, PartialEq, Eq)]
pub struct Kitty {
    pub dna: [u8; 16],
    pub name: [u8; 4],
}

/// A kitty as stored under schema version 2: its DNA and an 8-byte name.
#[derive(Clone, Copy, Debug, PartialEq, Eq)]
pub struct KittyV2 {
    pub dna: [u8; 16],
    pub name: [u8; 8],
}

/// The name given to every kitty that enters schema version 1 ("abcd").
pub open spec fn default_name() -> Seq<u8> {
    seq![97u8, 98u8, 99u8, 100u8]
}

/// The version-1 record that a version-0 record becomes.
pub open spec fn upgrade_v0_spec(k: V0Kitty) -> Kitty {
    Kitty { dna: k.0, name: [97u8, 98u8, 99u8, 100u8] }
}

/// The version-2 record that a version-1 record becomes: the name is the first
/// eight bytes of the DNA.
pub open spec fn upgrade_v1_spec(k: Kitty) -> KittyV2 {
    KittyV2 { dna: k.dna, name: [k.dna[0], k.dna[1], k.dna[2], k.dna[3], k.dna[4], k.dna[5], k.dna[6], k.dna[7]] }
}

/// Converts a version-0 record: the DNA is kept verbatim, the name is fixed.
pub fn upgrade_v0(k: V0Kitty) -> (r: Kitty)
    ensures
        r == upgrade_v0_spec(k),
        r.dna@ == k.0@,
        r.name@ == default_name(),
{
    let r = Kitty { dna: k.0, name: [97u8, 98u8, 99u8, 100u8] };
    assert(r.name@ =~= default_name());
    r
}

/// Converts a version-1 record: the DNA is kept verbatim and its first eight
/// bytes become the name.
pub fn upgrade_v1(k: Kitty) -> (r: KittyV2)
    ensures
        r == upgrade_v1_spec(k),
        r.dna@ == k.dna@,
        r.name@ == k.dna@.subrange(0, 8),
{
    let d = k.dna;
    let r = KittyV2 { dna: d, name: [d[0], d[1], d[2], d[3], d[4], d[5], d[6], d[7]] };
    assert(r.name@ =~= k.dna@.subrange(0, 8));
    r
}

} // verus!
