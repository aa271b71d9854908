//! Stable identifiers for entities, derived from a namespace and a seed by
//! the name-based (SHA-1, version 5) UUID scheme, so that every run and every
//! process gives the same entity the same identifier.
use vstd::prelude::*;

verus! {

/// The name-based version 5 UUID of `name` under `namespace`, as 16 bytes.
pub uninterp spec fn uuid_v5_of(namespace: Seq<u8>, name: Seq<u8>) -> Seq<u8>;

/// Relies on `uuid::Uuid::new_v5`: the SHA-1 name-based UUID of `name` under
/// `namespace`, whose version nibble it sets to 5 and whose variant bits it
/// sets to RFC 4122 (`Builder::with_version`, `Builder::with_variant`).
#[verifier::external_body]
fn name_based_uuid(namespace: &[u8; 16], name: &[u8]) -> (r: [u8; 16])
    ensures
        r@ == uuid_v5_of(namespace@, name@),
        r@[6] >> 4u8 == 5u8,
        r@[8] & 0xc0u8 == 0x80u8,
{
    *uuid::Uuid::new_v5(&uuid::Uuid::from_bytes(*namespace), name).as_bytes()
}

/// Bytes of the namespace under which device identifiers are derived: eight
/// bytes `0xff` followed by eight bytes `0x00`.
pub open spec fn device_namespace_bytes() -> Seq<u8> {
    Seq::new(16, |i: int| if i < 8 { 0xffu8 } else { 0x00u8 })
}

pub fn device_namespace() -> (r: [u8; 16])
    ensures
        r@ == device_namespace_bytes(),
{
    let r: [u8; 16] = [
        0xff, 0xff, 0xff, 0xff, 0xff, 0xff, 0xff, 0xff,
        0x00, 0x00, 0x00, 0x00, 0x00, 0x00, 0x00, 0x00,
    ];
    assert(r@ =~= device_namespace_bytes());
    r
}

/// The identifier of the entity named by `seed` under `namespace`.
pub fn entity_id(namespace: &[u8; 16], seed: &[u8]) -> (r: [u8; 16])
    ensures
        r@ == uuid_v5_of(namespace@, seed@),
        r@[6] >> 4u8 == 5u8,
        r@[8] & 0xc0u8 == 0x80u8,
{
    name_based_uuid(namespace, seed)
}

/// Identifiers of devices `1..=count`, each named by its number as one byte
/// under the device namespace.
pub fn device_ids(count: u8) -> (r: Vec<[u8; 16]>)
    ensures
        r@.len() == count,
        forall|i: int|
            0 <= i < count ==> (#[trigger] r@[i])@ == uuid_v5_of(
                device_namespace_bytes(),
                seq![(i + 1) as u8],
            ),
{
    let namespace = device_namespace();
    let mut out: Vec<[u8; 16]> = Vec::new();
    let mut seed: u8 = 0;
    while seed < count
        invariant
            seed <= count,
            namespace@ == device_namespace_bytes(),
            out@.len() == seed,
            forall|i: int|
                0 <= i < seed ==> (#[trigger] out@[i])@ == uuid_v5_of(
                    device_namespace_bytes(),
                    seq![(i + 1) as u8],
                ),
        decreases count - seed,
    {
        let name: [u8; 1] = [seed + 1];
        assert(name@ =~= seq![(seed + 1) as u8]);
        let id = entity_id(&namespace, name.as_slice());
        out.push(id);
        seed = seed + 1;
    }
    out
}

/// The identifier depends on the namespace and the seed alone: equal inputs
/// give equal identifiers, in every run and every process.
pub proof fn lemma_entity_id_deterministic(
    namespace1: Seq<u8>,
    seed1: Seq<u8>,
    namespace2: Seq<u8>,
    seed2: Seq<u8>,
)
    requires
        namespace1 == namespace2,
        seed1 == seed2,
    ensures
        uuid_v5_of(namespace1, seed1) == uuid_v5_of(namespace2, seed2),
{
}

} // verus!
