use vstd::prelude::*;

use crate::peer::PeerId;

verus! {

// The distributed key generation session and its wire messages are values of
// the `bls_dkg` crate. They are opaque here: the library stores and routes
// them, and every operation on them goes through one of the trusted
// functions below.
#[verifier::external_type_specification]
#[verifier::external_body]
pub struct ExKeyGen(bls_dkg::key_gen::KeyGen);

#[verifier::external_type_specification]
#[verifier::external_body]
pub struct ExDkgMessage(bls_dkg::key_gen::message::Message);

#[verifier::external_type_specification]
#[verifier::external_body]
pub struct ExDkgError(bls_dkg::key_gen::Error);

#[verifier::external_type_specification]
#[verifier::external_body]
pub struct ExPublicKeySet(bls_dkg::PublicKeySet);

#[verifier::external_type_specification]
#[verifier::external_body]
pub struct ExSecretKeyShare(bls_dkg::SecretKeyShare);

#[verifier::external_type_specification]
#[verifier::external_body]
pub struct ExSignatureShare(bls_dkg::blsttc::SignatureShare);

#[verifier::external_type_specification]
#[verifier::external_body]
pub struct ExSignature(bls_dkg::blsttc::Signature);

#[verifier::external_type_specification]
#[verifier::external_body]
pub struct ExBlsError(bls_dkg::blsttc::error::Error);

#[verifier::external_type_specification]
#[verifier::external_body]
pub struct ExXorName(bls_dkg::xor_name::XorName);

/// What a finished key generation leaves behind: the quorum's public
/// verification material, this node's share of the secret, and the node's
/// index among the participants. Produced at most once per node and never
/// replaced.
pub struct KeyMaterial {
    pub public_key_set: bls_dkg::PublicKeySet,
    pub secret_key_share: bls_dkg::SecretKeyShare,
    pub index: u64,
}

/// One message the session asks to have delivered, and to whom.
pub type DkgOutbound = (PeerId, bls_dkg::key_gen::message::Message);

/// The byte form of an identifier, as the key-generation crate names
/// participants: the two words written out big-endian. The 256-bit value is
/// unchanged, and the bytewise order of the results is the order of the
/// identifiers.
#[verifier::external_body]
fn peer_to_xor_name(p: &PeerId) -> bls_dkg::xor_name::XorName {
    let mut b = [0u8; 32];
    b[..16].copy_from_slice(&p.hi.to_be_bytes());
    b[16..].copy_from_slice(&p.lo.to_be_bytes());
    bls_dkg::xor_name::XorName(b)
}

/// The identifier a participant name stands for: the reverse of the byte
/// form above.
#[verifier::external_body]
fn xor_name_to_peer(x: bls_dkg::xor_name::XorName) -> PeerId {
    let hi = u128::from_be_bytes(x.0[..16].try_into().unwrap());
    let lo = u128::from_be_bytes(x.0[16..].try_into().unwrap());
    PeerId { hi, lo }
}

/// Relies on bls_dkg::key_gen::KeyGen::initialize: with the caller among the
/// participants and at least `threshold` participants, it returns a fresh
/// session and one initial message addressed to every participant, in
/// participant order, and fails on no other input. Participant identifiers
/// are 256-bit names ordered bytewise, so the strictly ascending input order
/// is preserved.
#[verifier::external_body]
fn dkg_initialize_raw(our_id: &PeerId, threshold: usize, names: &Vec<PeerId>) -> (r: Result<
    (bls_dkg::key_gen::KeyGen, Vec<DkgOutbound>),
    bls_dkg::key_gen::Error,
>)
    requires
        forall|i: int, j: int|
            0 <= i < j < names@.len() ==> #[trigger] names@[i].lt_spec(#[trigger] names@[j]),
        exists|i: int| 0 <= i < names@.len() && names@[i] == *our_id,
        threshold <= names@.len(),
    ensures
        match r {
            Ok(p) => p.1@.len() == names@.len() && forall|i: int|
                0 <= i < p.1@.len() ==> (#[trigger] p.1@[i]).0 == names@[i],
            Err(_) => false,
        },
{
    let set: std::collections::BTreeSet<_> = names.iter().map(peer_to_xor_name).collect();
    match bls_dkg::key_gen::KeyGen::initialize(peer_to_xor_name(our_id), threshold, set) {
        Ok((kg, ms)) => Ok((kg, ms.into_iter().map(|(x, m)| (xor_name_to_peer(x), m)).collect())),
        Err(e) => Err(e),
    }
}

/// Start a key generation session among the given participants.
pub(crate) fn dkg_initialize(our_id: &PeerId, threshold: usize, names: &Vec<PeerId>) -> (r: (
    bls_dkg::key_gen::KeyGen,
    Vec<DkgOutbound>,
))
    requires
        forall|i: int, j: int|
            0 <= i < j < names@.len() ==> #[trigger] names@[i].lt_spec(#[trigger] names@[j]),
        exists|i: int| 0 <= i < names@.len() && names@[i] == *our_id,
        threshold <= names@.len(),
    ensures
        r.1@.len() == names@.len(),
        forall|i: int| 0 <= i < r.1@.len() ==> (#[trigger] r.1@[i]).0 == names@[i],
{
    match dkg_initialize_raw(our_id, threshold, names) {
        Ok(p) => p,
        Err(_) => vstd::pervasive::unreached(),
    }
}

/// Relies on bls_dkg::key_gen::KeyGen::handle_message: it advances the
/// session by one incoming message and returns whatever messages the
/// protocol now wants delivered; a finalized session returns none. The
/// result also depends on fresh randomness, so nothing more is stated.
#[verifier::external_body]
pub(crate) fn dkg_handle_message(
    kg: &mut bls_dkg::key_gen::KeyGen,
    msg: &bls_dkg::key_gen::message::Message,
) -> (r: Result<Vec<DkgOutbound>, bls_dkg::key_gen::Error>) {
    let mut rng = rand::thread_rng();
    match kg.handle_message(&mut rng, msg.clone()) {
        Ok(ms) => Ok(ms.into_iter().map(|(x, m)| (xor_name_to_peer(x), m)).collect()),
        Err(e) => Err(e),
    }
}

/// Relies on bls_dkg::key_gen::KeyGen::is_finalized.
#[verifier::external_body]
pub(crate) fn dkg_is_finalized(kg: &bls_dkg::key_gen::KeyGen) -> bool {
    kg.is_finalized()
}

/// Relies on bls_dkg::key_gen::KeyGen::generate_keys: a finalized session
/// yields the outcome; an unfinished one yields nothing.
#[verifier::external_body]
pub(crate) fn dkg_generate_keys(kg: &bls_dkg::key_gen::KeyGen) -> Option<KeyMaterial> {
    kg.generate_keys().map(|(_, o)| KeyMaterial {
        public_key_set: o.public_key_set,
        secret_key_share: o.secret_key_share,
        index: o.index as u64,
    })
}

/// Relies on blsttc::PublicKeySet::clone, which copies the value.
#[verifier::external_body]
pub(crate) fn clone_public_key_set(p: &bls_dkg::PublicKeySet) -> (r: bls_dkg::PublicKeySet)
    ensures
        r == *p,
{
    p.clone()
}

/// Relies on blsttc::SignatureShare::clone, which copies the value.
#[verifier::external_body]
pub(crate) fn clone_signature_share(s: &bls_dkg::blsttc::SignatureShare) -> (r: bls_dkg::blsttc::SignatureShare)
    ensures
        r == *s,
{
    s.clone()
}

/// Relies on blsttc::SecretKeyShare::sign: one node's signature share over
/// the given bytes.
#[verifier::external_body]
pub(crate) fn sign_with_share(
    sks: &bls_dkg::SecretKeyShare,
    msg: &Vec<u8>,
) -> bls_dkg::blsttc::SignatureShare {
    sks.sign(msg)
}

/// Relies on blsttc::PublicKeySet::combine_signatures: enough distinct
/// shares combine into the quorum's signature; too few, or a repeated
/// index, is an error.
#[verifier::external_body]
pub(crate) fn combine_shares(
    pks: &bls_dkg::PublicKeySet,
    shares: &Vec<(u64, bls_dkg::blsttc::SignatureShare)>,
) -> Result<bls_dkg::blsttc::Signature, bls_dkg::blsttc::error::Error> {
    pks.combine_signatures(shares.iter().map(|(i, s)| (*i, s)))
}

} // verus!
