use vstd::prelude::*;
use vstd::string::StringSliceAdditionalSpecFns;

verus! {

/// The SHA-256 digest of `input`, as the `sha2` crate computes it. The digest
/// depends on the input bytes alone.
pub uninterp spec fn sha256_of(input: Seq<u8>) -> Seq<u8>;

/// Relies on `sha2::Sha256::digest`: a pure function of the input bytes that
/// always returns a 32-byte digest.
#[verifier::external_body]
pub fn sha256(data: &[u8]) -> (r: Vec<u8>)
    ensures
        r@ == sha256_of(data@),
        r@.len() == 32,
{
    <sha2::Sha256 as sha2::Digest>::digest(data).to_vec()
}

/// The byte string that is hashed to derive an execution identity:
/// `session_id || ":" || execution_id || ":" || phase_name`, all UTF-8.
pub open spec fn seed_preimage(sid: Seq<u8>, eid: Seq<u8>, phase: Seq<u8>) -> Seq<u8> {
    sid + seq![58u8] + eid + seq![58u8] + phase
}

/// Derives the 32-byte execution identity of one phase of a session.
///
/// The result is a pure function of `(session_id, execution_id, phase_name)`,
/// so independent parties derive bit-identical seeds for the same logical
/// protocol run without any coordination.
pub fn derive_execution_seed(session_id: &str, execution_id: &str, phase_name: &str) -> (r: Vec<
    u8,
>)
    ensures
        r@ == sha256_of(
            seed_preimage(session_id.spec_bytes(), execution_id.spec_bytes(), phase_name.spec_bytes()),
        ),
        r@.len() == 32,
{
    let mut preimage: Vec<u8> = Vec::new();
    preimage.extend_from_slice(session_id.as_bytes());
    preimage.push(58);
    preimage.extend_from_slice(execution_id.as_bytes());
    preimage.push(58);
    preimage.extend_from_slice(phase_name.as_bytes());
    assert(preimage@ =~= seed_preimage(
        session_id.spec_bytes(),
        execution_id.spec_bytes(),
        phase_name.spec_bytes(),
    ));
    sha256(preimage.as_slice())
}

/// Determinism of the execution identity: two derivations that agree on the
/// session identifier, execution identifier and phase name yield the same
/// seed, across repeated invocations and across independent instances.
pub proof fn lemma_seed_deterministic(
    sid1: Seq<u8>,
    eid1: Seq<u8>,
    phase1: Seq<u8>,
    sid2: Seq<u8>,
    eid2: Seq<u8>,
    phase2: Seq<u8>,
)
    requires
        sid1 == sid2,
        eid1 == eid2,
        phase1 == phase2,
    ensures
        sha256_of(seed_preimage(sid1, eid1, phase1)) == sha256_of(seed_preimage(sid2, eid2, phase2)),
{
}

} // verus!
