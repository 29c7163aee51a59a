use vstd::prelude::*;
use vstd::string::StrSliceExecFns;
use vstd::string::StringSliceAdditionalSpecFns;
use crate::driver::{make_envelope, make_envelope_spec, CtxModel};
use crate::envelope::{max_field_len, Envelope, Phase};
use crate::errors::SessionError;

verus! {

#[verifier::external_type_specification]
#[verifier::external_body]
pub struct ExValue(serde_json::Value);

/// Whether `serde_json` accepts `b` as a JSON document; a function of the
/// input bytes alone.
pub uninterp spec fn json_accepts(b: Seq<u8>) -> bool;

/// Relies on `serde_json::from_slice::<Value>`: parses a JSON document,
/// deterministically in the input bytes alone, failing exactly on input that
/// is not valid JSON.
#[verifier::external_body]
pub fn decode_signing_msg(bytes: &[u8]) -> (r: Result<serde_json::Value, SessionError>)
    ensures
        (match r {
            Ok(_) => json_accepts(bytes@),
            Err(e) => !json_accepts(bytes@) && e == SessionError::InvalidArgument,
        }),
{
    match serde_json::from_slice::<serde_json::Value>(bytes) {
        Ok(v) => Ok(v),
        Err(_) => Err(SessionError::InvalidArgument),
    }
}

/// Relies on `serde_json::to_vec`: serializes a JSON value. No claim is made
/// that the output parses back: the deserializer enforces a recursion limit
/// that the serializer does not, so the serialization of a deeply nested
/// value is not accepted by [`decode_signing_msg`].
#[verifier::external_body]
pub fn encode_signing_msg(msg: &serde_json::Value) -> (r: Result<Vec<u8>, SessionError>)
    ensures
        (match r {
            Ok(_) => true,
            Err(e) => e == SessionError::Serialization,
        }),
{
    match serde_json::to_vec(msg) {
        Ok(v) => Ok(v),
        Err(_) => Err(SessionError::Serialization),
    }
}

/// The context under which a batch of signing envelopes is emitted.
pub open spec fn signing_ctx(
    sid: Seq<u8>,
    eid: Seq<u8>,
    from_party: u16,
    threshold: u16,
    parties_count: u16,
    tx_context: Seq<u8>,
) -> CtxModel {
    (CtxModel {
        session_id: sid,
        execution_id: eid,
        phase: Phase::Signing,
        party_index: from_party,
        threshold,
        parties_count,
        tx_context,
    })
}

/// Wraps a batch of already-serialized outbound signing messages into wire
/// envelopes, in order. The batch stands at the start of a phase execution,
/// so exactly its first envelope carries the one-time session metadata block
/// and every later one carries none. A `None` recipient is a broadcast.
/// Fails only where a field exceeds the wire format's machine bounds.
pub fn outgoing_to_envelopes(
    messages: Vec<(Option<u16>, Vec<u8>)>,
    session_id: &str,
    execution_id: &str,
    threshold: u16,
    parties_count: u16,
    from_party: u16,
    tx_context: Vec<u8>,
) -> (r: Result<Vec<Envelope>, SessionError>)
    ensures
        r is Ok <==> {
            &&& session_id.spec_bytes().len() < max_field_len()
            &&& execution_id.spec_bytes().len() < max_field_len()
            &&& tx_context@.len() < max_field_len()
            &&& forall|i: int|
                0 <= i < messages@.len() ==> #[trigger] messages@[i].1@.len() < max_field_len()
        },
        r matches Ok(envs) ==> {
            &&& envs@.len() == messages@.len()
            &&& forall|i: int|
                0 <= i < envs@.len() ==> #[trigger] envs@[i]@ == make_envelope_spec(
                    signing_ctx(
                        session_id.spec_bytes(),
                        execution_id.spec_bytes(),
                        from_party,
                        threshold,
                        parties_count,
                        tx_context@,
                    ),
                    messages@[i].0,
                    messages@[i].1@,
                    i == 0,
                )
        },
        r is Err ==> r == Err::<Vec<Envelope>, SessionError>(SessionError::InvalidArgument),
{
    let sid = session_id.as_bytes_vec();
    let eid = execution_id.as_bytes_vec();
    if sid.len() as u64 >= 4294967296u64 || eid.len() as u64 >= 4294967296u64 || tx_context.len()
        as u64 >= 4294967296u64 {
        return Err(SessionError::InvalidArgument);
    }
    let ctx = crate::driver::PhaseContext {
        session_id: sid,
        execution_id: eid,
        phase: Phase::Signing,
        party_index: from_party,
        threshold,
        parties_count,
        tx_context,
    };
    let ghost cm = ctx@;
    let mut envs: Vec<Envelope> = Vec::new();
    let mut i: usize = 0;
    while i < messages.len()
        invariant
            i <= messages@.len(),
            crate::driver::ctx_wf(cm),
            cm == signing_ctx(
                session_id.spec_bytes(),
                execution_id.spec_bytes(),
                from_party,
                threshold,
                parties_count,
                cm.tx_context,
            ),
            ctx@ == cm,
            envs@.len() == i,
            forall|j: int| 0 <= j < i ==> #[trigger] messages@[j].1@.len() < max_field_len(),
            forall|j: int|
                0 <= j < i ==> #[trigger] envs@[j]@ == make_envelope_spec(
                    cm,
                    messages@[j].0,
                    messages@[j].1@,
                    j == 0,
                ),
        decreases messages@.len() - i,
    {
        let to: Option<u16> = messages[i].0;
        if messages[i].1.len() as u64 >= 4294967296u64 {
            return Err(SessionError::InvalidArgument);
        }
        let payload = crate::driver::copy_bytes(&messages[i].1);
        let env = make_envelope(&ctx, to, payload, i == 0);
        envs.push(env);
        i = i + 1;
    }
    Ok(envs)
}

} // verus!
