use base64::Engine as _;
use cggmp_session::engine::{EngineSignal, ScriptedEngine};
use cggmp_session::envelope::{encode_envelopes_bin, Phase};
use cggmp_session::errors::SessionError;
use cggmp_session::executor::{CggmpExecutor, PhaseState, Status};
use cggmp_session::shares::encode_combined;

fn frame_buffer(sender: u32, broadcast: bool, payload: &[u8]) -> Vec<u8> {
    let mut b = sender.to_le_bytes().to_vec();
    b.push(if broadcast { 1 } else { 0 });
    b.extend_from_slice(payload);
    b
}

fn session(party: u16) -> CggmpExecutor<ScriptedEngine> {
    CggmpExecutor::new("s1".to_string(), "e1".to_string(), party, 2, 3).expect("new")
}

fn idle_engine() -> ScriptedEngine {
    ScriptedEngine::new(Vec::new())
}

fn finishing_engine(sends: Vec<EngineSignal>, wanted: usize, output: &[u8]) -> ScriptedEngine {
    ScriptedEngine { script: sends, received: Vec::new(), finish_after: Some((wanted, output.to_vec())) }
}

fn send(to: Option<u16>, payload: &[u8], label: &str) -> EngineSignal {
    EngineSignal::Send { recipient: to, payload: payload.to_vec(), round_label: label.to_string() }
}

fn received_payloads(ex: &CggmpExecutor<ScriptedEngine>) -> Vec<Vec<u8>> {
    match &ex.state {
        PhaseState::Active { engine, .. } => {
            engine.received_messages().iter().map(|m| m.payload.clone()).collect()
        },
        PhaseState::Idle => panic!("no active phase"),
    }
}

#[test]
fn new_rejects_empty_identifiers() {
    assert!(CggmpExecutor::<ScriptedEngine>::new("".to_string(), "e".to_string(), 0, 2, 3).is_err());
    assert!(CggmpExecutor::<ScriptedEngine>::new("s".to_string(), "".to_string(), 0, 2, 3).is_err());
    let ex = session(0);
    let snap = ex.snapshot();
    assert_eq!(snap.status, Status::Init);
    assert_eq!(snap.processed, 0);
    assert_eq!(snap.phase, None);
    assert_eq!(snap.internal_round, "Init".to_string());
}

#[test]
fn step_without_phase_rejects_input_but_allows_empty() {
    let mut ex = session(0);
    assert!(matches!(ex.step(vec![vec![1, 2, 3, 4, 5, 6]]), Err(SessionError::InvalidState)));
    let out = ex.step(Vec::new()).expect("empty step");
    assert!(out.is_empty());
    assert_eq!(ex.snapshot().status, Status::Idle);
    assert_eq!(ex.snapshot().processed, 0, "rejected input is not counted as received");
}

#[test]
fn short_buffers_are_dropped_not_errors() {
    let mut ex = session(0);
    ex.start_keygen(idle_engine()).unwrap();
    let out = ex.step(vec![Vec::new(), vec![1, 2, 3, 4]]).expect("step");
    assert!(out.is_empty());
    assert!(received_payloads(&ex).is_empty());
    assert_eq!(ex.snapshot().processed, 0, "dropped noise is not counted as received");
}

#[test]
fn fifo_feeding_order_matches_batch_order() {
    let mut ex = session(0);
    ex.start_keygen(idle_engine()).unwrap();
    let m1 = frame_buffer(1, true, &[1]);
    let m2 = frame_buffer(2, true, &[2]);
    let m3 = frame_buffer(1, false, &[3]);
    ex.step(vec![m1, m2, m3]).expect("step");
    assert_eq!(received_payloads(&ex), vec![vec![1], vec![2], vec![3]]);
}

#[test]
fn meta_present_only_on_first_envelope_and_resets_per_phase() {
    let mut ex = session(0);
    let engine = ScriptedEngine::new(vec![
        send(None, &[1], "Round 1 (Commitment)"),
        send(Some(2), &[2], "Round 2 (VSS & Share)"),
    ]);
    ex.start_keygen(engine).unwrap();
    let out = ex.step(Vec::new()).expect("step");
    assert_eq!(out.len(), 2);
    assert!(out[0].meta.is_some());
    assert!(out[1].meta.is_none());
    let meta = out[0].meta.as_ref().unwrap();
    assert_eq!(meta.threshold, 2);
    assert_eq!(meta.parties_count, 3);
    assert_eq!(meta.party_index, 0);
    assert!(out[0].to_parties.is_empty());
    assert_eq!(out[1].to_parties, vec![2]);

    match &mut ex.state {
        PhaseState::Active { engine, .. } => {
            engine.script = vec![send(None, &[3], "Round 3 (Verify & Proofs)")];
        },
        PhaseState::Idle => panic!("active expected"),
    }
    let out2 = ex.step(Vec::new()).expect("step");
    assert_eq!(out2.len(), 1);
    assert!(out2[0].meta.is_none(), "meta is sent once per phase");

    let engine3 = ScriptedEngine::new(vec![send(None, &[4], "Round 1 (Paillier Gen)")]);
    ex.start_aux_gen(engine3).unwrap();
    let out3 = ex.step(Vec::new()).expect("step");
    assert_eq!(out3.len(), 1);
    assert!(out3[0].meta.is_some(), "new phase sends meta again");
    assert_eq!(out3[0].phase, Phase::AuxInfo);
}

#[test]
fn combination_needs_both_parts_and_is_idempotent() {
    let core = b"core-bytes".to_vec();
    let aux = b"{\"aux\":1}".to_vec();

    let mut ex = session(0);
    ex.start_keygen(finishing_engine(Vec::new(), 0, &core)).unwrap();
    ex.step(Vec::new()).expect("keygen completes");
    assert_eq!(ex.snapshot().status, Status::KeygenFinished);
    assert_eq!(ex.export_keyshare(), Err(SessionError::NotReady));
    assert!(!ex.snapshot().has_keyshare);

    ex.start_aux_gen(finishing_engine(Vec::new(), 0, &aux)).unwrap();
    ex.step(Vec::new()).expect("aux completes");
    assert_eq!(ex.snapshot().status, Status::KeyshareReady);
    let combined = ex.export_keyshare().expect("combined ready");
    assert_eq!(combined, encode_combined(&core, &aux));
    assert_eq!(ex.export_aux_info().expect("aux"), aux);
    assert_eq!(ex.export_keyshare_bin().expect("bin"), combined);
    assert_eq!(ex.export_aux_info_bin().expect("bin"), aux);

    // The other order yields the same combined share.
    let mut ex2 = session(1);
    ex2.start_aux_gen(finishing_engine(Vec::new(), 0, &aux)).unwrap();
    ex2.step(Vec::new()).expect("aux completes");
    assert_eq!(ex2.export_keyshare(), Err(SessionError::NotReady));
    ex2.start_keygen(finishing_engine(Vec::new(), 0, &core)).unwrap();
    ex2.step(Vec::new()).expect("keygen completes");
    assert_eq!(ex2.export_keyshare().expect("combined"), combined);

    // Re-supplying the auxiliary info combines to an equivalent result.
    ex.import_aux_info(aux.clone()).expect("re-import");
    assert_eq!(ex.export_keyshare().expect("combined"), combined);
}

#[test]
fn import_keyshare_accepts_primary_and_legacy_base64() {
    let combined = encode_combined(&b"c".to_vec(), &b"a".to_vec());
    let mut ex = session(0);
    ex.import_keyshare(combined.clone()).expect("primary");
    assert_eq!(ex.export_keyshare().unwrap(), combined);
    assert_eq!(ex.snapshot().status, Status::KeyshareReady);

    let legacy = base64::engine::general_purpose::STANDARD.encode(&combined).into_bytes();
    let mut ex2 = session(0);
    ex2.import_keyshare(legacy).expect("legacy base64");
    assert_eq!(ex2.export_keyshare().unwrap(), combined);

    let mut ex3 = session(0);
    assert_eq!(ex3.import_keyshare(b"not-a-share".to_vec()), Err(SessionError::Serialization));
    assert_eq!(ex3.export_keyshare(), Err(SessionError::NotReady));
}

#[test]
fn import_aux_info_accepts_json_and_legacy_base64() {
    let aux = b"{\"p\":[1,2]}".to_vec();
    let mut ex = session(0);
    ex.import_aux_info(aux.clone()).expect("json");
    assert_eq!(ex.export_aux_info().unwrap(), aux);

    let legacy = base64::engine::general_purpose::STANDARD.encode(&aux).into_bytes();
    let mut ex2 = session(0);
    ex2.import_aux_info(legacy).expect("legacy");
    assert_eq!(ex2.export_aux_info().unwrap(), aux);

    let mut ex3 = session(0);
    assert_eq!(ex3.import_aux_info(b"{broken".to_vec()), Err(SessionError::Serialization));
    assert_eq!(ex3.import_aux_info(b"???".to_vec()), Err(SessionError::Serialization));
}

#[test]
fn set_signers_parses_json_list() {
    let mut ex = session(0);
    ex.set_signers("[0,2,3]".to_string()).expect("valid");
    assert_eq!(ex.set_signers("nope".to_string()), Err(SessionError::InvalidArgument));
    assert_eq!(ex.set_signers("[1,\"x\"]".to_string()), Err(SessionError::InvalidArgument));
}

#[test]
fn start_signing_guards_its_preconditions() {
    let mut ex = session(0);
    // No combined key share yet.
    assert_eq!(
        ex.start_signing("00".repeat(32), idle_engine()),
        Err(SessionError::InvalidArgument)
    );
    ex.import_keyshare(encode_combined(&b"c".to_vec(), &b"a".to_vec())).unwrap();
    // Malformed hex.
    assert_eq!(
        ex.start_signing("zz".to_string(), idle_engine()),
        Err(SessionError::InvalidArgument)
    );
    // Local party outside the explicit subset.
    ex.set_signers("[1,2]".to_string()).unwrap();
    assert_eq!(
        ex.start_signing("00".repeat(32), idle_engine()),
        Err(SessionError::InvalidArgument)
    );
    // Default subset [0, threshold) contains party 0.
    ex.set_signers("[0,2,3]".to_string()).unwrap();
    ex.start_signing("0a0b".to_string(), idle_engine()).expect("starts");
    let snap = ex.snapshot();
    assert_eq!(snap.phase, Some(Phase::Signing));
    assert_eq!(snap.status, Status::Running);
}

#[test]
fn signing_plan_reports_subset_and_digest() {
    let mut ex = session(2);
    ex.import_keyshare(encode_combined(&b"c".to_vec(), &b"a".to_vec())).unwrap();
    ex.set_signers("[0,2,3]".to_string()).unwrap();
    let plan = ex.signing_plan(&"11".repeat(32)).expect("plan");
    assert_eq!(plan.signers, vec![0, 2, 3]);
    assert_eq!(plan.signer_local_index, 1);
    assert!(plan.prehashed);
    assert_eq!(plan.tx, vec![0x11; 32]);
    assert_eq!(plan.seed.len(), 32);
    let short = ex.signing_plan("0a0b").expect("short message");
    assert!(!short.prehashed);
}

#[test]
fn signing_drops_out_of_subset_senders_and_remaps() {
    let mut ex = session(2);
    ex.import_keyshare(encode_combined(&b"c".to_vec(), &b"a".to_vec())).unwrap();
    ex.set_signers("[0,2,3]".to_string()).unwrap();
    ex.start_signing("0a".to_string(), idle_engine()).expect("start");
    let from_outsider = frame_buffer(1, true, &[7]);
    let from_member = frame_buffer(2, true, &[8]);
    ex.step(vec![from_outsider, from_member]).expect("step");
    match &ex.state {
        PhaseState::Active { engine, .. } => {
            let got = engine.received_messages();
            assert_eq!(got.len(), 1);
            assert_eq!(got[0].sender, 1, "global index 2 is signer-local index 1");
            assert_eq!(got[0].payload, vec![8]);
        },
        PhaseState::Idle => panic!("signing should still be active"),
    }
}

#[test]
fn rejected_message_is_a_hard_error_and_phase_stays() {
    let mut ex = session(0);
    ex.start_keygen(idle_engine()).unwrap();
    let poison = frame_buffer(1, true, &[255, 1]);
    assert!(matches!(ex.step(vec![poison]), Err(SessionError::ProtocolRejected)));
    assert!(matches!(ex.state, PhaseState::Active { .. }));
}

#[test]
fn malformed_payload_is_dropped_at_feed_time() {
    let mut ex = session(0);
    ex.start_keygen(idle_engine()).unwrap();
    let empty_payload = frame_buffer(1, true, &[]);
    let fine = frame_buffer(1, true, &[5]);
    ex.step(vec![empty_payload, fine]).expect("no error");
    assert_eq!(received_payloads(&ex), vec![vec![5]]);
    assert_eq!(ex.snapshot().processed, 1, "engine-discarded noise is not counted as progress");
}

#[test]
fn engine_fault_and_inner_failure_differ() {
    let mut ex = session(0);
    ex.start_keygen(ScriptedEngine::new(vec![EngineSignal::Fault("boom".to_string())])).unwrap();
    assert!(matches!(ex.step(Vec::new()), Err(SessionError::ProtocolFault)));
    assert!(matches!(ex.state, PhaseState::Active { .. }), "fault leaves the phase in place");

    let mut ex2 = session(0);
    ex2.start_keygen(ScriptedEngine::new(vec![EngineSignal::Finished(
        cggmp_session::engine::PhaseOutcome::Failure("inner".to_string()),
    )]))
        .unwrap();
    assert!(matches!(ex2.step(Vec::new()), Err(SessionError::ProtocolFailure)));
    assert!(matches!(ex2.state, PhaseState::Idle), "inner failure ends the phase");
}

#[test]
fn three_party_scenario_with_replay_engines() {
    // Three parties run a keygen-shaped exchange: each sends one broadcast,
    // finishes after hearing from the two others, then aux-gen likewise; the
    // shares combine; parties 0 and 2 run a signing-shaped exchange.
    let mut parties: Vec<CggmpExecutor<ScriptedEngine>> = (0..3u16).map(session).collect();
    let core = |i: u16| format!("core{}", i).into_bytes();
    let aux = |i: u16| format!("{{\"aux\":{}}}", i).into_bytes();

    // Keygen round: every party broadcasts once.
    let mut wires: Vec<Vec<Vec<u8>>> = Vec::new();
    for (i, p) in parties.iter_mut().enumerate() {
        let engine = finishing_engine(
            vec![send(None, format!("k{}", i).as_bytes(), "Round 1 (Commitment)")],
            2,
            &core(i as u16),
        );
        p.start_keygen(engine).unwrap();
        let envs = p.step(Vec::new()).expect("emit");
        assert_eq!(envs.len(), 1);
        assert!(envs[0].meta.is_some());
        wires.push(encode_envelopes_bin(&envs).expect("encode"));
    }
    for i in 0..3usize {
        let mut batch = Vec::new();
        for j in 0..3usize {
            if i != j {
                // Transport-level framing: sender header plus the protocol
                // payload carried inside the envelope.
                let env = cggmp_session::envelope::decode_envelope(&wires[j][0]).expect("decode");
                batch.push(frame_buffer(env.from_party as u32, true, &env.payload));
            }
        }
        let envs = parties[i].step(batch).expect("finish keygen");
        assert!(envs.is_empty());
        assert_eq!(parties[i].snapshot().status, Status::KeygenFinished);
    }

    // Aux round, same shape.
    let mut wires: Vec<Vec<Vec<u8>>> = Vec::new();
    for (i, p) in parties.iter_mut().enumerate() {
        let engine = finishing_engine(
            vec![send(None, format!("a{}", i).as_bytes(), "Round 1 (Paillier Gen)")],
            2,
            &aux(i as u16),
        );
        p.start_aux_gen(engine).unwrap();
        wires.push(encode_envelopes_bin(&p.step(Vec::new()).expect("emit")).expect("encode"));
    }
    for i in 0..3usize {
        let mut batch = Vec::new();
        for j in 0..3usize {
            if i != j {
                let env = cggmp_session::envelope::decode_envelope(&wires[j][0]).expect("decode");
                batch.push(frame_buffer(env.from_party as u32, true, &env.payload));
            }
        }
        parties[i].step(batch).expect("finish aux");
        assert_eq!(parties[i].snapshot().status, Status::KeyshareReady);
        assert_eq!(
            parties[i].export_keyshare().unwrap(),
            encode_combined(&core(i as u16), &aux(i as u16))
        );
    }

    // Signing round with subset [0, 2]: each signer broadcasts one partial
    // signature and finishes with the same signature bytes after hearing the
    // other.
    let digest = "ab".repeat(32);
    let signature = b"sig-over-ab".to_vec();
    let mut wires: Vec<Vec<Vec<u8>>> = Vec::new();
    for &i in &[0usize, 2usize] {
        parties[i].set_signers("[0,2]".to_string()).unwrap();
        let engine = finishing_engine(
            vec![send(None, format!("p{}", i).as_bytes(), "Round 1 (Partial Sign)")],
            1,
            &signature,
        );
        parties[i].start_signing(digest.clone(), engine).expect("start signing");
        let envs = parties[i].step(Vec::new()).expect("emit partial");
        assert_eq!(envs.len(), 1);
        assert_eq!(envs[0].phase, Phase::Signing);
        assert_eq!(envs[0].tx_context, vec![0xab; 32]);
        wires.push(encode_envelopes_bin(&envs).expect("encode"));
    }
    let pairs = [(0usize, 1usize), (2usize, 0usize)];
    for &(i, w) in &pairs {
        let env = cggmp_session::envelope::decode_envelope(&wires[w][0]).expect("decode");
        let batch = vec![frame_buffer(env.from_party as u32, true, &env.payload)];
        let envs = parties[i].step(batch).expect("finish signing");
        // The final envelope broadcasts the signature.
        assert_eq!(envs.len(), 1);
        assert_eq!(envs[0].payload, signature);
        assert_eq!(parties[i].snapshot().status, Status::SigningFinished);
        assert_eq!(parties[i].snapshot().signature, Some(signature.clone()));
    }
    assert_eq!(parties[0].snapshot().signature, parties[2].snapshot().signature);
}

#[test]
fn aux_gen_with_primes_rejects_empty_buffer() {
    let mut ex = session(0);
    assert!(matches!(
        ex.start_aux_gen_with_primes(idle_engine(), Vec::new()),
        Err(SessionError::InvalidArgument)
    ));
    ex.start_aux_gen_with_primes(idle_engine(), vec![1, 2, 3]).expect("starts");
    assert_eq!(ex.snapshot().phase, Some(Phase::AuxInfo));
    assert_eq!(ex.snapshot().status, Status::Running);
}

#[test]
fn exported_share_imports_back_unchanged() {
    let mut ex = session(0);
    ex.start_keygen(finishing_engine(Vec::new(), 0, b"core")).unwrap();
    ex.step(Vec::new()).unwrap();
    ex.start_aux_gen(finishing_engine(Vec::new(), 0, b"{\"a\":0}")).unwrap();
    ex.step(Vec::new()).unwrap();
    let exported = ex.export_keyshare().expect("ready");
    let mut other = session(1);
    other.import_keyshare(exported.clone()).expect("round trip");
    assert_eq!(other.export_keyshare().unwrap(), exported);
}
