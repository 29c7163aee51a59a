use cggmp_session::envelope::{decode_envelope, encode_envelope, Envelope, Meta, Phase};
use cggmp_session::hexstr::{hex_decode, hex_encode};
use cggmp_session::router::{route_batch, IncomingMsg};
use cggmp_session::seed::derive_execution_seed;
use cggmp_session::shares::{encode_combined, parse_combined};
use cggmp_session::signing::{decode_signing_msg, encode_signing_msg, outgoing_to_envelopes};
use sha2::Digest;

fn raw_buffer(sender: u32, broadcast: bool, payload: &[u8]) -> Vec<u8> {
    let mut b = sender.to_le_bytes().to_vec();
    b.push(if broadcast { 1 } else { 0 });
    b.extend_from_slice(payload);
    b
}

#[test]
fn seed_is_deterministic_across_instances() {
    let a = derive_execution_seed("s1", "e1", "keygen");
    let b = derive_execution_seed("s1", "e1", "keygen");
    assert_eq!(a, b);
    assert_eq!(a.len(), 32);
    let c = derive_execution_seed("s1", "e1", "signing");
    assert_ne!(a, c);
}

#[test]
fn seed_matches_direct_hash_of_preimage() {
    let seed = derive_execution_seed("s1", "e1", "keygen");
    let expected = sha2::Sha256::digest(b"s1:e1:keygen").to_vec();
    assert_eq!(seed, expected);
}

#[test]
fn hex_round_trip_and_errors() {
    let bytes = vec![0u8, 15, 16, 255, 171];
    let text = hex_encode(&bytes);
    assert_eq!(text, b"000f10ffab".to_vec());
    assert_eq!(hex_decode(&text).unwrap(), bytes);
    assert_eq!(hex_decode(b"00FF").unwrap(), vec![0u8, 255]);
    assert!(hex_decode(b"0").is_none());
    assert!(hex_decode(b"0g").is_none());
}

#[test]
fn envelope_codec_round_trip_with_meta() {
    let env = Envelope {
        version: 1,
        session_id: b"s1".to_vec(),
        execution_id: b"e1".to_vec(),
        phase: Phase::Signing,
        from_party: 2,
        to_parties: vec![0, 3],
        meta: Some(Meta {
            curve: 0,
            threshold: 2,
            parties_count: 3,
            party_index: 2,
            tx_context: vec![9, 9],
            retry: 0,
            payload_format: b"bincode".to_vec(),
            key_id: Vec::new(),
        }),
        payload: vec![1, 2, 3],
        tx_context: vec![9, 9],
    };
    let wire = encode_envelope(&env);
    let back = decode_envelope(&wire).expect("decode");
    assert_eq!(back.version, 1);
    assert_eq!(back.session_id, b"s1".to_vec());
    assert_eq!(back.execution_id, b"e1".to_vec());
    assert_eq!(back.phase, Phase::Signing);
    assert_eq!(back.from_party, 2);
    assert_eq!(back.to_parties, vec![0, 3]);
    assert_eq!(back.payload, vec![1, 2, 3]);
    assert_eq!(back.tx_context, vec![9, 9]);
    let meta = back.meta.expect("meta");
    assert_eq!(meta.threshold, 2);
    assert_eq!(meta.parties_count, 3);
    assert_eq!(meta.party_index, 2);
    assert_eq!(meta.payload_format, b"bincode".to_vec());
    assert_eq!(meta.retry, 0);
}

#[test]
fn envelope_codec_round_trip_broadcast_no_meta() {
    let env = Envelope {
        version: 1,
        session_id: b"sess".to_vec(),
        execution_id: b"exec".to_vec(),
        phase: Phase::Keygen,
        from_party: 0,
        to_parties: Vec::new(),
        meta: None,
        payload: vec![42; 100],
        tx_context: Vec::new(),
    };
    let wire = encode_envelope(&env);
    let back = decode_envelope(&wire).expect("decode");
    assert_eq!(back.phase, Phase::Keygen);
    assert!(back.meta.is_none());
    assert!(back.to_parties.is_empty());
    assert_eq!(back.payload, vec![42; 100]);
}

#[test]
fn envelope_decode_rejects_truncated_and_garbage() {
    let env = Envelope {
        version: 1,
        session_id: b"s".to_vec(),
        execution_id: b"e".to_vec(),
        phase: Phase::AuxInfo,
        from_party: 1,
        to_parties: vec![2],
        meta: None,
        payload: vec![7],
        tx_context: Vec::new(),
    };
    let wire = encode_envelope(&env);
    for cut in 0..wire.len() {
        assert!(decode_envelope(&wire[..cut]).is_none());
    }
    assert!(decode_envelope(&[]).is_none());
    assert!(decode_envelope(&[2, 0, 0, 0, 0]).is_none());
}

#[test]
fn router_drops_short_buffers() {
    let batch = vec![Vec::new(), vec![1], vec![1, 2, 3, 4]];
    let routed = route_batch(&batch, None);
    assert!(routed.is_empty());
}

#[test]
fn router_keeps_batch_order_and_parses_header() {
    let batch = vec![
        raw_buffer(7, true, &[10]),
        vec![0, 1, 2],
        raw_buffer(1, false, &[20, 21]),
    ];
    let routed = route_batch(&batch, None);
    assert_eq!(routed.len(), 2);
    assert_eq!(routed[0].sender, 7);
    assert!(routed[0].broadcast);
    assert_eq!(routed[0].payload, vec![10]);
    assert_eq!(routed[1].sender, 1);
    assert!(!routed[1].broadcast);
    assert_eq!(routed[1].payload, vec![20, 21]);
}

#[test]
fn router_remaps_signing_senders_into_subset() {
    let signers: Vec<u16> = vec![0, 2, 3];
    let batch = vec![
        raw_buffer(1, true, &[10]),
        raw_buffer(2, true, &[11]),
        raw_buffer(0, false, &[12]),
        raw_buffer(3, true, &[13]),
    ];
    let routed = route_batch(&batch, Some(&signers));
    assert_eq!(routed.len(), 3);
    assert_eq!(routed[0].sender, 1);
    assert_eq!(routed[0].payload, vec![11]);
    assert_eq!(routed[1].sender, 0);
    assert_eq!(routed[1].payload, vec![12]);
    assert_eq!(routed[2].sender, 2);
    assert_eq!(routed[2].payload, vec![13]);
}

#[test]
fn combined_share_text_round_trips() {
    let core = vec![1u8, 2, 3];
    let aux = vec![255u8, 0];
    let text = encode_combined(&core, &aux);
    assert_eq!(text, b"010203:ff00".to_vec());
    let (c, a) = parse_combined(&text).expect("parse");
    assert_eq!(c, core);
    assert_eq!(a, aux);
    assert!(parse_combined(b"010203").is_none());
    assert!(parse_combined(b"01020:3ff00").is_none());
    assert!(parse_combined(b"01FF:00").is_none());
}

#[test]
fn signing_msg_json_wrappers() {
    let v = decode_signing_msg(b"{\"round\":1}").expect("valid json");
    let bytes = encode_signing_msg(&v).expect("encode");
    let expected: serde_json::Value = serde_json::from_slice(b"{\"round\":1}").unwrap();
    assert_eq!(serde_json::from_slice::<serde_json::Value>(&bytes).unwrap(), expected);
    assert!(decode_signing_msg(b"{oops").is_err());
    assert!(decode_signing_msg(b"").is_err());
}

#[test]
fn outgoing_batch_becomes_signing_envelopes_with_meta() {
    let msgs = vec![(None, vec![1u8, 2]), (Some(4u16), vec![3u8])];
    let envs = outgoing_to_envelopes(msgs, "s1", "e1", 2, 3, 1, vec![8, 8]).expect("ok");
    assert_eq!(envs.len(), 2);
    assert_eq!(envs[0].phase, Phase::Signing);
    assert!(envs[0].to_parties.is_empty());
    assert_eq!(envs[0].payload, vec![1, 2]);
    assert_eq!(envs[0].tx_context, vec![8, 8]);
    assert!(envs[0].meta.is_some());
    assert_eq!(envs[0].meta.as_ref().unwrap().threshold, 2);
    assert_eq!(envs[1].to_parties, vec![4]);
    assert!(envs[1].meta.is_none(), "meta only on the first envelope of the batch");
}

#[test]
fn incoming_msg_fields_are_plain() {
    let m = IncomingMsg { sender: 3, broadcast: true, payload: vec![1] };
    assert_eq!(m.sender, 3);
}

#[test]
fn sender_index_is_low_sixteen_bits_of_le_word() {
    let batch = vec![raw_buffer(65536 + 5, true, &[1])];
    let routed = route_batch(&batch, None);
    assert_eq!(routed.len(), 1);
    assert_eq!(routed[0].sender, 5);
}

#[test]
fn hex_decode_accepts_upper_case() {
    assert_eq!(hex_decode(b"AbCd").unwrap(), vec![0xab, 0xcd]);
}
