use vstd::prelude::*;
use vstd::string::{StrSliceExecFns, StringExecFns, StringSliceAdditionalSpecFns};
use vstd::utf8::encode_utf8;
use crate::driver::{drive, is_ctx_envelope, make_envelope, CtxModel, DriveOutcome, PhaseContext};
use crate::engine::{Engine, PhaseOutcome};
use crate::envelope::{max_field_len, Envelope, Phase};
use crate::errors::SessionError;
use crate::hexstr::{hex_decode, hex_decode_spec, is_hex_string};
use crate::router::{buf_views, first_index_of, msg_models, route_batch, route_spec, IncomingModel, IncomingMsg};
use crate::seed::{derive_execution_seed, seed_preimage, sha256_of};
use crate::shares::{b64_decode, base64_decoding, combined_encoding, encode_combined, is_combined,
    parse_combined};
use crate::signing::{decode_signing_msg, json_accepts};

verus! {

/// Largest number of engine signals one `step` call will process; an engine
/// that exceeds it is treated as broken.
pub const DRIVE_BUDGET: usize = 65536;

/// Coarse lifecycle state reported in snapshots.
#[derive(Clone, Copy, Debug, PartialEq, Eq, Structural)]
pub enum Status {
    Init,
    Running,
    Idle,
    KeygenRunning,
    AuxGenRunning,
    SigningRunning,
    KeygenFinished,
    AuxGenFinished,
    SigningFinished,
    KeyshareReady,
}

/// The active phase of a session, if any: its context, its engine, and its
/// pending queue. A signing phase additionally carries its signer subset.
pub enum PhaseState<E> {
    Idle,
    Active { ctx: PhaseContext, engine: E, pending: Vec<IncomingMsg>, signers: Option<Vec<u16>> },
}

/// UTF-8 bytes of the name under which a phase's execution identity is
/// derived.
pub open spec fn phase_name(p: Phase) -> Seq<char> {
    match p {
        Phase::Keygen => "keygen"@,
        Phase::AuxInfo => "aux_gen"@,
        Phase::Signing => "signing"@,
    }
}

/// The default signer subset: the first `threshold` global indices.
pub open spec fn default_signers(threshold: u16) -> Seq<u16> {
    Seq::new(threshold as nat, |i: int| i as u16)
}

/// View of an optional byte store.
pub open spec fn ov(o: Option<Vec<u8>>) -> Option<Seq<u8>> {
    match o {
        Some(v) => Some(v@),
        None => None,
    }
}

/// One key-share combination attempt: when both the core share and the
/// auxiliary info are present, the combined share is (re)derived from them;
/// otherwise whatever combined share was there stays.
pub open spec fn combine_step(
    core: Option<Seq<u8>>,
    aux: Option<Seq<u8>>,
    ks: Option<Seq<u8>>,
) -> Option<Seq<u8>> {
    match (core, aux) {
        (Some(c), Some(a)) => Some(combined_encoding(c, a)),
        _ => ks,
    }
}

/// The processed counter after one step: grown (saturating) by the messages
/// that were routed into the pending queue, shrunk by the consumed messages
/// the engine discarded as malformed noise — dropped noise is never counted
/// as progress.
pub open spec fn counted_progress(before: usize, routed: nat, malformed: int) -> int {
    let grown: int = if before + routed <= usize::MAX {
        before + routed
    } else {
        usize::MAX as int
    };
    if malformed <= grown {
        grown - malformed
    } else {
        0
    }
}

/// The status a suspended phase reports.
pub open spec fn running_status(p: Phase) -> Status {
    match p {
        Phase::Keygen => Status::KeygenRunning,
        Phase::AuxInfo => Status::AuxGenRunning,
        Phase::Signing => Status::SigningRunning,
    }
}

/// Whether a status survives the end-of-step relabelling.
pub open spec fn is_terminal_status(s: Status) -> bool {
    s == Status::KeygenFinished || s == Status::AuxGenFinished || s == Status::SigningFinished
        || s == Status::KeyshareReady
}

/// The session executor: owns the in-memory lifecycle of one protocol
/// session for one local party. It sequences the phases, routes raw input
/// into the pending queue, pumps the active engine, wraps outbound messages
/// into envelopes, and combines phase outputs into a usable key share.
pub struct CggmpExecutor<E> {
    pub session_id: String,
    pub execution_id: String,
    pub party_index: u16,
    pub threshold: u16,
    pub parties_count: u16,
    /// Explicit signer subset for signing phases, if one was set.
    pub signers_at_keygen: Option<Vec<u16>>,
    pub state: PhaseState<E>,
    pub core_keyshare: Option<Vec<u8>>,
    pub aux_info: Option<Vec<u8>>,
    pub keyshare: Option<Vec<u8>>,
    pub processed: usize,
    pub phase: Option<Phase>,
    pub round: u32,
    pub errors: Vec<String>,
    pub last_round: Option<Phase>,
    pub internal_round: String,
    pub status: Status,
    pub last_signature: Option<Vec<u8>>,
    pub meta_sent: bool,
}

impl<E> CggmpExecutor<E> {
    /// Whether a phase is active.
    pub open spec fn is_active(self) -> bool {
        self.state matches PhaseState::Active { .. }
    }

    /// UTF-8 bytes of the session identifier.
    pub open spec fn sid_bytes(self) -> Seq<u8> {
        encode_utf8(self.session_id@)
    }

    /// UTF-8 bytes of the execution identifier.
    pub open spec fn eid_bytes(self) -> Seq<u8> {
        encode_utf8(self.execution_id@)
    }

    /// Internal invariant: identifiers are non-empty and within wire bounds,
    /// the errors list stays empty, and an active phase's context matches the
    /// session and carries a signer subset exactly when it is a signing
    /// phase.
    pub open spec fn wf(self) -> bool {
        &&& 0 < self.sid_bytes().len() < max_field_len()
        &&& 0 < self.eid_bytes().len() < max_field_len()
        &&& self.errors@.len() == 0
        &&& (self.state matches PhaseState::Active { ctx, signers, .. } ==> {
            &&& crate::driver::ctx_wf(ctx@)
            &&& ctx@.session_id == self.sid_bytes()
            &&& ctx@.execution_id == self.eid_bytes()
            &&& ctx@.party_index == self.party_index
            &&& ctx@.threshold == self.threshold
            &&& ctx@.parties_count == self.parties_count
            &&& ((ctx@.phase is Signing) <==> (signers is Some))
            &&& (signers matches Some(ss) ==> ss@.len() < 65536)
            &&& (!(ctx@.phase is Signing) ==> ctx@.tx_context.len() == 0)
        })
        &&& (self.signers_at_keygen matches Some(ss) ==> ss@.len() < 65536)
        &&& (self.keyshare matches Some(k) ==> is_combined(k@))
    }

    /// Context model of the active phase.
    pub open spec fn active_ctx(self) -> Option<CtxModel> {
        match self.state {
            PhaseState::Active { ctx, .. } => Some(ctx@),
            PhaseState::Idle => None,
        }
    }

    /// Pending queue of the active phase.
    pub open spec fn active_pending(self) -> Seq<crate::router::IncomingModel> {
        match self.state {
            PhaseState::Active { pending, .. } => msg_models(pending@),
            PhaseState::Idle => Seq::empty(),
        }
    }

    /// Signer subset of the active phase.
    pub open spec fn active_signers(self) -> Option<Seq<u16>> {
        match self.state {
            PhaseState::Active { signers: Some(ss), .. } => Some(ss@),
            _ => None,
        }
    }
}

impl<E: Engine> CggmpExecutor<E> {
    /// Creates a session bound to `(session_id, execution_id)` for the local
    /// party `party_index` of `parties_count` parties with the given
    /// threshold. The identifiers must be non-empty (and fit the wire
    /// format's bounds); nothing else is validated here.
    pub fn new(
        session_id: String,
        execution_id: String,
        party_index: u16,
        threshold: u16,
        parties_count: u16,
    ) -> (r: Result<CggmpExecutor<E>, SessionError>)
        ensures
            r is Ok <==> {
                &&& 0 < encode_utf8(session_id@).len() < max_field_len()
                &&& 0 < encode_utf8(execution_id@).len() < max_field_len()
            },
            r matches Err(e) ==> e == SessionError::InvalidArgument,
            r matches Ok(ex) ==> {
                &&& ex.wf()
                &&& ex.session_id@ == session_id@
                &&& ex.execution_id@ == execution_id@
                &&& ex.party_index == party_index
                &&& ex.threshold == threshold
                &&& ex.parties_count == parties_count
                &&& ex.signers_at_keygen is None
                &&& !ex.is_active()
                &&& ex.core_keyshare is None
                &&& ex.aux_info is None
                &&& ex.keyshare is None
                &&& ex.processed == 0
                &&& ex.phase is None
                &&& ex.round == 0
                &&& ex.errors@.len() == 0
                &&& ex.last_round is None
                &&& ex.internal_round@ == "Init"@
                &&& ex.status == Status::Init
                &&& ex.last_signature is None
                &&& ex.meta_sent == false
            },
    {
        let sid_len = session_id.as_str().as_bytes_vec().len();
        let eid_len = execution_id.as_str().as_bytes_vec().len();
        if sid_len == 0 || eid_len == 0 {
            return Err(SessionError::InvalidArgument);
        }
        if sid_len as u64 >= 4294967296u64 || eid_len as u64 >= 4294967296u64 {
            return Err(SessionError::InvalidArgument);
        }
        Ok(
            CggmpExecutor {
                session_id,
                execution_id,
                party_index,
                threshold,
                parties_count,
                signers_at_keygen: None,
                state: PhaseState::Idle,
                core_keyshare: None,
                aux_info: None,
                keyshare: None,
                processed: 0,
                phase: None,
                round: 0,
                errors: Vec::new(),
                last_round: None,
                internal_round: String::from_str("Init"),
                status: Status::Init,
                last_signature: None,
                meta_sent: false,
            },
        )
    }

    /// The deterministic 32-byte execution identity of one phase of this
    /// session, bit-identical across parties and repeated calls.
    pub fn execution_seed(&self, phase: Phase) -> (r: Vec<u8>)
        ensures
            r@ == sha256_of(seed_preimage(self.sid_bytes(), self.eid_bytes(), encode_utf8(phase_name(phase)))),
            r@.len() == 32,
    {
        let name: &str = match phase {
            Phase::Keygen => "keygen",
            Phase::AuxInfo => "aux_gen",
            Phase::Signing => "signing",
        };
        derive_execution_seed(self.session_id.as_str(), self.execution_id.as_str(), name)
    }

    /// Replaces any running phase by a fresh one: empty pending queue, clear
    /// meta-sent flag, phase bookkeeping reset.
    fn activate(
        &mut self,
        engine: E,
        phase: Phase,
        tx_context: Vec<u8>,
        signers: Option<Vec<u16>>,
        label: &str,
        round: u32,
    )
        requires
            old(self).wf(),
            (phase is Signing) <==> (signers is Some),
            signers matches Some(ss) ==> ss@.len() < 65536,
            !(phase is Signing) ==> tx_context@.len() == 0,
            tx_context@.len() < max_field_len(),
        ensures
            final(self).wf(),
            final(self).state matches PhaseState::Active { ctx, pending, signers: sg, .. } && {
                &&& ctx@.phase == phase
                &&& ctx@.tx_context == tx_context@
                &&& pending@.len() == 0
                &&& (match (sg, signers) {
                    (Some(a), Some(b)) => a@ == b@,
                    (None, None) => true,
                    _ => false,
                })
            },
            final(self).session_id@ == old(self).session_id@,
            final(self).execution_id@ == old(self).execution_id@,
            final(self).party_index == old(self).party_index,
            final(self).threshold == old(self).threshold,
            final(self).parties_count == old(self).parties_count,
            final(self).signers_at_keygen == old(self).signers_at_keygen,
            final(self).core_keyshare == old(self).core_keyshare,
            final(self).aux_info == old(self).aux_info,
            final(self).keyshare == old(self).keyshare,
            final(self).processed == old(self).processed,
            final(self).errors@ == old(self).errors@,
            final(self).last_signature == old(self).last_signature,
            final(self).phase == Some(phase),
            final(self).last_round == Some(phase),
            final(self).round == round,
            final(self).status == Status::Running,
            final(self).internal_round@ == label@,
            final(self).meta_sent == false,
    {
        let ctx = PhaseContext {
            session_id: self.session_id.as_str().as_bytes_vec(),
            execution_id: self.execution_id.as_str().as_bytes_vec(),
            phase,
            party_index: self.party_index,
            threshold: self.threshold,
            parties_count: self.parties_count,
            tx_context,
        };
        self.state = PhaseState::Active { ctx, engine, pending: Vec::new(), signers };
        self.phase = Some(phase);
        self.last_round = Some(phase);
        self.round = round;
        self.status = Status::Running;
        self.internal_round = String::from_str(label);
        self.meta_sent = false;
    }

    /// Starts a key-generation phase on the given engine, replacing any
    /// running phase and resetting the meta-sent flag.
    pub fn start_keygen(&mut self, engine: E) -> (r: Result<(), SessionError>)
        requires
            old(self).wf(),
        ensures
            final(self).wf(),
            r is Ok,
            final(self).active_ctx() matches Some(c) && c.phase == Phase::Keygen
                && c.tx_context.len() == 0,
            final(self).active_pending() == Seq::<crate::router::IncomingModel>::empty(),
            final(self).active_signers() is None,
            final(self).meta_sent == false,
            final(self).status == Status::Running,
            final(self).phase == Some(Phase::Keygen),
            final(self).last_round == Some(Phase::Keygen),
            final(self).round == 1,
            final(self).internal_round@ == "Round 1 (Commitment)"@,
            final(self).core_keyshare == old(self).core_keyshare,
            final(self).aux_info == old(self).aux_info,
            final(self).keyshare == old(self).keyshare,
            final(self).processed == old(self).processed,
            final(self).session_id@ == old(self).session_id@,
            final(self).execution_id@ == old(self).execution_id@,
            final(self).signers_at_keygen == old(self).signers_at_keygen,
    {
        self.activate(engine, Phase::Keygen, Vec::new(), None, "Round 1 (Commitment)", 1);
        Ok(())
    }

    /// Starts an auxiliary-info generation phase on the given engine,
    /// replacing any running phase and resetting the meta-sent flag.
    pub fn start_aux_gen(&mut self, engine: E) -> (r: Result<(), SessionError>)
        requires
            old(self).wf(),
        ensures
            final(self).wf(),
            r is Ok,
            final(self).active_ctx() matches Some(c) && c.phase == Phase::AuxInfo
                && c.tx_context.len() == 0,
            final(self).active_pending() == Seq::<crate::router::IncomingModel>::empty(),
            final(self).active_signers() is None,
            final(self).meta_sent == false,
            final(self).status == Status::Running,
            final(self).phase == Some(Phase::AuxInfo),
            final(self).last_round == Some(Phase::AuxInfo),
            final(self).round == 2,
            final(self).internal_round@ == "Round 1 (Paillier Gen)"@,
            final(self).core_keyshare == old(self).core_keyshare,
            final(self).aux_info == old(self).aux_info,
            final(self).keyshare == old(self).keyshare,
            final(self).processed == old(self).processed,
            final(self).session_id@ == old(self).session_id@,
            final(self).execution_id@ == old(self).execution_id@,
            final(self).signers_at_keygen == old(self).signers_at_keygen,
    {
        self.activate(engine, Phase::AuxInfo, Vec::new(), None, "Round 1 (Paillier Gen)", 2);
        Ok(())
    }

    /// Starts an auxiliary-info generation phase on an engine built over a
    /// caller-supplied buffer of pregenerated primes. An empty buffer is
    /// rejected; deserializing the primes themselves is the engine builder's
    /// concern, since their format belongs to the protocol crate.
    pub fn start_aux_gen_with_primes(&mut self, engine: E, primes_buf: Vec<u8>) -> (r: Result<
        (),
        SessionError,
    >)
        requires
            old(self).wf(),
        ensures
            final(self).wf(),
            r is Ok <==> primes_buf@.len() > 0,
            r matches Err(e) ==> e == SessionError::InvalidArgument && *final(self) == *old(self),
            r is Ok ==> {
                &&& final(self).active_ctx() matches Some(c) && c.phase == Phase::AuxInfo
                    && c.tx_context.len() == 0
                &&& final(self).active_pending() == Seq::<crate::router::IncomingModel>::empty()
                &&& final(self).active_signers() is None
                &&& final(self).meta_sent == false
                &&& final(self).status == Status::Running
                &&& final(self).phase == Some(Phase::AuxInfo)
                &&& final(self).round == 2
                &&& final(self).internal_round@ == "Round 1 (Paillier Gen)"@
                &&& final(self).core_keyshare == old(self).core_keyshare
                &&& final(self).aux_info == old(self).aux_info
                &&& final(self).keyshare == old(self).keyshare
            },
    {
        if primes_buf.len() == 0 {
            return Err(SessionError::InvalidArgument);
        }
        self.activate(engine, Phase::AuxInfo, Vec::new(), None, "Round 1 (Paillier Gen)", 2);
        Ok(())
    }

    /// Sets the explicit signer subset for subsequent signing phases, given
    /// as a JSON list of global party indices.
    pub fn set_signers(&mut self, json: String) -> (r: Result<(), SessionError>)
        requires
            old(self).wf(),
        ensures
            final(self).wf(),
            (match crate::signerlist::json_u16_list(json@) {
                Some(v) => {
                    if v.len() < 65536 {
                        r is Ok && (final(self).signers_at_keygen matches Some(ss) && ss@ == v)
                    } else {
                        r == Err::<(), SessionError>(SessionError::InvalidArgument) && *final(self)
                            == *old(self)
                    }
                },
                None => r == Err::<(), SessionError>(SessionError::InvalidArgument)
                    && *final(self) == *old(self),
            }),
            r is Ok ==> {
                &&& final(self).state == old(self).state
                &&& final(self).core_keyshare == old(self).core_keyshare
                &&& final(self).aux_info == old(self).aux_info
                &&& final(self).keyshare == old(self).keyshare
                &&& final(self).status == old(self).status
            },
    {
        match crate::signerlist::parse_u16_list(json.as_str()) {
            Some(v) => {
                if v.len() < 65536 {
                    self.signers_at_keygen = Some(v);
                    Ok(())
                } else {
                    Err(SessionError::InvalidArgument)
                }
            },
            None => Err(SessionError::InvalidArgument),
        }
    }

    /// Serializes the combined key share; fails while it is absent.
    pub fn export_keyshare(&self) -> (r: Result<Vec<u8>, SessionError>)
        ensures
            (match self.keyshare {
                Some(k) => r matches Ok(v) && v@ == k@,
                None => r == Err::<Vec<u8>, SessionError>(SessionError::NotReady),
            }),
    {
        match &self.keyshare {
            Some(k) => Ok(crate::driver::copy_bytes(k)),
            None => Err(SessionError::NotReady),
        }
    }

    /// Serializes the auxiliary info; fails while it is absent. The exported
    /// bytes are exactly the stored ones; they re-import through
    /// [`Self::import_aux_info`] only if they are a JSON document, which
    /// holds for imported auxiliary info but is the caller's obligation for
    /// engine-produced auxiliary info, whose encoding the library cannot
    /// inspect.
    pub fn export_aux_info(&self) -> (r: Result<Vec<u8>, SessionError>)
        ensures
            (match self.aux_info {
                Some(a) => r matches Ok(v) && v@ == a@,
                None => r == Err::<Vec<u8>, SessionError>(SessionError::NotReady),
            }),
    {
        match &self.aux_info {
            Some(a) => Ok(crate::driver::copy_bytes(a)),
            None => Err(SessionError::NotReady),
        }
    }

    /// Binary export of the combined key share; identical to
    /// [`Self::export_keyshare`].
    pub fn export_keyshare_bin(&self) -> (r: Result<Vec<u8>, SessionError>)
        ensures
            (match self.keyshare {
                Some(k) => r matches Ok(v) && v@ == k@,
                None => r == Err::<Vec<u8>, SessionError>(SessionError::NotReady),
            }),
    {
        self.export_keyshare()
    }

    /// Binary export of the auxiliary info; identical to
    /// [`Self::export_aux_info`].
    pub fn export_aux_info_bin(&self) -> (r: Result<Vec<u8>, SessionError>)
        ensures
            (match self.aux_info {
                Some(a) => r matches Ok(v) && v@ == a@,
                None => r == Err::<Vec<u8>, SessionError>(SessionError::NotReady),
            }),
    {
        self.export_aux_info()
    }

    /// Imports a combined key share: the structured text format is primary,
    /// and its base64 wrapping is accepted as a legacy fallback. On success
    /// the canonical form is stored and the session reports the share ready.
    pub fn import_keyshare(&mut self, data: Vec<u8>) -> (r: Result<(), SessionError>)
        requires
            old(self).wf(),
        ensures
            final(self).wf(),
            r is Ok <==> (is_combined(data@) || (base64_decoding(data@) matches Some(d)
                && is_combined(d))),
            r matches Err(e) ==> e == SessionError::Serialization && *final(self) == *old(self),
            r is Ok ==> {
                &&& final(self).keyshare matches Some(k) && (if is_combined(data@) {
                    k@ == data@
                } else {
                    base64_decoding(data@) matches Some(d) && k@ == d
                })
                &&& final(self).status == Status::KeyshareReady
                &&& final(self).core_keyshare == old(self).core_keyshare
                &&& final(self).aux_info == old(self).aux_info
                &&& final(self).state == old(self).state
                &&& final(self).processed == old(self).processed
            },
    {
        match parse_combined(data.as_slice()) {
            Some(_) => {
                self.keyshare = Some(data);
                self.status = Status::KeyshareReady;
                Ok(())
            },
            None => {
                let decoded = match b64_decode(data.as_slice()) {
                    Some(d) => d,
                    None => { return Err(SessionError::Serialization); },
                };
                match parse_combined(decoded.as_slice()) {
                    Some(_) => {
                        self.keyshare = Some(decoded);
                        self.status = Status::KeyshareReady;
                        Ok(())
                    },
                    None => Err(SessionError::Serialization),
                }
            },
        }
    }

    /// Imports auxiliary info: a JSON document is primary, and base64-wrapped
    /// JSON is accepted as a legacy fallback — except that input that already
    /// looks like JSON (a leading brace) gets no fallback. On success a
    /// key-share combination is attempted. Only JSON auxiliary info can be
    /// re-imported after an export: an engine that emits another encoding
    /// produces exportable but not re-importable bytes.
    pub fn import_aux_info(&mut self, data: Vec<u8>) -> (r: Result<(), SessionError>)
        requires
            old(self).wf(),
        ensures
            final(self).wf(),
            r is Ok <==> (json_accepts(data@) || (!(data@.len() > 0 && data@[0] == 123) && (
            base64_decoding(data@) matches Some(d) && json_accepts(d)))),
            r matches Err(e) ==> e == SessionError::Serialization && *final(self) == *old(self),
            r is Ok ==> {
                &&& final(self).aux_info matches Some(a) && (if json_accepts(data@) {
                    a@ == data@
                } else {
                    base64_decoding(data@) matches Some(d) && a@ == d
                })
                &&& final(self).core_keyshare == old(self).core_keyshare
                &&& ov(final(self).keyshare) == combine_step(
                    ov(old(self).core_keyshare),
                    ov(final(self).aux_info),
                    ov(old(self).keyshare),
                )
                &&& (old(self).core_keyshare is None ==> final(self).keyshare == old(self).keyshare)
                &&& (old(self).core_keyshare is Some ==> ov(final(self).keyshare) == (match (
                ov(old(self).core_keyshare), ov(final(self).aux_info)) {
                    (Some(c), Some(a)) => Some(combined_encoding(c, a)),
                    _ => None::<Seq<u8>>,
                }))
                &&& final(self).state == old(self).state
                &&& final(self).processed == old(self).processed
            },
    {
        let looks_json = data.len() > 0 && data[0] == 123;
        let stored: Vec<u8> = match decode_signing_msg(data.as_slice()) {
            Ok(_) => data,
            Err(_) => {
                if looks_json {
                    return Err(SessionError::Serialization);
                }
                let decoded = match b64_decode(data.as_slice()) {
                    Some(d) => d,
                    None => { return Err(SessionError::Serialization); },
                };
                match decode_signing_msg(decoded.as_slice()) {
                    Ok(_) => decoded,
                    Err(_) => { return Err(SessionError::Serialization); },
                }
            },
        };
        self.aux_info = Some(stored);
        self.try_combine_shares();
        Ok(())
    }

    /// Attempts key-share combination: exactly when both the core share and
    /// the auxiliary info are present, the combined share is derived from
    /// them and the session reports it ready; with either part missing, the
    /// combined share stays exactly what it was.
    fn try_combine_shares(&mut self)
        requires
            old(self).wf(),
        ensures
            final(self).wf(),
            (old(self).core_keyshare is None || old(self).aux_info is None)
                ==> final(self).keyshare == old(self).keyshare,
            (old(self).core_keyshare is Some && old(self).aux_info is Some) ==> ov(
                final(self).keyshare,
            ) == (match (ov(old(self).core_keyshare), ov(old(self).aux_info)) {
                (Some(c), Some(a)) => Some(combined_encoding(c, a)),
                _ => None::<Seq<u8>>,
            }),
            ov(final(self).keyshare) == combine_step(
                ov(old(self).core_keyshare),
                ov(old(self).aux_info),
                ov(old(self).keyshare),
            ),
            final(self).core_keyshare == old(self).core_keyshare,
            final(self).aux_info == old(self).aux_info,
            final(self).state == old(self).state,
            final(self).processed == old(self).processed,
            final(self).meta_sent == old(self).meta_sent,
            final(self).session_id@ == old(self).session_id@,
            final(self).execution_id@ == old(self).execution_id@,
            final(self).status == (if old(self).core_keyshare is Some && old(self).aux_info
                is Some {
                Status::KeyshareReady
            } else {
                old(self).status
            }),
            final(self).phase == old(self).phase,
            final(self).round == old(self).round,
            final(self).last_round == old(self).last_round,
            final(self).internal_round@ == old(self).internal_round@,
            final(self).last_signature == old(self).last_signature,
            final(self).signers_at_keygen == old(self).signers_at_keygen,
            final(self).party_index == old(self).party_index,
            final(self).threshold == old(self).threshold,
            final(self).parties_count == old(self).parties_count,
            final(self).errors@ == old(self).errors@,
    {
        match (&self.core_keyshare, &self.aux_info) {
            (Some(core), Some(aux)) => {
                let combined = encode_combined(core, aux);
                proof {
                    assert(is_combined(combined@)) by {
                        assert(combined@ == combined_encoding(core@, aux@));
                    };
                }
                self.keyshare = Some(combined);
                self.status = Status::KeyshareReady;
            },
            _ => {},
        }
    }


    /// The effective signer subset for a signing phase: the explicit one if
    /// set, else the first `threshold` indices.
    pub open spec fn effective_signers(self) -> Seq<u16> {
        match self.signers_at_keygen {
            Some(ss) => ss@,
            None => default_signers(self.threshold),
        }
    }

    fn effective_signers_exec(&self) -> (r: Vec<u16>)
        requires
            self.wf(),
        ensures
            r@ == self.effective_signers(),
            r@.len() < 65536,
    {
        match &self.signers_at_keygen {
            Some(ss) => {
                let mut out: Vec<u16> = Vec::new();
                let mut i: usize = 0;
                while i < ss.len()
                    invariant
                        i <= ss@.len(),
                        out@ == ss@.subrange(0, i as int),
                    decreases ss@.len() - i,
                {
                    let x = ss[i];
                    out.push(x);
                    proof {
                        assert(out@ =~= ss@.subrange(0, i + 1));
                    }
                    i = i + 1;
                }
                proof {
                    assert(out@ =~= ss@);
                }
                out
            },
            None => {
                let mut out: Vec<u16> = Vec::new();
                let mut i: u16 = 0;
                while i < self.threshold
                    invariant
                        i <= self.threshold,
                        out@.len() == i as int,
                        forall|j: int| 0 <= j < i as int ==> out@[j] == j as u16,
                    decreases self.threshold - i,
                {
                    out.push(i);
                    i = i + 1;
                }
                proof {
                    assert(out@ =~= default_signers(self.threshold));
                }
                out
            },
        }
    }

    /// Everything a caller needs to construct a signing engine: the decoded
    /// message bytes (already a digest when 32 bytes long), the effective
    /// signer subset, the local party's signer-local index, and the phase's
    /// execution identity. Fails exactly where [`Self::start_signing`] would:
    /// no combined key share, malformed hex, or a local party outside the
    /// subset.
    pub fn signing_plan(&self, tx_hex: &str) -> (r: Result<SigningPlan, SessionError>)
        requires
            self.wf(),
        ensures
            r is Ok <==> {
                &&& self.keyshare is Some
                &&& tx_hex.spec_bytes().len() < max_field_len()
                &&& is_hex_string(tx_hex.spec_bytes())
                &&& first_index_of(self.effective_signers(), self.party_index) is Some
            },
            r matches Err(e) ==> e == SessionError::InvalidArgument,
            r matches Ok(p) ==> {
                &&& p.tx@ == hex_decode_spec(tx_hex.spec_bytes())
                &&& p.prehashed == (p.tx@.len() == 32)
                &&& p.signers@ == self.effective_signers()
                &&& Some(p.signer_local_index as int) == first_index_of(
                    self.effective_signers(),
                    self.party_index,
                )
                &&& p.seed@ == sha256_of(
                    seed_preimage(self.sid_bytes(), self.eid_bytes(), encode_utf8(phase_name(Phase::Signing))),
                )
            },
    {
        if self.keyshare.is_none() {
            return Err(SessionError::InvalidArgument);
        }
        let txb = tx_hex.as_bytes_vec();
        if txb.len() as u64 >= 4294967296u64 {
            return Err(SessionError::InvalidArgument);
        }
        let tx = match hex_decode(txb.as_slice()) {
            Some(t) => t,
            None => { return Err(SessionError::InvalidArgument); },
        };
        let signers = self.effective_signers_exec();
        let local = match crate::router::position_of(&signers, self.party_index) {
            Some(i) => i,
            None => { return Err(SessionError::InvalidArgument); },
        };
        proof {
            crate::router::lemma_first_index_bounds(signers@, self.party_index);
        }
        let prehashed = tx.len() == 32;
        let seed = self.execution_seed(Phase::Signing);
        Ok(SigningPlan { tx, prehashed, signers, signer_local_index: local, seed })
    }

    /// Starts a signing phase on the given engine for the hex-encoded
    /// message or digest `tx_hex`. It requires a combined key share and a
    /// local party inside the effective signer subset; otherwise nothing
    /// changes and an invalid-argument error is returned. On success the
    /// phase starts fresh: empty pending queue, clear meta-sent flag.
    pub fn start_signing(&mut self, tx_hex: String, engine: E) -> (r: Result<(), SessionError>)
        requires
            old(self).wf(),
        ensures
            final(self).wf(),
            r matches Err(e) ==> e == SessionError::InvalidArgument && *final(self) == *old(self),
            r is Ok <==> {
                &&& old(self).keyshare is Some
                &&& encode_utf8(tx_hex@).len() < max_field_len()
                &&& is_hex_string(encode_utf8(tx_hex@))
                &&& first_index_of(old(self).effective_signers(), old(self).party_index) is Some
            },
            r is Ok ==> {
                &&& final(self).active_ctx() matches Some(c) && c.phase == Phase::Signing
                    && c.tx_context == hex_decode_spec(encode_utf8(tx_hex@))
                &&& final(self).active_signers() matches Some(ss) && ss == old(
                    self,
                ).effective_signers()
                &&& final(self).active_pending() == Seq::<crate::router::IncomingModel>::empty()
                &&& final(self).meta_sent == false
                &&& final(self).status == Status::Running
                &&& final(self).phase == Some(Phase::Signing)
                &&& final(self).last_round == Some(Phase::Signing)
                &&& final(self).round == 3
                &&& final(self).internal_round@ == "Round 1 (Partial Sign)"@
                &&& final(self).core_keyshare == old(self).core_keyshare
                &&& final(self).aux_info == old(self).aux_info
                &&& final(self).keyshare == old(self).keyshare
                &&& final(self).processed == old(self).processed
                &&& final(self).session_id@ == old(self).session_id@
                &&& final(self).execution_id@ == old(self).execution_id@
                &&& final(self).signers_at_keygen == old(self).signers_at_keygen
                &&& final(self).last_signature == old(self).last_signature
            },
    {
        if self.keyshare.is_none() {
            return Err(SessionError::InvalidArgument);
        }
        let txb = tx_hex.as_str().as_bytes_vec();
        if txb.len() as u64 >= 4294967296u64 {
            return Err(SessionError::InvalidArgument);
        }
        let tx = match hex_decode(txb.as_slice()) {
            Some(t) => t,
            None => { return Err(SessionError::InvalidArgument); },
        };
        let signers = self.effective_signers_exec();
        if crate::router::position_of(&signers, self.party_index).is_none() {
            return Err(SessionError::InvalidArgument);
        }
        self.activate(engine, Phase::Signing, tx, Some(signers), "Round 1 (Partial Sign)", 3);
        Ok(())
    }

    /// Feeds a batch of raw inbound buffers to the active phase and pumps
    /// its engine to quiescence, returning the outbound envelopes that were
    /// produced (possibly none).
    ///
    /// Malformed buffers are dropped silently, never an error, and dropped
    /// noise is not counted as progress: the processed counter grows only by
    /// the messages that were routed into the pending queue, and a consumed
    /// message whose body the engine discards as malformed is taken off the
    /// counter again. The routed messages are appended to the pending queue
    /// in batch order and consumed strictly first-in-first-out. Of the returned envelopes, exactly the
    /// first carries the one-time metadata if none had been sent in this
    /// phase yet; none does otherwise. On completion the phase output is
    /// stored (core key share, auxiliary info — each followed by a
    /// combination attempt — or signature, which is also broadcast as a
    /// final envelope) and the phase returns to idle. A rejected message or
    /// an engine fault is a hard error that leaves the phase in place; an
    /// inner protocol failure is a hard error after which the phase is idle.
    /// Input while no phase is active is an invalid-state error.
    #[verifier::rlimit(100)]
    pub fn step(&mut self, inputs: Vec<Vec<u8>>) -> (r: Result<Vec<Envelope>, SessionError>)
        requires
            old(self).wf(),
        ensures
            final(self).wf(),
            !old(self).is_active() ==> final(self).processed == old(self).processed,
            old(self).is_active() ==> exists|malformed: int|
                0 <= malformed <= (old(self).active_pending() + route_spec(
                    buf_views(inputs@),
                    old(self).active_signers(),
                )).len() && final(self).processed == counted_progress(
                    old(self).processed,
                    route_spec(buf_views(inputs@), old(self).active_signers()).len(),
                    malformed,
                ),
            final(self).session_id@ == old(self).session_id@,
            final(self).execution_id@ == old(self).execution_id@,
            final(self).party_index == old(self).party_index,
            final(self).threshold == old(self).threshold,
            final(self).parties_count == old(self).parties_count,
            final(self).signers_at_keygen == old(self).signers_at_keygen,
            final(self).errors@.len() == 0,
            !old(self).is_active() ==> {
                &&& (inputs@.len() > 0 ==> r == Err::<Vec<Envelope>, SessionError>(
                    SessionError::InvalidState,
                ) && final(self).state == old(self).state && final(self).status == old(self).status
                    && final(self).keyshare == old(self).keyshare)
                &&& (inputs@.len() == 0 ==> (r matches Ok(envs) && envs@.len() == 0)
                    && final(self).state == old(self).state
                    && final(self).status == (if is_terminal_status(old(self).status) {
                        old(self).status
                    } else {
                        Status::Idle
                    })
                    && final(self).keyshare == old(self).keyshare)
            },
            old(self).is_active() ==> {
                &&& (r matches Ok(envs) ==> {
                    &&& forall|i: int|
                        0 <= i < envs@.len() ==> is_ctx_envelope(
                            #[trigger] envs@[i]@,
                            old(self).active_ctx().unwrap(),
                            i == 0 && !old(self).meta_sent,
                        )
                    &&& final(self).meta_sent == (old(self).meta_sent || envs@.len() > 0)
                    &&& (final(self).is_active() ==> {
                        &&& final(self).active_ctx() == old(self).active_ctx()
                        &&& final(self).active_signers() == old(self).active_signers()
                        &&& exists|k: int|
                            0 <= k <= (old(self).active_pending() + route_spec(
                                buf_views(inputs@),
                                old(self).active_signers(),
                            )).len() && final(self).active_pending() == (
                            old(self).active_pending() + route_spec(
                                buf_views(inputs@),
                                old(self).active_signers(),
                            )).skip(k)
                        &&& final(self).status == (if is_terminal_status(old(self).status) {
                            old(self).status
                        } else {
                            running_status(old(self).active_ctx().unwrap().phase)
                        })
                        &&& final(self).core_keyshare == old(self).core_keyshare
                        &&& final(self).aux_info == old(self).aux_info
                        &&& final(self).keyshare == old(self).keyshare
                        &&& final(self).last_signature == old(self).last_signature
                    })
                    &&& (!final(self).is_active() ==> {
                        match old(self).active_ctx().unwrap().phase {
                            Phase::Keygen => {
                                &&& final(self).core_keyshare is Some
                                &&& final(self).aux_info == old(self).aux_info
                                &&& ov(final(self).keyshare) == combine_step(
                                    ov(final(self).core_keyshare),
                                    ov(old(self).aux_info),
                                    ov(old(self).keyshare),
                                )
                                &&& final(self).status == (if old(self).aux_info is Some {
                                    Status::KeyshareReady
                                } else {
                                    Status::KeygenFinished
                                })
                                &&& final(self).last_signature == old(self).last_signature
                            },
                            Phase::AuxInfo => {
                                &&& final(self).aux_info is Some
                                &&& final(self).core_keyshare == old(self).core_keyshare
                                &&& ov(final(self).keyshare) == combine_step(
                                    ov(old(self).core_keyshare),
                                    ov(final(self).aux_info),
                                    ov(old(self).keyshare),
                                )
                                &&& final(self).status == (if old(self).core_keyshare is Some {
                                    Status::KeyshareReady
                                } else {
                                    Status::AuxGenFinished
                                })
                                &&& final(self).last_signature == old(self).last_signature
                            },
                            Phase::Signing => {
                                &&& final(self).last_signature is Some
                                &&& envs@.len() >= 1
                                &&& envs@.last()@.payload == (match final(self).last_signature {
                                    Some(sig) => sig@,
                                    None => Seq::<u8>::empty(),
                                })
                                &&& envs@.last()@.to_parties.len() == 0
                                &&& final(self).core_keyshare == old(self).core_keyshare
                                &&& final(self).aux_info == old(self).aux_info
                                &&& final(self).keyshare == old(self).keyshare
                                &&& final(self).status == Status::SigningFinished
                            },
                        }
                    })
                })
                &&& (r matches Err(e) ==> {
                    &&& (e == SessionError::ProtocolRejected || e == SessionError::ProtocolFault
                        || e == SessionError::ProtocolFailure)
                    &&& ((e == SessionError::ProtocolRejected || e == SessionError::ProtocolFault)
                        ==> final(self).is_active() && final(self).active_ctx() == old(
                        self,
                    ).active_ctx())
                    &&& (e == SessionError::ProtocolFailure ==> !final(self).is_active())
                    &&& final(self).core_keyshare == old(self).core_keyshare
                    &&& final(self).aux_info == old(self).aux_info
                    &&& final(self).keyshare == old(self).keyshare
                    &&& final(self).last_signature == old(self).last_signature
                    &&& (old(self).meta_sent ==> final(self).meta_sent)
                })
            },
    {
        let mut outgoing: Vec<Envelope> = Vec::new();
        let (outcome, ph, gq, gk, gp, gmal): (
            DriveOutcome,
            Phase,
            Ghost<Seq<IncomingModel>>,
            Ghost<int>,
            Ghost<Seq<IncomingModel>>,
            Ghost<int>,
        ) = match &mut self.state {
            PhaseState::Idle => {
                if inputs.len() > 0 {
                    return Err(SessionError::InvalidState);
                }
                self.status = if matches!(
                    self.status,
                    Status::KeygenFinished | Status::AuxGenFinished | Status::SigningFinished
                        | Status::KeyshareReady
                ) {
                    self.status
                } else {
                    Status::Idle
                };
                return Ok(outgoing);
            },
            PhaseState::Active { ctx, engine, pending, signers } => {
                let mut routed = route_batch(&inputs, signers.as_ref());
                proof {
                    assert(msg_models(routed@) == route_spec(
                        buf_views(inputs@),
                        old(self).active_signers(),
                    ));
                    assert(msg_models(pending@) == old(self).active_pending());
                    assert(msg_models(routed@).len() == routed@.len());
                }
                let n = routed.len();
                self.processed = if self.processed <= usize::MAX - n {
                    self.processed + n
                } else {
                    usize::MAX
                };
                let ghost queue0 = old(self).active_pending() + route_spec(
                    buf_views(inputs@),
                    old(self).active_signers(),
                );
                proof {
                    assert(queue0 == msg_models(pending@) + msg_models(routed@));
                }
                pending.append(&mut routed);
                proof {
                    assert(msg_models(pending@) =~= queue0);
                }
                let ghost q_before = pending@;
                let report = drive(
                    engine,
                    pending,
                    ctx,
                    &mut self.meta_sent,
                    &mut outgoing,
                    &mut self.internal_round,
                    DRIVE_BUDGET,
                );
                proof {
                    let k = report.consumed as int;
                    assert(msg_models(pending@) =~= msg_models(q_before).skip(k)) by {
                        assert(pending@ =~= q_before.skip(k));
                        assert forall|j: int| 0 <= j < pending@.len() implies msg_models(
                            pending@,
                        )[j] == msg_models(q_before).skip(k)[j] by {
                            assert(pending@[j] == q_before[k + j]);
                        }
                        assert(msg_models(pending@).len() == msg_models(q_before).skip(k).len());
                    };
                }
                let m = report.malformed;
                self.processed = if m <= self.processed {
                    self.processed - m
                } else {
                    0
                };
                proof {
                    assert(self.processed as int == counted_progress(
                        old(self).processed,
                        route_spec(buf_views(inputs@), old(self).active_signers()).len(),
                        report.malformed as int,
                    ));
                    assert(report.malformed as int <= queue0.len());
                }
                let ghost g_k = report.consumed as int;
                let ghost g_pend = msg_models(pending@);
                let ph = ctx.phase;
                let mut outcome = report.outcome;
                if let DriveOutcome::Finished(PhaseOutcome::Success(out)) = outcome {
                    if let Phase::Signing = ph {
                        if (out.len() as u64) < 4294967296u64 {
                            let env = make_envelope(ctx, None, crate::driver::copy_bytes(&out), !self.meta_sent);
                            outgoing.push(env);
                            self.meta_sent = true;
                            outcome = DriveOutcome::Finished(PhaseOutcome::Success(out));
                        } else {
                            outcome = DriveOutcome::Fault(String::from_str("oversized output"));
                        }
                    } else {
                        outcome = DriveOutcome::Finished(PhaseOutcome::Success(out));
                    }
                }
                (outcome, ph, Ghost(queue0), Ghost(g_k), Ghost(g_pend), Ghost(
                    report.malformed as int,
                ))
            },
        };
        proof {
            assert(0 <= gmal@ <= gq@.len());
            assert(self.processed as int == counted_progress(
                old(self).processed,
                route_spec(buf_views(inputs@), old(self).active_signers()).len(),
                gmal@,
            ));
            if outcome is Suspended {
                assert(self.active_pending() == gp@);
                assert(0 <= gk@ <= gq@.len());
                assert(gp@ == gq@.skip(gk@));
                assert(self.active_pending() == (old(self).active_pending() + route_spec(
                    buf_views(inputs@),
                    old(self).active_signers(),
                )).skip(gk@));
            }
        }
        match outcome {
            DriveOutcome::Suspended => {
                self.status = if matches!(
                    self.status,
                    Status::KeygenFinished | Status::AuxGenFinished | Status::SigningFinished
                        | Status::KeyshareReady
                ) {
                    self.status
                } else {
                    match ph {
                        Phase::Keygen => Status::KeygenRunning,
                        Phase::AuxInfo => Status::AuxGenRunning,
                        Phase::Signing => Status::SigningRunning,
                    }
                };
                Ok(outgoing)
            },
            DriveOutcome::Finished(PhaseOutcome::Success(out)) => {
                match ph {
                    Phase::Keygen => {
                        self.core_keyshare = Some(out);
                        self.state = PhaseState::Idle;
                        self.status = Status::KeygenFinished;
                        self.try_combine_shares();
                        self.internal_round = String::from_str("Finished");
                        Ok(outgoing)
                    },
                    Phase::AuxInfo => {
                        self.aux_info = Some(out);
                        self.state = PhaseState::Idle;
                        self.status = Status::AuxGenFinished;
                        self.try_combine_shares();
                        self.internal_round = String::from_str("Finished");
                        Ok(outgoing)
                    },
                    Phase::Signing => {
                        self.last_signature = Some(out);
                        self.state = PhaseState::Idle;
                        self.status = Status::SigningFinished;
                        self.internal_round = String::from_str("Finished");
                        Ok(outgoing)
                    },
                }
            },
            DriveOutcome::Finished(PhaseOutcome::Failure(_)) => {
                self.state = PhaseState::Idle;
                self.internal_round = String::from_str("Finished");
                Err(SessionError::ProtocolFailure)
            },
            DriveOutcome::Rejected => Err(SessionError::ProtocolRejected),
            DriveOutcome::Fault(_) => Err(SessionError::ProtocolFault),
            DriveOutcome::BudgetExhausted => Err(SessionError::ProtocolFault),
        }
    }

    /// Read-only projection of the session: identity, phase bookkeeping,
    /// counters and which entities are present. It has no effect on protocol
    /// state.
    pub fn snapshot(&self) -> (r: Snapshot)
        ensures
            r.session_id@ == self.session_id@,
            r.execution_id@ == self.execution_id@,
            r.party_index == self.party_index,
            r.threshold == self.threshold,
            r.parties_count == self.parties_count,
            r.phase == self.phase,
            r.round == self.round,
            r.processed == self.processed,
            r.status == self.status,
            r.last_round == self.last_round,
            r.internal_round@ == self.internal_round@,
            r.has_aux == (self.aux_info is Some),
            r.has_keyshare == (self.keyshare is Some),
            (match self.last_signature {
                Some(s) => r.signature matches Some(v) && v@ == s@,
                None => r.signature is None,
            }),
    {
        Snapshot {
            session_id: self.session_id.clone(),
            execution_id: self.execution_id.clone(),
            party_index: self.party_index,
            threshold: self.threshold,
            parties_count: self.parties_count,
            phase: self.phase,
            round: self.round,
            processed: self.processed,
            status: self.status,
            last_round: self.last_round,
            internal_round: self.internal_round.clone(),
            has_aux: self.aux_info.is_some(),
            has_keyshare: self.keyshare.is_some(),
            signature: match &self.last_signature {
                Some(s) => Some(crate::driver::copy_bytes(s)),
                None => None,
            },
        }
    }
}

/// What a caller needs to construct a signing engine for one signing phase.
pub struct SigningPlan {
    /// Decoded message bytes; already a digest when 32 bytes long.
    pub tx: Vec<u8>,
    /// Whether `tx` is to be treated as a prehashed 32-byte value.
    pub prehashed: bool,
    /// The effective signer subset, in order.
    pub signers: Vec<u16>,
    /// The local party's position in the subset.
    pub signer_local_index: u16,
    /// The signing phase's execution identity.
    pub seed: Vec<u8>,
}


/// Combination laws: with only a core key share or only auxiliary info, no
/// combined share ever appears; once both are present, a combination attempt
/// yields exactly the combined share of those parts, whichever part arrived
/// first; and repeating the attempt with the same inputs changes nothing
/// (idempotence).
pub proof fn lemma_combination_idempotent(
    core: Option<Seq<u8>>,
    aux: Option<Seq<u8>>,
    ks: Option<Seq<u8>>,
)
    ensures
        (core is None || aux is None) ==> combine_step(core, aux, ks) == ks,
        (core is Some && aux is Some) ==> combine_step(core, aux, ks) == Some(
            combined_encoding(core.unwrap(), aux.unwrap()),
        ),
        combine_step(core, aux, combine_step(core, aux, ks)) == combine_step(core, aux, ks),
{
}

/// A read-only status record of a session.
pub struct Snapshot {
    pub session_id: String,
    pub execution_id: String,
    pub party_index: u16,
    pub threshold: u16,
    pub parties_count: u16,
    pub phase: Option<Phase>,
    pub round: u32,
    pub processed: usize,
    pub status: Status,
    pub last_round: Option<Phase>,
    pub internal_round: String,
    pub has_aux: bool,
    pub has_keyshare: bool,
    pub signature: Option<Vec<u8>>,
}

} // verus!
