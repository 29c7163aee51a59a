use vstd::prelude::*;
use crate::engine::{Engine, EngineSignal, PhaseOutcome, ReceiveOutcome};
use crate::envelope::{
    envelope_wf, max_field_len, Envelope, EnvelopeModel, Meta, MetaModel, Phase,
};
use crate::router::IncomingMsg;

verus! {

/// Identity and parameters of the phase an envelope is emitted for.
pub struct PhaseContext {
    pub session_id: Vec<u8>,
    pub execution_id: Vec<u8>,
    pub phase: Phase,
    pub party_index: u16,
    pub threshold: u16,
    pub parties_count: u16,
    /// Signing context of a signing phase; empty otherwise.
    pub tx_context: Vec<u8>,
}

/// Mathematical model of [`PhaseContext`].
pub ghost struct CtxModel {
    pub session_id: Seq<u8>,
    pub execution_id: Seq<u8>,
    pub phase: Phase,
    pub party_index: u16,
    pub threshold: u16,
    pub parties_count: u16,
    pub tx_context: Seq<u8>,
}

impl View for PhaseContext {
    type V = CtxModel;

    open spec fn view(&self) -> CtxModel {
        (CtxModel {
            session_id: self.session_id@,
            execution_id: self.execution_id@,
            phase: self.phase,
            party_index: self.party_index,
            threshold: self.threshold,
            parties_count: self.parties_count,
            tx_context: self.tx_context@,
        })
    }
}

/// Machine bounds a phase context must satisfy for its envelopes to be
/// encodable.
pub open spec fn ctx_wf(c: CtxModel) -> bool {
    &&& c.session_id.len() < max_field_len()
    &&& c.execution_id.len() < max_field_len()
    &&& c.tx_context.len() < max_field_len()
}

/// ASCII tag of the payload encoding used on the wire.
pub open spec fn payload_format_tag() -> Seq<u8> {
    seq![98u8, 105u8, 110u8, 99u8, 111u8, 100u8, 101u8]
}

/// The one-time metadata block derived from a phase context.
pub open spec fn meta_of(c: CtxModel) -> MetaModel {
    (MetaModel {
        curve: 0u8,
        threshold: c.threshold,
        parties_count: c.parties_count,
        party_index: c.party_index,
        tx_context: c.tx_context,
        retry: 0u32,
        payload_format: payload_format_tag(),
        key_id: Seq::empty(),
    })
}

/// The envelope that wraps `payload` for recipient `to` under context `c`.
pub open spec fn make_envelope_spec(
    c: CtxModel,
    to: Option<u16>,
    payload: Seq<u8>,
    with_meta: bool,
) -> EnvelopeModel {
    (EnvelopeModel {
        version: 1u8,
        session_id: c.session_id,
        execution_id: c.execution_id,
        phase: c.phase,
        from_party: c.party_index,
        to_parties: match to {
            None => Seq::empty(),
            Some(i) => seq![i],
        },
        meta: if with_meta {
            Some(meta_of(c))
        } else {
            None
        },
        payload,
        tx_context: if c.phase is Signing {
            c.tx_context
        } else {
            Seq::empty()
        },
    })
}

/// Whether `env` is an outbound envelope of context `c`, carrying the
/// one-time metadata exactly when `with_meta` holds.
pub open spec fn is_ctx_envelope(env: EnvelopeModel, c: CtxModel, with_meta: bool) -> bool {
    &&& envelope_wf(env)
    &&& env.session_id == c.session_id
    &&& env.execution_id == c.execution_id
    &&& env.phase == c.phase
    &&& env.from_party == c.party_index
    &&& env.to_parties.len() <= 1
    &&& env.meta == (if with_meta {
        Some(meta_of(c))
    } else {
        None::<MetaModel>
    })
}

pub fn copy_bytes(src: &Vec<u8>) -> (r: Vec<u8>)
    ensures
        r@ == src@,
{
    let mut out: Vec<u8> = Vec::new();
    let mut i: usize = 0;
    while i < src.len()
        invariant
            i <= src@.len(),
            out@ == src@.subrange(0, i as int),
        decreases src@.len() - i,
    {
        let x = src[i];
        out.push(x);
        proof {
            assert(out@ =~= src@.subrange(0, i + 1));
        }
        i = i + 1;
    }
    proof {
        assert(out@ =~= src@);
    }
    out
}

/// Builds the outbound envelope for one engine message: the recipient
/// designation becomes an explicit recipient list (empty list = broadcast),
/// and the one-time metadata is attached exactly when `with_meta` holds.
pub fn make_envelope(ctx: &PhaseContext, recipient: Option<u16>, payload: Vec<u8>, with_meta: bool) -> (r:
    Envelope)
    requires
        ctx_wf(ctx@),
        payload@.len() < max_field_len(),
    ensures
        r@ == make_envelope_spec(ctx@, recipient, payload@, with_meta),
        is_ctx_envelope(r@, ctx@, with_meta),
{
    let to_parties: Vec<u16> = match recipient {
        None => Vec::new(),
        Some(i) => {
            let mut v: Vec<u16> = Vec::new();
            v.push(i);
            v
        },
    };
    let meta: Option<Meta> = if with_meta {
        let mut fmt: Vec<u8> = Vec::new();
        fmt.push(98);
        fmt.push(105);
        fmt.push(110);
        fmt.push(99);
        fmt.push(111);
        fmt.push(100);
        fmt.push(101);
        proof {
            assert(fmt@ =~= payload_format_tag());
        }
        Some(
            Meta {
                curve: 0,
                threshold: ctx.threshold,
                parties_count: ctx.parties_count,
                party_index: ctx.party_index,
                tx_context: copy_bytes(&ctx.tx_context),
                retry: 0,
                payload_format: fmt,
                key_id: Vec::new(),
            },
        )
    } else {
        None
    };
    let tx_context: Vec<u8> = match ctx.phase {
        Phase::Signing => copy_bytes(&ctx.tx_context),
        _ => Vec::new(),
    };
    let r = Envelope {
        version: 1,
        session_id: copy_bytes(&ctx.session_id),
        execution_id: copy_bytes(&ctx.execution_id),
        phase: ctx.phase,
        from_party: ctx.party_index,
        to_parties,
        meta,
        payload,
        tx_context,
    };
    proof {
        assert(match recipient {
            None => r@.to_parties =~= Seq::<u16>::empty(),
            Some(i) => r@.to_parties =~= seq![i],
        });
        assert(!(ctx@.phase is Signing) ==> r@.tx_context =~= Seq::<u8>::empty());
    }
    r
}

/// How one drive run ended.
pub enum DriveOutcome {
    /// The pending queue ran dry while the engine wanted input: control
    /// returns to the caller, who must supply more input later.
    Suspended,
    /// The engine terminated, successfully or with an inner failure.
    Finished(PhaseOutcome),
    /// The engine refused a message it was fed; the drive aborts hard.
    Rejected,
    /// The engine reported a fatal error.
    Fault(String),
    /// The engine emitted more signals than the drive budget allows; it is
    /// treated as broken.
    BudgetExhausted,
}

/// What one drive run did: its outcome, how many pending messages it
/// consumed, how many of those the engine discarded as malformed noise, and
/// how many envelopes it emitted.
pub struct DriveReport {
    pub outcome: DriveOutcome,
    pub consumed: usize,
    /// Consumed messages whose body the engine could not deserialize; they
    /// are droppable transport noise, not progress.
    pub malformed: usize,
    pub emitted: usize,
}

/// Pumps the engine to quiescence: emitted messages become envelopes (the
/// first one of a phase carries the one-time metadata), input demands consume
/// the pending queue strictly in first-in-first-out order, internal yields
/// continue, and completion, rejection or a fatal error ends the run.
///
/// The contract pins the state evolution: the new pending queue is exactly
/// the old one with a prefix of `consumed` messages removed in order; the old
/// envelope list is preserved and `emitted` envelopes of the current context
/// are appended, of which exactly the first carries metadata when the
/// meta-sent flag was still clear; the flag is set if and only if something
/// was emitted or had been before.
pub fn drive<E: Engine>(
    engine: &mut E,
    pending: &mut Vec<IncomingMsg>,
    ctx: &PhaseContext,
    meta_sent: &mut bool,
    outgoing: &mut Vec<Envelope>,
    internal_round: &mut String,
    budget: usize,
) -> (r: DriveReport)
    requires
        ctx_wf(ctx@),
    ensures
        r.consumed <= old(pending)@.len(),
        final(pending)@ == old(pending)@.skip(r.consumed as int),
        final(outgoing)@.len() == old(outgoing)@.len() + r.emitted,
        final(outgoing)@.subrange(0, old(outgoing)@.len() as int) == old(outgoing)@,
        forall|i: int|
            old(outgoing)@.len() <= i < final(outgoing)@.len() ==> is_ctx_envelope(
                #[trigger] final(outgoing)@[i]@,
                ctx@,
                i == old(outgoing)@.len() && !*old(meta_sent),
            ),
        *final(meta_sent) == (*old(meta_sent) || r.emitted > 0),
        r.malformed <= r.consumed,
        r.outcome is Suspended ==> final(pending)@.len() == 0,
{
    let ghost pending0 = pending@;
    let ghost out0 = outgoing@;
    let ghost meta0 = *meta_sent;
    let mut consumed: usize = 0;
    let mut malformed: usize = 0;
    let mut emitted: usize = 0;
    let mut fuel: usize = budget;
    while fuel > 0
        invariant
            ctx_wf(ctx@),
            pending0 == old(pending)@,
            out0 == old(outgoing)@,
            meta0 == *old(meta_sent),
            fuel <= budget,
            consumed <= budget - fuel,
            emitted <= budget - fuel,
            malformed <= consumed,
            consumed <= pending0.len(),
            pending@ == pending0.skip(consumed as int),
            outgoing@.len() == out0.len() + emitted,
            outgoing@.subrange(0, out0.len() as int) == out0,
            forall|i: int|
                out0.len() <= i < outgoing@.len() ==> is_ctx_envelope(
                    #[trigger] outgoing@[i]@,
                    ctx@,
                    i == out0.len() && !meta0,
                ),
            *meta_sent == (meta0 || emitted > 0),
        decreases fuel,
    {
        fuel = fuel - 1;
        match engine.proceed() {
            EngineSignal::Send { recipient, payload, round_label } => {
                if payload.len() as u64 >= 4294967296u64 {
                    return DriveReport { outcome: DriveOutcome::BudgetExhausted, consumed, malformed, emitted };
                }
                let with_meta = !*meta_sent;
                let env = make_envelope(ctx, recipient, payload, with_meta);
                let ghost pre = outgoing@;
                outgoing.push(env);
                *meta_sent = true;
                *internal_round = round_label;
                emitted = emitted + 1;
                proof {
                    assert(outgoing@.subrange(0, out0.len() as int) =~= pre.subrange(
                        0,
                        out0.len() as int,
                    ));
                    assert forall|i: int|
                        out0.len() <= i < outgoing@.len() implies is_ctx_envelope(
                        #[trigger] outgoing@[i]@,
                        ctx@,
                        i == out0.len() && !meta0,
                    ) by {
                        if i < pre.len() {
                            assert(outgoing@[i] == pre[i]);
                        } else {
                            assert(outgoing@[i]@ == env@);
                        }
                    }
                }
            },
            EngineSignal::NeedsMessage => {
                if pending.len() > 0 {
                    let msg = pending.remove(0);
                    consumed = consumed + 1;
                    proof {
                        assert(pending@ =~= pending0.skip(consumed as int));
                    }
                    match engine.receive(msg) {
                        ReceiveOutcome::Accepted => {},
                        ReceiveOutcome::Malformed => {
                            malformed = malformed + 1;
                        },
                        ReceiveOutcome::Rejected => {
                            return DriveReport {
                                outcome: DriveOutcome::Rejected,
                                consumed,
                                malformed,
                                emitted,
                            };
                        },
                    }
                } else {
                    return DriveReport { outcome: DriveOutcome::Suspended, consumed, malformed, emitted };
                }
            },
            EngineSignal::Yielded => {},
            EngineSignal::Finished(o) => {
                return DriveReport { outcome: DriveOutcome::Finished(o), consumed, malformed, emitted };
            },
            EngineSignal::Fault(d) => {
                return DriveReport { outcome: DriveOutcome::Fault(d), consumed, malformed, emitted };
            },
        }
    }
    DriveReport { outcome: DriveOutcome::BudgetExhausted, consumed, malformed, emitted }
}

/// Meta-once: in a batch of outbound envelopes of one drive, if no metadata
/// had been sent in the phase yet, exactly the first envelope carries the
/// one-time metadata block; once it has been sent, none does.
pub proof fn lemma_meta_once(envs: Seq<EnvelopeModel>, c: CtxModel, meta_sent: bool)
    requires
        forall|i: int|
            0 <= i < envs.len() ==> is_ctx_envelope(#[trigger] envs[i], c, i == 0 && !meta_sent),
    ensures
        !meta_sent ==> forall|i: int|
            0 <= i < envs.len() ==> ((#[trigger] envs[i].meta is Some) <==> i == 0),
        meta_sent ==> forall|i: int| 0 <= i < envs.len() ==> #[trigger] envs[i].meta is None,
{
}

} // verus!
