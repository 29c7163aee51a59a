use vstd::prelude::*;

verus! {

/// Least number of bytes a raw inbound buffer must have: a 4-byte
/// little-endian sender index and a 1-byte broadcast flag.
pub open spec fn min_header_len() -> int {
    5
}

/// A typed incoming protocol message awaiting consumption by the active
/// phase's engine.
pub struct IncomingMsg {
    /// Sender index; during a signing phase this is the signer-local index.
    pub sender: u16,
    pub broadcast: bool,
    /// Phase-specific serialized message body.
    pub payload: Vec<u8>,
}

/// Mathematical model of [`IncomingMsg`].
pub ghost struct IncomingModel {
    pub sender: u16,
    pub broadcast: bool,
    pub payload: Seq<u8>,
}

impl View for IncomingMsg {
    type V = IncomingModel;

    open spec fn view(&self) -> IncomingModel {
        (IncomingModel { sender: self.sender, broadcast: self.broadcast, payload: self.payload@ })
    }
}

/// Sender index carried by a raw buffer: a 32-bit little-endian value
/// truncated to 16 bits.
pub open spec fn header_sender(b: Seq<u8>) -> u16
    recommends
        b.len() >= min_header_len(),
{
    (b[0] + 256 * b[1]) as u16
}

/// Broadcast flag carried by a raw buffer.
pub open spec fn header_broadcast(b: Seq<u8>) -> bool
    recommends
        b.len() >= min_header_len(),
{
    b[4] != 0
}

/// Position of the first occurrence of `g` in `ss`, if any.
pub open spec fn first_index_of(ss: Seq<u16>, g: u16) -> Option<int>
    decreases ss.len(),
{
    if ss.len() == 0 {
        None
    } else if ss[0] == g {
        Some(0int)
    } else {
        match first_index_of(ss.drop_first(), g) {
            Some(i) => Some(i + 1),
            None => None,
        }
    }
}

pub proof fn lemma_first_index_bounds(ss: Seq<u16>, g: u16)
    ensures
        first_index_of(ss, g) matches Some(i) ==> 0 <= i < ss.len() && ss[i] == g,
        first_index_of(ss, g) is None ==> forall|j: int| 0 <= j < ss.len() ==> ss[j] != g,
    decreases ss.len(),
{
    if ss.len() > 0 {
        lemma_first_index_bounds(ss.drop_first(), g);
        if ss[0] != g {
            if first_index_of(ss.drop_first(), g) is None {
                assert forall|j: int| 0 <= j < ss.len() implies ss[j] != g by {
                    if j > 0 {
                        assert(ss.drop_first()[j - 1] == ss[j]);
                    }
                }
            }
        }
    }
}

pub proof fn lemma_first_index_skip(ss: Seq<u16>, g: u16, i: int)
    requires
        0 <= i <= ss.len(),
        forall|j: int| 0 <= j < i ==> ss[j] != g,
    ensures
        first_index_of(ss, g) == match first_index_of(ss.skip(i), g) {
            Some(k) => Some(k + i),
            None => None::<int>,
        },
    decreases i,
{
    if i == 0 {
        assert(ss.skip(0) =~= ss);
    } else {
        assert(ss.len() > 0);
        assert(ss[0] != g);
        lemma_first_index_skip(ss.drop_first(), g, i - 1);
        assert(ss.drop_first().skip(i - 1) =~= ss.skip(i));
        assert forall|j: int| 0 <= j < i - 1 implies ss.drop_first()[j] != g by {
            assert(ss.drop_first()[j] == ss[j + 1]);
        }
    }
}

/// Remaps a sender's global index into the local index space of the active
/// phase: outside a signing phase the index is kept; during a signing phase it
/// becomes the sender's position in the signer subset, and a sender outside
/// the subset is rejected.
pub open spec fn remap_sender(g: u16, signers: Option<Seq<u16>>) -> Option<u16> {
    match signers {
        None => Some(g),
        Some(ss) => match first_index_of(ss, g) {
            Some(i) => Some(i as u16),
            None => None,
        },
    }
}

/// The typed message a single raw buffer contributes, if any. A buffer
/// shorter than the minimal header, or one whose sender is outside the active
/// signer subset, contributes nothing.
pub open spec fn route_one(b: Seq<u8>, signers: Option<Seq<u16>>) -> Option<IncomingModel> {
    if b.len() < min_header_len() {
        None
    } else {
        match remap_sender(header_sender(b), signers) {
            Some(s) => Some(
                (IncomingModel {
                    sender: s,
                    broadcast: header_broadcast(b),
                    payload: b.skip(min_header_len()),
                }),
            ),
            None => None,
        }
    }
}

/// The typed messages of a whole batch, in the batch's input order.
pub open spec fn route_spec(bufs: Seq<Seq<u8>>, signers: Option<Seq<u16>>) -> Seq<IncomingModel>
    decreases bufs.len(),
{
    if bufs.len() == 0 {
        Seq::empty()
    } else {
        (match route_one(bufs[0], signers) {
            Some(m) => seq![m],
            None => Seq::empty(),
        }) + route_spec(bufs.drop_first(), signers)
    }
}

pub proof fn lemma_route_spec_push(bufs: Seq<Seq<u8>>, b: Seq<u8>, signers: Option<Seq<u16>>)
    ensures
        route_spec(bufs.push(b), signers) == route_spec(bufs, signers) + match route_one(
            b,
            signers,
        ) {
            Some(m) => seq![m],
            None => Seq::<IncomingModel>::empty(),
        },
    decreases bufs.len(),
{
    let tail = match route_one(b, signers) {
        Some(m) => seq![m],
        None => Seq::<IncomingModel>::empty(),
    };
    if bufs.len() == 0 {
        assert(bufs.push(b)[0] == b);
        assert(bufs.push(b).drop_first() =~= Seq::<Seq<u8>>::empty());
        assert(route_spec(Seq::<Seq<u8>>::empty(), signers) =~= Seq::<IncomingModel>::empty());
        assert(route_spec(bufs.push(b), signers) =~= tail);
        assert(route_spec(bufs, signers) =~= Seq::<IncomingModel>::empty());
        assert(route_spec(bufs, signers) + tail =~= tail);
    } else {
        lemma_route_spec_push(bufs.drop_first(), b, signers);
        assert(bufs.push(b)[0] == bufs[0]);
        assert(bufs.push(b).drop_first() =~= bufs.drop_first().push(b));
        assert(route_spec(bufs.push(b), signers) =~= route_spec(bufs, signers) + tail);
    }
}

/// Routing distributes over batch concatenation: splitting one batch into two
/// and routing them in turn appends the same messages in the same order.
pub proof fn lemma_route_spec_concat(a: Seq<Seq<u8>>, b: Seq<Seq<u8>>, signers: Option<Seq<u16>>)
    ensures
        route_spec(a + b, signers) == route_spec(a, signers) + route_spec(b, signers),
    decreases b.len(),
{
    if b.len() == 0 {
        assert(a + b =~= a);
        assert(route_spec(b, signers) =~= Seq::<IncomingModel>::empty());
        assert(route_spec(a, signers) + route_spec(b, signers) =~= route_spec(a, signers));
    } else {
        lemma_route_spec_concat(a, b.drop_last(), signers);
        lemma_route_spec_push(a + b.drop_last(), b.last(), signers);
        lemma_route_spec_push(b.drop_last(), b.last(), signers);
        assert((a + b.drop_last()).push(b.last()) =~= a + b);
        assert(b.drop_last().push(b.last()) =~= b);
    }
}

/// Drop-not-fail: a raw buffer shorter than the minimal header contributes
/// nothing to the routed batch.
pub proof fn lemma_short_buffer_dropped(b: Seq<u8>, signers: Option<Seq<u16>>)
    requires
        b.len() < min_header_len(),
    ensures
        route_one(b, signers) is None,
{
}

/// Signer-subset filtering: during a signing phase a sender outside the
/// subset is dropped, and a member's index becomes its position in the
/// subset.
pub proof fn lemma_signer_remap(b: Seq<u8>, ss: Seq<u16>)
    requires
        b.len() >= min_header_len(),
    ensures
        !ss.contains(header_sender(b)) ==> route_one(b, Some(ss)) is None,
        ss.contains(header_sender(b)) ==> ((route_one(b, Some(ss)) matches Some(m)) && (
        first_index_of(ss, header_sender(b)) matches Some(i)) && route_one(
            b,
            Some(ss),
        ).unwrap().sender == first_index_of(ss, header_sender(b)).unwrap() as u16),
{
    lemma_first_index_bounds(ss, header_sender(b));
    if ss.contains(header_sender(b)) {
        let w = choose|j: int| 0 <= j < ss.len() && ss[j] == header_sender(b);
        assert(first_index_of(ss, header_sender(b)) is Some);
    }
}

pub(crate) fn position_of(ss: &Vec<u16>, g: u16) -> (r: Option<u16>)
    requires
        ss@.len() < 65536,
    ensures
        r == remap_sender(g, Some(ss@)),
{
    let mut i: usize = 0;
    while i < ss.len()
        invariant
            ss@.len() < 65536,
            i <= ss@.len(),
            forall|j: int| 0 <= j < i ==> ss@[j] != g,
        decreases ss@.len() - i,
    {
        if ss[i] == g {
            proof {
                lemma_first_index_skip(ss@, g, i as int);
                assert(ss@.skip(i as int)[0] == ss@[i as int]);
                assert(first_index_of(ss@.skip(i as int), g) == Some(0int));
                assert(first_index_of(ss@, g) == Some(i as int));
            }
            return Some(i as u16);
        }
        i = i + 1;
    }
    proof {
        lemma_first_index_skip(ss@, g, ss@.len() as int);
        assert(ss@.skip(ss@.len() as int) =~= Seq::<u16>::empty());
    }
    None
}

fn parse_one(buf: &Vec<u8>, signers: Option<&Vec<u16>>) -> (r: Option<IncomingMsg>)
    requires
        signers matches Some(ss) ==> ss@.len() < 65536,
    ensures
        match r {
            Some(m) => route_one(
                buf@,
                match signers {
                    Some(ss) => Some(ss@),
                    None => None,
                },
            ) == Some(m@),
            None => route_one(
                buf@,
                match signers {
                    Some(ss) => Some(ss@),
                    None => None,
                },
            ) is None,
        },
{
    if buf.len() < 5 {
        return None;
    }
    let g: u16 = (buf[0] as u16) + 256 * (buf[1] as u16);
    let sender = match signers {
        None => g,
        Some(ss) => match position_of(ss, g) {
            Some(s) => s,
            None => { return None; },
        },
    };
    let broadcast = buf[4] != 0;
    let mut payload: Vec<u8> = Vec::new();
    let mut i: usize = 5;
    while i < buf.len()
        invariant
            5 <= i <= buf@.len(),
            payload@ == buf@.subrange(5, i as int),
        decreases buf@.len() - i,
    {
        let x = buf[i];
        payload.push(x);
        proof {
            assert(payload@ =~= buf@.subrange(5, i + 1));
        }
        i = i + 1;
    }
    proof {
        assert(payload@ =~= buf@.skip(5));
    }
    Some(IncomingMsg { sender, broadcast, payload })
}

/// Model sequence of a vector of typed messages.
pub open spec fn msg_models(v: Seq<IncomingMsg>) -> Seq<IncomingModel> {
    v.map_values(|m: IncomingMsg| m@)
}

/// Model sequence of a batch of raw buffers.
pub open spec fn buf_views(v: Seq<Vec<u8>>) -> Seq<Seq<u8>> {
    v.map_values(|b: Vec<u8>| b@)
}

/// Converts a batch of raw inbound buffers into typed messages for the active
/// phase, in the batch's input order. Buffers shorter than the minimal
/// header, and — during a signing phase — buffers from senders outside the
/// signer subset, are dropped silently.
pub fn route_batch(bufs: &Vec<Vec<u8>>, signers: Option<&Vec<u16>>) -> (r: Vec<IncomingMsg>)
    requires
        signers matches Some(ss) ==> ss@.len() < 65536,
    ensures
        msg_models(r@) == route_spec(
            buf_views(bufs@),
            match signers {
                Some(ss) => Some(ss@),
                None => None,
            },
        ),
{
    let ghost sgn: Option<Seq<u16>> = match signers {
        Some(ss) => Some(ss@),
        None => None,
    };
    let mut out: Vec<IncomingMsg> = Vec::new();
    let mut i: usize = 0;
    while i < bufs.len()
        invariant
            i <= bufs@.len(),
            signers matches Some(ss) ==> ss@.len() < 65536,
            sgn == (match signers {
                Some(ss) => Some(ss@),
                None => None::<Seq<u16>>,
            }),
            msg_models(out@) == route_spec(buf_views(bufs@).take(i as int), sgn),
        decreases bufs@.len() - i,
    {
        let ghost pre = out@;
        let r = parse_one(&bufs[i], signers);
        proof {
            lemma_route_spec_push(buf_views(bufs@).take(i as int), bufs@[i as int]@, sgn);
            assert(buf_views(bufs@).take(i as int).push(bufs@[i as int]@) =~= buf_views(
                bufs@,
            ).take(i + 1));
        }
        match r {
            Some(m) => {
                out.push(m);
                proof {
                    assert(msg_models(out@) =~= msg_models(pre).push(m@));
                    assert(msg_models(pre).push(m@) =~= msg_models(pre) + seq![m@]);
                }
            },
            None => {
                proof {
                    assert(msg_models(out@) + Seq::<IncomingModel>::empty() =~= msg_models(out@));
                }
            },
        }
        i = i + 1;
    }
    proof {
        assert(buf_views(bufs@).take(bufs@.len() as int) =~= buf_views(bufs@));
    }
    out
}

/// Drop-not-fail, batch form: a raw buffer shorter than the minimal header
/// contributes nothing to the routed batch, wherever in the batch it stands.
pub proof fn lemma_short_buffer_invisible(
    a: Seq<Seq<u8>>,
    b: Seq<u8>,
    c: Seq<Seq<u8>>,
    signers: Option<Seq<u16>>,
)
    requires
        b.len() < min_header_len(),
    ensures
        route_spec(a + seq![b] + c, signers) == route_spec(a + c, signers),
{
    lemma_route_spec_concat(a + seq![b], c, signers);
    lemma_route_spec_concat(a, seq![b], signers);
    lemma_route_spec_concat(a, c, signers);
    assert(route_spec(seq![b], signers) =~= Seq::<IncomingModel>::empty()) by {
        assert(seq![b][0] == b);
        assert(seq![b].drop_first() =~= Seq::<Seq<u8>>::empty());
        assert(route_spec(Seq::<Seq<u8>>::empty(), signers) =~= Seq::<IncomingModel>::empty());
        assert(route_one(b, signers) is None);
    };
    assert(route_spec(a, signers) + route_spec(seq![b], signers) =~= route_spec(a, signers));
}

} // verus!
