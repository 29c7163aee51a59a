use vstd::prelude::*;

verus! {

/// A protocol phase: one round-based protocol run within a session.
#[derive(Clone, Copy, Debug, PartialEq, Eq, Structural)]
pub enum Phase {
    Keygen,
    AuxInfo,
    Signing,
}

/// Wire tag of a phase.
pub open spec fn phase_tag(p: Phase) -> u8 {
    match p {
        Phase::Keygen => 1u8,
        Phase::AuxInfo => 2u8,
        Phase::Signing => 3u8,
    }
}

/// One-time session metadata, present only on the first outbound envelope of a
/// phase execution.
pub struct Meta {
    /// Curve tag; 0 stands for secp256k1.
    pub curve: u8,
    pub threshold: u16,
    pub parties_count: u16,
    pub party_index: u16,
    /// Opaque signing context, e.g. a transaction digest context.
    pub tx_context: Vec<u8>,
    pub retry: u32,
    /// ASCII tag of the payload encoding.
    pub payload_format: Vec<u8>,
    pub key_id: Vec<u8>,
}

/// Mathematical model of [`Meta`].
#[verifier::ext_equal]
pub ghost struct MetaModel {
    pub curve: u8,
    pub threshold: u16,
    pub parties_count: u16,
    pub party_index: u16,
    pub tx_context: Seq<u8>,
    pub retry: u32,
    pub payload_format: Seq<u8>,
    pub key_id: Seq<u8>,
}

impl View for Meta {
    type V = MetaModel;

    open spec fn view(&self) -> MetaModel {
        (MetaModel {
            curve: self.curve,
            threshold: self.threshold,
            parties_count: self.parties_count,
            party_index: self.party_index,
            tx_context: self.tx_context@,
            retry: self.retry,
            payload_format: self.payload_format@,
            key_id: self.key_id@,
        })
    }
}

/// The versioned wire unit carrying one protocol message together with its
/// routing and session metadata.
pub struct Envelope {
    pub version: u8,
    pub session_id: Vec<u8>,
    pub execution_id: Vec<u8>,
    pub phase: Phase,
    pub from_party: u16,
    /// Explicit recipient list; empty means broadcast.
    pub to_parties: Vec<u16>,
    pub meta: Option<Meta>,
    /// Phase-tagged opaque protocol message.
    pub payload: Vec<u8>,
    /// Signing context, duplicated beside the payload for signing envelopes;
    /// empty for every other phase.
    pub tx_context: Vec<u8>,
}

/// Mathematical model of [`Envelope`].
#[verifier::ext_equal]
pub ghost struct EnvelopeModel {
    pub version: u8,
    pub session_id: Seq<u8>,
    pub execution_id: Seq<u8>,
    pub phase: Phase,
    pub from_party: u16,
    pub to_parties: Seq<u16>,
    pub meta: Option<MetaModel>,
    pub payload: Seq<u8>,
    pub tx_context: Seq<u8>,
}

impl View for Envelope {
    type V = EnvelopeModel;

    open spec fn view(&self) -> EnvelopeModel {
        (EnvelopeModel {
            version: self.version,
            session_id: self.session_id@,
            execution_id: self.execution_id@,
            phase: self.phase,
            from_party: self.from_party,
            to_parties: self.to_parties@,
            meta: match self.meta {
                Some(m) => Some(m@),
                None => None,
            },
            payload: self.payload@,
            tx_context: self.tx_context@,
        })
    }
}

/// Largest length a variable-sized wire field may have.
pub open spec fn max_field_len() -> int {
    0x1_0000_0000
}

/// Little-endian bytes of a 16-bit value.
pub open spec fn le16(n: u16) -> Seq<u8> {
    seq![(n % 256) as u8, (n / 256) as u8]
}

/// Little-endian bytes of a 32-bit value.
pub open spec fn le32(n: u32) -> Seq<u8> {
    seq![
        (n % 256) as u8,
        ((n / 256) % 256) as u8,
        ((n / 65536) % 256) as u8,
        ((n / 16777216) % 256) as u8,
    ]
}

/// A length-prefixed field: 32-bit little-endian length, then the bytes.
pub open spec fn lp(b: Seq<u8>) -> Seq<u8>
    recommends
        b.len() < max_field_len(),
{
    le32(b.len() as u32) + b
}

/// Concatenated little-endian encodings of a list of 16-bit values.
pub open spec fn words(v: Seq<u16>) -> Seq<u8>
    decreases v.len(),
{
    if v.len() == 0 {
        Seq::empty()
    } else {
        le16(v[0]) + words(v.drop_first())
    }
}

pub proof fn lemma_words_push(v: Seq<u16>, x: u16)
    ensures
        words(v.push(x)) == words(v) + le16(x),
    decreases v.len(),
{
    if v.len() == 0 {
        assert(v.push(x)[0] == x);
        assert(v.push(x).drop_first() =~= Seq::<u16>::empty());
        assert(words(Seq::<u16>::empty()) =~= Seq::<u8>::empty());
        assert(words(v.push(x)) =~= le16(x) + words(Seq::<u16>::empty()));
        assert(words(v.push(x)) =~= le16(x));
        assert(words(v) =~= Seq::<u8>::empty());
        assert(words(v) + le16(x) =~= le16(x));
    } else {
        lemma_words_push(v.drop_first(), x);
        assert(v.push(x).drop_first() =~= v.drop_first().push(x));
        assert(words(v.push(x)) =~= words(v) + le16(x));
    }
}

/// The little-endian encoding of a 16-bit value determines the value.
pub proof fn lemma_le16_inj(n1: u16, n2: u16)
    requires
        le16(n1) == le16(n2),
    ensures
        n1 == n2,
{
    assert(le16(n1)[0] == le16(n2)[0] && le16(n1)[1] == le16(n2)[1]);
    assert(n1 % 256 == n2 % 256 && n1 / 256 == n2 / 256);
    assert(n1 % 256 + 256 * (n1 / 256) == n1 && n2 % 256 + 256 * (n2 / 256) == n2) by (bit_vector);
}

/// The little-endian encoding of a 32-bit value determines the value.
pub proof fn lemma_le32_inj(n1: u32, n2: u32)
    requires
        le32(n1) == le32(n2),
    ensures
        n1 == n2,
{
    assert(le32(n1)[0] == le32(n2)[0] && le32(n1)[1] == le32(n2)[1] && le32(n1)[2] == le32(n2)[2]
        && le32(n1)[3] == le32(n2)[3]);
    assert(n1 % 256 == n2 % 256 && (n1 / 256) % 256 == (n2 / 256) % 256 && (n1 / 65536) % 256 == (
    n2 / 65536) % 256 && (n1 / 16777216) % 256 == (n2 / 16777216) % 256 ==> n1 == n2)
        by (bit_vector);
}

pub proof fn lemma_words_len(v: Seq<u16>)
    ensures
        words(v).len() == 2 * v.len(),
    decreases v.len(),
{
    if v.len() > 0 {
        lemma_words_len(v.drop_first());
    }
}

/// The word encoding determines the list: two lists of equal length with the
/// same encoding are equal.
pub proof fn lemma_words_inj(v1: Seq<u16>, v2: Seq<u16>)
    requires
        v1.len() == v2.len(),
        words(v1) == words(v2),
    ensures
        v1 == v2,
    decreases v1.len(),
{
    if v1.len() > 0 {
        lemma_words_len(v1.drop_first());
        lemma_words_len(v2.drop_first());
        assert(le16(v1[0]) =~= words(v1).subrange(0, 2)) by {
            assert(forall|j: int| 0 <= j < 2 ==> words(v1)[j] == le16(v1[0])[j]);
        };
        assert(le16(v2[0]) =~= words(v2).subrange(0, 2)) by {
            assert(forall|j: int| 0 <= j < 2 ==> words(v2)[j] == le16(v2[0])[j]);
        };
        lemma_le16_inj(v1[0], v2[0]);
        assert(words(v1.drop_first()) =~= words(v2.drop_first())) by {
            assert(forall|j: int|
                0 <= j < words(v1.drop_first()).len() ==> words(v1.drop_first())[j] == words(v1)[2
                    + j] && words(v2.drop_first())[j] == words(v2)[2 + j]);
        };
        lemma_words_inj(v1.drop_first(), v2.drop_first());
        assert forall|i: int| 0 <= i < v1.len() implies v1[i] == v2[i] by {
            if i > 0 {
                assert(v1.drop_first()[i - 1] == v1[i]);
                assert(v2.drop_first()[i - 1] == v2[i]);
            }
        }
        assert(v1 =~= v2);
    } else {
        assert(v1 =~= v2);
    }
}

proof fn lemma_add_assoc(x: Seq<u8>, y: Seq<u8>, z: Seq<u8>)
    ensures
        (x + y) + z == x + (y + z),
{
    assert((x + y) + z =~= x + (y + z));
}

/// Peels one known piece off the front of a suffix of `b`.
proof fn lemma_skip_concat(b: Seq<u8>, p: int, x: Seq<u8>, y: Seq<u8>)
    requires
        0 <= p <= b.len(),
        b.skip(p) == x + y,
    ensures
        p + x.len() <= b.len(),
        b.skip(p + x.len()) == y,
        b.subrange(p, p + x.len()) == x,
{
    assert(b.skip(p).len() == b.len() - p);
    assert(b.skip(p + x.len()) =~= y) by {
        assert(forall|i: int|
            0 <= i < y.len() ==> #[trigger] b.skip(p + x.len())[i] == b.skip(p)[x.len() + i]);
    };
    assert(b.subrange(p, p + x.len()) =~= x) by {
        assert(forall|i: int|
            0 <= i < x.len() ==> #[trigger] b.subrange(p, p + x.len())[i] == b.skip(p)[i]);
    };
}

/// Wire bytes of the optional metadata block: a presence flag, then the
/// fields.
pub open spec fn spec_encode_meta(m: Option<MetaModel>) -> Seq<u8> {
    match m {
        None => seq![0u8],
        Some(m) => seq![1u8, m.curve] + le16(m.threshold) + le16(m.parties_count) + le16(
            m.party_index,
        ) + lp(m.tx_context) + le32(m.retry) + lp(m.payload_format) + lp(m.key_id),
    }
}

/// Whether an envelope fits the machine bounds of the wire format and carries
/// a signing context only in a signing envelope.
pub open spec fn meta_wf(m: MetaModel) -> bool {
    &&& m.tx_context.len() < max_field_len()
    &&& m.payload_format.len() < max_field_len()
    &&& m.key_id.len() < max_field_len()
}

pub open spec fn envelope_wf(e: EnvelopeModel) -> bool {
    &&& e.version == 1
    &&& e.session_id.len() < max_field_len()
    &&& e.execution_id.len() < max_field_len()
    &&& e.to_parties.len() < 65536
    &&& e.payload.len() < max_field_len()
    &&& e.tx_context.len() < max_field_len()
    &&& (e.meta matches Some(m) ==> meta_wf(m))
    &&& (!(e.phase is Signing) ==> e.tx_context == Seq::<u8>::empty())
}

/// Wire bytes of a whole envelope.
pub open spec fn spec_encode(e: EnvelopeModel) -> Seq<u8> {
    seq![e.version] + lp(e.session_id) + lp(e.execution_id) + seq![phase_tag(e.phase)] + le16(
        e.from_party,
    ) + le16(e.to_parties.len() as u16) + words(e.to_parties) + spec_encode_meta(e.meta) + lp(
        e.payload,
    ) + if e.phase is Signing {
        lp(e.tx_context)
    } else {
        Seq::<u8>::empty()
    }
}

fn put_le16(out: &mut Vec<u8>, n: u16)
    ensures
        final(out)@ == old(out)@ + le16(n),
{
    out.push((n % 256) as u8);
    out.push((n / 256) as u8);
    assert(out@ =~= old(out)@ + le16(n));
}

fn put_le32(out: &mut Vec<u8>, n: u32)
    ensures
        final(out)@ == old(out)@ + le32(n),
{
    out.push((n % 256) as u8);
    out.push(((n / 256) % 256) as u8);
    out.push(((n / 65536) % 256) as u8);
    out.push(((n / 16777216) % 256) as u8);
    assert(out@ =~= old(out)@ + le32(n));
}

fn put_lp(out: &mut Vec<u8>, b: &[u8])
    requires
        b@.len() < max_field_len(),
    ensures
        final(out)@ == old(out)@ + lp(b@),
{
    put_le32(out, b.len() as u32);
    out.extend_from_slice(b);
    assert(out@ =~= old(out)@ + lp(b@));
}

fn put_words(out: &mut Vec<u8>, v: &Vec<u16>)
    ensures
        final(out)@ == old(out)@ + words(v@),
{
    let ghost base = out@;
    let mut i: usize = 0;
    while i < v.len()
        invariant
            i <= v@.len(),
            out@ == base + words(v@.subrange(0, i as int)),
        decreases v@.len() - i,
    {
        proof {
            lemma_words_push(v@.subrange(0, i as int), v@[i as int]);
            assert(v@.subrange(0, i as int).push(v@[i as int]) =~= v@.subrange(0, i as int + 1));
        }
        put_le16(out, v[i]);
        i = i + 1;
    }
    proof {
        assert(v@.subrange(0, v@.len() as int) =~= v@);
    }
}

fn put_meta(out: &mut Vec<u8>, meta: &Option<Meta>)
    requires
        (meta matches Some(m) ==> meta_wf(m@)),
    ensures
        final(out)@ == old(out)@ + spec_encode_meta(
            match *meta {
                Some(m) => Some(m@),
                None => None,
            },
        ),
{
    match meta {
        None => {
            out.push(0);
            assert(out@ =~= old(out)@ + spec_encode_meta(None));
        },
        Some(m) => {
            out.push(1);
            out.push(m.curve);
            let ghost head = out@;
            assert(head =~= old(out)@ + seq![1u8, m.curve]);
            put_le16(out, m.threshold);
            put_le16(out, m.parties_count);
            put_le16(out, m.party_index);
            put_lp(out, m.tx_context.as_slice());
            put_le32(out, m.retry);
            put_lp(out, m.payload_format.as_slice());
            put_lp(out, m.key_id.as_slice());
            assert(out@ =~= old(out)@ + spec_encode_meta(Some(m@)));
        },
    }
}

fn phase_tag_exec(p: Phase) -> (r: u8)
    ensures
        r == phase_tag(p),
{
    match p {
        Phase::Keygen => 1,
        Phase::AuxInfo => 2,
        Phase::Signing => 3,
    }
}

/// Encodes an envelope into its wire bytes.
#[verifier::rlimit(50)]
pub fn encode_envelope(e: &Envelope) -> (r: Vec<u8>)
    requires
        envelope_wf(e@),
    ensures
        r@ == spec_encode(e@),
{
    let mut out: Vec<u8> = Vec::new();
    out.push(e.version);
    assert(out@ =~= seq![e@.version]);
    put_lp(&mut out, e.session_id.as_slice());
    put_lp(&mut out, e.execution_id.as_slice());
    out.push(phase_tag_exec(e.phase));
    let ghost c1 = out@;
    assert(c1 =~= seq![e@.version] + lp(e@.session_id) + lp(e@.execution_id) + seq![
        phase_tag(e@.phase),
    ]);
    put_le16(&mut out, e.from_party);
    put_le16(&mut out, (e.to_parties.len() as u16));
    put_words(&mut out, &e.to_parties);
    put_meta(&mut out, &e.meta);
    put_lp(&mut out, e.payload.as_slice());
    if let Phase::Signing = e.phase {
        put_lp(&mut out, e.tx_context.as_slice());
        assert(out@ =~= spec_encode(e@));
    } else {
        assert(out@ =~= spec_encode(e@));
    }
    out
}

fn read_u8(b: &[u8], pos: &mut usize) -> (r: Option<u8>)
    ensures
        r is Some <==> *old(pos) < b@.len(),
        r matches Some(v) ==> {
            &&& *final(pos) == *old(pos) + 1
            &&& *final(pos) <= b@.len()
            &&& b@.subrange(*old(pos) as int, *final(pos) as int) == seq![v]
        },
        r is None ==> *final(pos) == *old(pos),
{
    if *pos < b.len() {
        let v = b[*pos];
        *pos = *pos + 1;
        assert(b@.subrange(*pos - 1, *pos as int) =~= seq![v]);
        Some(v)
    } else {
        None
    }
}

fn read_le16(b: &[u8], pos: &mut usize) -> (r: Option<u16>)
    ensures
        r is Some <==> *old(pos) + 2 <= b@.len(),
        r matches Some(v) ==> {
            &&& *final(pos) == *old(pos) + 2
            &&& *final(pos) <= b@.len()
            &&& b@.subrange(*old(pos) as int, *final(pos) as int) == le16(v)
        },
        r is None ==> *final(pos) == *old(pos),
{
    if *pos < b.len() && b.len() - *pos >= 2 {
        let lo = b[*pos];
        let hi = b[*pos + 1];
        let v: u16 = (lo as u16) + 256 * (hi as u16);
        *pos = *pos + 2;
        assert(b@.subrange(*pos - 2, *pos as int) =~= le16(v)) by {
            assert(v % 256 == lo && v / 256 == hi) by (nonlinear_arith)
                requires
                    v == lo + 256 * (hi as u16),
                    lo < 256,
                    hi < 256,
            ;
        };
        Some(v)
    } else {
        None
    }
}

fn read_le32(b: &[u8], pos: &mut usize) -> (r: Option<u32>)
    ensures
        r is Some <==> *old(pos) + 4 <= b@.len(),
        r matches Some(v) ==> {
            &&& *final(pos) == *old(pos) + 4
            &&& *final(pos) <= b@.len()
            &&& b@.subrange(*old(pos) as int, *final(pos) as int) == le32(v)
        },
        r is None ==> *final(pos) == *old(pos),
{
    if *pos < b.len() && b.len() - *pos >= 4 {
        let b0 = b[*pos];
        let b1 = b[*pos + 1];
        let b2 = b[*pos + 2];
        let b3 = b[*pos + 3];
        let v: u32 = (b0 as u32) + 256 * (b1 as u32) + 65536 * (b2 as u32) + 16777216 * (b3 as u32);
        *pos = *pos + 4;
        assert(b@.subrange(*pos - 4, *pos as int) =~= le32(v)) by {
            assert(v % 256 == b0 && (v / 256) % 256 == b1 && (v / 65536) % 256 == b2 && (v
                / 16777216) % 256 == b3) by (nonlinear_arith)
                requires
                    v == b0 + 256 * (b1 as u32) + 65536 * (b2 as u32) + 16777216 * (b3 as u32),
                    b0 < 256,
                    b1 < 256,
                    b2 < 256,
                    b3 < 256,
            ;
        };
        Some(v)
    } else {
        None
    }
}

proof fn lemma_seq_chain(b: Seq<u8>, s: int, p: int, q: int, pre: Seq<u8>, piece: Seq<u8>)
    requires
        0 <= s <= p <= q <= b.len(),
        b.subrange(s, p) == pre,
        b.subrange(p, q) == piece,
    ensures
        b.subrange(s, q) == pre + piece,
{
    assert(b.subrange(s, q) =~= b.subrange(s, p) + b.subrange(p, q));
}

fn read_lp(b: &[u8], pos: &mut usize) -> (r: Option<Vec<u8>>)
    requires
        *old(pos) <= b@.len(),
    ensures
        r matches Some(v) ==> {
            &&& *final(pos) == *old(pos) + 4 + v@.len()
            &&& *final(pos) <= b@.len()
            &&& v@.len() < max_field_len()
            &&& b@.subrange(*old(pos) as int, *final(pos) as int) == lp(v@)
        },
        forall|f: Seq<u8>, rest: Seq<u8>|
            (f.len() < max_field_len() && b@.skip(*old(pos) as int) == lp(f) + rest) ==> ((
            r matches Some(v) && v@ == f)),
{
    let ghost p0 = *pos;
    let n = match read_le32(b, pos) {
        Some(n) => n,
        None => {
            proof {
                assert forall|f: Seq<u8>, rest: Seq<u8>|
                    (f.len() < max_field_len() && b@.skip(p0 as int) == lp(f) + rest)
                        implies false by {
                    assert(b@.skip(p0 as int).len() == (lp(f) + rest).len());
                    assert(lp(f).len() == 4 + f.len());
                    assert(p0 + 4 <= b@.len());
                }
            }
            return None;
        },
    };
    if (n as usize) > b.len() - *pos {
        proof {
            assert forall|f: Seq<u8>, rest: Seq<u8>|
                (f.len() < max_field_len() && b@.skip(p0 as int) == lp(f) + rest)
                    implies false by {
                assert(b@.subrange(p0 as int, p0 + 4) =~= le32(f.len() as u32)) by {
                    assert forall|j: int| 0 <= j < 4 implies #[trigger] b@.subrange(
                        p0 as int,
                        p0 + 4,
                    )[j] == le32(f.len() as u32)[j] by {
                        assert(b@.skip(p0 as int)[j] == (lp(f) + rest)[j]);
                    }
                };
                lemma_le32_inj(n, f.len() as u32);
                assert(b@.skip(p0 as int).len() == 4 + f.len() + rest.len());
            }
        }
        return None;
    }
    let base: usize = *pos;
    let blen: usize = b.len();
    let mut v: Vec<u8> = Vec::new();
    let mut i: usize = 0;
    while i < n as usize
        invariant
            blen == b@.len(),
            base + n as usize <= blen,
            i <= n as usize,
            v@ == b@.subrange(base as int, base + i as int),
        decreases n as usize - i,
    {
        let x = b[base + i];
        v.push(x);
        proof {
            assert(v@ =~= b@.subrange(base as int, base + i + 1 as int));
        }
        i = i + 1;
    }
    proof {
        assert(b@.subrange(base - 4, base + n as usize as int) =~= le32(n) + v@);
        assert forall|f: Seq<u8>, rest: Seq<u8>|
            (f.len() < max_field_len() && b@.skip(p0 as int) == lp(f) + rest) implies v@
            == f by {
            assert(b@.subrange(p0 as int, p0 + 4) =~= le32(f.len() as u32)) by {
                assert forall|j: int| 0 <= j < 4 implies #[trigger] b@.subrange(p0 as int, p0 + 4)[j]
                    == le32(f.len() as u32)[j] by {
                    assert(b@.skip(p0 as int)[j] == (lp(f) + rest)[j]);
                }
            };
            lemma_le32_inj(n, f.len() as u32);
            assert(v@ =~= f) by {
                assert forall|j: int| 0 <= j < f.len() implies #[trigger] v@[j] == f[j] by {
                    assert(v@[j] == b@[base + j]);
                    assert(b@.skip(p0 as int)[4 + j] == (lp(f) + rest)[4 + j]);
                    assert((lp(f) + rest)[4 + j] == f[j]);
                }
            };
        }
    }
    *pos = base + n as usize;
    Some(v)
}

/// How the bytes of an encoded metadata block are laid out after position
/// `p` of `b`.
#[verifier::rlimit(100)]
proof fn lemma_meta_layout(b: Seq<u8>, p: int, mm: MetaModel, rest: Seq<u8>)
    requires
        0 <= p <= b.len(),
        meta_wf(mm),
        b.skip(p) == spec_encode_meta(Some(mm)) + rest,
    ensures
        p + 24 + mm.tx_context.len() + mm.payload_format.len() + mm.key_id.len() + rest.len()
            == b.len(),
        b.subrange(p, p + 1) == seq![1u8],
        b.subrange(p + 1, p + 2) == seq![mm.curve],
        b.subrange(p + 2, p + 4) == le16(mm.threshold),
        b.subrange(p + 4, p + 6) == le16(mm.parties_count),
        b.subrange(p + 6, p + 8) == le16(mm.party_index),
        b.skip(p + 8) == lp(mm.tx_context) + (le32(mm.retry) + (lp(mm.payload_format) + (lp(
            mm.key_id,
        ) + rest))),
        b.subrange(p + 12 + mm.tx_context.len(), p + 16 + mm.tx_context.len()) == le32(mm.retry),
        b.skip(p + 16 + mm.tx_context.len()) == lp(mm.payload_format) + (lp(mm.key_id) + rest),
        b.skip(p + 20 + mm.tx_context.len() + mm.payload_format.len()) == lp(mm.key_id) + rest,
{
    let t_kid = lp(mm.key_id) + rest;
    let t_fmt = lp(mm.payload_format) + t_kid;
    let t_retry = le32(mm.retry) + t_fmt;
    let t_tx = lp(mm.tx_context) + t_retry;
    let t_pi = le16(mm.party_index) + t_tx;
    let t_pc = le16(mm.parties_count) + t_pi;
    let t_th = le16(mm.threshold) + t_pc;
    let t_curve = seq![mm.curve] + t_th;
    assert(spec_encode_meta(Some(mm)) + rest =~= seq![1u8] + t_curve);
    lemma_skip_concat(b, p, seq![1u8], t_curve);
    lemma_skip_concat(b, p + 1, seq![mm.curve], t_th);
    lemma_skip_concat(b, p + 2, le16(mm.threshold), t_pc);
    lemma_skip_concat(b, p + 4, le16(mm.parties_count), t_pi);
    lemma_skip_concat(b, p + 6, le16(mm.party_index), t_tx);
    lemma_skip_concat(b, p + 8, lp(mm.tx_context), t_retry);
    lemma_skip_concat(b, p + 12 + mm.tx_context.len() as int, le32(mm.retry), t_fmt);
    lemma_skip_concat(b, p + 16 + mm.tx_context.len() as int, lp(mm.payload_format), t_kid);
    lemma_skip_concat(
        b,
        p + 20 + mm.tx_context.len() as int + mm.payload_format.len() as int,
        lp(mm.key_id),
        rest,
    );
    assert(b.skip(
        p + 24 + mm.tx_context.len() as int + mm.payload_format.len() as int
            + mm.key_id.len() as int,
    ).len() == rest.len());
}

fn read_meta(b: &[u8], pos: &mut usize) -> (r: Option<Option<Meta>>)
    requires
        *old(pos) <= b@.len(),
    ensures
        r matches Some(meta) ==> {
            &&& *old(pos) <= *final(pos) <= b@.len()
            &&& (meta matches Some(m) ==> meta_wf(m@))
            &&& b@.subrange(*old(pos) as int, *final(pos) as int) == spec_encode_meta(
                match meta {
                    Some(m) => Some(m@),
                    None => None,
                },
            )
        },
        forall|rest: Seq<u8>|
            b@.skip(*old(pos) as int) == spec_encode_meta(None) + rest ==> ((r matches Some(m)
                && m is None)),
        forall|mm: MetaModel, rest: Seq<u8>|
            (meta_wf(mm) && b@.skip(*old(pos) as int) == spec_encode_meta(Some(mm)) + rest) ==> ((
            r matches Some(m) && (m matches Some(mv) && mv@ == mm))),
{
    let ghost p0 = *pos as int;
    let flag = match read_u8(b, pos) {
        Some(v) => v,
        None => {
            proof {
                assert(b@.skip(p0).len() == 0);
                assert forall|rest: Seq<u8>|
                    b@.skip(p0) == spec_encode_meta(None) + rest implies false by {
                    assert((spec_encode_meta(None) + rest).len() >= 1);
                }
                assert forall|mm: MetaModel, rest: Seq<u8>|
                    meta_wf(mm) && b@.skip(p0) == spec_encode_meta(Some(mm)) + rest implies false by {
                    lemma_meta_layout(b@, p0, mm, rest);
                }
            }
            return None;
        },
    };
    proof {
        assert(b@.subrange(p0, p0 + 1)[0] == b@[p0]);
        assert(b@[p0] == flag);
    }
    if flag == 0 {
        proof {
            assert(b@.subrange(*pos - 1, *pos as int) =~= spec_encode_meta(None));
            assert forall|mm: MetaModel, rest: Seq<u8>|
                meta_wf(mm) && b@.skip(p0) == spec_encode_meta(Some(mm)) + rest implies false by {
                lemma_meta_layout(b@, p0, mm, rest);
                assert(b@.subrange(p0, p0 + 1)[0] == b@[p0]);
                assert(b@[p0] == 1);
            }
        }
        return Some(None);
    }
    proof {
        assert forall|rest: Seq<u8>|
            b@.skip(p0) == spec_encode_meta(None) + rest implies false by {
            assert((spec_encode_meta(None) + rest)[0] == 0);
            assert(b@.skip(p0)[0] == b@[p0]);
        }
    }
    if flag != 1 {
        proof {
            assert forall|mm: MetaModel, rest: Seq<u8>|
                meta_wf(mm) && b@.skip(p0) == spec_encode_meta(Some(mm)) + rest implies false by {
                lemma_meta_layout(b@, p0, mm, rest);
                assert(b@.subrange(p0, p0 + 1)[0] == b@[p0]);
                assert(b@[p0] == 1);
            }
        }
        return None;
    }
    let ghost p_flag = *pos;
    let curve = match read_u8(b, pos) {
        Some(v) => v,
        None => {
            proof {
                assert forall|mm: MetaModel, rest: Seq<u8>|
                    meta_wf(mm) && b@.skip(p0) == spec_encode_meta(Some(mm)) + rest implies false by {
                    lemma_meta_layout(b@, p0, mm, rest);
                }
            }
            return None;
        },
    };
    let ghost p_curve = *pos;
    let threshold = match read_le16(b, pos) {
        Some(v) => v,
        None => {
            proof {
                assert forall|mm: MetaModel, rest: Seq<u8>|
                    meta_wf(mm) && b@.skip(p0) == spec_encode_meta(Some(mm)) + rest implies false by {
                    lemma_meta_layout(b@, p0, mm, rest);
                }
            }
            return None;
        },
    };
    let ghost p_th = *pos;
    let parties_count = match read_le16(b, pos) {
        Some(v) => v,
        None => {
            proof {
                assert forall|mm: MetaModel, rest: Seq<u8>|
                    meta_wf(mm) && b@.skip(p0) == spec_encode_meta(Some(mm)) + rest implies false by {
                    lemma_meta_layout(b@, p0, mm, rest);
                }
            }
            return None;
        },
    };
    let ghost p_pc = *pos;
    let party_index = match read_le16(b, pos) {
        Some(v) => v,
        None => {
            proof {
                assert forall|mm: MetaModel, rest: Seq<u8>|
                    meta_wf(mm) && b@.skip(p0) == spec_encode_meta(Some(mm)) + rest implies false by {
                    lemma_meta_layout(b@, p0, mm, rest);
                }
            }
            return None;
        },
    };
    let ghost p_idx = *pos;
    let tx_context = match read_lp(b, pos) {
        Some(v) => v,
        None => {
            proof {
                assert forall|mm: MetaModel, rest: Seq<u8>|
                    meta_wf(mm) && b@.skip(p0) == spec_encode_meta(Some(mm)) + rest implies false by {
                    lemma_meta_layout(b@, p0, mm, rest);
                    assert(p_idx == p0 + 8);
                }
            }
            return None;
        },
    };
    let ghost p_tx = *pos;
    let retry = match read_le32(b, pos) {
        Some(v) => v,
        None => {
            proof {
                assert forall|mm: MetaModel, rest: Seq<u8>|
                    meta_wf(mm) && b@.skip(p0) == spec_encode_meta(Some(mm)) + rest implies false by {
                    lemma_meta_layout(b@, p0, mm, rest);
                    assert(p_idx == p0 + 8);
                    assert(tx_context@ == mm.tx_context);
                    assert(p_tx == p0 + 12 + mm.tx_context.len());
                }
            }
            return None;
        },
    };
    let ghost p_retry = *pos;
    let payload_format = match read_lp(b, pos) {
        Some(v) => v,
        None => {
            proof {
                assert forall|mm: MetaModel, rest: Seq<u8>|
                    meta_wf(mm) && b@.skip(p0) == spec_encode_meta(Some(mm)) + rest implies false by {
                    lemma_meta_layout(b@, p0, mm, rest);
                    assert(p_idx == p0 + 8);
                    assert(tx_context@ == mm.tx_context);
                    assert(p_retry == p0 + 16 + mm.tx_context.len());
                }
            }
            return None;
        },
    };
    let ghost p_fmt = *pos;
    let key_id = match read_lp(b, pos) {
        Some(v) => v,
        None => {
            proof {
                assert forall|mm: MetaModel, rest: Seq<u8>|
                    meta_wf(mm) && b@.skip(p0) == spec_encode_meta(Some(mm)) + rest implies false by {
                    lemma_meta_layout(b@, p0, mm, rest);
                    assert(p_idx == p0 + 8);
                    assert(tx_context@ == mm.tx_context);
                    assert(p_retry == p0 + 16 + mm.tx_context.len());
                    assert(payload_format@ == mm.payload_format);
                    assert(p_fmt == p0 + 20 + mm.tx_context.len() + mm.payload_format.len());
                }
            }
            return None;
        },
    };
    let m = Meta { curve, threshold, parties_count, party_index, tx_context, retry, payload_format, key_id };
    proof {
        let s0 = p_flag - 1;
        assert(b@.subrange(s0, p_curve as int) =~= b@.subrange(s0, p_flag as int) + b@.subrange(
            p_flag as int,
            p_curve as int,
        ));
        assert(b@.subrange(s0, p_curve as int) =~= seq![1u8, m@.curve]);
        lemma_seq_chain(b@, s0, p_curve as int, p_th as int, seq![1u8, m@.curve], le16(m@.threshold));
        lemma_seq_chain(
            b@,
            s0,
            p_th as int,
            p_pc as int,
            seq![1u8, m@.curve] + le16(m@.threshold),
            le16(m@.parties_count),
        );
        lemma_seq_chain(
            b@,
            s0,
            p_pc as int,
            p_idx as int,
            seq![1u8, m@.curve] + le16(m@.threshold) + le16(m@.parties_count),
            le16(m@.party_index),
        );
        lemma_seq_chain(
            b@,
            s0,
            p_idx as int,
            p_tx as int,
            seq![1u8, m@.curve] + le16(m@.threshold) + le16(m@.parties_count) + le16(m@.party_index),
            lp(m@.tx_context),
        );
        lemma_seq_chain(
            b@,
            s0,
            p_tx as int,
            p_retry as int,
            seq![1u8, m@.curve] + le16(m@.threshold) + le16(m@.parties_count) + le16(m@.party_index)
                + lp(m@.tx_context),
            le32(m@.retry),
        );
        lemma_seq_chain(
            b@,
            s0,
            p_retry as int,
            p_fmt as int,
            seq![1u8, m@.curve] + le16(m@.threshold) + le16(m@.parties_count) + le16(m@.party_index)
                + lp(m@.tx_context) + le32(m@.retry),
            lp(m@.payload_format),
        );
        lemma_seq_chain(
            b@,
            s0,
            p_fmt as int,
            *pos as int,
            seq![1u8, m@.curve] + le16(m@.threshold) + le16(m@.parties_count) + le16(m@.party_index)
                + lp(m@.tx_context) + le32(m@.retry) + lp(m@.payload_format),
            lp(m@.key_id),
        );
        assert forall|mm: MetaModel, rest: Seq<u8>|
            meta_wf(mm) && b@.skip(p0) == spec_encode_meta(Some(mm)) + rest implies m@ == mm by {
            lemma_meta_layout(b@, p0, mm, rest);
            assert(b@.subrange(p0 + 1, p0 + 2) == seq![mm.curve]);
            assert(b@.subrange(p0 + 1, p0 + 2)[0] == b@[p0 + 1]);
            assert(b@[p0 + 1] == mm.curve);
            assert(b@.subrange(p_flag as int, p_curve as int) == seq![curve]);
            assert(b@.subrange(p_flag as int, p_curve as int)[0] == b@[p_flag as int]);
            assert(b@[p0 + 1] == curve);
            lemma_le16_inj(threshold, mm.threshold);
            lemma_le16_inj(parties_count, mm.parties_count);
            lemma_le16_inj(party_index, mm.party_index);
            assert(p_idx == p0 + 8);
            assert(tx_context@ == mm.tx_context);
            assert(p_tx == p0 + 12 + mm.tx_context.len());
            lemma_le32_inj(retry, mm.retry);
            assert(p_retry == p0 + 16 + mm.tx_context.len());
            assert(payload_format@ == mm.payload_format);
            assert(p_fmt == p0 + 20 + mm.tx_context.len() + mm.payload_format.len());
            assert(key_id@ == mm.key_id);
            assert(m@ =~= mm);
        }
    }
    Some(Some(m))
}

/// The envelope encoding, regrouped so that each field heads its own tail.
#[verifier::rlimit(100)]
proof fn lemma_encode_reassoc(em: EnvelopeModel)
    ensures
        spec_encode(em) == seq![em.version] + (lp(em.session_id) + (lp(em.execution_id) + (seq![
            phase_tag(em.phase),
        ] + (le16(em.from_party) + (le16(em.to_parties.len() as u16) + (words(em.to_parties) + (
        spec_encode_meta(em.meta) + (lp(em.payload) + (if em.phase is Signing {
            lp(em.tx_context)
        } else {
            Seq::<u8>::empty()
        }))))))))),
{
    let tail = if em.phase is Signing {
        lp(em.tx_context)
    } else {
        Seq::<u8>::empty()
    };
    let t_pl = lp(em.payload) + tail;
    let t_meta = spec_encode_meta(em.meta) + t_pl;
    let t_tp = words(em.to_parties) + t_meta;
    let t_cnt = le16(em.to_parties.len() as u16) + t_tp;
    let t_from = le16(em.from_party) + t_cnt;
    let t_tag = seq![phase_tag(em.phase)] + t_from;
    let t_eid = lp(em.execution_id) + t_tag;
    let l1 = seq![em.version] + lp(em.session_id);
    let l2 = l1 + lp(em.execution_id);
    let l3 = l2 + seq![phase_tag(em.phase)];
    let l4 = l3 + le16(em.from_party);
    let l5 = l4 + le16(em.to_parties.len() as u16);
    let l6 = l5 + words(em.to_parties);
    let l7 = l6 + spec_encode_meta(em.meta);
    lemma_add_assoc(l7, lp(em.payload), tail);
    lemma_add_assoc(l6, spec_encode_meta(em.meta), t_pl);
    lemma_add_assoc(l5, words(em.to_parties), t_meta);
    lemma_add_assoc(l4, le16(em.to_parties.len() as u16), t_tp);
    lemma_add_assoc(l3, le16(em.from_party), t_cnt);
    lemma_add_assoc(l2, seq![phase_tag(em.phase)], t_from);
    lemma_add_assoc(l1, lp(em.execution_id), t_tag);
    lemma_add_assoc(seq![em.version], lp(em.session_id), t_eid);
}

/// How the bytes of a whole encoded envelope are laid out.
#[verifier::rlimit(100)]
proof fn lemma_envelope_layout(b: Seq<u8>, em: EnvelopeModel)
    requires
        envelope_wf(em),
        b == spec_encode(em),
    ensures
        1 <= b.len(),
        b.subrange(0, 1) == seq![1u8],
        b.skip(1) == lp(em.session_id) + (lp(em.execution_id) + (seq![phase_tag(em.phase)] + (
        le16(em.from_party) + (le16(em.to_parties.len() as u16) + (words(em.to_parties) + (
        spec_encode_meta(em.meta) + (lp(em.payload) + (if em.phase is Signing {
            lp(em.tx_context)
        } else {
            Seq::<u8>::empty()
        })))))))),
        b.skip(5 + em.session_id.len() as int) == lp(em.execution_id) + (seq![phase_tag(em.phase)] + (
        le16(em.from_party) + (le16(em.to_parties.len() as u16) + (words(em.to_parties) + (
        spec_encode_meta(em.meta) + (lp(em.payload) + (if em.phase is Signing {
            lp(em.tx_context)
        } else {
            Seq::<u8>::empty()
        }))))))),
        b.subrange(
            9 + em.session_id.len() as int + em.execution_id.len() as int,
            10 + em.session_id.len() as int + em.execution_id.len() as int,
        ) == seq![phase_tag(em.phase)],
        b.subrange(
            10 + em.session_id.len() as int + em.execution_id.len() as int,
            12 + em.session_id.len() as int + em.execution_id.len() as int,
        ) == le16(em.from_party),
        b.subrange(
            12 + em.session_id.len() as int + em.execution_id.len() as int,
            14 + em.session_id.len() as int + em.execution_id.len() as int,
        ) == le16(em.to_parties.len() as u16),
        b.subrange(
            14 + em.session_id.len() as int + em.execution_id.len() as int,
            14 + em.session_id.len() as int + em.execution_id.len() as int + 2 * em.to_parties.len() as int,
        ) == words(em.to_parties),
        14 + em.session_id.len() as int + em.execution_id.len() as int + 2 * em.to_parties.len() as int <= b.len(),
        b.skip(14 + em.session_id.len() as int + em.execution_id.len() as int + 2 * em.to_parties.len() as int)
            == spec_encode_meta(em.meta) + (lp(em.payload) + (if em.phase is Signing {
            lp(em.tx_context)
        } else {
            Seq::<u8>::empty()
        })),
{
    let tail = if em.phase is Signing {
        lp(em.tx_context)
    } else {
        Seq::<u8>::empty()
    };
    let t_pl = lp(em.payload) + tail;
    let t_meta = spec_encode_meta(em.meta) + t_pl;
    let t_tp = words(em.to_parties) + t_meta;
    let t_cnt = le16(em.to_parties.len() as u16) + t_tp;
    let t_from = le16(em.from_party) + t_cnt;
    let t_tag = seq![phase_tag(em.phase)] + t_from;
    let t_eid = lp(em.execution_id) + t_tag;
    let t_sid = lp(em.session_id) + t_eid;
    lemma_encode_reassoc(em);
    assert(seq![em.version] =~= seq![1u8]);
    assert(spec_encode(em) == seq![1u8] + t_sid);
    assert(b.skip(0) =~= b);
    lemma_skip_concat(b, 0, seq![1u8], t_sid);
    lemma_skip_concat(b, 1, lp(em.session_id), t_eid);
    lemma_skip_concat(b, 5 + em.session_id.len() as int, lp(em.execution_id), t_tag);
    let p2 = 9 + em.session_id.len() as int + em.execution_id.len() as int;
    lemma_skip_concat(b, p2, seq![phase_tag(em.phase)], t_from);
    lemma_skip_concat(b, p2 + 1, le16(em.from_party), t_cnt);
    lemma_skip_concat(b, p2 + 3, le16(em.to_parties.len() as u16), t_tp);
    lemma_words_len(em.to_parties);
    lemma_skip_concat(b, p2 + 5, words(em.to_parties), t_meta);
}

/// A length-prefixed field at the head of a byte string determines itself
/// and the remainder.
#[verifier::rlimit(100)]
proof fn lemma_lp_head_inj(u: Seq<u8>, x: Seq<u8>, rx: Seq<u8>, y: Seq<u8>, ry: Seq<u8>)
    requires
        x.len() < max_field_len(),
        y.len() < max_field_len(),
        u == lp(x) + rx,
        u == lp(y) + ry,
    ensures
        x == y,
        rx == ry,
{
    assert(u.subrange(0, 4) =~= le32(x.len() as u32)) by {
        assert(forall|j: int| 0 <= j < 4 ==> u[j] == #[trigger] le32(x.len() as u32)[j]);
    };
    assert(u.subrange(0, 4) =~= le32(y.len() as u32)) by {
        assert(forall|j: int| 0 <= j < 4 ==> u[j] == #[trigger] le32(y.len() as u32)[j]);
    };
    lemma_le32_inj(x.len() as u32, y.len() as u32);
    assert(x =~= y) by {
        assert(forall|j: int| 0 <= j < x.len() ==> u[4 + j] == #[trigger] x[j]);
        assert(forall|j: int| 0 <= j < y.len() ==> u[4 + j] == #[trigger] y[j]);
    };
    assert(rx =~= ry) by {
        assert(forall|j: int| 0 <= j < rx.len() ==> #[trigger] rx[j] == u[4 + x.len() + j]);
        assert(forall|j: int| 0 <= j < ry.len() ==> #[trigger] ry[j] == u[4 + y.len() + j]);
    };
}

/// An encoded metadata block at the head of a suffix determines the block
/// and the remainder.
#[verifier::rlimit(100)]
proof fn lemma_meta_enc_inj(
    w: Seq<u8>,
    p: int,
    m1: Option<MetaModel>,
    r1: Seq<u8>,
    m2: Option<MetaModel>,
    r2: Seq<u8>,
)
    requires
        0 <= p <= w.len(),
        (m1 matches Some(mm) ==> meta_wf(mm)),
        (m2 matches Some(mm) ==> meta_wf(mm)),
        w.skip(p) == spec_encode_meta(m1) + r1,
        w.skip(p) == spec_encode_meta(m2) + r2,
    ensures
        m1 == m2,
        r1 == r2,
{
    match (m1, m2) {
        (None, None) => {
            lemma_skip_concat(w, p, seq![0u8], r1);
            lemma_skip_concat(w, p, seq![0u8], r2);
        },
        (Some(a), Some(c)) => {
            lemma_meta_layout(w, p, a, r1);
            lemma_meta_layout(w, p, c, r2);
            assert(w.subrange(p + 1, p + 2)[0] == w[p + 1]);
            assert(a.curve == c.curve);
            lemma_le16_inj(a.threshold, c.threshold);
            lemma_le16_inj(a.parties_count, c.parties_count);
            lemma_le16_inj(a.party_index, c.party_index);
            lemma_lp_head_inj(
                w.skip(p + 8),
                a.tx_context,
                le32(a.retry) + (lp(a.payload_format) + (lp(a.key_id) + r1)),
                c.tx_context,
                le32(c.retry) + (lp(c.payload_format) + (lp(c.key_id) + r2)),
            );
            lemma_le32_inj(a.retry, c.retry);
            lemma_lp_head_inj(
                w.skip(p + 16 + a.tx_context.len() as int),
                a.payload_format,
                lp(a.key_id) + r1,
                c.payload_format,
                lp(c.key_id) + r2,
            );
            lemma_lp_head_inj(
                w.skip(p + 20 + a.tx_context.len() as int + a.payload_format.len() as int),
                a.key_id,
                r1,
                c.key_id,
                r2,
            );
            assert(a =~= c);
        },
        (None, Some(c)) => {
            lemma_meta_layout(w, p, c, r2);
            assert(w.subrange(p, p + 1)[0] == w[p]);
            assert(w.skip(p)[0] == w[p]);
            assert((spec_encode_meta(None) + r1)[0] == 0);
        },
        (Some(a), None) => {
            lemma_meta_layout(w, p, a, r1);
            assert(w.subrange(p, p + 1)[0] == w[p]);
            assert(w.skip(p)[0] == w[p]);
            assert((spec_encode_meta(None) + r2)[0] == 0);
        },
    }
}

/// The wire encoding is injective: two well-formed envelopes with the same
/// bytes are the same envelope.
#[verifier::rlimit(100)]
pub proof fn lemma_spec_encode_inj(a: EnvelopeModel, c: EnvelopeModel)
    requires
        envelope_wf(a),
        envelope_wf(c),
        spec_encode(a) == spec_encode(c),
    ensures
        a == c,
{
    let w = spec_encode(a);
    lemma_envelope_layout(w, a);
    lemma_envelope_layout(w, c);
    lemma_lp_head_inj(
        w.skip(1),
        a.session_id,
        lp(a.execution_id) + (seq![phase_tag(a.phase)] + (le16(a.from_party) + (le16(
            a.to_parties.len() as u16,
        ) + (words(a.to_parties) + (spec_encode_meta(a.meta) + (lp(a.payload) + (if a.phase
            is Signing {
            lp(a.tx_context)
        } else {
            Seq::<u8>::empty()
        }))))))),
        c.session_id,
        lp(c.execution_id) + (seq![phase_tag(c.phase)] + (le16(c.from_party) + (le16(
            c.to_parties.len() as u16,
        ) + (words(c.to_parties) + (spec_encode_meta(c.meta) + (lp(c.payload) + (if c.phase
            is Signing {
            lp(c.tx_context)
        } else {
            Seq::<u8>::empty()
        }))))))),
    );
    let p1 = 5 + a.session_id.len() as int;
    lemma_lp_head_inj(
        w.skip(p1),
        a.execution_id,
        seq![phase_tag(a.phase)] + (le16(a.from_party) + (le16(a.to_parties.len() as u16) + (
        words(a.to_parties) + (spec_encode_meta(a.meta) + (lp(a.payload) + (if a.phase
            is Signing {
            lp(a.tx_context)
        } else {
            Seq::<u8>::empty()
        })))))),
        c.execution_id,
        seq![phase_tag(c.phase)] + (le16(c.from_party) + (le16(c.to_parties.len() as u16) + (
        words(c.to_parties) + (spec_encode_meta(c.meta) + (lp(c.payload) + (if c.phase
            is Signing {
            lp(c.tx_context)
        } else {
            Seq::<u8>::empty()
        })))))),
    );
    let p2 = 9 + a.session_id.len() as int + a.execution_id.len() as int;
    assert(w.subrange(p2, p2 + 1)[0] == w[p2]);
    assert(phase_tag(a.phase) == phase_tag(c.phase));
    assert(a.phase == c.phase);
    lemma_le16_inj(a.from_party, c.from_party);
    lemma_le16_inj(a.to_parties.len() as u16, c.to_parties.len() as u16);
    assert(a.to_parties.len() == c.to_parties.len());
    lemma_words_inj(a.to_parties, c.to_parties);
    let p4 = p2 + 5 + 2 * a.to_parties.len() as int;
    lemma_meta_enc_inj(
        w,
        p4,
        a.meta,
        lp(a.payload) + (if a.phase is Signing {
            lp(a.tx_context)
        } else {
            Seq::<u8>::empty()
        }),
        c.meta,
        lp(c.payload) + (if c.phase is Signing {
            lp(c.tx_context)
        } else {
            Seq::<u8>::empty()
        }),
    );
    lemma_lp_head_inj(
        lp(a.payload) + (if a.phase is Signing {
            lp(a.tx_context)
        } else {
            Seq::<u8>::empty()
        }),
        a.payload,
        if a.phase is Signing {
            lp(a.tx_context)
        } else {
            Seq::<u8>::empty()
        },
        c.payload,
        if c.phase is Signing {
            lp(c.tx_context)
        } else {
            Seq::<u8>::empty()
        },
    );
    if a.phase is Signing {
        assert(lp(a.tx_context) =~= lp(a.tx_context) + Seq::<u8>::empty());
        assert(lp(c.tx_context) =~= lp(c.tx_context) + Seq::<u8>::empty());
        lemma_lp_head_inj(
            lp(a.tx_context),
            a.tx_context,
            Seq::<u8>::empty(),
            c.tx_context,
            Seq::<u8>::empty(),
        );
    } else {
        assert(a.tx_context =~= c.tx_context);
    }
    assert(a =~= c);
}

/// The leading fixed fields of an envelope: version, identifiers, phase tag,
/// sender and recipient count.
struct Preamble {
    session_id: Vec<u8>,
    execution_id: Vec<u8>,
    phase: Phase,
    from_party: u16,
    count: u16,
}

/// Reads an envelope's preamble. Sound (the consumed bytes are exactly the
/// preamble's encoding) and complete (on the encoding of a well-formed
/// envelope it succeeds with that envelope's leading fields).
#[verifier::rlimit(100)]
fn read_preamble(b: &[u8], pos: &mut usize) -> (r: Option<Preamble>)
    requires
        *old(pos) == 0,
    ensures
        r matches Some(h) ==> {
            &&& *final(pos) == 14 + h.session_id@.len() + h.execution_id@.len()
            &&& *final(pos) <= b@.len()
            &&& h.session_id@.len() < max_field_len()
            &&& h.execution_id@.len() < max_field_len()
            &&& b@.subrange(0, *final(pos) as int) == seq![1u8] + lp(h.session_id@) + lp(
                h.execution_id@,
            ) + seq![phase_tag(h.phase)] + le16(h.from_party) + le16(h.count)
        },
        forall|em: EnvelopeModel|
            (envelope_wf(em) && b@ == spec_encode(em)) ==> ((r matches Some(h) && (h.session_id@
                == em.session_id && h.execution_id@ == em.execution_id && h.phase == em.phase
                && h.from_party == em.from_party && h.count == em.to_parties.len() as u16))),
{
    let version = match read_u8(b, pos) {
        Some(v) => v,
        None => {
            proof {
                assert forall|em: EnvelopeModel|
                    envelope_wf(em) && b@ == spec_encode(em) implies false by {
                    lemma_envelope_layout(b@, em);
                }
            }
            return None;
        },
    };
    if version != 1 {
        proof {
            assert(b@.subrange(0, 1)[0] == b@[0]);
            assert forall|em: EnvelopeModel|
                envelope_wf(em) && b@ == spec_encode(em) implies false by {
                lemma_envelope_layout(b@, em);
                assert(b@[0] == 1);
            }
        }
        return None;
    }
    let session_id = match read_lp(b, pos) {
        Some(v) => v,
        None => {
            proof {
                assert forall|em: EnvelopeModel|
                    envelope_wf(em) && b@ == spec_encode(em) implies false by {
                    lemma_envelope_layout(b@, em);
                }
            }
            return None;
        },
    };
    let ghost p_sid = *pos;
    let execution_id = match read_lp(b, pos) {
        Some(v) => v,
        None => {
            proof {
                assert forall|em: EnvelopeModel|
                    envelope_wf(em) && b@ == spec_encode(em) implies false by {
                    lemma_envelope_layout(b@, em);
                    assert(session_id@ == em.session_id);
                }
            }
            return None;
        },
    };
    let ghost p_eid = *pos;
    let tag = match read_u8(b, pos) {
        Some(v) => v,
        None => {
            proof {
                assert forall|em: EnvelopeModel|
                    envelope_wf(em) && b@ == spec_encode(em) implies false by {
                    lemma_envelope_layout(b@, em);
                    assert(session_id@ == em.session_id);
                    assert(execution_id@ == em.execution_id);
                }
            }
            return None;
        },
    };
    proof {
        assert(b@.subrange(p_eid as int, p_eid + 1)[0] == b@[p_eid as int]);
    }
    let phase = if tag == 1 {
        Phase::Keygen
    } else if tag == 2 {
        Phase::AuxInfo
    } else if tag == 3 {
        Phase::Signing
    } else {
        proof {
            assert forall|em: EnvelopeModel|
                envelope_wf(em) && b@ == spec_encode(em) implies false by {
                lemma_envelope_layout(b@, em);
                assert(session_id@ == em.session_id);
                assert(execution_id@ == em.execution_id);
                assert(b@.subrange(p_eid as int, p_eid + 1) == seq![phase_tag(em.phase)]);
                assert(b@[p_eid as int] == phase_tag(em.phase));
            }
        }
        return None;
    };
    let ghost p_tag = *pos;
    let from_party = match read_le16(b, pos) {
        Some(v) => v,
        None => {
            proof {
                assert forall|em: EnvelopeModel|
                    envelope_wf(em) && b@ == spec_encode(em) implies false by {
                    lemma_envelope_layout(b@, em);
                    assert(session_id@ == em.session_id);
                    assert(execution_id@ == em.execution_id);
                }
            }
            return None;
        },
    };
    let ghost p_from = *pos;
    let count = match read_le16(b, pos) {
        Some(v) => v,
        None => {
            proof {
                assert forall|em: EnvelopeModel|
                    envelope_wf(em) && b@ == spec_encode(em) implies false by {
                    lemma_envelope_layout(b@, em);
                    assert(session_id@ == em.session_id);
                    assert(execution_id@ == em.execution_id);
                }
            }
            return None;
        },
    };
    let h = Preamble { session_id, execution_id, phase, from_party, count };
    proof {
        let c0 = seq![1u8];
        let c1 = c0 + lp(h.session_id@);
        let c2 = c1 + lp(h.execution_id@);
        let c3 = c2 + seq![phase_tag(h.phase)];
        let c4 = c3 + le16(h.from_party);
        assert(b@.subrange(0, 1) =~= c0);
        lemma_seq_chain(b@, 0, 1, p_sid as int, c0, lp(h.session_id@));
        lemma_seq_chain(b@, 0, p_sid as int, p_eid as int, c1, lp(h.execution_id@));
        lemma_seq_chain(b@, 0, p_eid as int, p_tag as int, c2, seq![phase_tag(h.phase)]);
        lemma_seq_chain(b@, 0, p_tag as int, p_from as int, c3, le16(h.from_party));
        lemma_seq_chain(b@, 0, p_from as int, *pos as int, c4, le16(h.count));
        assert forall|em: EnvelopeModel|
            envelope_wf(em) && b@ == spec_encode(em) implies (h.session_id@ == em.session_id
            && h.execution_id@ == em.execution_id && h.phase == em.phase && h.from_party
            == em.from_party && h.count == em.to_parties.len() as u16) by {
            lemma_envelope_layout(b@, em);
            assert(session_id@ == em.session_id);
            assert(execution_id@ == em.execution_id);
            assert(b@.subrange(p_eid as int, p_eid + 1) == seq![phase_tag(em.phase)]);
            assert(b@[p_eid as int] == phase_tag(em.phase));
            assert(h.phase == em.phase);
            assert(b@.subrange(p_tag as int, p_from as int) == le16(em.from_party));
            lemma_le16_inj(from_party, em.from_party);
            assert(b@.subrange(p_from as int, *pos as int) == le16(em.to_parties.len() as u16));
            lemma_le16_inj(count, em.to_parties.len() as u16);
        }
    }
    Some(h)
}

/// Decodes wire bytes into an envelope. The decoder is sound and complete:
/// whenever it succeeds, the decoded envelope is well formed and re-encodes
/// to exactly the input bytes; and on the encoding of any well-formed
/// envelope it succeeds and returns exactly that envelope. Together with
/// [`lemma_spec_encode_inj`] this gives the encode/decode round trip.
/// Truncated or structurally invalid input yields `None`.
#[verifier::rlimit(100)]
pub fn decode_envelope(b: &[u8]) -> (r: Option<Envelope>)
    ensures
        r matches Some(e) ==> {
            &&& envelope_wf(e@)
            &&& spec_encode(e@) == b@
        },
        forall|em: EnvelopeModel|
            (envelope_wf(em) && b@ == spec_encode(em)) ==> ((r matches Some(d) && d@ == em)),
{
    let mut pos: usize = 0;
    let pre = match read_preamble(b, &mut pos) {
        Some(h) => h,
        None => { return None; },
    };
    let Preamble { session_id, execution_id, phase, from_party, count } = pre;
    let ghost p_count = pos;
    let blen: usize = b.len();
    if 2 * (count as usize) > blen - pos {
        proof {
            assert forall|em: EnvelopeModel|
                envelope_wf(em) && b@ == spec_encode(em) implies false by {
                lemma_envelope_layout(b@, em);
            }
        }
        return None;
    }
    let mut to_parties: Vec<u16> = Vec::new();
    let mut i: usize = 0;
    while i < count as usize
        invariant
            i <= count as usize,
            to_parties@.len() == i,
            blen == b@.len(),
            p_count + 2 * (count as usize) <= blen,
            pos == p_count + 2 * i,
            b@.subrange(p_count as int, pos as int) == words(to_parties@),
        decreases count as usize - i,
    {
        let ghost pre_tp = to_parties@;
        let ghost q0 = pos;
        let w = match read_le16(b, &mut pos) {
            Some(v) => v,
            None => {
                proof {
                    assert(false);
                }
                return None;
            },
        };
        to_parties.push(w);
        proof {
            lemma_words_push(pre_tp, w);
            assert(b@.subrange(p_count as int, pos as int) =~= b@.subrange(p_count as int, q0 as int)
                + b@.subrange(q0 as int, pos as int));
        }
        i = i + 1;
    }
    let ghost p_parties = pos;
    let meta = match read_meta(b, &mut pos) {
        Some(m) => m,
        None => {
            proof {
                assert forall|em: EnvelopeModel|
                    envelope_wf(em) && b@ == spec_encode(em) implies false by {
                    lemma_envelope_layout(b@, em);
                    assert(p_parties == p_count + 2 * em.to_parties.len());
                }
            }
            return None;
        },
    };
    let ghost p_meta = pos;
    let payload = match read_lp(b, &mut pos) {
        Some(v) => v,
        None => {
            proof {
                assert forall|em: EnvelopeModel|
                    envelope_wf(em) && b@ == spec_encode(em) implies false by {
                    lemma_envelope_layout(b@, em);
                    assert(p_parties == p_count + 2 * em.to_parties.len());
                    let m_model = match meta {
                        Some(m) => Some(m@),
                        None => None,
                    };
                    assert(m_model == em.meta);
                    assert(p_meta == p_parties + spec_encode_meta(em.meta).len());
                    lemma_skip_concat(
                        b@,
                        p_parties as int,
                        spec_encode_meta(em.meta),
                        lp(em.payload) + (if em.phase is Signing {
                            lp(em.tx_context)
                        } else {
                            Seq::<u8>::empty()
                        }),
                    );
                }
            }
            return None;
        },
    };
    let ghost p_payload = pos;
    let tx_context: Vec<u8> = if let Phase::Signing = phase {
        match read_lp(b, &mut pos) {
            Some(v) => v,
            None => {
                proof {
                    assert forall|em: EnvelopeModel|
                        envelope_wf(em) && b@ == spec_encode(em) implies false by {
                        lemma_envelope_layout(b@, em);
                        assert(em.phase is Signing);
                        assert(p_parties == p_count + 2 * em.to_parties.len());
                        let m_model = match meta {
                            Some(m) => Some(m@),
                            None => None,
                        };
                        assert(m_model == em.meta);
                        assert(p_meta == p_parties + spec_encode_meta(em.meta).len());
                        lemma_skip_concat(
                            b@,
                            p_parties as int,
                            spec_encode_meta(em.meta),
                            lp(em.payload) + lp(em.tx_context),
                        );
                        assert(payload@ == em.payload);
                        assert(p_payload == p_meta + 4 + em.payload.len());
                        lemma_skip_concat(b@, p_meta as int, lp(em.payload), lp(em.tx_context));
                        assert(b@.skip(p_payload as int) =~= lp(em.tx_context) + Seq::<u8>::empty());
                    }
                }
                return None;
            },
        }
    } else {
        Vec::new()
    };
    if pos != b.len() {
        proof {
            assert forall|em: EnvelopeModel|
                envelope_wf(em) && b@ == spec_encode(em) implies false by {
                lemma_envelope_layout(b@, em);
                assert(p_parties == p_count + 2 * em.to_parties.len());
                let m_model = match meta {
                    Some(m) => Some(m@),
                    None => None,
                };
                assert(m_model == em.meta);
                assert(p_meta == p_parties + spec_encode_meta(em.meta).len());
                let tail = if em.phase is Signing {
                    lp(em.tx_context)
                } else {
                    Seq::<u8>::empty()
                };
                lemma_skip_concat(b@, p_parties as int, spec_encode_meta(em.meta), lp(em.payload) + tail);
                assert(payload@ == em.payload);
                assert(p_payload == p_meta + 4 + em.payload.len());
                lemma_skip_concat(b@, p_meta as int, lp(em.payload), tail);
                if em.phase is Signing {
                    assert(b@.skip(p_payload as int) =~= lp(em.tx_context) + Seq::<u8>::empty());
                    assert(tx_context@ == em.tx_context);
                    assert(pos == p_payload + 4 + em.tx_context.len());
                    lemma_skip_concat(b@, p_payload as int, lp(em.tx_context), Seq::<u8>::empty());
                    assert(b@.skip(pos as int).len() == 0);
                } else {
                    assert(b@.skip(p_payload as int).len() == 0);
                }
            }
        }
        return None;
    }
    let e = Envelope {
        version: 1,
        session_id,
        execution_id,
        phase,
        from_party,
        to_parties,
        meta,
        payload,
        tx_context,
    };
    proof {
        assert(spec_encode(e@) =~= b@) by {
            let m = match &e.meta {
                Some(m) => Some(m@),
                None => None,
            };
            let c5 = seq![1u8] + lp(session_id@) + lp(execution_id@) + seq![phase_tag(phase)]
                + le16(from_party) + le16(count);
            let c6 = c5 + words(to_parties@);
            let c7 = c6 + spec_encode_meta(m);
            let c8 = c7 + lp(payload@);
            lemma_seq_chain(b@, 0, p_count as int, p_parties as int, c5, words(to_parties@));
            lemma_seq_chain(b@, 0, p_parties as int, p_meta as int, c6, spec_encode_meta(m));
            lemma_seq_chain(b@, 0, p_meta as int, p_payload as int, c7, lp(payload@));
            if e.phase is Signing {
                lemma_seq_chain(b@, 0, p_payload as int, pos as int, c8, lp(tx_context@));
            } else {
                assert(b@.subrange(0, pos as int) =~= c8);
            }
            assert(b@.subrange(0, pos as int) =~= b@);
            assert(count == to_parties@.len() as u16);
        };
        assert forall|em: EnvelopeModel|
            envelope_wf(em) && b@ == spec_encode(em) implies e@ == em by {
            lemma_spec_encode_inj(e@, em);
        }
    }
    Some(e)
}

/// Runtime check of the wire bounds an envelope must satisfy to be encoded.
pub fn envelope_wf_exec(e: &Envelope) -> (r: bool)
    ensures
        r == envelope_wf(e@),
{
    let meta_ok = match &e.meta {
        None => true,
        Some(m) => (m.tx_context.len() as u64) < 4294967296u64 && (m.payload_format.len() as u64)
            < 4294967296u64 && (m.key_id.len() as u64) < 4294967296u64,
    };
    let tx_ok = match e.phase {
        Phase::Signing => true,
        _ => e.tx_context.len() == 0,
    };
    proof {
        if e.tx_context@.len() == 0 {
            assert(e.tx_context@ =~= Seq::<u8>::empty());
        }
    }
    e.version == 1 && (e.session_id.len() as u64) < 4294967296u64 && (e.execution_id.len() as u64)
        < 4294967296u64 && e.to_parties.len() < 65536 && (e.payload.len() as u64) < 4294967296u64
        && (e.tx_context.len() as u64) < 4294967296u64 && meta_ok && tx_ok
}

/// Encodes a batch of envelopes into wire buffers, in order. Fails exactly
/// when some envelope exceeds the wire format's machine bounds.
pub fn encode_envelopes_bin(envs: &Vec<Envelope>) -> (r: Result<Vec<Vec<u8>>, crate::errors::SessionError>)
    ensures
        r is Ok <==> (forall|i: int| 0 <= i < envs@.len() ==> envelope_wf(#[trigger] envs@[i]@)),
        r matches Ok(out) ==> {
            &&& out@.len() == envs@.len()
            &&& forall|i: int| 0 <= i < out@.len() ==> #[trigger] out@[i]@ == spec_encode(envs@[i]@)
        },
        r matches Err(e) ==> e == crate::errors::SessionError::Serialization,
{
    let mut out: Vec<Vec<u8>> = Vec::new();
    let mut i: usize = 0;
    while i < envs.len()
        invariant
            i <= envs@.len(),
            out@.len() == i,
            forall|j: int| 0 <= j < i ==> envelope_wf(#[trigger] envs@[j]@),
            forall|j: int| 0 <= j < i ==> #[trigger] out@[j]@ == spec_encode(envs@[j]@),
        decreases envs@.len() - i,
    {
        if !envelope_wf_exec(&envs[i]) {
            return Err(crate::errors::SessionError::Serialization);
        }
        let buf = encode_envelope(&envs[i]);
        out.push(buf);
        i = i + 1;
    }
    Ok(out)
}

} // verus!
