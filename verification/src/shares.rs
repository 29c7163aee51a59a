use vstd::prelude::*;
use crate::hexstr::{hex_decode_spec, hex_encode, hex_encode_spec, hex_val, is_hex_string};

verus! {

/// Whether `b` is the ASCII code of a lower-case hexadecimal digit, the only
/// digits the combined-share text format uses.
pub open spec fn is_lower_hex_digit(b: u8) -> bool {
    (48 <= b && b <= 57) || (97 <= b && b <= 102)
}

/// Whether `s` is a canonical (lower-case) hexadecimal string.
pub open spec fn is_lower_hex(s: Seq<u8>) -> bool {
    s.len() % 2 == 0 && (forall|i: int| 0 <= i < s.len() ==> is_lower_hex_digit(#[trigger] s[i]))
}

/// A canonical hexadecimal string is a hexadecimal string, and decoding then
/// re-encoding it gives it back unchanged.
pub proof fn lemma_lower_hex_canonical(s: Seq<u8>)
    requires
        is_lower_hex(s),
    ensures
        is_hex_string(s),
        hex_encode_spec(hex_decode_spec(s)) == s,
{
    let d = hex_decode_spec(s);
    let e = hex_encode_spec(d);
    assert(e.len() == s.len());
    assert forall|i: int| 0 <= i < s.len() implies e[i] == s[i] by {
        let hi = s[2 * (i / 2)];
        let lo = s[2 * (i / 2) + 1];
        let x = d[i / 2];
        assert(x == (16 * hex_val(hi) + hex_val(lo)) as u8);
        assert(hex_val(hi) < 16 && hex_val(lo) < 16);
        assert(x / 16 == hex_val(hi) && x % 16 == hex_val(lo)) by (nonlinear_arith)
            requires
                x == 16 * hex_val(hi) + hex_val(lo),
                hex_val(hi) < 16,
                hex_val(lo) < 16,
        ;
        if i % 2 == 0 {
            assert(i / 2 * 2 == i);
        } else {
            assert(2 * (i / 2) + 1 == i);
        }
    }
    assert(e =~= s);
}

/// The encoding of any bytes is a canonical hexadecimal string, and decoding
/// it gives the bytes back.
pub proof fn lemma_encode_is_lower(b: Seq<u8>)
    ensures
        is_lower_hex(hex_encode_spec(b)),
        hex_decode_spec(hex_encode_spec(b)) == b,
{
    let s = hex_encode_spec(b);
    assert forall|i: int| 0 <= i < s.len() implies is_lower_hex_digit(#[trigger] s[i]) by {
        let x = b[i / 2];
        assert(x / 16 < 16 && x % 16 < 16);
    }
    crate::hexstr::lemma_hex_round_trip(b);
}

/// The structured text form of a combined key share: the lower-case
/// hexadecimal core share, a colon, the lower-case hexadecimal auxiliary
/// info.
pub open spec fn combined_encoding(core: Seq<u8>, aux: Seq<u8>) -> Seq<u8> {
    hex_encode_spec(core) + seq![58u8] + hex_encode_spec(aux)
}

/// Whether `b` is the encoding of some combined key share.
pub open spec fn is_combined(b: Seq<u8>) -> bool {
    exists|core: Seq<u8>, aux: Seq<u8>| b == combined_encoding(core, aux)
}

/// Serializes a combined key share from its two parts.
pub fn encode_combined(core: &Vec<u8>, aux: &Vec<u8>) -> (r: Vec<u8>)
    ensures
        r@ == combined_encoding(core@, aux@),
{
    let mut out = hex_encode(core.as_slice());
    out.push(58);
    let mut auxhex = hex_encode(aux.as_slice());
    out.append(&mut auxhex);
    assert(out@ =~= combined_encoding(core@, aux@));
    out
}

/// Decodes the canonical hexadecimal substring `b[from..to]`, if well formed.
fn lower_hex_decode_range(b: &[u8], from: usize, to: usize) -> (r: Option<Vec<u8>>)
    requires
        from <= to <= b@.len(),
    ensures
        r is Some <==> is_lower_hex(b@.subrange(from as int, to as int)),
        r matches Some(v) ==> v@ == hex_decode_spec(b@.subrange(from as int, to as int))
            && hex_encode_spec(v@) == b@.subrange(from as int, to as int),
{
    let ghost part = b@.subrange(from as int, to as int);
    if (to - from) % 2 != 0 {
        return None;
    }
    let mut out: Vec<u8> = Vec::new();
    let mut i: usize = from;
    while i < to
        invariant
            from <= i <= to <= b@.len(),
            (to - from) % 2 == 0,
            (i - from) % 2 == 0,
            part == b@.subrange(from as int, to as int),
            forall|j: int| from <= j < i ==> is_lower_hex_digit(#[trigger] b@[j]),
            out@.len() == (i - from) / 2,
            forall|j: int|
                0 <= j < out@.len() ==> #[trigger] out@[j] == (16 * hex_val(part[2 * j]) + hex_val(
                    part[2 * j + 1],
                )) as u8,
        decreases to - i,
    {
        let hi = b[i];
        let lo = b[i + 1];
        let hv: u8 = if 48 <= hi && hi <= 57 {
            hi - 48
        } else if 97 <= hi && hi <= 102 {
            hi - 87
        } else {
            proof {
                assert(part[i - from] == b@[i as int]);
                assert(!is_lower_hex_digit(part[i - from]));
            }
            return None;
        };
        let lv: u8 = if 48 <= lo && lo <= 57 {
            lo - 48
        } else if 97 <= lo && lo <= 102 {
            lo - 87
        } else {
            proof {
                assert(i + 1 < to);
                assert(part[i + 1 - from] == b@[i + 1]);
                assert(!is_lower_hex_digit(part[i + 1 - from]));
            }
            return None;
        };
        out.push(16 * hv + lv);
        i = i + 2;
    }
    proof {
        assert(out@ =~= hex_decode_spec(part));
        lemma_lower_hex_canonical(part);
    }
    Some(out)
}

proof fn lemma_no_colon_not_combined(b: Seq<u8>)
    requires
        forall|j: int| 0 <= j < b.len() ==> b[j] != 58,
    ensures
        !is_combined(b),
{
    if is_combined(b) {
        let (core, aux) = choose|core: Seq<u8>, aux: Seq<u8>| b == combined_encoding(core, aux);
        assert(b[2 * core.len() as int] == 58);
    }
}

#[verifier::rlimit(60)]
proof fn lemma_split_not_combined(b: Seq<u8>, sep: int)
    requires
        0 <= sep < b.len(),
        b[sep] == 58,
        forall|j: int| 0 <= j < sep ==> b[j] != 58,
        !(is_lower_hex(b.subrange(0, sep)) && is_lower_hex(b.subrange(sep + 1, b.len() as int))),
    ensures
        !is_combined(b),
{
    if is_combined(b) {
        let (core, aux) = choose|core: Seq<u8>, aux: Seq<u8>| b == combined_encoding(core, aux);
        lemma_encode_is_lower(core);
        lemma_encode_is_lower(aux);
        let h = hex_encode_spec(core);
        let g = hex_encode_spec(aux);
        assert(sep == h.len()) by {
            assert(forall|j: int| 0 <= j < h.len() ==> b[j] == h[j]);
            assert(b[h.len() as int] == 58);
            if sep < h.len() {
                assert(is_lower_hex_digit(b[sep]));
            }
            if sep > h.len() {
                assert(b[h.len() as int] != 58);
            }
        };
        assert(b.subrange(0, sep) =~= h);
        assert(b.subrange(sep + 1, b.len() as int) =~= g);
    }
}

#[verifier::rlimit(60)]
proof fn lemma_split_combined(b: Seq<u8>, sep: int, c: Seq<u8>, a: Seq<u8>)
    requires
        0 <= sep < b.len(),
        b[sep] == 58,
        b.subrange(0, sep) == hex_encode_spec(c),
        b.subrange(sep + 1, b.len() as int) == hex_encode_spec(a),
    ensures
        b == combined_encoding(c, a),
{
    assert(b =~= b.subrange(0, sep) + seq![58u8] + b.subrange(sep + 1, b.len() as int));
}

/// Deserializes a combined key share. Exactly the well-formed encodings are
/// accepted, and parsing inverts [`encode_combined`].
#[verifier::rlimit(60)]
pub fn parse_combined(b: &[u8]) -> (r: Option<(Vec<u8>, Vec<u8>)>)
    ensures
        r matches Some(p) ==> b@ == combined_encoding(p.0@, p.1@),
        r is Some <==> is_combined(b@),
{
    let mut sep: usize = 0;
    let mut found = false;
    let mut i: usize = 0;
    while i < b.len()
        invariant
            i <= b@.len(),
            !found ==> forall|j: int| 0 <= j < i ==> b@[j] != 58,
            found ==> 0 <= sep < i && b@[sep as int] == 58 && (forall|j: int|
                0 <= j < sep ==> b@[j] != 58),
        decreases b@.len() - i,
    {
        if !found && b[i] == 58 {
            sep = i;
            found = true;
        }
        i = i + 1;
    }
    if !found {
        proof {
            lemma_no_colon_not_combined(b@);
        }
        return None;
    }
    let head: Option<Vec<u8>> = lower_hex_decode_range(b, 0, sep);
    let tail: Option<Vec<u8>> = lower_hex_decode_range(b, sep + 1, b.len());
    match (head, tail) {
        (Some(c), Some(a)) => {
            proof {
                lemma_split_combined(b@, sep as int, c@, a@);
            }
            Some((c, a))
        },
        _ => {
            proof {
                lemma_split_not_combined(b@, sep as int);
            }
            None
        },
    }
}

/// The standard-alphabet base64 decoding of `b`, if `b` is valid base64, as
/// the `base64` crate computes it: a function of the input bytes alone.
pub uninterp spec fn base64_decoding(b: Seq<u8>) -> Option<Seq<u8>>;

/// Relies on `base64::engine::general_purpose::STANDARD`'s `decode`: decodes
/// standard-alphabet base64, deterministically in the input alone, and fails
/// exactly on invalid base64.
#[verifier::external_body]
pub fn b64_decode(data: &[u8]) -> (r: Option<Vec<u8>>)
    ensures
        r matches Some(v) ==> base64_decoding(data@) == Some(v@),
        r is None ==> base64_decoding(data@) is None,
{
    match base64::Engine::decode(&base64::engine::general_purpose::STANDARD, data) {
        Ok(v) => Some(v),
        Err(_) => None,
    }
}

/// Combination is deterministic and injective: the same parts always give
/// the same combined share, and a combined share determines its parts.
pub proof fn lemma_combined_injective(c1: Seq<u8>, a1: Seq<u8>, c2: Seq<u8>, a2: Seq<u8>)
    ensures
        c1 == c2 && a1 == a2 ==> combined_encoding(c1, a1) == combined_encoding(c2, a2),
        combined_encoding(c1, a1) == combined_encoding(c2, a2) ==> c1 == c2 && a1 == a2,
{
    if combined_encoding(c1, a1) == combined_encoding(c2, a2) {
        let b = combined_encoding(c1, a1);
        let h1 = hex_encode_spec(c1);
        let h2 = hex_encode_spec(c2);
        let g1 = hex_encode_spec(a1);
        let g2 = hex_encode_spec(a2);
        lemma_encode_is_lower(c1);
        lemma_encode_is_lower(c2);
        lemma_encode_is_lower(a1);
        lemma_encode_is_lower(a2);
        assert(b == h1 + seq![58u8] + g1);
        assert(b == h2 + seq![58u8] + g2);
        assert(c1.len() == c2.len()) by {
            if h1.len() < h2.len() {
                assert(b[h1.len() as int] == 58);
                assert(b[h1.len() as int] == h2[h1.len() as int]);
                assert(is_lower_hex_digit(h2[h1.len() as int]));
            }
            if h2.len() < h1.len() {
                assert(b[h2.len() as int] == 58);
                assert(b[h2.len() as int] == h1[h2.len() as int]);
                assert(is_lower_hex_digit(h1[h2.len() as int]));
            }
        };
        assert forall|j: int| 0 <= j < h1.len() implies h1[j] == h2[j] by {
            assert(b[j] == h1[j]);
            assert(b[j] == h2[j]);
        }
        assert(h1 =~= h2);
        assert(a1.len() == a2.len());
        assert forall|j: int| 0 <= j < g1.len() implies g1[j] == g2[j] by {
            assert(b[h1.len() + 1 + j] == g1[j]);
            assert(b[h1.len() + 1 + j] == g2[j]);
        }
        assert(g1 =~= g2);
        assert(c1 =~= c2) by {
            assert(hex_decode_spec(h1) == c1);
            assert(hex_decode_spec(h2) == c2);
        };
        assert(a1 =~= a2) by {
            assert(hex_decode_spec(g1) == a1);
            assert(hex_decode_spec(g2) == a2);
        };
    }
}

} // verus!
