use vstd::prelude::*;

verus! {

/// Whether `b` is the ASCII code of a hexadecimal digit.
pub open spec fn is_hex_digit(b: u8) -> bool {
    (48 <= b && b <= 57) || (97 <= b && b <= 102) || (65 <= b && b <= 70)
}

/// Numeric value of the hexadecimal digit with ASCII code `b`.
pub open spec fn hex_val(b: u8) -> u8
    recommends
        is_hex_digit(b),
{
    if 48 <= b && b <= 57 {
        (b - 48) as u8
    } else if 97 <= b && b <= 102 {
        (b - 87) as u8
    } else {
        (b - 55) as u8
    }
}

/// Lower-case ASCII digit for the nibble `n`.
pub open spec fn hex_digit_of(n: u8) -> u8
    recommends
        n < 16,
{
    if n < 10 {
        (48 + n) as u8
    } else {
        (87 + n) as u8
    }
}

/// Whether `s` is a well-formed hexadecimal string: even length, digits only.
pub open spec fn is_hex_string(s: Seq<u8>) -> bool {
    s.len() % 2 == 0 && (forall|i: int| 0 <= i < s.len() ==> is_hex_digit(#[trigger] s[i]))
}

/// The bytes denoted by the hexadecimal string `s`.
pub open spec fn hex_decode_spec(s: Seq<u8>) -> Seq<u8>
    recommends
        is_hex_string(s),
{
    Seq::new(s.len() / 2, |i: int| (16 * hex_val(s[2 * i]) + hex_val(s[2 * i + 1])) as u8)
}

/// The lower-case hexadecimal string denoting the bytes `b`.
pub open spec fn hex_encode_spec(b: Seq<u8>) -> Seq<u8> {
    Seq::new(
        2 * b.len(),
        |i: int|
            if i % 2 == 0 {
                hex_digit_of((b[i / 2] / 16) as u8)
            } else {
                hex_digit_of((b[i / 2] % 16) as u8)
            },
    )
}

/// Value of one hexadecimal ASCII digit, or `None` if `b` is no digit.
fn hex_val_exec(b: u8) -> (r: Option<u8>)
    ensures
        r is Some <==> is_hex_digit(b),
        r matches Some(v) ==> v == hex_val(b) && v < 16,
{
    if 48 <= b && b <= 57 {
        Some(b - 48)
    } else if 97 <= b && b <= 102 {
        Some(b - 87)
    } else if 65 <= b && b <= 70 {
        Some(b - 55)
    } else {
        None
    }
}

/// Decodes a hexadecimal ASCII string into bytes. Returns `None` exactly when
/// the input has odd length or holds a non-digit.
pub fn hex_decode(s: &[u8]) -> (r: Option<Vec<u8>>)
    ensures
        r is Some <==> is_hex_string(s@),
        r matches Some(v) ==> v@ == hex_decode_spec(s@),
{
    if s.len() % 2 != 0 {
        return None;
    }
    let mut out: Vec<u8> = Vec::new();
    let mut i: usize = 0;
    while i < s.len()
        invariant
            s@.len() % 2 == 0,
            i % 2 == 0,
            i <= s@.len(),
            forall|j: int| 0 <= j < i ==> is_hex_digit(#[trigger] s@[j]),
            out@.len() == i / 2,
            forall|j: int|
                0 <= j < out@.len() ==> #[trigger] out@[j] == (16 * hex_val(s@[2 * j]) + hex_val(
                    s@[2 * j + 1],
                )) as u8,
        decreases s@.len() - i,
    {
        let hi = match hex_val_exec(s[i]) {
            Some(v) => v,
            None => { return None; },
        };
        let lo = match hex_val_exec(s[i + 1]) {
            Some(v) => v,
            None => { return None; },
        };
        out.push(16 * hi + lo);
        i = i + 2;
    }
    assert(out@ =~= hex_decode_spec(s@));
    Some(out)
}

/// Encodes bytes as a lower-case hexadecimal ASCII string.
pub fn hex_encode(b: &[u8]) -> (r: Vec<u8>)
    ensures
        r@ == hex_encode_spec(b@),
{
    let mut out: Vec<u8> = Vec::new();
    let mut i: usize = 0;
    while i < b.len()
        invariant
            i <= b@.len(),
            out@.len() == 2 * i,
            forall|j: int| 0 <= j < out@.len() ==> #[trigger] out@[j] == hex_encode_spec(b@)[j],
        decreases b@.len() - i,
    {
        let x = b[i];
        let hi = x / 16;
        let lo = x % 16;
        out.push(if hi < 10 { 48 + hi } else { 87 + hi });
        out.push(if lo < 10 { 48 + lo } else { 87 + lo });
        i = i + 1;
    }
    assert(out@ =~= hex_encode_spec(b@));
    out
}

/// Encoding then decoding hexadecimal text gives the original bytes back, and
/// the encoding is always a well-formed hexadecimal string.
pub proof fn lemma_hex_round_trip(b: Seq<u8>)
    ensures
        is_hex_string(hex_encode_spec(b)),
        hex_decode_spec(hex_encode_spec(b)) == b,
{
    let s = hex_encode_spec(b);
    assert forall|i: int| 0 <= i < s.len() implies is_hex_digit(#[trigger] s[i]) by {
        let x = b[i / 2];
        assert(x / 16 < 16);
        assert(x % 16 < 16);
    }
    assert forall|i: int| 0 <= i < b.len() implies hex_decode_spec(s)[i] == b[i] by {
        let x = b[i];
        assert(s[2 * i] == hex_digit_of((x / 16) as u8));
        assert(s[2 * i + 1] == hex_digit_of((x % 16) as u8));
        assert(hex_val(hex_digit_of((x / 16) as u8)) == x / 16);
        assert(hex_val(hex_digit_of((x % 16) as u8)) == x % 16);
        assert(16 * (x / 16) + x % 16 == x);
    }
    assert(hex_decode_spec(s) =~= b);
}

} // verus!
