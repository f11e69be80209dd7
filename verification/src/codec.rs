//! Radix-64 transport encoding (RFC 4648 base64, standard alphabet, `=`
//! padding) of arbitrary byte sequences, with a verified decoder and a proof
//! that decoding inverts encoding.

use vstd::prelude::*;

verus! {

/// Character of the standard 64-symbol alphabet at index `v`:
/// indices 0-25 are `A`-`Z`, 26-51 are `a`-`z`, 52-61 are `0`-`9`,
/// 62 is `+` and 63 is `/`.
pub open spec fn b64_char_of(v: int) -> char
    recommends
        0 <= v < 64,
{
    if 0 <= v < 26 {
        ((65 + v) as u8) as char
    } else if 26 <= v < 52 {
        ((97 + (v - 26)) as u8) as char
    } else if 52 <= v < 62 {
        ((48 + (v - 52)) as u8) as char
    } else if v == 62 {
        '+'
    } else {
        '/'
    }
}

/// Index of `c` in the 64-symbol alphabet, or 64 if `c` is not in it
/// (`=` in particular is not).
pub open spec fn b64_val_of(c: char) -> int {
    let u = c as int;
    if 65 <= u && u <= 90 {
        u - 65
    } else if 97 <= u && u <= 122 {
        u - 97 + 26
    } else if 48 <= u && u <= 57 {
        u - 48 + 52
    } else if u == 43 {
        62
    } else if u == 47 {
        63
    } else {
        64
    }
}

/// First 6-bit group of a 24-bit group: high six bits of the first byte.
pub open spec fn sextet0(b0: u8) -> int {
    b0 as int / 4
}

/// Second 6-bit group: low two bits of the first byte and high four of the
/// second.
pub open spec fn sextet1(b0: u8, b1: u8) -> int {
    (b0 as int % 4) * 16 + b1 as int / 16
}

/// Third 6-bit group: low four bits of the second byte and high two of the
/// third.
pub open spec fn sextet2(b1: u8, b2: u8) -> int {
    (b1 as int % 16) * 4 + b2 as int / 64
}

/// Fourth 6-bit group: low six bits of the third byte.
pub open spec fn sextet3(b2: u8) -> int {
    b2 as int % 64
}

/// The four characters that encode one full group of three bytes.
pub open spec fn encode_full_group(b0: u8, b1: u8, b2: u8) -> Seq<char> {
    seq![
        b64_char_of(sextet0(b0)),
        b64_char_of(sextet1(b0, b1)),
        b64_char_of(sextet2(b1, b2)),
        b64_char_of(sextet3(b2)),
    ]
}

/// The four characters that encode a trailing group of one byte: its two
/// 6-bit characters (remaining bits zero) followed by `==`.
pub open spec fn encode_tail1(b0: u8) -> Seq<char> {
    seq![b64_char_of(sextet0(b0)), b64_char_of(sextet1(b0, 0)), '=', '=']
}

/// The four characters that encode a trailing group of two bytes: their three
/// 6-bit characters (remaining bits zero) followed by `=`.
pub open spec fn encode_tail2(b0: u8, b1: u8) -> Seq<char> {
    seq![
        b64_char_of(sextet0(b0)),
        b64_char_of(sextet1(b0, b1)),
        b64_char_of(sextet2(b1, 0)),
        '=',
    ]
}

/// The radix-64 encoding of a byte sequence: consecutive groups of three
/// bytes become four alphabet characters each, and a trailing group of one
/// or two bytes becomes four characters with `=` padding.
pub open spec fn encode_spec(b: Seq<u8>) -> Seq<char>
    decreases b.len(),
{
    if b.len() == 0 {
        Seq::empty()
    } else if b.len() == 1 {
        encode_tail1(b[0])
    } else if b.len() == 2 {
        encode_tail2(b[0], b[1])
    } else {
        encode_full_group(b[0], b[1], b[2]) + encode_spec(b.skip(3))
    }
}

/// The three bytes that a full group of four 6-bit values decodes to.
pub open spec fn decode_full_group(v0: int, v1: int, v2: int, v3: int) -> Seq<u8>
    recommends
        0 <= v0 < 64,
        0 <= v1 < 64,
        0 <= v2 < 64,
        0 <= v3 < 64,
{
    seq![
        (v0 * 4 + v1 / 16) as u8,
        ((v1 % 16) * 16 + v2 / 4) as u8,
        ((v2 % 4) * 64 + v3) as u8,
    ]
}

/// Decoding of the final four characters, which may carry `=` padding:
/// `xx==` yields one byte, `xxx=` two, and four alphabet characters three.
/// Padding bits must be zero and `=` may appear nowhere else.
pub open spec fn decode_last_group(c0: char, c1: char, c2: char, c3: char) -> Option<Seq<u8>> {
    let v0 = b64_val_of(c0);
    let v1 = b64_val_of(c1);
    let v2 = b64_val_of(c2);
    let v3 = b64_val_of(c3);
    if v0 < 64 && v1 < 64 {
        if c2 == '=' && c3 == '=' {
            if v1 % 16 == 0 {
                Some(seq![(v0 * 4 + v1 / 16) as u8])
            } else {
                None
            }
        } else if v2 < 64 && c3 == '=' {
            if v2 % 4 == 0 {
                Some(seq![(v0 * 4 + v1 / 16) as u8, ((v1 % 16) * 16 + v2 / 4) as u8])
            } else {
                None
            }
        } else if v2 < 64 && v3 < 64 {
            Some(decode_full_group(v0, v1, v2, v3))
        } else {
            None
        }
    } else {
        None
    }
}

/// The radix-64 decoding of a character sequence: `None` unless the length is
/// a multiple of four and every character is in the alphabet, with `=`
/// padding only at the very end.
pub open spec fn decode_spec(s: Seq<char>) -> Option<Seq<u8>>
    decreases s.len(),
{
    if s.len() == 0 {
        Some(Seq::empty())
    } else if s.len() == 4 {
        decode_last_group(s[0], s[1], s[2], s[3])
    } else if s.len() > 4 {
        if b64_val_of(s[0]) < 64 && b64_val_of(s[1]) < 64 && b64_val_of(s[2]) < 64
            && b64_val_of(s[3]) < 64 {
            match decode_spec(s.skip(4)) {
                Some(rest) => Some(
                    decode_full_group(
                        b64_val_of(s[0]),
                        b64_val_of(s[1]),
                        b64_val_of(s[2]),
                        b64_val_of(s[3]),
                    ) + rest,
                ),
                None => None,
            }
        } else {
            None
        }
    } else {
        None
    }
}

/// The length law: the encoding of `b` has exactly `ceil(len(b) / 3) * 4`
/// characters, for every byte sequence `b`.
pub proof fn lemma_encode_len(b: Seq<u8>)
    ensures
        encode_spec(b).len() == ((b.len() + 2) / 3) * 4,
    decreases b.len(),
{
    if b.len() >= 3 {
        lemma_encode_len(b.skip(3));
    }
}

/// The alphabet lookup inverts the alphabet indexing on every 6-bit value.
proof fn lemma_char_val(v: int)
    requires
        0 <= v < 64,
    ensures
        b64_val_of(b64_char_of(v)) == v,
{
}

/// The four 6-bit values of a group lie below 64 and reassemble into the
/// original three bytes.
proof fn lemma_sextet_round_trip(b0: u8, b1: u8, b2: u8)
    ensures
        0 <= sextet0(b0) < 64,
        0 <= sextet1(b0, b1) < 64,
        0 <= sextet2(b1, b2) < 64,
        0 <= sextet3(b2) < 64,
        sextet0(b0) * 4 + sextet1(b0, b1) / 16 == b0,
        (sextet1(b0, b1) % 16) * 16 + sextet2(b1, b2) / 4 == b1,
        (sextet2(b1, b2) % 4) * 64 + sextet3(b2) == b2,
{
}

/// Every character of an encoding is an alphabet character or `=`: the
/// output stays within `A`-`Z`, `a`-`z`, `0`-`9`, `+`, `/` and `=`, so it is
/// printable text with no internal line breaks.
pub proof fn lemma_encode_alphabet(b: Seq<u8>)
    ensures
        forall|k: int|
            0 <= k < encode_spec(b).len() ==> b64_val_of(#[trigger] encode_spec(b)[k]) < 64
                || encode_spec(b)[k] == '=',
    decreases b.len(),
{
    if b.len() == 1 {
        lemma_sextet_round_trip(b[0], 0, 0);
        lemma_char_val(sextet0(b[0]));
        lemma_char_val(sextet1(b[0], 0));
    } else if b.len() == 2 {
        lemma_sextet_round_trip(b[0], b[1], 0);
        lemma_char_val(sextet0(b[0]));
        lemma_char_val(sextet1(b[0], b[1]));
        lemma_char_val(sextet2(b[1], 0));
    } else if b.len() >= 3 {
        lemma_encode_alphabet(b.skip(3));
        lemma_sextet_round_trip(b[0], b[1], b[2]);
        lemma_char_val(sextet0(b[0]));
        lemma_char_val(sextet1(b[0], b[1]));
        lemma_char_val(sextet2(b[1], b[2]));
        lemma_char_val(sextet3(b[2]));
        assert forall|k: int|
            0 <= k < encode_spec(b).len() implies b64_val_of(#[trigger] encode_spec(b)[k]) < 64
            || encode_spec(b)[k] == '=' by {
            if k >= 4 {
                assert(encode_spec(b)[k] == encode_spec(b.skip(3))[k - 4]);
            }
        }
    }
}

/// Round-trip identity: decoding the encoding of any byte sequence gives
/// back exactly that sequence.
pub proof fn lemma_round_trip(b: Seq<u8>)
    ensures
        decode_spec(encode_spec(b)) == Some(b),
    decreases b.len(),
{
    if b.len() == 0 {
        assert(decode_spec(encode_spec(b)) =~= Some(Seq::<u8>::empty()));
        assert(b =~= Seq::<u8>::empty());
    } else if b.len() == 1 {
        lemma_sextet_round_trip(b[0], 0, 0);
        lemma_char_val(sextet0(b[0]));
        lemma_char_val(sextet1(b[0], 0));
        assert(decode_spec(encode_spec(b)).unwrap() =~= b);
    } else if b.len() == 2 {
        lemma_sextet_round_trip(b[0], b[1], 0);
        lemma_char_val(sextet0(b[0]));
        lemma_char_val(sextet1(b[0], b[1]));
        lemma_char_val(sextet2(b[1], 0));
        assert(decode_spec(encode_spec(b)).unwrap() =~= b);
    } else {
        lemma_round_trip(b.skip(3));
        lemma_encode_len(b.skip(3));
        lemma_sextet_round_trip(b[0], b[1], b[2]);
        lemma_char_val(sextet0(b[0]));
        lemma_char_val(sextet1(b[0], b[1]));
        lemma_char_val(sextet2(b[1], b[2]));
        lemma_char_val(sextet3(b[2]));
        let s = encode_spec(b);
        let g = encode_full_group(b[0], b[1], b[2]);
        let rest = encode_spec(b.skip(3));
        assert(s =~= g + rest);
        assert(s.skip(4) =~= rest);
        if b.len() == 3 {
            assert(s.len() == 4);
            assert(decode_spec(s).unwrap() =~= b);
        } else {
            assert(s.len() > 4);
            assert(decode_spec(s).unwrap() =~= b);
        }
    }
}

/// Relies on `String::push`: appends the given character at the end of the
/// string.
#[verifier::external_body]
fn push_char(s: &mut String, c: char)
    ensures
        final(s)@ == old(s)@.push(c),
{
    s.push(c);
}

/// Alphabet character for a 6-bit value.
fn b64_char(v: u8) -> (c: char)
    requires
        v < 64,
    ensures
        c == b64_char_of(v as int),
{
    if v < 26 {
        (65 + v) as char
    } else if v < 52 {
        (97 + (v - 26)) as char
    } else if v < 62 {
        (48 + (v - 52)) as char
    } else if v == 62 {
        '+'
    } else {
        '/'
    }
}

/// Encodes a byte sequence as a single line of printable radix-64 text.
/// Cannot fail; the empty sequence encodes to the empty string.
pub fn base64_encode(data: &Vec<u8>) -> (r: String)
    ensures
        r@ == encode_spec(data@),
{
    let mut result = String::new();
    let mut i: usize = 0;
    proof {
        assert(data@.skip(0) =~= data@);
        assert(Seq::<char>::empty() + encode_spec(data@) =~= encode_spec(data@));
    }
    while data.len() - i >= 3
        invariant
            i <= data.len(),
            encode_spec(data@) == result@ + encode_spec(data@.skip(i as int)),
        decreases data.len() - i,
    {
        let b0 = data[i];
        let b1 = data[i + 1];
        let b2 = data[i + 2];
        push_char(&mut result, b64_char(b0 / 4));
        push_char(&mut result, b64_char((b0 % 4) * 16 + b1 / 16));
        push_char(&mut result, b64_char((b1 % 16) * 4 + b2 / 64));
        push_char(&mut result, b64_char(b2 % 64));
        proof {
            assert(data@.skip(i as int).skip(3) =~= data@.skip(i as int + 3));
            assert(encode_spec(data@) =~= result@ + encode_spec(data@.skip(i as int + 3)));
        }
        i = i + 3;
    }
    if data.len() - i == 1 {
        let b0 = data[i];
        push_char(&mut result, b64_char(b0 / 4));
        push_char(&mut result, b64_char((b0 % 4) * 16));
        push_char(&mut result, '=');
        push_char(&mut result, '=');
    } else if data.len() - i == 2 {
        let b0 = data[i];
        let b1 = data[i + 1];
        push_char(&mut result, b64_char(b0 / 4));
        push_char(&mut result, b64_char((b0 % 4) * 16 + b1 / 16));
        push_char(&mut result, b64_char((b1 % 16) * 4));
        push_char(&mut result, '=');
    }
    proof {
        assert(result@ =~= encode_spec(data@));
    }
    result
}

/// A sequence whose length is not a multiple of four never decodes.
proof fn lemma_decode_bad_len(s: Seq<char>)
    requires
        s.len() % 4 != 0,
    ensures
        decode_spec(s) is None,
    decreases s.len(),
{
    if s.len() > 4 {
        lemma_decode_bad_len(s.skip(4));
    }
}

/// Alphabet index of a character, 64 if it is not an alphabet character.
fn b64_val(c: char) -> (v: u8)
    ensures
        v as int == b64_val_of(c),
{
    let u = c as u32;
    if 65 <= u && u <= 90 {
        (u - 65) as u8
    } else if 97 <= u && u <= 122 {
        (u - 97 + 26) as u8
    } else if 48 <= u && u <= 57 {
        (u - 48 + 52) as u8
    } else if u == 43 {
        62
    } else if u == 47 {
        63
    } else {
        64
    }
}

/// Decodes a line of radix-64 text back into bytes. Returns `None` exactly
/// when the text is not a well-formed encoding: its length is not a multiple
/// of four, a character outside the alphabet appears where an alphabet
/// character is required, `=` appears anywhere but the final positions, or a
/// padding bit is not zero.
pub fn base64_decode(s: &str) -> (r: Option<Vec<u8>>)
    ensures
        r is Some <==> decode_spec(s@) is Some,
        r is Some ==> r.unwrap()@ == decode_spec(s@).unwrap(),
{
    let n = s.unicode_len();
    if n == 0 {
        let empty: Vec<u8> = Vec::new();
        proof {
            assert(decode_spec(s@) =~= Some(Seq::<u8>::empty()));
            assert(empty@ =~= Seq::<u8>::empty());
        }
        return Some(empty);
    }
    if n % 4 != 0 {
        proof {
            lemma_decode_bad_len(s@);
        }
        return None;
    }
    let mut out: Vec<u8> = Vec::new();
    let mut i: usize = 0;
    proof {
        assert(s@.skip(0) =~= s@);
        if decode_spec(s@) is Some {
            assert(Seq::<u8>::empty() + decode_spec(s@).unwrap() =~= decode_spec(s@).unwrap());
        }
    }
    while n - i > 4
        invariant
            n == s@.len(),
            n % 4 == 0,
            i % 4 == 0,
            4 <= n,
            i <= n - 4,
            decode_spec(s@) is Some <==> decode_spec(s@.skip(i as int)) is Some,
            decode_spec(s@) is Some ==> decode_spec(s@) == Some(
                out@ + decode_spec(s@.skip(i as int)).unwrap(),
            ),
        decreases n - i,
    {
        let v0 = b64_val(s.get_char(i));
        let v1 = b64_val(s.get_char(i + 1));
        let v2 = b64_val(s.get_char(i + 2));
        let v3 = b64_val(s.get_char(i + 3));
        if v0 >= 64 || v1 >= 64 || v2 >= 64 || v3 >= 64 {
            return None;
        }
        out.push(v0 * 4 + v1 / 16);
        out.push((v1 % 16) * 16 + v2 / 4);
        out.push((v2 % 4) * 64 + v3);
        proof {
            assert(s@.skip(i as int).skip(4) =~= s@.skip(i as int + 4));
            if decode_spec(s@) is Some {
                assert(out@ + decode_spec(s@.skip(i as int + 4)).unwrap() =~= (out@.subrange(
                    0,
                    out@.len() - 3,
                ) + decode_spec(s@.skip(i as int)).unwrap()));
            }
        }
        i = i + 4;
    }
    let c2 = s.get_char(i + 2);
    let c3 = s.get_char(i + 3);
    let v0 = b64_val(s.get_char(i));
    let v1 = b64_val(s.get_char(i + 1));
    let v2 = b64_val(c2);
    let v3 = b64_val(c3);
    proof {
        assert(s@.skip(i as int).len() == 4);
    }
    if v0 >= 64 || v1 >= 64 {
        return None;
    }
    if c2 == '=' && c3 == '=' {
        if v1 % 16 != 0 {
            return None;
        }
        out.push(v0 * 4 + v1 / 16);
        proof {
            assert(out@ =~= (out@.subrange(0, out@.len() - 1) + decode_spec(
                s@.skip(i as int),
            ).unwrap()));
        }
        Some(out)
    } else if v2 < 64 && c3 == '=' {
        if v2 % 4 != 0 {
            return None;
        }
        out.push(v0 * 4 + v1 / 16);
        out.push((v1 % 16) * 16 + v2 / 4);
        proof {
            assert(out@ =~= (out@.subrange(0, out@.len() - 2) + decode_spec(
                s@.skip(i as int),
            ).unwrap()));
        }
        Some(out)
    } else if v2 < 64 && v3 < 64 {
        out.push(v0 * 4 + v1 / 16);
        out.push((v1 % 16) * 16 + v2 / 4);
        out.push((v2 % 4) * 64 + v3);
        proof {
            assert(out@ =~= (out@.subrange(0, out@.len() - 3) + decode_spec(
                s@.skip(i as int),
            ).unwrap()));
        }
        Some(out)
    } else {
        None
    }
}

} // verus!

