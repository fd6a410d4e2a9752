//! The 6-bit IA-5 character code used by target identification items:
//! eight characters of six bits each, packed most significant first into six octets.
use vstd::prelude::*;

verus! {

broadcast use vstd::string::group_string_axioms;

/// The 6-bit code of a character: the low six bits of its code point.
pub open spec fn ia5_code(c: char) -> u8 {
    ((c as u32) % 64) as u8
}

/// The character that a 6-bit value stands for: a space for 0, the letters
/// for 1 to 26, the digits for 48 to 57, and a space for every other value.
pub open spec fn ia5_char(v: u8) -> char {
    if 1 <= v <= 26 {
        (64 + v) as char
    } else if 48 <= v <= 57 {
        v as char
    } else {
        ' '
    }
}

/// The eight 6-bit codes of a callsign: the codes of its first eight
/// characters, padded with the code of a space (32).
pub open spec fn callsign_codes(cs: Seq<char>) -> Seq<u8> {
    Seq::new(8, |i: int| if i < cs.len() { ia5_code(cs[i]) } else { 32u8 })
}

/// Eight 6-bit values packed into six octets, most significant bit first.
pub open spec fn pack_sixbits(v: Seq<u8>) -> Seq<u8> {
    seq![
        (v[0] * 4 + v[1] / 16) as u8,
        ((v[1] % 16) * 16 + v[2] / 4) as u8,
        ((v[2] % 4) * 64 + v[3]) as u8,
        (v[4] * 4 + v[5] / 16) as u8,
        ((v[5] % 16) * 16 + v[6] / 4) as u8,
        ((v[6] % 4) * 64 + v[7]) as u8,
    ]
}

/// The eight 6-bit values held by six octets, most significant bit first.
pub open spec fn unpack_sixbits(b: Seq<u8>) -> Seq<u8> {
    seq![
        (b[0] / 4) as u8,
        ((b[0] % 4) * 16 + b[1] / 16) as u8,
        ((b[1] % 16) * 4 + b[2] / 64) as u8,
        (b[2] % 64) as u8,
        (b[3] / 4) as u8,
        ((b[3] % 4) * 16 + b[4] / 16) as u8,
        ((b[4] % 16) * 4 + b[5] / 64) as u8,
        (b[5] % 64) as u8,
    ]
}

/// `s` without its trailing spaces.
pub open spec fn trim_trailing_spaces(s: Seq<char>) -> Seq<char>
    decreases s.len(),
{
    if s.len() > 0 && s.last() == ' ' {
        trim_trailing_spaces(s.drop_last())
    } else {
        s
    }
}

/// The callsign held by six octets: the characters of the eight 6-bit values,
/// trailing spaces removed.
pub open spec fn decoded_callsign(b: Seq<u8>) -> Seq<char> {
    trim_trailing_spaces(unpack_sixbits(b).map_values(|v: u8| ia5_char(v)))
}

/// Appends a character to a string (`String::push`).
#[verifier::external_body]
fn push_char(s: &mut String, c: char)
    ensures
        final(s)@ == old(s)@.push(c),
{
    s.push(c);
}

/// The 6-bit code of a character (the low six bits of its code point).
pub fn char_to_ia5(c: char) -> (v: u8)
    ensures
        v == ia5_code(c),
{
    ((c as u32) % 64) as u8
}

/// The character of a 6-bit value.
pub fn ia5_6bit_to_char(v: u8) -> (c: char)
    ensures
        c == ia5_char(v),
{
    if 1 <= v && v <= 26 {
        (64 + v) as char
    } else if 48 <= v && v <= 57 {
        v as char
    } else {
        ' '
    }
}

/// Encode a callsign (its first eight characters, padded with spaces) into six octets.
pub fn encode_callsign(callsign: &str) -> (r: [u8; 6])
    ensures
        r@ == pack_sixbits(callsign_codes(callsign@)),
{
    let mut v: [u8; 8] = [32u8; 8];
    let mut chars = callsign.chars();
    let ghost cs = callsign@;
    let mut i: usize = 0;
    assert(cs.skip(0) =~= cs);
    while i < 8
        invariant
            0 <= i <= 8,
            vstd::std_specs::iter::IteratorSpec::remaining(&chars) == cs.skip(i as int),
            i <= cs.len(),
            forall|j: int| 0 <= j < i ==> v@[j] == ia5_code(cs[j]),
            forall|j: int| i <= j < 8 ==> v@[j] == 32u8,
        ensures
            i == 8 || i == cs.len(),
        decreases 8 - i,
    {
        match chars.next() {
            Some(c) => {
                v[i] = char_to_ia5(c);
                assert(cs.skip(i as int).drop_first() =~= cs.skip(i + 1));
                i = i + 1;
            },
            None => {
                break;
            },
        }
    }
    assert(v@ =~= callsign_codes(cs));
    let r: [u8; 6] = [
        v[0] * 4 + v[1] / 16,
        (v[1] % 16) * 16 + v[2] / 4,
        (v[2] % 4) * 64 + v[3],
        v[4] * 4 + v[5] / 16,
        (v[5] % 16) * 16 + v[6] / 4,
        (v[6] % 4) * 64 + v[7],
    ];
    assert(r@ =~= pack_sixbits(v@));
    r
}

/// Decode six octets into a callsign of at most eight characters, trailing spaces removed.
pub fn decode_callsign(bytes: &[u8; 6]) -> (s: String)
    ensures
        s@ == decoded_callsign(bytes@),
{
    let b0 = bytes[0];
    let b1 = bytes[1];
    let b2 = bytes[2];
    let b3 = bytes[3];
    let b4 = bytes[4];
    let b5 = bytes[5];
    let vals: [u8; 8] = [
        b0 / 4,
        (b0 % 4) * 16 + b1 / 16,
        (b1 % 16) * 4 + b2 / 64,
        b2 % 64,
        b3 / 4,
        (b3 % 4) * 16 + b4 / 16,
        (b4 % 16) * 4 + b5 / 64,
        b5 % 64,
    ];
    assert(vals@ =~= unpack_sixbits(bytes@));
    let mut chars: [char; 8] = [' '; 8];
    let mut i: usize = 0;
    while i < 8
        invariant
            0 <= i <= 8,
            forall|j: int| 0 <= j < i ==> chars@[j] == ia5_char(vals@[j]),
        decreases 8 - i,
    {
        chars[i] = ia5_6bit_to_char(vals[i]);
        i = i + 1;
    }
    let ghost full = unpack_sixbits(bytes@).map_values(|v: u8| ia5_char(v));
    assert(chars@ =~= full);
    let mut end: usize = 8;
    assert(full.take(8) =~= full);
    while end > 0 && chars[end - 1] == ' '
        invariant
            0 <= end <= 8,
            chars@ == full,
            full.len() == 8,
            trim_trailing_spaces(full) == trim_trailing_spaces(full.take(end as int)),
        decreases end,
    {
        assert(full.take(end as int).drop_last() =~= full.take(end - 1));
        end = end - 1;
    }
    assert(trim_trailing_spaces(full.take(end as int)) == full.take(end as int));
    let mut out = String::new();
    let mut k: usize = 0;
    while k < end
        invariant
            0 <= k <= end <= 8,
            chars@ == full,
            out@ == full.take(k as int),
        decreases end - k,
    {
        push_char(&mut out, chars[k]);
        k = k + 1;
        assert(out@ =~= full.take(k as int));
    }
    out
}

} // verus!

verus! {

/// The characters that survive an encode and decode unchanged: the letters,
/// the digits and the space.
pub open spec fn is_ia5_char(c: char) -> bool {
    ('A' <= c && c <= 'Z') || ('0' <= c && c <= '9') || c == ' '
}

proof fn lemma_unpack_pack(v: Seq<u8>)
    requires
        v.len() == 8,
        forall|i: int| 0 <= i < 8 ==> v[i] < 64,
    ensures
        unpack_sixbits(pack_sixbits(v)) =~= v,
{
}

proof fn lemma_char_roundtrip(c: char)
    requires
        is_ia5_char(c),
    ensures
        ia5_char(ia5_code(c)) == c,
{
    let u = c as u32;
    if 'A' <= c && c <= 'Z' {
        assert(65 <= u <= 90);
        assert(ia5_code(c) == u - 64);
    } else if '0' <= c && c <= '9' {
        assert(48 <= u <= 57);
        assert(ia5_code(c) == u);
    } else {
        assert(u == 32);
    }
}

proof fn lemma_trim_padding(cs: Seq<char>, n: nat)
    requires
        cs.len() == 0 || cs.last() != ' ',
    ensures
        trim_trailing_spaces(cs + Seq::new(n, |i: int| ' ')) == cs,
    decreases n,
{
    let padded = cs + Seq::new(n, |i: int| ' ');
    if n == 0 {
        assert(padded =~= cs);
    } else {
        assert(padded.drop_last() =~= cs + Seq::new((n - 1) as nat, |i: int| ' '));
        lemma_trim_padding(cs, (n - 1) as nat);
    }
}

/// Decoding an encoded callsign gives it back, when it has at most eight
/// letters, digits or spaces and does not end with a space.
pub proof fn lemma_callsign_roundtrip(cs: Seq<char>)
    requires
        cs.len() <= 8,
        forall|i: int| 0 <= i < cs.len() ==> is_ia5_char(#[trigger] cs[i]),
        cs.len() == 0 || cs.last() != ' ',
    ensures
        decoded_callsign(pack_sixbits(callsign_codes(cs))) == cs,
{
    let v = callsign_codes(cs);
    lemma_unpack_pack(v);
    let chars = unpack_sixbits(pack_sixbits(v)).map_values(|x: u8| ia5_char(x));
    assert(chars =~= cs + Seq::new((8 - cs.len()) as nat, |i: int| ' ')) by {
        assert forall|i: int| 0 <= i < 8 implies chars[i] == (cs + Seq::new(
            (8 - cs.len()) as nat,
            |i: int| ' ',
        ))[i] by {
            if i < cs.len() {
                lemma_char_roundtrip(cs[i]);
            }
        }
    }
    lemma_trim_padding(cs, (8 - cs.len()) as nat);
}


/// Trailing spaces appended to a text are removed along with its own.
proof fn lemma_trim_appended_spaces(x: Seq<char>, n: nat)
    ensures
        trim_trailing_spaces(x + Seq::new(n, |i: int| ' ')) == trim_trailing_spaces(x),
    decreases n,
{
    let padded = x + Seq::new(n, |i: int| ' ');
    if n == 0 {
        assert(padded =~= x);
    } else {
        assert(padded.drop_last() =~= x + Seq::new((n - 1) as nat, |i: int| ' '));
        lemma_trim_appended_spaces(x, (n - 1) as nat);
    }
}

/// What trimming trailing spaces leaves: a prefix of the text that is empty
/// or does not end with a space.
proof fn lemma_trim_shape(x: Seq<char>)
    ensures
        trim_trailing_spaces(x).len() <= x.len(),
        trim_trailing_spaces(x) == x.take(trim_trailing_spaces(x).len() as int),
        trim_trailing_spaces(x).len() == 0 || trim_trailing_spaces(x).last() != ' ',
    decreases x.len(),
{
    if x.len() > 0 && x.last() == ' ' {
        lemma_trim_shape(x.drop_last());
        let t = trim_trailing_spaces(x.drop_last());
        assert(x.drop_last().take(t.len() as int) =~= x.take(t.len() as int));
    } else {
        assert(x.take(x.len() as int) =~= x);
    }
}

/// The characters that a callsign of any text comes back as: each of its
/// first eight characters read back from its 6-bit code, trailing spaces removed.
pub open spec fn callsign_after_encoding(cs: Seq<char>) -> Seq<char> {
    trim_trailing_spaces(
        cs.take(if cs.len() <= 8 { cs.len() as int } else { 8 }).map_values(|c: char| ia5_char(ia5_code(c))),
    )
}

/// Decoding an encoded callsign gives its first eight characters, each read
/// back from its 6-bit code, with trailing spaces removed.
pub proof fn lemma_callsign_roundtrip_any(cs: Seq<char>)
    ensures
        decoded_callsign(pack_sixbits(callsign_codes(cs))) == callsign_after_encoding(cs),
{
    let v = callsign_codes(cs);
    lemma_unpack_pack(v);
    let k: int = if cs.len() <= 8 { cs.len() as int } else { 8 };
    let front = cs.take(k).map_values(|c: char| ia5_char(ia5_code(c)));
    let chars = unpack_sixbits(pack_sixbits(v)).map_values(|x: u8| ia5_char(x));
    assert(chars =~= front + Seq::new((8 - k) as nat, |i: int| ' '));
    lemma_trim_appended_spaces(front, (8 - k) as nat);
}

/// For a callsign of letters, digits and spaces, decoding its encoding gives
/// its first eight characters with trailing spaces removed.
pub proof fn lemma_callsign_roundtrip_prefix(cs: Seq<char>)
    requires
        forall|i: int| 0 <= i < cs.len() ==> is_ia5_char(#[trigger] cs[i]),
    ensures
        decoded_callsign(pack_sixbits(callsign_codes(cs))) == trim_trailing_spaces(
            cs.take(if cs.len() <= 8 { cs.len() as int } else { 8 }),
        ),
{
    lemma_callsign_roundtrip_any(cs);
    let k: int = if cs.len() <= 8 { cs.len() as int } else { 8 };
    assert forall|i: int| 0 <= i < k implies ia5_char(ia5_code(cs[i])) == cs[i] by {
        lemma_char_roundtrip(cs[i]);
    }
    assert(cs.take(k).map_values(|c: char| ia5_char(ia5_code(c))) =~= cs.take(k));
}

/// Any six octets decode to at most eight letters, digits or spaces, not
/// ending with a space.
pub proof fn lemma_decoded_callsign_shape(b: Seq<u8>)
    requires
        b.len() == 6,
    ensures
        decoded_callsign(b).len() <= 8,
        forall|i: int| 0 <= i < decoded_callsign(b).len() ==> is_ia5_char(#[trigger] decoded_callsign(b)[i]),
        decoded_callsign(b).len() == 0 || decoded_callsign(b).last() != ' ',
{
    let chars = unpack_sixbits(b).map_values(|v: u8| ia5_char(v));
    lemma_trim_shape(chars);
    let t = decoded_callsign(b);
    assert forall|i: int| 0 <= i < t.len() implies is_ia5_char(#[trigger] t[i]) by {
        assert(t[i] == chars[i]);
        let v = unpack_sixbits(b)[i];
        if 1 <= v <= 26 {
            assert(65 <= 64 + v <= 90);
        }
    }
}

} // verus!
