//! Content fingerprints: BLAKE3 digests over length-delimited fields.
use vstd::prelude::*;
use vstd::utf8::{encode_utf8, is_ascii_chars, is_ascii_chars_encode_utf8};
use crate::text::string_from_chars;

verus! {

/// What BLAKE3 returns for `data`.
pub uninterp spec fn blake3_digest(data: Seq<u8>) -> Seq<u8>;

/// `blake3::hash`: the 32-byte BLAKE3 digest of `data`, a function of the
/// bytes alone. Feeding the same bytes to a `blake3::Hasher` in pieces gives
/// the same digest, so callers hash one concatenated buffer.
#[verifier::external_body]
pub fn blake3_hash(data: &[u8]) -> (res: [u8; 32])
    ensures
        res@ == blake3_digest(data@),
{
    *blake3::hash(data).as_bytes()
}

/// The `k` low-order bytes of `n`, least significant first.
pub open spec fn le_bytes(n: nat, k: nat) -> Seq<u8>
    decreases k,
{
    if k == 0 {
        Seq::<u8>::empty()
    } else {
        seq![(n % 256) as u8] + le_bytes(n / 256, (k - 1) as nat)
    }
}

/// The byte string hashed for a list of fields: each field is preceded by its
/// length as a little-endian `u64`, so concatenations of different field lists
/// never coincide.
pub open spec fn encode_fields(fields: Seq<Seq<u8>>) -> Seq<u8>
    decreases fields.len(),
{
    if fields.len() == 0 {
        Seq::<u8>::empty()
    } else {
        encode_fields(fields.drop_last()) + le_bytes(fields.last().len(), 8) + fields.last()
    }
}

pub open spec fn field_views(fields: Seq<Vec<u8>>) -> Seq<Seq<u8>> {
    fields.map_values(|f: Vec<u8>| f@)
}

/// Appends the little-endian bytes of `n` to `out`.
pub fn push_le_u64(out: &mut Vec<u8>, n: u64)
    ensures
        final(out)@ == old(out)@ + le_bytes(n as nat, 8),
{
    let mut rest: u64 = n;
    let mut k: usize = 0;
    let ghost start = out@;
    while k < 8
        invariant
            k <= 8,
            start == old(out)@,
            out@ + le_bytes(rest as nat, (8 - k) as nat) == start + le_bytes(n as nat, 8),
        decreases 8 - k,
    {
        proof {
            assert(le_bytes(rest as nat, (8 - k) as nat) == seq![(rest % 256) as u8] + le_bytes(
                (rest / 256) as nat,
                (8 - k - 1) as nat,
            ));
            assert(out@.push((rest % 256) as u8) + le_bytes((rest / 256) as nat, (8 - k - 1) as nat)
                =~= out@ + (seq![(rest % 256) as u8] + le_bytes((rest / 256) as nat, (8 - k - 1) as nat)));
        }
        out.push((rest % 256) as u8);
        rest = rest / 256;
        k = k + 1;
    }
    proof {
        assert(le_bytes(rest as nat, 0) =~= Seq::<u8>::empty());
        assert(out@ + Seq::<u8>::empty() =~= out@);
    }
}

/// Builds the length-delimited encoding of `fields`.
pub fn encode_field_list(fields: &Vec<Vec<u8>>) -> (res: Vec<u8>)
    ensures
        res@ == encode_fields(field_views(fields@)),
{
    let mut out: Vec<u8> = Vec::new();
    let mut i: usize = 0;
    while i < fields.len()
        invariant
            i <= fields@.len(),
            out@ == encode_fields(field_views(fields@).take(i as int)),
        decreases fields@.len() - i,
    {
        let field = &fields[i];
        proof {
            let t = field_views(fields@).take(i + 1);
            assert(t.drop_last() =~= field_views(fields@).take(i as int));
            assert(t.last() == field@);
        }
        push_le_u64(&mut out, field.len() as u64);
        let mut j: usize = 0;
        let ghost before = out@;
        while j < field.len()
            invariant
                j <= field@.len(),
                out@ == before + field@.take(j as int),
            decreases field@.len() - j,
        {
            out.push(field[j]);
            j = j + 1;
            proof {
                assert(field@.take(j as int) =~= field@.take(j - 1).push(field@[j - 1]));
            }
        }
        proof {
            assert(field@.take(j as int) =~= field@);
        }
        i = i + 1;
    }
    proof {
        assert(field_views(fields@).take(i as int) =~= field_views(fields@));
    }
    out
}

/// Errors produced while decoding a hexadecimal fingerprint.
#[derive(Debug, Clone, Copy, PartialEq, Eq)]
pub enum FingerprintError {
    /// The text was not 64 bytes long; holds its byte length.
    Length(usize),
    /// The text held a byte that is not a hexadecimal digit.
    Digit(char),
}

/// A 32-byte content digest.
#[derive(Debug, Clone, Copy, Default, PartialEq, Eq, Hash, PartialOrd, Ord)]
pub struct Fingerprint {
    pub bytes: [u8; 32],
}

/// The lowercase hexadecimal digit for a value below 16.
pub open spec fn hex_digit(v: nat) -> char {
    if v < 10 {
        ((v + 48) as u8) as char
    } else {
        ((v + 87) as u8) as char
    }
}

/// The lowercase hexadecimal rendering of `bytes`, high nibble first.
pub open spec fn hex_chars(bytes: Seq<u8>) -> Seq<char> {
    Seq::new(
        (2 * bytes.len()) as nat,
        |k: int|
            if k % 2 == 0 {
                hex_digit((bytes[k / 2] / 16) as nat)
            } else {
                hex_digit((bytes[k / 2] % 16) as nat)
            },
    )
}

/// The value of a hexadecimal digit byte, either case.
pub open spec fn nibble_value(b: u8) -> Option<u8> {
    if 48 <= b <= 57 {
        Some((b - 48) as u8)
    } else if 97 <= b <= 102 {
        Some((b - 87) as u8)
    } else if 65 <= b <= 70 {
        Some((b - 55) as u8)
    } else {
        None
    }
}

/// The first byte, in order, that is not a hexadecimal digit.
pub open spec fn first_non_hex(s: Seq<u8>) -> Option<u8>
    decreases s.len(),
{
    if s.len() == 0 {
        None
    } else if nibble_value(s[0]) is None {
        Some(s[0])
    } else {
        first_non_hex(s.skip(1))
    }
}

/// The bytes denoted by pairs of hexadecimal digits.
pub open spec fn hex_pairs_value(s: Seq<u8>) -> Seq<u8> {
    Seq::new(
        (s.len() / 2) as nat,
        |i: int| (nibble_value(s[2 * i])->0 * 16 + nibble_value(s[2 * i + 1])->0) as u8,
    )
}

/// What `Fingerprint::from_hex` gives for text whose UTF-8 bytes are `s`.
pub open spec fn decode_hex(s: Seq<u8>) -> Result<Seq<u8>, FingerprintError> {
    if s.len() != 64 {
        Err(FingerprintError::Length(s.len() as usize))
    } else {
        match first_non_hex(s) {
            Some(b) => Err(FingerprintError::Digit(b as char)),
            None => Ok(hex_pairs_value(s)),
        }
    }
}

fn hex_digit_exec(v: u8) -> (c: char)
    requires
        v < 16,
    ensures
        c == hex_digit(v as nat),
{
    if v < 10 {
        (v + 48) as char
    } else {
        (v + 87) as char
    }
}

fn nibble(b: u8) -> (res: Option<u8>)
    ensures
        res == nibble_value(b),
{
    if 48 <= b && b <= 57 {
        Some(b - 48)
    } else if 97 <= b && b <= 102 {
        Some(b - 87)
    } else if 65 <= b && b <= 70 {
        Some(b - 55)
    } else {
        None
    }
}

/// The lowercase hexadecimal form of any bytes, two digits per byte.
pub fn hex_text(bytes: &[u8]) -> (res: String)
    ensures
        res@ == hex_chars(bytes@),
{
    let mut out: Vec<char> = Vec::new();
    let mut i: usize = 0;
    while i < bytes.len()
        invariant
            i <= bytes@.len(),
            out@.len() == 2 * i,
            forall|k: int| 0 <= k < 2 * i ==> out@[k] == hex_chars(bytes@)[k],
        decreases bytes@.len() - i,
    {
        let byte = bytes[i];
        out.push(hex_digit_exec(byte / 16));
        out.push(hex_digit_exec(byte % 16));
        proof {
            assert((2 * i) / 2 == i);
            assert((2 * i + 1) / 2 == i);
            assert((2 * i) % 2 == 0);
            assert((2 * i + 1) % 2 == 1);
        }
        i = i + 1;
    }
    proof {
        assert(out@ =~= hex_chars(bytes@));
    }
    string_from_chars(out.as_slice())
}

impl Fingerprint {
    /// The fingerprint of a list of fields.
    pub fn of(fields: &Vec<Vec<u8>>) -> (res: Fingerprint)
        ensures
            res.bytes@ == blake3_digest(encode_fields(field_views(fields@))),
    {
        let encoded = encode_field_list(fields);
        Fingerprint { bytes: blake3_hash(encoded.as_slice()) }
    }

    pub fn from_bytes(bytes: [u8; 32]) -> (res: Fingerprint)
        ensures
            res.bytes == bytes,
    {
        Fingerprint { bytes }
    }

    /// Whether two fingerprints hold the same bytes.
    pub fn same_as(&self, other: &Fingerprint) -> (res: bool)
        ensures
            res == (self.bytes@ == other.bytes@),
    {
        let mut i: usize = 0;
        while i < 32
            invariant
                i <= 32,
                forall|k: int| 0 <= k < i ==> self.bytes@[k] == other.bytes@[k],
            decreases 32 - i,
        {
            if self.bytes[i] != other.bytes[i] {
                return false;
            }
            i = i + 1;
        }
        proof {
            assert(self.bytes@ =~= other.bytes@);
        }
        true
    }

    pub fn as_bytes(&self) -> (res: &[u8; 32])
        ensures
            *res == self.bytes,
    {
        &self.bytes
    }

    /// The first eight bytes read as a little-endian integer.
    pub fn to_u64(self) -> (res: u64)
        ensures
            res == le_value(self.bytes@),
    {
        let b = self.bytes;
        b[0] as u64 + 0x100u64 * (b[1] as u64) + 0x10000u64 * (b[2] as u64) + 0x1000000u64 * (
        b[3] as u64) + 0x100000000u64 * (b[4] as u64) + 0x10000000000u64 * (b[5] as u64)
            + 0x1000000000000u64 * (b[6] as u64) + 0x100000000000000u64 * (b[7] as u64)
    }

    /// The lowercase hexadecimal form: 64 characters.
    pub fn to_hex(self) -> (res: String)
        ensures
            res@ == hex_chars(self.bytes@),
    {
        let mut out: Vec<char> = Vec::new();
        let mut i: usize = 0;
        while i < 32
            invariant
                i <= 32,
                out@.len() == 2 * i,
                forall|k: int| 0 <= k < 2 * i ==> out@[k] == hex_chars(self.bytes@)[k],
            decreases 32 - i,
        {
            let byte = self.bytes[i];
            out.push(hex_digit_exec(byte / 16));
            out.push(hex_digit_exec(byte % 16));
            proof {
                assert((2 * i) / 2 == i);
                assert((2 * i + 1) / 2 == i);
                assert((2 * i) % 2 == 0);
                assert((2 * i + 1) % 2 == 1);
            }
            i = i + 1;
        }
        proof {
            assert(out@ =~= hex_chars(self.bytes@));
        }
        string_from_chars(out.as_slice())
    }

    /// Parses 64 hexadecimal digits of either case.
    pub fn from_hex(text: &str) -> (res: Result<Fingerprint, FingerprintError>)
        ensures
            match (res, decode_hex(encode_utf8(text@))) {
                (Ok(f), Ok(b)) => f.bytes@ == b,
                (Err(e), Err(d)) => e == d,
                _ => false,
            },
    {
        let bytes = text.as_bytes();
        if bytes.len() != 64 {
            return Err(FingerprintError::Length(bytes.len()));
        }
        let ghost s = bytes@;
        proof {
            assert(s.skip(0) =~= s);
        }
        let mut j: usize = 0;
        while j < 64
            invariant
                j <= 64,
                s == bytes@,
                s == encode_utf8(text@),
                s.len() == 64,
                first_non_hex(s) == first_non_hex(s.skip(j as int)),
                forall|k: int| 0 <= k < j ==> nibble_value(#[trigger] s[k]) is Some,
            decreases 64 - j,
        {
            proof {
                assert(s.skip(j as int)[0] == s[j as int]);
                assert(s.skip(j as int).skip(1) =~= s.skip(j + 1));
            }
            if nibble(bytes[j]).is_none() {
                proof {
                    assert(first_non_hex(s.skip(j as int)) == Some(s[j as int]));
                    assert(s == encode_utf8(text@));
                    assert(decode_hex(s) == Err::<Seq<u8>, FingerprintError>(FingerprintError::Digit(s[j as int] as char)));
                }
                let c = bytes[j] as char;
                assert(c == s[j as int] as char);
                return Err(FingerprintError::Digit(c));
            }
            j = j + 1;
        }
        proof {
            assert(s.skip(64).len() == 0);
        }
        let mut digest: [u8; 32] = [0u8; 32];
        let mut i: usize = 0;
        while i < 32
            invariant
                i <= 32,
                s == bytes@,
                s.len() == 64,
                forall|k: int| 0 <= k < 64 ==> nibble_value(#[trigger] s[k]) is Some,
                forall|k: int| 0 <= k < i ==> digest@[k] == hex_pairs_value(s)[k],
            decreases 32 - i,
        {
            let high = nibble(bytes[2 * i]);
            let low = nibble(bytes[2 * i + 1]);
            proof {
                assert(nibble_value(s[2 * i as int]) is Some);
                assert(nibble_value(s[2 * i + 1]) is Some);
            }
            let h = high.unwrap();
            let l = low.unwrap();
            digest[i] = h * 16 + l;
            i = i + 1;
        }
        proof {
            assert(digest@ =~= hex_pairs_value(s));
        }
        Ok(Fingerprint { bytes: digest })
    }
}

/// The little-endian value of the first eight bytes.
pub open spec fn le_value(b: Seq<u8>) -> int {
    b[0] + 0x100 * b[1] + 0x10000 * b[2] + 0x1000000 * b[3] + 0x100000000 * b[4] + 0x10000000000
        * b[5] + 0x1000000000000 * b[6] + 0x100000000000000 * b[7]
}

/// Hexadecimal rendering and parsing are inverse: parsing the text that
/// `to_hex` produces gives back the same digest.
pub proof fn lemma_hex_round_trip(f: Fingerprint)
    ensures
        decode_hex(encode_utf8(hex_chars(f.bytes@))) == Ok::<Seq<u8>, FingerprintError>(
            f.bytes@,
        ),
{
    let b = f.bytes@;
    let h = hex_chars(b);
    assert(h.len() == 64);
    assert forall|k: int| 0 <= k < h.len() implies '\0' <= #[trigger] h[k] <= '\u{7f}' by {
        let v = if k % 2 == 0 {
            (b[k / 2] / 16) as nat
        } else {
            (b[k / 2] % 16) as nat
        };
        assert(v < 16);
    }
    assert(is_ascii_chars(h));
    is_ascii_chars_encode_utf8(h);
    let s = encode_utf8(h);
    assert(s.len() == 64);
    assert forall|k: int| 0 <= k < 64 implies nibble_value(#[trigger] s[k]) == Some(
        (if k % 2 == 0 {
            b[k / 2] / 16
        } else {
            b[k / 2] % 16
        }) as u8,
    ) by {
        assert(h[k] as u8 == s[k]);
    }
    lemma_all_hex_no_error(s);
    assert forall|i: int| 0 <= i < 32 implies hex_pairs_value(s)[i] == b[i] by {
        assert((2 * i) % 2 == 0);
        assert((2 * i + 1) % 2 == 1);
        assert((2 * i) / 2 == i);
        assert((2 * i + 1) / 2 == i);
        assert(nibble_value(s[2 * i]) == Some((b[i] / 16) as u8));
        assert(nibble_value(s[2 * i + 1]) == Some((b[i] % 16) as u8));
    }
    assert(hex_pairs_value(s) =~= b);
}

/// `s` with ASCII small letters made capitals, as `to_ascii_uppercase` does.
pub open spec fn ascii_upper(s: Seq<char>) -> Seq<char> {
    Seq::new(
        s.len(),
        |k: int|
            if 'a' <= s[k] <= 'z' {
                (((s[k] as u8) - 32) as u8) as char
            } else {
                s[k]
            },
    )
}

/// The text `to_hex` gives is 64 lowercase hexadecimal digits, and parsing
/// takes capitals as well: the upper-cased text gives back the same digest.
pub proof fn lemma_upper_hex_round_trip(f: Fingerprint)
    ensures
        hex_chars(f.bytes@).len() == 64,
        forall|k: int|
            0 <= k < 64 ==> ('0' <= #[trigger] hex_chars(f.bytes@)[k] <= '9' || 'a' <= hex_chars(
                f.bytes@,
            )[k] <= 'f'),
        decode_hex(encode_utf8(ascii_upper(hex_chars(f.bytes@)))) == Ok::<Seq<u8>, FingerprintError>(
            f.bytes@,
        ),
{
    let b = f.bytes@;
    let h = hex_chars(b);
    let u = ascii_upper(h);
    assert(h.len() == 64);
    assert forall|k: int| 0 <= k < 64 implies ('0' <= #[trigger] h[k] <= '9' || 'a' <= h[k] <= 'f') && (
    '\0' <= u[k] <= '\u{7f}') && nibble_value(u[k] as u8) == Some(
        (if k % 2 == 0 {
            b[k / 2] / 16
        } else {
            b[k / 2] % 16
        }) as u8,
    ) by {
        let v = if k % 2 == 0 {
            (b[k / 2] / 16) as nat
        } else {
            (b[k / 2] % 16) as nat
        };
        assert(v < 16);
        assert(h[k] == hex_digit(v));
    }
    assert(is_ascii_chars(u));
    is_ascii_chars_encode_utf8(u);
    let s = encode_utf8(u);
    assert(s.len() == 64);
    assert forall|k: int| 0 <= k < 64 implies nibble_value(#[trigger] s[k]) == Some(
        (if k % 2 == 0 {
            b[k / 2] / 16
        } else {
            b[k / 2] % 16
        }) as u8,
    ) by {
        assert(u[k] as u8 == s[k]);
    }
    lemma_all_hex_no_error(s);
    assert forall|i: int| 0 <= i < 32 implies hex_pairs_value(s)[i] == b[i] by {
        assert((2 * i) % 2 == 0);
        assert((2 * i + 1) % 2 == 1);
        assert((2 * i) / 2 == i);
        assert((2 * i + 1) / 2 == i);
        assert(nibble_value(s[2 * i]) == Some((b[i] / 16) as u8));
        assert(nibble_value(s[2 * i + 1]) == Some((b[i] % 16) as u8));
    }
    assert(hex_pairs_value(s) =~= b);
}

/// A text with a byte that is not a hexadecimal digit has a first such byte.
proof fn lemma_some_non_hex(s: Seq<u8>, i: int)
    requires
        0 <= i < s.len(),
        nibble_value(s[i]) is None,
    ensures
        first_non_hex(s) is Some,
        nibble_value(first_non_hex(s)->0) is None,
    decreases s.len(),
{
    if nibble_value(s[0]) is Some {
        assert(s.skip(1)[i - 1] == s[i]);
        lemma_some_non_hex(s.skip(1), i - 1);
    }
}

/// Parsing refuses exactly what it should: a text whose length is not 64
/// bytes fails with its length, and a 64-byte text with a byte that is not
/// a hexadecimal digit fails naming such a byte.
pub proof fn lemma_hex_refusals(s: Seq<u8>)
    ensures
        s.len() != 64 <==> decode_hex(s) == Err::<Seq<u8>, FingerprintError>(
            FingerprintError::Length(s.len() as usize),
        ),
        s.len() == 64 && (exists|i: int| 0 <= i < 64 && nibble_value(#[trigger] s[i]) is None)
            ==> (decode_hex(s) matches Err(FingerprintError::Digit(c)) && nibble_value(c as u8) is None),
{
    if s.len() == 64 && (exists|i: int| 0 <= i < 64 && nibble_value(#[trigger] s[i]) is None) {
        let i = choose|i: int| 0 <= i < 64 && nibble_value(#[trigger] s[i]) is None;
        lemma_some_non_hex(s, i);
        let b = first_non_hex(s)->0;
        assert((b as char) as u8 == b);
    }
}

proof fn lemma_all_hex_no_error(s: Seq<u8>)
    requires
        forall|k: int| 0 <= k < s.len() ==> nibble_value(#[trigger] s[k]) is Some,
    ensures
        first_non_hex(s) is None,
    decreases s.len(),
{
    if s.len() > 0 {
        assert(nibble_value(s[0]) is Some);
        assert forall|k: int| 0 <= k < s.skip(1).len() implies nibble_value(
            #[trigger] s.skip(1)[k],
        ) is Some by {
            assert(s.skip(1)[k] == s[k + 1]);
        }
        lemma_all_hex_no_error(s.skip(1));
    }
}

/// `256` to the power `k`.
pub open spec fn byte_power(k: nat) -> nat
    decreases k,
{
    if k == 0 {
        1
    } else {
        256 * byte_power((k - 1) as nat)
    }
}

proof fn lemma_le_bytes_len(n: nat, k: nat)
    ensures
        le_bytes(n, k).len() == k,
    decreases k,
{
    if k > 0 {
        lemma_le_bytes_len(n / 256, (k - 1) as nat);
    }
}

/// Two numbers below `256^k` with the same `k` low-order bytes are equal.
proof fn lemma_le_bytes_injective(n: nat, m: nat, k: nat)
    requires
        n < byte_power(k),
        m < byte_power(k),
        le_bytes(n, k) == le_bytes(m, k),
    ensures
        n == m,
    decreases k,
{
    if k > 0 {
        let bp = byte_power((k - 1) as nat);
        assert(le_bytes(n, k)[0] == le_bytes(m, k)[0]);
        assert(le_bytes(n, k)[0] == (n % 256) as u8);
        assert(le_bytes(m, k)[0] == (m % 256) as u8);
        assert(n % 256 < 256 && m % 256 < 256);
        assert(n % 256 == m % 256);
        assert(le_bytes(n, k).drop_first() =~= le_bytes(n / 256, (k - 1) as nat));
        assert(le_bytes(m, k).drop_first() =~= le_bytes(m / 256, (k - 1) as nat));
        assert(n / 256 < bp) by (nonlinear_arith)
            requires
                n < 256 * bp,
        ;
        assert(m / 256 < bp) by (nonlinear_arith)
            requires
                m < 256 * bp,
        ;
        lemma_le_bytes_injective(n / 256, m / 256, (k - 1) as nat);
        vstd::arithmetic::div_mod::lemma_fundamental_div_mod(n as int, 256);
        vstd::arithmetic::div_mod::lemma_fundamental_div_mod(m as int, 256);
    } else {
        assert(n == 0 && m == 0);
    }
}

/// The encoding of a field list, read from its front: the first field's
/// length, the first field, then the encoding of the rest.
proof fn lemma_encode_fields_front(x: Seq<u8>, rest: Seq<Seq<u8>>)
    ensures
        encode_fields(seq![x] + rest) == le_bytes(x.len(), 8) + x + encode_fields(rest),
    decreases rest.len(),
{
    let f = seq![x] + rest;
    if rest.len() == 0 {
        assert(f.drop_last() =~= Seq::<Seq<u8>>::empty());
        assert(f.last() == x);
        assert(encode_fields(rest) == Seq::<u8>::empty());
        assert(encode_fields(f) == encode_fields(Seq::<Seq<u8>>::empty()) + le_bytes(x.len(), 8) + x);
        assert(encode_fields(f) =~= le_bytes(x.len(), 8) + x + encode_fields(rest));
    } else {
        assert(f.drop_last() =~= seq![x] + rest.drop_last());
        assert(f.last() == rest.last());
        lemma_encode_fields_front(x, rest.drop_last());
        assert(encode_fields(f) == encode_fields(seq![x] + rest.drop_last()) + le_bytes(rest.last().len(), 8)
            + rest.last());
        assert(encode_fields(rest) == encode_fields(rest.drop_last()) + le_bytes(rest.last().len(), 8)
            + rest.last());
        let a = le_bytes(x.len(), 8);
        let c = encode_fields(rest.drop_last());
        let d = le_bytes(rest.last().len(), 8);
        let e = rest.last();
        assert(a + x + c + d + e =~= a + x + (c + d + e));
    }
}

/// Different lists of fields never encode to the same bytes: each field is
/// preceded by its length, so the bytes determine the list. This is why the
/// fields `["ab", "c"]` and `["a", "bc"]` get different fingerprints.
pub proof fn lemma_encode_fields_injective(a: Seq<Seq<u8>>, b: Seq<Seq<u8>>)
    requires
        forall|i: int| 0 <= i < a.len() ==> #[trigger] a[i].len() <= u64::MAX,
        forall|i: int| 0 <= i < b.len() ==> #[trigger] b[i].len() <= u64::MAX,
        encode_fields(a) == encode_fields(b),
    ensures
        a == b,
    decreases a.len(),
{
    assert(byte_power(8) == 0x1_0000_0000_0000_0000) by {
        reveal_with_fuel(byte_power, 9);
    }
    if a.len() == 0 && b.len() == 0 {
        assert(a =~= b);
    } else if a.len() == 0 || b.len() == 0 {
        let c = if a.len() == 0 { b } else { a };
        assert(c =~= seq![c[0]] + c.drop_first());
        lemma_encode_fields_front(c[0], c.drop_first());
        lemma_le_bytes_len(c[0].len(), 8);
        assert(encode_fields(c).len() >= 8);
        assert(encode_fields(Seq::<Seq<u8>>::empty()).len() == 0);
        if a.len() == 0 {
            assert(a =~= Seq::<Seq<u8>>::empty());
        } else {
            assert(b =~= Seq::<Seq<u8>>::empty());
        }
    } else {
        let (x, y) = (a[0], b[0]);
        let (ra, rb) = (a.drop_first(), b.drop_first());
        assert(a =~= seq![x] + ra);
        assert(b =~= seq![y] + rb);
        lemma_encode_fields_front(x, ra);
        lemma_encode_fields_front(y, rb);
        lemma_le_bytes_len(x.len(), 8);
        lemma_le_bytes_len(y.len(), 8);
        let e = encode_fields(a);
        assert(e.take(8) =~= le_bytes(x.len(), 8));
        assert(encode_fields(b).take(8) =~= le_bytes(y.len(), 8));
        assert(x.len() <= u64::MAX && y.len() <= u64::MAX);
        lemma_le_bytes_injective(x.len(), y.len(), 8);
        assert(e.subrange(8, 8 + x.len() as int) =~= x);
        assert(encode_fields(b).subrange(8, 8 + y.len() as int) =~= y);
        assert(e.skip(8 + x.len() as int) =~= encode_fields(ra));
        assert(encode_fields(b).skip(8 + y.len() as int) =~= encode_fields(rb));
        assert forall|i: int| 0 <= i < ra.len() implies #[trigger] ra[i].len() <= u64::MAX by {
            assert(ra[i] == a[i + 1]);
        }
        assert forall|i: int| 0 <= i < rb.len() implies #[trigger] rb[i].len() <= u64::MAX by {
            assert(rb[i] == b[i + 1]);
        }
        lemma_encode_fields_injective(ra, rb);
    }
}

} // verus!
