use vstd::prelude::*;
use vstd::bytes::{
    spec_u16_from_le_bytes, spec_u16_to_le_bytes, spec_u64_from_le_bytes, spec_u64_to_le_bytes,
    u16_from_le_bytes, u16_to_le_bytes, u64_from_le_bytes, u64_to_le_bytes,
};
use vstd::slice::slice_subrange;

verus! {

/// Byte encoding of a `u16`: two bytes, least significant first.
pub open spec fn u16_bytes(v: u16) -> Seq<u8> {
    spec_u16_to_le_bytes(v)
}

/// Byte encoding of a `u64`: eight bytes, least significant first.
pub open spec fn u64_bytes(v: u64) -> Seq<u8> {
    spec_u64_to_le_bytes(v)
}

/// Byte encoding of an optional `u64`: `0` for none, `1` then the value.
pub open spec fn opt_u64_bytes(v: Option<u64>) -> Seq<u8> {
    match v {
        None => seq![0u8],
        Some(x) => seq![1u8] + u64_bytes(x),
    }
}

/// The `u16` stored at `pos`, with the position after it.
pub open spec fn parse_u16(s: Seq<u8>, pos: int) -> Option<(u16, int)> {
    if 0 <= pos && pos + 2 <= s.len() {
        Some((spec_u16_from_le_bytes(s.subrange(pos, pos + 2)), pos + 2))
    } else {
        None
    }
}

/// The `u64` stored at `pos`, with the position after it.
pub open spec fn parse_u64(s: Seq<u8>, pos: int) -> Option<(u64, int)> {
    if 0 <= pos && pos + 8 <= s.len() {
        Some((spec_u64_from_le_bytes(s.subrange(pos, pos + 8)), pos + 8))
    } else {
        None
    }
}

/// The optional `u64` stored at `pos`, with the position after it.
pub open spec fn parse_opt_u64(s: Seq<u8>, pos: int) -> Option<(Option<u64>, int)> {
    if 0 <= pos && pos < s.len() {
        if s[pos] == 0 {
            Some((None, pos + 1))
        } else if s[pos] == 1 {
            match parse_u64(s, pos + 1) {
                Some((v, next)) => Some((Some(v), next)),
                None => None,
            }
        } else {
            None
        }
    } else {
        None
    }
}

pub proof fn lemma_u16_round_trip(v: u16, s: Seq<u8>, pos: int)
    requires
        0 <= pos,
        pos + 2 <= s.len(),
        s.subrange(pos, pos + 2) == u16_bytes(v),
    ensures
        parse_u16(s, pos) == Some((v, pos + 2)),
{
    vstd::bytes::lemma_auto_spec_u16_to_from_le_bytes();
    assert(spec_u16_to_le_bytes(v).len() == 2);
}

pub proof fn lemma_u64_round_trip(v: u64, s: Seq<u8>, pos: int)
    requires
        0 <= pos,
        pos + 8 <= s.len(),
        s.subrange(pos, pos + 8) == u64_bytes(v),
    ensures
        parse_u64(s, pos) == Some((v, pos + 8)),
{
    vstd::bytes::lemma_auto_spec_u64_to_from_le_bytes();
}

pub proof fn lemma_u64_bytes_len(v: u64)
    ensures
        u64_bytes(v).len() == 8,
{
    vstd::bytes::lemma_auto_spec_u64_to_from_le_bytes();
}

pub proof fn lemma_u16_bytes_len(v: u16)
    ensures
        u16_bytes(v).len() == 2,
{
    vstd::bytes::lemma_auto_spec_u16_to_from_le_bytes();
}

pub proof fn lemma_opt_u64_round_trip(v: Option<u64>, s: Seq<u8>, pos: int)
    requires
        0 <= pos,
        pos + opt_u64_bytes(v).len() <= s.len(),
        s.subrange(pos, pos + opt_u64_bytes(v).len()) == opt_u64_bytes(v),
    ensures
        parse_opt_u64(s, pos) == Some((v, pos + opt_u64_bytes(v).len())),
{
    let e = opt_u64_bytes(v);
    assert(s[pos] == e[0]);
    if let Some(x) = v {
        lemma_u64_bytes_len(x);
        assert(s.subrange(pos + 1, pos + 9) =~= e.subrange(1, 9));
        assert(e.subrange(1, 9) =~= u64_bytes(x));
        lemma_u64_round_trip(x, s, pos + 1);
    }
}

pub fn write_u8(out: &mut Vec<u8>, v: u8)
    ensures
        final(out)@ == old(out)@ + seq![v],
{
    out.push(v);
}

pub fn write_u16(out: &mut Vec<u8>, v: u16)
    ensures
        final(out)@ == old(out)@ + u16_bytes(v),
{
    let mut b = u16_to_le_bytes(v);
    out.append(&mut b);
}

pub fn write_u64(out: &mut Vec<u8>, v: u64)
    ensures
        final(out)@ == old(out)@ + u64_bytes(v),
{
    let mut b = u64_to_le_bytes(v);
    out.append(&mut b);
}

pub fn write_opt_u64(out: &mut Vec<u8>, v: Option<u64>)
    ensures
        final(out)@ == old(out)@ + opt_u64_bytes(v),
{
    match v {
        None => write_u8(out, 0),
        Some(x) => {
            write_u8(out, 1);
            write_u64(out, x);
            assert(final(out)@ =~= old(out)@ + opt_u64_bytes(v));
        },
    }
}

pub fn write_bytes(out: &mut Vec<u8>, b: &Vec<u8>)
    ensures
        final(out)@ == old(out)@ + b@,
{
    let mut c = b.clone();
    assert(c@ =~= b@);
    out.append(&mut c);
}

/// Why bytes could not be read back into a value.
#[derive(Debug, Clone, Copy, PartialEq, Eq)]
pub enum ReaderError {
    /// The input ended before the value did.
    InvalidSize,
    /// A tag or a value was out of its range.
    InvalidValue,
}

pub fn read_u8(data: &Vec<u8>, pos: usize) -> (r: Result<u8, ReaderError>)
    ensures
        match r {
            Ok(v) => pos < data@.len() && v == data@[pos as int],
            Err(e) => pos >= data@.len() && e == ReaderError::InvalidSize,
        },
{
    if pos < data.len() {
        Ok(data[pos])
    } else {
        Err(ReaderError::InvalidSize)
    }
}

pub fn read_u16(data: &Vec<u8>, pos: usize) -> (r: Result<u16, ReaderError>)
    ensures
        match r {
            Ok(v) => parse_u16(data@, pos as int) == Some((v, pos + 2)),
            Err(e) => parse_u16(data@, pos as int) is None && e == ReaderError::InvalidSize,
        },
{
    if pos <= data.len() && data.len() - pos >= 2 {
        let s = slice_subrange(data.as_slice(), pos, pos + 2);
        Ok(u16_from_le_bytes(s))
    } else {
        Err(ReaderError::InvalidSize)
    }
}

pub fn read_u64(data: &Vec<u8>, pos: usize) -> (r: Result<u64, ReaderError>)
    ensures
        match r {
            Ok(v) => parse_u64(data@, pos as int) == Some((v, pos + 8)),
            Err(e) => parse_u64(data@, pos as int) is None && e == ReaderError::InvalidSize,
        },
{
    if pos <= data.len() && data.len() - pos >= 8 {
        let s = slice_subrange(data.as_slice(), pos, pos + 8);
        Ok(u64_from_le_bytes(s))
    } else {
        Err(ReaderError::InvalidSize)
    }
}

pub fn read_opt_u64(data: &Vec<u8>, pos: usize) -> (r: Result<Option<u64>, ReaderError>)
    ensures
        match r {
            Ok(v) => parse_opt_u64(data@, pos as int) == Some((v, pos + opt_u64_bytes(v).len())),
            Err(e) => parse_opt_u64(data@, pos as int) is None && (e == ReaderError::InvalidValue
                <==> (pos < data@.len() && data@[pos as int] > 1)),
        },
{
    if pos >= data.len() {
        return Err(ReaderError::InvalidSize);
    }
    let tag = data[pos];
    if tag == 0 {
        Ok(None)
    } else if tag == 1 {
        let v = read_u64(data, pos + 1)?;
        proof {
            lemma_u64_bytes_len(v);
        }
        Ok(Some(v))
    } else {
        Err(ReaderError::InvalidValue)
    }
}

/// Reads `n` raw bytes at `pos`.
pub fn read_bytes(data: &Vec<u8>, pos: usize, n: usize) -> (r: Result<Vec<u8>, ReaderError>)
    ensures
        match r {
            Ok(v) => pos + n <= data@.len() && v@ == data@.subrange(pos as int, pos + n),
            Err(e) => pos + n > data@.len() && e == ReaderError::InvalidSize,
        },
{
    if pos <= data.len() && data.len() - pos >= n {
        let s = slice_subrange(data.as_slice(), pos, pos + n);
        Ok(vstd::slice::slice_to_vec(s))
    } else {
        Err(ReaderError::InvalidSize)
    }
}

/// The lowercase ASCII hex digit of `n`, for `n < 16`.
pub open spec fn hex_digit(n: int) -> u8 {
    if n < 10 {
        (48 + n) as u8
    } else {
        (87 + n) as u8
    }
}

/// Two lowercase hex digits per byte, most significant digit first.
pub open spec fn hex_encode(b: Seq<u8>) -> Seq<u8>
    decreases b.len(),
{
    if b.len() == 0 {
        Seq::empty()
    } else {
        hex_encode(b.drop_last()) + seq![hex_digit(b.last() as int / 16), hex_digit(b.last() as int % 16)]
    }
}

/// The value of an ASCII hex digit, either case.
pub open spec fn hex_value(c: u8) -> Option<u8> {
    if 48 <= c <= 57 {
        Some((c - 48) as u8)
    } else if 97 <= c <= 102 {
        Some((c - 87) as u8)
    } else if 65 <= c <= 70 {
        Some((c - 55) as u8)
    } else {
        None
    }
}

/// The bytes that a string of hex digits spells, two digits per byte.
pub open spec fn hex_decode(s: Seq<u8>) -> Option<Seq<u8>>
    decreases s.len(),
{
    if s.len() % 2 == 1 {
        None
    } else if s.len() == 0 {
        Some(Seq::empty())
    } else {
        match hex_decode(s.subrange(0, s.len() - 2)) {
            None => None,
            Some(r) => match (hex_value(s[s.len() - 2]), hex_value(s[s.len() - 1])) {
                (Some(h), Some(l)) => Some(r.push((h * 16 + l) as u8)),
                _ => None,
            },
        }
    }
}

/// Decoding the hex encoding of bytes gives them back.
pub proof fn lemma_hex_round_trip(b: Seq<u8>)
    ensures
        hex_encode(b).len() == 2 * b.len(),
        hex_decode(hex_encode(b)) == Some(b),
        forall|i: int| 0 <= i < hex_encode(b).len() ==> #[trigger] hex_encode(b)[i] < 128,
    decreases b.len(),
{
    if b.len() > 0 {
        let init = b.drop_last();
        lemma_hex_round_trip(init);
        let e = hex_encode(b);
        let x = b.last();
        assert(e.subrange(0, e.len() - 2) =~= hex_encode(init));
        assert(hex_value(hex_digit(x as int / 16)) == Some((x / 16) as u8));
        assert(hex_value(hex_digit(x as int % 16)) == Some((x % 16) as u8));
        assert(((x / 16) * 16 + x % 16) as u8 == x);
        assert(init.push(x) =~= b);
    }
}

fn hex_digit_exec(n: u8) -> (r: u8)
    requires
        n < 16,
    ensures
        r == hex_digit(n as int),
{
    if n < 10 {
        48 + n
    } else {
        87 + n
    }
}

pub fn hex_encode_bytes(b: &Vec<u8>) -> (r: Vec<u8>)
    ensures
        r@ == hex_encode(b@),
{
    let mut out: Vec<u8> = Vec::new();
    let mut i: usize = 0;
    assert(b@.take(0) =~= Seq::<u8>::empty());
    while i < b.len()
        invariant
            i <= b@.len(),
            out@ == hex_encode(b@.take(i as int)),
        decreases b@.len() - i,
    {
        let x = b[i];
        out.push(hex_digit_exec(x / 16));
        out.push(hex_digit_exec(x % 16));
        assert(b@.take(i + 1).drop_last() =~= b@.take(i as int));
        i += 1;
        assert(out@ =~= hex_encode(b@.take(i as int)));
    }
    assert(b@.take(b@.len() as int) =~= b@);
    out
}

fn hex_value_exec(c: u8) -> (r: Option<u8>)
    ensures
        r == hex_value(c),
{
    if 48 <= c && c <= 57 {
        Some(c - 48)
    } else if 97 <= c && c <= 102 {
        Some(c - 87)
    } else if 65 <= c && c <= 70 {
        Some(c - 55)
    } else {
        None
    }
}

pub proof fn lemma_hex_decode_none(s: Seq<u8>, k: nat, n: nat)
    requires
        k <= n,
        2 * n <= s.len(),
        hex_decode(s.subrange(0, 2 * k as int)) is None,
    ensures
        hex_decode(s.subrange(0, 2 * n as int)) is None,
    decreases n - k,
{
    if k < n {
        lemma_hex_decode_none(s, k, (n - 1) as nat);
        let t = s.subrange(0, 2 * n as int);
        assert(t.subrange(0, t.len() - 2) =~= s.subrange(0, 2 * (n - 1)));
    }
}

pub fn hex_decode_bytes(s: &[u8]) -> (r: Option<Vec<u8>>)
    ensures
        match r {
            Some(v) => hex_decode(s@) == Some(v@),
            None => hex_decode(s@) is None,
        },
{
    if s.len() % 2 == 1 {
        return None;
    }
    let mut out: Vec<u8> = Vec::new();
    let mut i: usize = 0;
    assert(s@.subrange(0, 0) =~= Seq::<u8>::empty());
    while i < s.len() / 2
        invariant
            s@.len() % 2 == 0,
            i <= s@.len() / 2,
            hex_decode(s@.subrange(0, 2 * i as int)) == Some(out@),
        decreases s@.len() / 2 - i,
    {
        let ghost t = s@.subrange(0, 2 * i + 2);
        assert(t.subrange(0, t.len() - 2) =~= s@.subrange(0, 2 * i as int));
        let h = hex_value_exec(s[2 * i]);
        let l = hex_value_exec(s[2 * i + 1]);
        match (h, l) {
            (Some(h), Some(l)) => {
                out.push(h * 16 + l);
            },
            _ => {
                proof {
                    lemma_hex_decode_none(s@, (i + 1) as nat, (s@.len() / 2) as nat);
                    assert(s@.subrange(0, s@.len() as int) =~= s@);
                }
                return None;
            },
        }
        i += 1;
    }
    assert(s@.subrange(0, s@.len() as int) =~= s@);
    Some(out)
}

/// Relies on `String::from_utf8`: ASCII bytes are valid UTF-8, each byte
/// becoming the character with the same code.
#[verifier::external_body]
pub(crate) fn ascii_to_string(bytes: Vec<u8>) -> (r: String)
    requires
        forall|i: int| 0 <= i < bytes@.len() ==> #[trigger] bytes@[i] < 128,
    ensures
        r@ == bytes@.map_values(|b: u8| b as char),
{
    String::from_utf8(bytes).unwrap()
}

} // verus!
