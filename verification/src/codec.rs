//! The Viewer2000 wire codec: little-endian fields, CRC-32C, COBS framing,
//! frame headers, the streaming frame decoder, payload parsers and request
//! builders.

use vstd::prelude::*;
use vstd::string::*;
use crate::text::{hex_fixed, push_hex, push_str};

verus! {

pub const WIRE_VERSION: u8 = 10;
pub const VERSION_MAGIC: u8 = 0x5A;
pub const MAX_PAYLOAD: usize = 1024;
pub const ENUM_MAX_NAME_LEN: usize = 128;
/// Frame header octets before the payload.
pub const HEADER_LEN: usize = 7;
/// Octets of a frame around its payload: header and CRC.
pub const FRAME_OVERHEAD: usize = 11;
/// The longest COBS body the streaming decoder keeps before it resynchronizes.
pub const MAX_ENCODED: usize = 1040;

pub const MSG_HELLO: u8 = 0x01;
pub const MSG_ENUMERATE: u8 = 0x03;
pub const MSG_CAL_WRITE: u8 = 0x10;
pub const MSG_CAL_COMMIT: u8 = 0x11;
pub const MSG_CAL_READ: u8 = 0x12;
pub const MSG_DAQ_CONTROL: u8 = 0x20;
pub const MSG_CAPTURE_REPLAY: u8 = 0x21;
pub const MSG_DAQ_BIND: u8 = 0x22;
pub const MSG_SYSTEM_COMMAND: u8 = 0x30;
pub const MSG_STATUS_PUSH: u8 = 0x41;
pub const MSG_SCOPE_BLOCK_PUSH: u8 = 0x42;
pub const MSG_CAPTURE_BATCH_PUSH: u8 = 0x45;

/// One decoded frame.
#[derive(Debug, Clone, PartialEq, Eq)]
pub struct Frame {
    pub message_type: u8,
    pub sequence: u16,
    pub payload: Vec<u8>,
}

impl View for Frame {
    type V = (u8, u16, Seq<u8>);

    open spec fn view(&self) -> (u8, u16, Seq<u8>) {
        (self.message_type, self.sequence, self.payload@)
    }
}

/// Why a frame or payload was rejected.
#[derive(Debug, Clone, Copy, PartialEq, Eq)]
pub enum CodecError {
    InvalidCobs,
    FrameTooShort,
    VersionMismatch(u8),
    InvalidFlags,
    InvalidLength,
    InvalidCrc,
    MalformedPayload(&'static str),
}

// ---------------------------------------------------------------------------
// Little-endian fields

/// The unsigned 16-bit little-endian value at `off`.
pub open spec fn get_u16(s: Seq<u8>, off: int) -> u16 {
    ((s[off] as int) + 256 * (s[off + 1] as int)) as u16
}

/// The unsigned 32-bit little-endian value at `off`.
pub open spec fn get_u32(s: Seq<u8>, off: int) -> u32 {
    ((s[off] as int) + 256 * (s[off + 1] as int) + 65536 * (s[off + 2] as int)
        + 16777216 * (s[off + 3] as int)) as u32
}

/// The two little-endian octets of a 16-bit value.
pub open spec fn le16(v: u16) -> Seq<u8> {
    seq![(v % 256) as u8, (v / 256) as u8]
}

/// The four little-endian octets of a 32-bit value.
pub open spec fn le32(v: u32) -> Seq<u8> {
    seq![(v % 256) as u8, ((v / 256) % 256) as u8, ((v / 65536) % 256) as u8, (v / 16777216) as u8]
}

/// A little-endian 16-bit field reads back the value that was written.
pub proof fn lemma_le16_roundtrip(v: u16)
    ensures
        get_u16(le16(v), 0) == v,
{
}

/// A little-endian 32-bit field reads back the value that was written.
pub proof fn lemma_le32_roundtrip(v: u32)
    ensures
        get_u32(le32(v), 0) == v,
{
}

impl CodecError {
    /// The text of a codec error.
    pub open spec fn spec_message(self) -> Seq<char> {
        match self {
            CodecError::InvalidCobs => "COBS frame is malformed"@,
            CodecError::FrameTooShort => "frame is too short"@,
            CodecError::VersionMismatch(m) => "wire version mismatch: 0x"@ + hex_fixed(m as nat, 2, true),
            CodecError::InvalidFlags => "reserved flags are nonzero"@,
            CodecError::InvalidLength => "payload length is invalid"@,
            CodecError::InvalidCrc => "CRC-32C mismatch"@,
            CodecError::MalformedPayload(what) => "message payload is malformed: "@ + what@,
        }
    }

    /// Describes the error.
    pub fn message(&self) -> (r: String)
        ensures
            r@ == self.spec_message(),
    {
        match self {
            CodecError::InvalidCobs => "COBS frame is malformed".to_owned(),
            CodecError::FrameTooShort => "frame is too short".to_owned(),
            CodecError::VersionMismatch(m) => {
                let mut s = String::new();
                push_str(&mut s, "wire version mismatch: 0x");
                push_hex(&mut s, *m as u64, 2, true);
                s
            },
            CodecError::InvalidFlags => "reserved flags are nonzero".to_owned(),
            CodecError::InvalidLength => "payload length is invalid".to_owned(),
            CodecError::InvalidCrc => "CRC-32C mismatch".to_owned(),
            CodecError::MalformedPayload(what) => {
                let mut s = String::new();
                push_str(&mut s, "message payload is malformed: ");
                push_str(&mut s, what);
                s
            },
        }
    }
}

/// Reads the 16-bit little-endian field at `offset`; a field that does not
/// fit in `data` is a malformed payload.
pub fn read_u16(data: &[u8], offset: usize) -> (r: Result<u16, CodecError>)
    ensures
        offset + 2 <= data@.len() ==> r == Ok::<u16, CodecError>(get_u16(data@, offset as int)),
        offset + 2 > data@.len() ==> r == Err::<u16, CodecError>(CodecError::MalformedPayload("missing u16")),
{
    if offset > data.len() || data.len() - offset < 2 {
        return Err(CodecError::MalformedPayload("missing u16"));
    }
    Ok(data[offset] as u16 + (data[offset + 1] as u16) * 256)
}

/// Reads the 32-bit little-endian field at `offset`; a field that does not
/// fit in `data` is a malformed payload.
pub fn read_u32(data: &[u8], offset: usize) -> (r: Result<u32, CodecError>)
    ensures
        offset + 4 <= data@.len() ==> r == Ok::<u32, CodecError>(get_u32(data@, offset as int)),
        offset + 4 > data@.len() ==> r == Err::<u32, CodecError>(CodecError::MalformedPayload("missing u32")),
{
    if offset > data.len() || data.len() - offset < 4 {
        return Err(CodecError::MalformedPayload("missing u32"));
    }
    Ok(data[offset] as u32 + (data[offset + 1] as u32) * 256 + (data[offset + 2] as u32) * 65536
        + (data[offset + 3] as u32) * 16777216)
}

/// Appends the two little-endian octets of `value`.
pub fn put_u16(data: &mut Vec<u8>, value: u16)
    ensures
        final(data)@ == old(data)@ + le16(value),
{
    data.push((value % 256) as u8);
    data.push((value / 256) as u8);
    assert(final(data)@ =~= old(data)@ + le16(value));
}

/// Appends the four little-endian octets of `value`.
pub fn put_u32(data: &mut Vec<u8>, value: u32)
    ensures
        final(data)@ == old(data)@ + le32(value),
{
    data.push((value % 256) as u8);
    data.push(((value / 256) % 256) as u8);
    data.push(((value / 65536) % 256) as u8);
    data.push((value / 16777216) as u8);
    assert(final(data)@ =~= old(data)@ + le32(value));
}

// ---------------------------------------------------------------------------
// CRC-32C (Castagnoli, reflected polynomial 0x82F63B78)

/// One shift of the reflected CRC register.
pub open spec fn crc_shift(crc: u32) -> u32 {
    (crc >> 1) ^ (if crc & 1 != 0 { 0x82F6_3B78u32 } else { 0u32 })
}

/// `k` shifts of the CRC register.
pub open spec fn crc_shifts(crc: u32, k: nat) -> u32
    decreases k,
{
    if k == 0 { crc } else { crc_shifts(crc_shift(crc), (k - 1) as nat) }
}

/// The register after absorbing one octet.
pub open spec fn crc_absorb(crc: u32, octet: u8) -> u32 {
    crc_shifts(crc ^ (octet as u32), 8)
}

/// The register after absorbing `data` from the all-ones preset.
pub open spec fn crc_register(data: Seq<u8>) -> u32
    decreases data.len(),
{
    if data.len() == 0 {
        0xFFFF_FFFFu32
    } else {
        crc_absorb(crc_register(data.drop_last()), data.last())
    }
}

/// CRC-32C of `data`: the register, inverted.
pub open spec fn spec_crc32c(data: Seq<u8>) -> u32 {
    crc_register(data) ^ 0xFFFF_FFFFu32
}

/// CRC-32C of `data`.
pub fn crc32c(data: &[u8]) -> (r: u32)
    ensures
        r == spec_crc32c(data@),
{
    let mut crc: u32 = 0xFFFF_FFFF;
    let mut i: usize = 0;
    while i < data.len()
        invariant
            i <= data@.len(),
            crc == crc_register(data@.take(i as int)),
        decreases data.len() - i,
    {
        let octet = data[i];
        let mut c: u32 = crc ^ (octet as u32);
        let mut k: u32 = 0;
        while k < 8
            invariant
                k <= 8,
                crc_shifts(c, (8 - k) as nat) == crc_absorb(crc, octet),
            decreases 8 - k,
        {
            let next: u32 = (c >> 1) ^ (if c & 1 != 0 { 0x82F6_3B78u32 } else { 0u32 });
            assert(crc_shifts(c, (8 - k) as nat) == crc_shifts(crc_shift(c), (8 - k - 1) as nat));
            c = next;
            k = k + 1;
        }
        assert(data@.take(i as int + 1).drop_last() =~= data@.take(i as int));
        crc = c;
        i = i + 1;
    }
    assert(data@.take(data@.len() as int) =~= data@);
    crc ^ 0xFFFF_FFFF
}

} // verus!

verus! {

// ---------------------------------------------------------------------------
// COBS

/// The length of the run of nonzero octets that opens `s`, capped at 254.
pub open spec fn nz_run(s: Seq<u8>) -> nat
    decreases s.len(),
{
    if s.len() == 0 || s[0] == 0 {
        0
    } else if nz_run(s.drop_first()) >= 253 {
        254
    } else {
        1 + nz_run(s.drop_first())
    }
}

/// COBS encoding: each block is a code octet (run length plus one) and the
/// run; a zero after a short run is implied by the code, and a full block
/// of 254 octets always opens another block.
pub open spec fn cobs_enc(s: Seq<u8>) -> Seq<u8>
    decreases s.len(),
{
    let n = nz_run(s) as int;
    if n >= 254 && n <= s.len() {
        seq![255u8] + s.take(254) + cobs_enc(s.skip(254))
    } else if n >= s.len() {
        seq![(s.len() + 1) as u8] + s
    } else {
        seq![(n + 1) as u8] + s.take(n) + cobs_enc(s.skip(n + 1))
    }
}

/// COBS decoding of a frame body, or `None` where it is malformed: a zero
/// code octet, or a block running past the end.
pub open spec fn cobs_dec(s: Seq<u8>) -> Option<Seq<u8>>
    decreases s.len(),
{
    if s.len() == 0 {
        Some(Seq::empty())
    } else {
        let code = s[0];
        let count = code as int - 1;
        if code == 0 || 1 + count > s.len() {
            None
        } else {
            let block = s.subrange(1, 1 + count);
            let rest = s.skip(1 + count);
            match cobs_dec(rest) {
                None => None,
                Some(tail) => if code != 255 && rest.len() > 0 {
                    Some(block.push(0u8) + tail)
                } else {
                    Some(block + tail)
                },
            }
        }
    }
}

/// What `nz_run` measures.
pub proof fn lemma_nz_run(s: Seq<u8>)
    ensures
        nz_run(s) <= 254,
        nz_run(s) <= s.len(),
        forall|j: int| 0 <= j < nz_run(s) ==> s[j] != 0,
        nz_run(s) < 254 && nz_run(s) < s.len() ==> s[nz_run(s) as int] == 0,
    decreases s.len(),
{
    if s.len() == 0 || s[0] == 0 {
    } else {
        let t = s.drop_first();
        lemma_nz_run(t);
        assert forall|j: int| 0 <= j < nz_run(s) implies s[j] != 0 by {
            if j > 0 {
                assert(s[j] == t[j - 1]);
            }
        }
        if nz_run(s) < 254 && nz_run(s) < s.len() {
            assert(s[nz_run(s) as int] == t[nz_run(t) as int]);
        }
    }
}

/// Any run length with the properties of `nz_run` is `nz_run`.
pub proof fn lemma_nz_run_unique(s: Seq<u8>, n: nat)
    requires
        n <= 254,
        n <= s.len(),
        forall|j: int| 0 <= j < n ==> s[j] != 0,
        n < 254 && n < s.len() ==> s[n as int] == 0,
    ensures
        nz_run(s) == n,
    decreases s.len(),
{
    lemma_nz_run(s);
    if s.len() == 0 || s[0] == 0 {
    } else {
        let t = s.drop_first();
        assert forall|j: int| 0 <= j < n - 1 implies t[j] != 0 by {
            assert(t[j] == s[j + 1]);
        }
        if n < 254 {
            if n - 1 < t.len() {
                assert(t[(n - 1) as int] == s[n as int]);
            }
            lemma_nz_run_unique(t, (n - 1) as nat);
        } else {
            lemma_nz_run(t);
            if nz_run(t) < 253 {
                assert(t[nz_run(t) as int] == s[nz_run(t) as int + 1]);
            }
        }
    }
}

/// An encoding is never empty.
pub proof fn lemma_cobs_enc_nonempty(s: Seq<u8>)
    ensures
        cobs_enc(s).len() >= 1,
        cobs_enc(s)[0] != 0,
{
    lemma_nz_run(s);
}

/// An encoding holds no zero octet.
pub proof fn lemma_cobs_enc_no_zero(s: Seq<u8>)
    ensures
        forall|j: int| 0 <= j < cobs_enc(s).len() ==> cobs_enc(s)[j] != 0,
    decreases s.len(),
{
    lemma_nz_run(s);
    let n = nz_run(s) as int;
    let e = cobs_enc(s);
    if n >= 254 && n <= s.len() {
        let r = cobs_enc(s.skip(254));
        lemma_cobs_enc_no_zero(s.skip(254));
        assert forall|j: int| 0 <= j < e.len() implies e[j] != 0 by {
            if j == 0 {
            } else if j <= 254 {
                assert(e[j] == s[j - 1]);
            } else {
                assert(e[j] == r[j - 255]);
            }
        }
    } else if n >= s.len() {
        assert forall|j: int| 0 <= j < e.len() implies e[j] != 0 by {
            if j > 0 {
                assert(e[j] == s[j - 1]);
            }
        }
    } else {
        let r = cobs_enc(s.skip(n + 1));
        lemma_cobs_enc_no_zero(s.skip(n + 1));
        assert forall|j: int| 0 <= j < e.len() implies e[j] != 0 by {
            if j == 0 {
            } else if j <= n {
                assert(e[j] == s[j - 1]);
            } else {
                assert(e[j] == r[j - n - 1]);
            }
        }
    }
}

/// The encoding adds at most one octet per 254 octets, plus one.
pub proof fn lemma_cobs_enc_len(s: Seq<u8>)
    ensures
        cobs_enc(s).len() <= s.len() + s.len() / 254 + 1,
    decreases s.len(),
{
    lemma_nz_run(s);
    let n = nz_run(s) as int;
    let l = s.len() as int;
    if n >= 254 && n <= s.len() {
        lemma_cobs_enc_len(s.skip(254));
        assert((l - 254) / 254 == l / 254 - 1) by (nonlinear_arith)
            requires l >= 254;
    } else if n >= s.len() {
    } else {
        lemma_cobs_enc_len(s.skip(n + 1));
        assert((l - n - 1) / 254 <= l / 254) by (nonlinear_arith)
            requires 0 <= l - n - 1 <= l;
    }
}

/// Decoding an encoding gives back the original octets.
pub proof fn lemma_cobs_roundtrip(s: Seq<u8>)
    ensures
        cobs_dec(cobs_enc(s)) == Some(s),
    decreases s.len(),
{
    lemma_nz_run(s);
    let n = nz_run(s) as int;
    let e = cobs_enc(s);
    if n >= 254 && n <= s.len() {
        let r = cobs_enc(s.skip(254));
        lemma_cobs_roundtrip(s.skip(254));
        assert(e == seq![255u8] + s.take(254) + r);
        assert(e[0] == 255u8);
        assert(e.subrange(1, 255) =~= s.take(254));
        assert(e.skip(255) =~= r);
        assert(s.take(254) + s.skip(254) =~= s);
        assert(cobs_dec(e) == Some(e.subrange(1, 255) + s.skip(254)));
    } else if n >= s.len() {
        assert(n == s.len());
        assert(e == seq![(s.len() + 1) as u8] + s);
        assert(e[0] == (s.len() + 1) as u8);
        assert(e.subrange(1, (1 + s.len()) as int) =~= s);
        assert(e.skip((1 + s.len()) as int) =~= Seq::<u8>::empty());
        assert(s + Seq::<u8>::empty() =~= s);
        assert(cobs_dec(e.skip((1 + s.len()) as int)) == Some(Seq::<u8>::empty()));
    } else {
        let r = cobs_enc(s.skip(n + 1));
        lemma_cobs_roundtrip(s.skip(n + 1));
        lemma_cobs_enc_nonempty(s.skip(n + 1));
        assert(e == seq![(n + 1) as u8] + s.take(n) + r);
        assert(e[0] == (n + 1) as u8);
        assert(e.subrange(1, 1 + n) =~= s.take(n));
        assert(e.skip(1 + n) =~= r);
        assert(s[n] == 0);
        assert(s.take(n).push(0u8) + s.skip(n + 1) =~= s);
    }
}

/// COBS-encodes `data`.
pub fn cobs_encode(data: &[u8]) -> (r: Vec<u8>)
    ensures
        r@ == cobs_enc(data@),
{
    let mut out: Vec<u8> = Vec::new();
    let mut i: usize = 0;
    assert(data@.skip(0) =~= data@);
    assert(out@ + cobs_enc(data@) =~= cobs_enc(data@));
    loop
        invariant
            i <= data@.len(),
            out@ + cobs_enc(data@.skip(i as int)) == cobs_enc(data@),
        decreases data@.len() - i,
    {
        let ghost rest = data@.skip(i as int);
        let mut n: usize = 0;
        while i + n < data.len() && n < 254 && data[i + n] != 0
            invariant
                i + n <= data@.len(),
                i + n <= data.len(),
                n <= 254,
                rest == data@.skip(i as int),
                forall|j: int| 0 <= j < n ==> rest[j] != 0,
            decreases 254 - n,
        {
            n = n + 1;
        }
        proof {
            lemma_nz_run_unique(rest, n as nat);
        }
        out.push((n + 1) as u8);
        let ghost before = out@;
        let mut k: usize = 0;
        while k < n
            invariant
                k <= n,
                i + n <= data@.len(),
                i + n <= data.len(),
                out@ == before + data@.subrange(i as int, (i + k) as int),
            decreases n - k,
        {
            out.push(data[i + k]);
            assert(data@.subrange(i as int, (i + k + 1) as int) =~= data@.subrange(i as int, (i + k) as int).push(data@[(i + k) as int]));
            k = k + 1;
        }
        assert(rest.take(n as int) =~= data@.subrange(i as int, (i + n) as int));
        if n == 254 {
            assert(rest.skip(254) =~= data@.skip((i + 254) as int));
            assert(out@ + cobs_enc(data@.skip((i + 254) as int)) =~= before.drop_last() + cobs_enc(rest));
            i = i + 254;
        } else if i + n == data.len() {
            assert(rest.take(n as int) =~= rest);
            assert(rest.len() == n);
            assert(cobs_enc(rest) == seq![(n + 1) as u8] + rest);
            assert(out@ =~= before.drop_last() + cobs_enc(rest));
            return out;
        } else {
            assert(rest.skip(n + 1) =~= data@.skip((i + n + 1) as int));
            assert(out@ + cobs_enc(data@.skip((i + n + 1) as int)) =~= before.drop_last() + cobs_enc(rest));
            i = i + n + 1;
        }
    }
}

/// Optional prefixing: `Some(p + t)` where the tail decoded to `t`.
pub open spec fn opt_prefix(p: Seq<u8>, o: Option<Seq<u8>>) -> Option<Seq<u8>> {
    match o {
        Some(t) => Some(p + t),
        None => None,
    }
}

/// COBS-decodes a frame body; a zero code octet or a block running past
/// the end is `InvalidCobs`.
pub fn cobs_decode(data: &[u8]) -> (r: Result<Vec<u8>, CodecError>)
    ensures
        match cobs_dec(data@) {
            Some(d) => r matches Ok(v) && v@ == d,
            None => r == Err::<Vec<u8>, CodecError>(CodecError::InvalidCobs),
        },
{
    let mut decoded: Vec<u8> = Vec::new();
    let mut read: usize = 0;
    assert(data@.skip(0) =~= data@);
    assert(decoded@ + cobs_dec(data@).unwrap() =~= cobs_dec(data@).unwrap());
    while read < data.len()
        invariant
            read <= data@.len(),
            cobs_dec(data@) == opt_prefix(decoded@, cobs_dec(data@.skip(read as int))),
        decreases data@.len() - read,
    {
        let ghost s = data@.skip(read as int);
        let code = data[read];
        if code == 0 {
            return Err(CodecError::InvalidCobs);
        }
        read = read + 1;
        let count = (code - 1) as usize;
        if count > data.len() - read {
            return Err(CodecError::InvalidCobs);
        }
        let ghost before = decoded@;
        let mut k: usize = 0;
        while k < count
            invariant
                k <= count,
                read + count <= data@.len(),
                read + count <= data.len(),
                decoded@ == before + data@.subrange(read as int, (read + k) as int),
            decreases count - k,
        {
            decoded.push(data[read + k]);
            assert(data@.subrange(read as int, (read + k + 1) as int) =~= data@.subrange(read as int, (read + k) as int).push(data@[(read + k) as int]));
            k = k + 1;
        }
        assert(s.subrange(1, 1 + count as int) =~= data@.subrange(read as int, (read + count) as int));
        assert(s.skip(1 + count as int) =~= data@.skip((read + count) as int));
        read = read + count;
        if code != 0xFF && read < data.len() {
            decoded.push(0);
        }
        proof {
            let block = data@.subrange((read - count) as int, read as int);
            match cobs_dec(data@.skip(read as int)) {
                Some(t) => {
                    if code != 255 && read < data@.len() {
                        assert(decoded@ =~= before + block.push(0u8));
                        assert(before + (block.push(0u8) + t) =~= decoded@ + t);
                    } else {
                        assert(before + (block + t) =~= decoded@ + t);
                    }
                },
                None => {},
            }
        }
    }
    assert(data@.skip(read as int) =~= Seq::<u8>::empty());
    assert(decoded@ + Seq::<u8>::empty() =~= decoded@);
    Ok(decoded)
}

} // verus!

verus! {

// ---------------------------------------------------------------------------
// Frames

/// The frame header and payload, before the CRC.
pub open spec fn frame_body(message_type: u8, sequence: u16, payload: Seq<u8>) -> Seq<u8> {
    seq![VERSION_MAGIC, message_type, 0u8] + le16(sequence) + le16(payload.len() as u16) + payload
}

/// A raw frame: header, payload and the CRC-32C of both.
pub open spec fn raw_frame(message_type: u8, sequence: u16, payload: Seq<u8>) -> Seq<u8> {
    let body = frame_body(message_type, sequence, payload);
    body + le32(spec_crc32c(body))
}

/// A frame on the wire: the COBS encoding of the raw frame and a zero delimiter.
pub open spec fn wire_frame(message_type: u8, sequence: u16, payload: Seq<u8>) -> Seq<u8> {
    cobs_enc(raw_frame(message_type, sequence, payload)).push(0u8)
}

/// What a raw frame decodes to, check by check in the order the decoder applies them.
pub open spec fn spec_decode_raw(raw: Seq<u8>) -> Result<(u8, u16, Seq<u8>), CodecError> {
    if raw.len() < FRAME_OVERHEAD {
        Err(CodecError::FrameTooShort)
    } else if raw[0] != VERSION_MAGIC {
        Err(CodecError::VersionMismatch(raw[0]))
    } else if raw[2] != 0 {
        Err(CodecError::InvalidFlags)
    } else {
        let payload_len = get_u16(raw, 5) as int;
        if payload_len > MAX_PAYLOAD || raw.len() != HEADER_LEN + payload_len + 4 {
            Err(CodecError::InvalidLength)
        } else if spec_crc32c(raw.take(raw.len() - 4)) != get_u32(raw, raw.len() - 4) {
            Err(CodecError::InvalidCrc)
        } else {
            Ok((raw[1], get_u16(raw, 3), raw.subrange(7, 7 + payload_len)))
        }
    }
}

/// The frame a wire body (without its delimiter) carries.
pub open spec fn spec_decode_wire(encoded: Seq<u8>) -> Result<(u8, u16, Seq<u8>), CodecError> {
    match cobs_dec(encoded) {
        None => Err(CodecError::InvalidCobs),
        Some(raw) => spec_decode_raw(raw),
    }
}

/// Encodes a frame for the wire; payloads are at most `MAX_PAYLOAD` octets.
pub fn encode_frame(message_type: u8, sequence: u16, payload: &[u8]) -> (r: Vec<u8>)
    requires
        payload@.len() <= MAX_PAYLOAD,
    ensures
        r@ == wire_frame(message_type, sequence, payload@),
{
    let mut raw: Vec<u8> = Vec::new();
    raw.push(VERSION_MAGIC);
    raw.push(message_type);
    raw.push(0);
    put_u16(&mut raw, sequence);
    put_u16(&mut raw, payload.len() as u16);
    let mut i: usize = 0;
    let ghost head = raw@;
    while i < payload.len()
        invariant
            i <= payload@.len(),
            raw@ == head + payload@.take(i as int),
        decreases payload.len() - i,
    {
        raw.push(payload[i]);
        assert(payload@.take(i as int + 1) =~= payload@.take(i as int).push(payload@[i as int]));
        i = i + 1;
    }
    assert(payload@.take(payload@.len() as int) =~= payload@);
    assert(raw@ =~= frame_body(message_type, sequence, payload@));
    let crc = crc32c(raw.as_slice());
    put_u32(&mut raw, crc);
    let mut wire = cobs_encode(raw.as_slice());
    wire.push(0);
    wire
}

/// Copies `data[start..end]` into a new vector.
pub fn copy_range(data: &[u8], start: usize, end: usize) -> (r: Vec<u8>)
    requires
        start <= end <= data@.len(),
    ensures
        r@ == data@.subrange(start as int, end as int),
{
    vstd::slice::slice_to_vec(vstd::slice::slice_subrange(data, start, end))
}

/// Decodes a raw (COBS-decoded) frame: at least 11 octets, the current
/// version magic, zero flags, a declared payload length of at most
/// `MAX_PAYLOAD` that matches the frame, and a matching CRC-32C.
pub fn decode_raw(raw: &[u8]) -> (r: Result<Frame, CodecError>)
    ensures
        match spec_decode_raw(raw@) {
            Ok(f) => r matches Ok(frame) && frame@ == f,
            Err(e) => r == Err::<Frame, CodecError>(e),
        },
{
    if raw.len() < FRAME_OVERHEAD {
        return Err(CodecError::FrameTooShort);
    }
    if raw[0] != VERSION_MAGIC {
        return Err(CodecError::VersionMismatch(raw[0]));
    }
    if raw[2] != 0 {
        return Err(CodecError::InvalidFlags);
    }
    let payload_len = match read_u16(raw, 5) {
        Ok(v) => v as usize,
        Err(e) => return Err(e),
    };
    if payload_len > MAX_PAYLOAD || raw.len() != HEADER_LEN + payload_len + 4 {
        return Err(CodecError::InvalidLength);
    }
    let expected = match read_u32(raw, raw.len() - 4) {
        Ok(v) => v,
        Err(e) => return Err(e),
    };
    let body = vstd::slice::slice_subrange(raw, 0, raw.len() - 4);
    assert(body@ =~= raw@.take(raw@.len() - 4));
    if crc32c(body) != expected {
        return Err(CodecError::InvalidCrc);
    }
    let sequence = match read_u16(raw, 3) {
        Ok(v) => v,
        Err(e) => return Err(e),
    };
    Ok(Frame { message_type: raw[1], sequence, payload: copy_range(raw, 7, 7 + payload_len) })
}

/// A frame built by `encode_frame` decodes back to its type, sequence and
/// payload.
pub proof fn lemma_decode_raw_frame(message_type: u8, sequence: u16, payload: Seq<u8>)
    requires
        payload.len() <= MAX_PAYLOAD,
    ensures
        spec_decode_raw(raw_frame(message_type, sequence, payload)) == Ok::<(u8, u16, Seq<u8>), CodecError>(
            (message_type, sequence, payload),
        ),
{
    let body = frame_body(message_type, sequence, payload);
    let raw = raw_frame(message_type, sequence, payload);
    let crc = spec_crc32c(body);
    assert(body.len() == 7 + payload.len());
    assert(raw.len() == 11 + payload.len());
    lemma_le16_roundtrip(sequence);
    lemma_le16_roundtrip(payload.len() as u16);
    lemma_le32_roundtrip(crc);
    assert(raw[3] == le16(sequence)[0] && raw[4] == le16(sequence)[1]);
    assert(raw[5] == le16(payload.len() as u16)[0] && raw[6] == le16(payload.len() as u16)[1]);
    assert(get_u16(raw, 5) == payload.len());
    assert(get_u16(raw, 3) == sequence);
    let k = raw.len() - 4;
    assert(raw[k] == le32(crc)[0] && raw[k + 1] == le32(crc)[1] && raw[k + 2] == le32(crc)[2]
        && raw[k + 3] == le32(crc)[3]);
    assert(get_u32(raw, k) == crc);
    assert(raw.take(k) =~= body);
    assert(raw.subrange(7, 7 + payload.len() as int) =~= payload);
}

/// A frame on the wire decodes back to its type, sequence and payload.
pub proof fn lemma_wire_frame_decodes(message_type: u8, sequence: u16, payload: Seq<u8>)
    requires
        payload.len() <= MAX_PAYLOAD,
    ensures
        spec_decode_wire(wire_frame(message_type, sequence, payload).drop_last())
            == Ok::<(u8, u16, Seq<u8>), CodecError>((message_type, sequence, payload)),
{
    let raw = raw_frame(message_type, sequence, payload);
    assert(wire_frame(message_type, sequence, payload).drop_last() =~= cobs_enc(raw));
    lemma_cobs_roundtrip(raw);
    lemma_decode_raw_frame(message_type, sequence, payload);
}

} // verus!

verus! {

// ---------------------------------------------------------------------------
// Streaming decoder

/// The view of one decoder result.
pub open spec fn result_view(r: Result<Frame, CodecError>) -> Result<(u8, u16, Seq<u8>), CodecError> {
    match r {
        Ok(f) => Ok(f@),
        Err(e) => Err(e),
    }
}

/// One octet through the decoder: a zero delimits and decodes the
/// collected body (when there is one and the decoder is not discarding);
/// another octet is collected while the body is below `MAX_ENCODED`, and
/// an overlong body is dropped and the rest discarded up to the next zero.
pub open spec fn decoder_step(encoded: Seq<u8>, discarding: bool, octet: u8) -> (Seq<u8>, bool, Seq<Result<(u8, u16, Seq<u8>), CodecError>>) {
    if octet == 0 {
        if !discarding && encoded.len() > 0 {
            (Seq::empty(), false, seq![spec_decode_wire(encoded)])
        } else {
            (Seq::empty(), false, Seq::empty())
        }
    } else if !discarding {
        if encoded.len() < MAX_ENCODED {
            (encoded.push(octet), false, Seq::empty())
        } else {
            (Seq::empty(), true, Seq::empty())
        }
    } else {
        (encoded, discarding, Seq::empty())
    }
}

/// The decoder state and the frames emitted after feeding `bytes` in order.
pub open spec fn decoder_run(encoded: Seq<u8>, discarding: bool, bytes: Seq<u8>) -> (Seq<u8>, bool, Seq<Result<(u8, u16, Seq<u8>), CodecError>>)
    decreases bytes.len(),
{
    if bytes.len() == 0 {
        (encoded, discarding, Seq::empty())
    } else {
        let (e, d, out) = decoder_run(encoded, discarding, bytes.drop_last());
        let (e2, d2, out2) = decoder_step(e, d, bytes.last());
        (e2, d2, out + out2)
    }
}

/// How a stream is split between pushes does not matter: feeding `a` and
/// then `b` leaves the decoder in the state, and emits the frames, that
/// feeding `a + b` at once does.
pub proof fn law_decoder_split(encoded: Seq<u8>, discarding: bool, a: Seq<u8>, b: Seq<u8>)
    ensures
        ({
            let (e1, d1, o1) = decoder_run(encoded, discarding, a);
            let (e2, d2, o2) = decoder_run(e1, d1, b);
            decoder_run(encoded, discarding, a + b) == (e2, d2, o1 + o2)
        }),
    decreases b.len(),
{
    let (e1, d1, o1) = decoder_run(encoded, discarding, a);
    if b.len() == 0 {
        assert(a + b =~= a);
        assert(o1 + Seq::empty() =~= o1);
    } else {
        law_decoder_split(encoded, discarding, a, b.drop_last());
        assert((a + b).drop_last() =~= a + b.drop_last());
        assert((a + b).last() == b.last());
        let (e3, d3, o3) = decoder_run(e1, d1, b.drop_last());
        let (e4, d4, o4) = decoder_step(e3, d3, b.last());
        assert(o1 + o3 + o4 =~= o1 + (o3 + o4));
    }
}

/// Splits a byte stream into frames at zero delimiters.
pub struct FrameDecoder {
    encoded: Vec<u8>,
    discard_until_delimiter: bool,
}

impl View for FrameDecoder {
    type V = (Seq<u8>, bool);

    closed spec fn view(&self) -> (Seq<u8>, bool) {
        (self.encoded@, self.discard_until_delimiter)
    }
}

impl Default for FrameDecoder {
    fn default() -> (r: Self)
        ensures
            r@ == (Seq::<u8>::empty(), false),
    {
        FrameDecoder::new()
    }
}

impl FrameDecoder {
    /// A decoder with nothing collected.
    pub fn new() -> (r: Self)
        ensures
            r@ == (Seq::<u8>::empty(), false),
    {
        FrameDecoder { encoded: Vec::new(), discard_until_delimiter: false }
    }

    /// Feeds `bytes`; returns the frames (or errors) completed by them, in order.
    pub fn push(&mut self, bytes: &[u8]) -> (frames: Vec<Result<Frame, CodecError>>)
        ensures
            ({
                let (e, d, out) = decoder_run(old(self)@.0, old(self)@.1, bytes@);
                &&& final(self)@ == (e, d)
                &&& frames@.len() == out.len()
                &&& forall|j: int| 0 <= j < out.len() ==> result_view(#[trigger] frames@[j]) == out[j]
            }),
    {
        let mut frames: Vec<Result<Frame, CodecError>> = Vec::new();
        let mut i: usize = 0;
        while i < bytes.len()
            invariant
                i <= bytes@.len(),
                ({
                    let (e, d, out) = decoder_run(old(self)@.0, old(self)@.1, bytes@.take(i as int));
                    &&& self@ == (e, d)
                    &&& frames@.len() == out.len()
                    &&& forall|j: int| 0 <= j < out.len() ==> result_view(#[trigger] frames@[j]) == out[j]
                }),
            decreases bytes.len() - i,
        {
            let octet = bytes[i];
            let ghost prev = frames@;
            let ghost st = self@;
            assert(bytes@.take(i as int + 1).drop_last() =~= bytes@.take(i as int));
            if octet == 0 {
                if !self.discard_until_delimiter && self.encoded.len() > 0 {
                    let result = match cobs_decode(self.encoded.as_slice()) {
                        Ok(raw) => decode_raw(raw.as_slice()),
                        Err(e) => Err(e),
                    };
                    frames.push(result);
                }
                self.encoded.clear();
                self.discard_until_delimiter = false;
            } else if !self.discard_until_delimiter {
                if self.encoded.len() < MAX_ENCODED {
                    self.encoded.push(octet);
                } else {
                    self.encoded.clear();
                    self.discard_until_delimiter = true;
                }
            }
            proof {
                let (e, d, out) = decoder_run(old(self)@.0, old(self)@.1, bytes@.take(i as int));
                let (e2, d2, out2) = decoder_step(e, d, octet);
                assert(self@ == (e2, d2)) by {
                    assert(self.encoded@ =~= e2);
                }
                assert forall|j: int| 0 <= j < out.len() + out2.len() implies result_view(#[trigger] frames@[j]) == (out + out2)[j] by {
                    if j < out.len() {
                        assert(frames@[j] == prev[j]);
                    }
                }
            }
            i = i + 1;
        }
        assert(bytes@.take(bytes@.len() as int) =~= bytes@);
        frames
    }
}

/// Feeding octets with no zero, up to `MAX_ENCODED` of them, into a clean
/// decoder collects them and emits nothing.
proof fn lemma_decoder_collects(body: Seq<u8>)
    requires
        body.len() <= MAX_ENCODED,
        forall|j: int| 0 <= j < body.len() ==> body[j] != 0,
    ensures
        decoder_run(Seq::empty(), false, body) == (body, false, Seq::<Result<(u8, u16, Seq<u8>), CodecError>>::empty()),
    decreases body.len(),
{
    if body.len() > 0 {
        lemma_decoder_collects(body.drop_last());
        assert(body.drop_last().push(body.last()) =~= body);
        assert(Seq::<Result<(u8, u16, Seq<u8>), CodecError>>::empty() + Seq::empty() =~= Seq::<Result<(u8, u16, Seq<u8>), CodecError>>::empty());
    }
}

/// A clean decoder turns one wire frame into exactly that frame and is
/// clean again afterwards.
pub proof fn lemma_decoder_single_frame(message_type: u8, sequence: u16, payload: Seq<u8>)
    requires
        payload.len() <= MAX_PAYLOAD,
    ensures
        decoder_run(Seq::empty(), false, wire_frame(message_type, sequence, payload)) == (
            Seq::<u8>::empty(),
            false,
            seq![Ok::<(u8, u16, Seq<u8>), CodecError>((message_type, sequence, payload))],
        ),
{
    let raw = raw_frame(message_type, sequence, payload);
    let body = cobs_enc(raw);
    let wire = wire_frame(message_type, sequence, payload);
    lemma_cobs_enc_len(raw);
    lemma_cobs_enc_no_zero(raw);
    lemma_cobs_enc_nonempty(raw);
    assert(raw.len() == 11 + payload.len());
    assert(body.len() <= MAX_ENCODED) by {
        assert(raw.len() / 254 <= 4) by (nonlinear_arith)
            requires raw.len() <= 1035;
    }
    lemma_decoder_collects(body);
    assert(wire.drop_last() =~= body);
    lemma_wire_frame_decodes(message_type, sequence, payload);
    assert(Seq::<Result<(u8, u16, Seq<u8>), CodecError>>::empty() + seq![spec_decode_wire(body)] =~= seq![spec_decode_wire(body)]);
}

} // verus!

verus! {

// ---------------------------------------------------------------------------
// Payloads

/// Name for what `String::from_utf8_lossy` makes of an octet sequence:
/// the text it encodes, with each invalid sequence replaced by U+FFFD.
pub uninterp spec fn utf8_lossy(bytes: Seq<u8>) -> Seq<char>;

/// `String::from_utf8_lossy`, owned. The contract names the result and
/// says nothing more of it.
#[verifier::external_body]
fn lossy_string(bytes: &[u8]) -> (s: String)
    ensures
        s@ == utf8_lossy(bytes@),
{
    String::from_utf8_lossy(bytes).into_owned()
}

/// The octets of a zero-terminated field before its first zero.
pub open spec fn cstr_len(s: Seq<u8>) -> nat
    decreases s.len(),
{
    if s.len() == 0 || s[0] == 0 { 0 } else { 1 + cstr_len(s.drop_first()) }
}

proof fn lemma_cstr_len_unique(s: Seq<u8>, n: nat)
    requires
        n <= s.len(),
        forall|j: int| 0 <= j < n ==> s[j] != 0,
        n < s.len() ==> s[n as int] == 0,
    ensures
        cstr_len(s) == n,
    decreases s.len(),
{
    if s.len() > 0 && s[0] != 0 {
        let t = s.drop_first();
        assert forall|j: int| 0 <= j < n - 1 implies t[j] != 0 by {
            assert(t[j] == s[j + 1]);
        }
        if n - 1 < t.len() {
            assert(t[n - 1] == s[n as int]);
        }
        lemma_cstr_len_unique(t, (n - 1) as nat);
    }
}

/// The text of a fixed-width, zero-terminated name field.
pub open spec fn fixed_text(field: Seq<u8>) -> Seq<char> {
    utf8_lossy(field.take(cstr_len(field) as int))
}

fn fixed_string(bytes: &[u8]) -> (s: String)
    ensures
        s@ == fixed_text(bytes@),
{
    let mut n: usize = 0;
    while n < bytes.len() && bytes[n] != 0
        invariant
            n <= bytes@.len(),
            forall|j: int| 0 <= j < n ==> bytes@[j] != 0,
        decreases bytes.len() - n,
    {
        n = n + 1;
    }
    proof {
        lemma_cstr_len_unique(bytes@, n as nat);
    }
    let prefix = vstd::slice::slice_subrange(bytes, 0, n);
    assert(prefix@ =~= bytes@.take(n as int));
    lossy_string(prefix)
}

/// What a HELLO payload holds, field by field.
pub open spec fn hello_fields_match(p: Seq<u8>, info: crate::source::DeviceInfo) -> bool {
    &&& info.protocol_version == get_u16(p, 0)
    &&& info.contract_version == get_u16(p, 2)
    &&& info.build_hash == get_u32(p, 4)
    &&& info.descriptor_count == get_u16(p, 8)
    &&& info.firmware_name@ == fixed_text(p.subrange(12, 28))
    &&& info.tick_hz == get_u32(p, 28)
    &&& info.capabilities == get_u32(p, 32)
    &&& info.project_name@ == fixed_text(p.subrange(36, 68))
    &&& info.build_time_utc == get_u32(p, 68)
    &&& info.mcu_model == get_u16(p, 72)
    &&& info.scope_max_ch == get_u16(p, 74)
    &&& info.scope_block_ticks == get_u16(p, 76)
    &&& info.scope_ring_words == get_u32(p, 80)
}

fn get16(p: &[u8], off: usize) -> (v: u16)
    requires
        off + 2 <= p@.len(),
    ensures
        v == get_u16(p@, off as int),
{
    p[off] as u16 + (p[off + 1] as u16) * 256
}

fn get32(p: &[u8], off: usize) -> (v: u32)
    requires
        off + 4 <= p@.len(),
    ensures
        v == get_u32(p@, off as int),
{
    p[off] as u32 + (p[off + 1] as u32) * 256 + (p[off + 2] as u32) * 65536 + (p[off + 3] as u32) * 16777216
}

/// Parses HELLO: the current layout is at least 84 octets.
pub fn parse_hello(payload: &[u8]) -> (r: Result<crate::source::DeviceInfo, CodecError>)
    ensures
        payload@.len() < 84 ==> r == Err::<crate::source::DeviceInfo, CodecError>(
            CodecError::MalformedPayload("HELLO is shorter than current layout")),
        payload@.len() >= 84 ==> (r matches Ok(info) && hello_fields_match(payload@, info)),
{
    if payload.len() < 84 {
        return Err(CodecError::MalformedPayload("HELLO is shorter than current layout"));
    }
    let firmware_name = fixed_string(vstd::slice::slice_subrange(payload, 12, 28));
    let project_name = fixed_string(vstd::slice::slice_subrange(payload, 36, 68));
    Ok(crate::source::DeviceInfo {
        protocol_version: get16(payload, 0),
        contract_version: get16(payload, 2),
        build_hash: get32(payload, 4),
        descriptor_count: get16(payload, 8),
        firmware_name,
        tick_hz: get32(payload, 28),
        capabilities: get32(payload, 32),
        project_name,
        build_time_utc: get32(payload, 68),
        mcu_model: get16(payload, 72),
        scope_max_ch: get16(payload, 74),
        scope_block_ticks: get16(payload, 76),
        scope_ring_words: get32(payload, 80),
    })
}

/// The performance fields of STATUS, read at their offsets.
pub open spec fn status_sample(p: Seq<u8>) -> crate::source::PerformanceSample {
    crate::source::PerformanceSample {
        sequence: get_u32(p, 42),
        cycle_budget: get_u32(p, 46),
        load_average: get_u32(p, 50),
        load_peak: get_u32(p, 54),
        control_at_peak: get_u32(p, 58),
        scope_at_peak: get_u32(p, 62),
        latency_at_peak: get_u16(p, 66),
        peak_tick: get_u32(p, 68),
        violations: get_u32(p, 72),
        overflows: get_u32(p, 76),
    }
}

/// A sample is kept when its sequence is nonzero and matches the closing
/// sequence, its budget is nonzero, and the average, ADC, control and scope
/// parts fit within the peak load.
pub open spec fn spec_status_performance(p: Seq<u8>) -> Option<crate::source::PerformanceSample> {
    let s = status_sample(p);
    let adc = s.latency_at_peak as int;
    if s.sequence == 0 || s.sequence != get_u32(p, 80) {
        None
    } else if s.cycle_budget == 0 || s.load_average > s.load_peak || adc > s.load_peak
        || s.control_at_peak > s.load_peak - adc
        || s.scope_at_peak > s.load_peak - adc - s.control_at_peak {
        None
    } else {
        Some(s)
    }
}

fn parse_status_performance(payload: &[u8]) -> (r: Option<crate::source::PerformanceSample>)
    requires
        payload@.len() >= 96,
    ensures
        r == spec_status_performance(payload@),
{
    let sequence = get32(payload, 42);
    let sequence_end = get32(payload, 80);
    if sequence == 0 || sequence != sequence_end {
        return None;
    }
    let sample = crate::source::PerformanceSample {
        sequence,
        cycle_budget: get32(payload, 46),
        load_average: get32(payload, 50),
        load_peak: get32(payload, 54),
        control_at_peak: get32(payload, 58),
        scope_at_peak: get32(payload, 62),
        latency_at_peak: get16(payload, 66),
        peak_tick: get32(payload, 68),
        violations: get32(payload, 72),
        overflows: get32(payload, 76),
    };
    let adc = sample.adc_at_peak();
    if sample.cycle_budget == 0 || sample.load_average > sample.load_peak || adc > sample.load_peak
        || sample.control_at_peak > sample.load_peak - adc
        || sample.scope_at_peak > sample.load_peak - adc - sample.control_at_peak {
        return None;
    }
    Some(sample)
}

/// What a STATUS payload holds, field by field.
pub open spec fn status_fields_match(p: Seq<u8>, s: crate::source::DeviceStatus) -> bool {
    &&& s.system_state == crate::source::SystemState::spec_from_wire(get_u16(p, 0))
    &&& s.fault_code == get_u16(p, 2)
    &&& s.status_flags == get_u16(p, 4)
    &&& s.tick == get_u32(p, 6)
    &&& s.cpu1_heartbeat == get_u32(p, 10)
    &&& s.cpu2_heartbeat == get_u32(p, 14)
    &&& s.applied_seq == get_u32(p, 18)
    &&& s.calibration_result == get_u16(p, 22)
    &&& s.calibration_fail_index == get_u16(p, 24)
    &&& s.build_hash == get_u32(p, 26)
    &&& s.scope_mode == crate::source::ScopeMode::spec_from_wire(p[30])
    &&& s.scope_flags == p[31]
    &&& s.command_ack_seq == Some(get_u32(p, 34))
    &&& s.command_result == Some(get_u16(p, 38))
    &&& s.performance == spec_status_performance(p)
    &&& s.scope_state_seq == get_u16(p, 84)
    &&& s.scope_frozen_count == get_u16(p, 86)
    &&& s.scope_trigger_tick == get_u32(p, 88)
    &&& s.scope_bind_seq == get_u16(p, 92)
}

/// Parses STATUS: the current layout is at least 96 octets.
pub fn parse_status(payload: &[u8]) -> (r: Result<crate::source::DeviceStatus, CodecError>)
    ensures
        payload@.len() < 96 ==> r == Err::<crate::source::DeviceStatus, CodecError>(
            CodecError::MalformedPayload("STATUS is shorter than current layout")),
        payload@.len() >= 96 ==> (r matches Ok(s) && status_fields_match(payload@, s)),
{
    if payload.len() < 96 {
        return Err(CodecError::MalformedPayload("STATUS is shorter than current layout"));
    }
    let performance = parse_status_performance(payload);
    Ok(crate::source::DeviceStatus {
        system_state: crate::source::SystemState::from_wire(get16(payload, 0)),
        fault_code: get16(payload, 2),
        status_flags: get16(payload, 4),
        tick: get32(payload, 6),
        cpu1_heartbeat: get32(payload, 10),
        cpu2_heartbeat: get32(payload, 14),
        applied_seq: get32(payload, 18),
        calibration_result: get16(payload, 22),
        calibration_fail_index: get16(payload, 24),
        build_hash: get32(payload, 26),
        scope_mode: crate::source::ScopeMode::from_wire(payload[30]),
        scope_flags: payload[31],
        command_ack_seq: Some(get32(payload, 34)),
        command_result: Some(get16(payload, 38)),
        performance,
        scope_state_seq: get16(payload, 84),
        scope_frozen_count: get16(payload, 86),
        scope_trigger_tick: get32(payload, 88),
        scope_bind_seq: get16(payload, 92),
    })
}

/// The octet at `i` of the STATUS layout that the device writes for `s`:
/// each field little-endian at its own offset, reserved octets (and the
/// sample's octets when there is no sample) zero.
pub open spec fn status_octet(s: crate::source::DeviceStatus, i: int) -> u8 {
    if 0 <= i < 2 { le16(s.system_state.spec_wire())[i] }
    else if 2 <= i < 4 { le16(s.fault_code)[i - 2] }
    else if 4 <= i < 6 { le16(s.status_flags)[i - 4] }
    else if 6 <= i < 10 { le32(s.tick)[i - 6] }
    else if 10 <= i < 14 { le32(s.cpu1_heartbeat)[i - 10] }
    else if 14 <= i < 18 { le32(s.cpu2_heartbeat)[i - 14] }
    else if 18 <= i < 22 { le32(s.applied_seq)[i - 18] }
    else if 22 <= i < 24 { le16(s.calibration_result)[i - 22] }
    else if 24 <= i < 26 { le16(s.calibration_fail_index)[i - 24] }
    else if 26 <= i < 30 { le32(s.build_hash)[i - 26] }
    else if i == 30 { s.scope_mode.spec_wire() }
    else if i == 31 { s.scope_flags }
    else if 34 <= i < 38 { le32(match s.command_ack_seq { Some(x) => x, None => 0 })[i - 34] }
    else if 38 <= i < 40 { le16(match s.command_result { Some(x) => x, None => 0 })[i - 38] }
    else if 42 <= i < 84 && s.performance is Some { sample_octet(s.performance->0, i) }
    else if 84 <= i < 86 { le16(s.scope_state_seq)[i - 84] }
    else if 86 <= i < 88 { le16(s.scope_frozen_count)[i - 86] }
    else if 88 <= i < 92 { le32(s.scope_trigger_tick)[i - 88] }
    else if 92 <= i < 94 { le16(s.scope_bind_seq)[i - 92] }
    else { 0 }
}

/// The octet at `i` (42 to 83) of a performance sample in STATUS: the
/// sequence first and again last, the other fields in between.
pub open spec fn sample_octet(ps: crate::source::PerformanceSample, i: int) -> u8 {
    if 42 <= i < 46 { le32(ps.sequence)[i - 42] }
    else if 46 <= i < 50 { le32(ps.cycle_budget)[i - 46] }
    else if 50 <= i < 54 { le32(ps.load_average)[i - 50] }
    else if 54 <= i < 58 { le32(ps.load_peak)[i - 54] }
    else if 58 <= i < 62 { le32(ps.control_at_peak)[i - 58] }
    else if 62 <= i < 66 { le32(ps.scope_at_peak)[i - 62] }
    else if 66 <= i < 68 { le16(ps.latency_at_peak)[i - 66] }
    else if 68 <= i < 72 { le32(ps.peak_tick)[i - 68] }
    else if 72 <= i < 76 { le32(ps.violations)[i - 72] }
    else if 76 <= i < 80 { le32(ps.overflows)[i - 76] }
    else if 80 <= i < 84 { le32(ps.sequence)[i - 80] }
    else { 0 }
}

/// The 96-octet STATUS payload the device writes for `s`.
pub open spec fn status_payload(s: crate::source::DeviceStatus) -> Seq<u8> {
    Seq::new(96, |i: int| status_octet(s, i))
}

proof fn lemma_u16_at(p: Seq<u8>, off: int, v: u16)
    requires
        0 <= off,
        off + 2 <= p.len(),
        p[off] == le16(v)[0],
        p[off + 1] == le16(v)[1],
    ensures
        get_u16(p, off) == v,
{
    lemma_le16_roundtrip(v);
}

proof fn lemma_u32_at(p: Seq<u8>, off: int, v: u32)
    requires
        0 <= off,
        off + 4 <= p.len(),
        p[off] == le32(v)[0],
        p[off + 1] == le32(v)[1],
        p[off + 2] == le32(v)[2],
        p[off + 3] == le32(v)[3],
    ensures
        get_u32(p, off) == v,
{
    lemma_le32_roundtrip(v);
}

/// STATUS round trip: the payload the device writes for a status reads
/// back as that same status, every field from its own offset. It holds for
/// every status the wire can carry: states and modes by their wire values,
/// an acknowledged sequence and result present, and a performance sample,
/// if any, with a nonzero sequence and budget, an average within the peak,
/// and ADC, control and scope time that together fit in the peak.
pub proof fn law_status_round_trip(s: crate::source::DeviceStatus, t: crate::source::DeviceStatus)
    requires
        crate::source::SystemState::spec_from_wire(s.system_state.spec_wire()) == s.system_state,
        crate::source::ScopeMode::spec_from_wire(s.scope_mode.spec_wire()) == s.scope_mode,
        s.command_ack_seq is Some,
        s.command_result is Some,
        s.performance matches Some(ps) ==> ps.sequence != 0 && ps.cycle_budget != 0
            && ps.load_average <= ps.load_peak
            && ps.latency_at_peak + ps.control_at_peak + ps.scope_at_peak <= ps.load_peak,
        status_fields_match(status_payload(s), t),
    ensures
        status_payload(s).len() == 96,
        t == s,
{
    let p = status_payload(s);
    lemma_u16_at(p, 0, s.system_state.spec_wire());
    lemma_u16_at(p, 2, s.fault_code);
    lemma_u16_at(p, 4, s.status_flags);
    lemma_u32_at(p, 6, s.tick);
    lemma_u32_at(p, 10, s.cpu1_heartbeat);
    lemma_u32_at(p, 14, s.cpu2_heartbeat);
    lemma_u32_at(p, 18, s.applied_seq);
    lemma_u16_at(p, 22, s.calibration_result);
    lemma_u16_at(p, 24, s.calibration_fail_index);
    lemma_u32_at(p, 26, s.build_hash);
    lemma_u32_at(p, 34, s.command_ack_seq->0);
    lemma_u16_at(p, 38, s.command_result->0);
    lemma_u16_at(p, 84, s.scope_state_seq);
    lemma_u16_at(p, 86, s.scope_frozen_count);
    lemma_u32_at(p, 88, s.scope_trigger_tick);
    lemma_u16_at(p, 92, s.scope_bind_seq);
    lemma_status_performance_read(s);
}

proof fn lemma_status_performance_read(s: crate::source::DeviceStatus)
    requires
        s.performance matches Some(ps) ==> ps.sequence != 0 && ps.cycle_budget != 0
            && ps.load_average <= ps.load_peak
            && ps.latency_at_peak + ps.control_at_peak + ps.scope_at_peak <= ps.load_peak,
    ensures
        spec_status_performance(status_payload(s)) == s.performance,
{
    let p = status_payload(s);
    match s.performance {
        None => {
            lemma_u32_at(p, 42, 0);
        },
        Some(ps) => {
            lemma_u32_at(p, 42, ps.sequence);
            lemma_u32_at(p, 46, ps.cycle_budget);
            lemma_u32_at(p, 50, ps.load_average);
            lemma_u32_at(p, 54, ps.load_peak);
            lemma_u32_at(p, 58, ps.control_at_peak);
            lemma_u32_at(p, 62, ps.scope_at_peak);
            lemma_u16_at(p, 66, ps.latency_at_peak);
            lemma_u32_at(p, 68, ps.peak_tick);
            lemma_u32_at(p, 72, ps.violations);
            lemma_u32_at(p, 76, ps.overflows);
            lemma_u32_at(p, 80, ps.sequence);
            assert(status_sample(p) == ps);
        },
    }
}

/// An acknowledgement: status, echoed request type and a data word.
#[derive(Debug, Clone, Copy, PartialEq, Eq, Structural)]
pub struct Ack {
    pub status: u8,
    pub echoed_type: u8,
    pub data: u32,
}

/// Parses ACK: at least 8 octets.
pub fn parse_ack(payload: &[u8]) -> (r: Result<Ack, CodecError>)
    ensures
        payload@.len() < 8 ==> r == Err::<Ack, CodecError>(CodecError::MalformedPayload("ACK")),
        payload@.len() >= 8 ==> r == Ok::<Ack, CodecError>(
            Ack { status: payload@[0], echoed_type: payload@[1], data: get_u32(payload@, 4) }),
{
    if payload.len() < 8 {
        return Err(CodecError::MalformedPayload("ACK"));
    }
    Ok(Ack { status: payload[0], echoed_type: payload[1], data: get32(payload, 4) })
}

} // verus!

verus! {

/// The view of a descriptor: name, variable, kind and prescaler.
pub open spec fn descriptor_view(d: crate::source::VarDescriptor) -> (Seq<char>, crate::source::VarRef, u16, u16) {
    (d.name@, d.var, d.kind, d.prescaler)
}

/// Whether every octet is printable ASCII (0x20..=0x7E).
pub open spec fn printable_ascii(s: Seq<u8>) -> bool {
    forall|j: int| 0 <= j < s.len() ==> 0x20 <= #[trigger] s[j] <= 0x7e
}

/// The characters of ASCII octets.
pub open spec fn ascii_chars(s: Seq<u8>) -> Seq<char> {
    Seq::new(s.len(), |j: int| s[j] as char)
}

/// The variable type with a wire code of at most 4.
pub open spec fn var_type_of(code: u16) -> crate::source::VarType {
    if code == 0 { crate::source::VarType::I16 }
    else if code == 1 { crate::source::VarType::U16 }
    else if code == 2 { crate::source::VarType::I32 }
    else if code == 3 { crate::source::VarType::U32 }
    else { crate::source::VarType::F32 }
}

/// One ENUM entry at `off`, and the offset after it.
pub open spec fn spec_enum_entry(p: Seq<u8>, off: int) -> Result<((Seq<char>, crate::source::VarRef, u16, u16), int), CodecError> {
    if p.len() < off + 12 {
        Err(CodecError::MalformedPayload("ENUM entry header"))
    } else if get_u16(p, off + 4) > 4 {
        Err(CodecError::MalformedPayload("unknown variable type"))
    } else if p[off + 11] != 0 {
        Err(CodecError::MalformedPayload("ENUM entry reserved"))
    } else {
        let name_len = p[off + 10] as int;
        if name_len == 0 || name_len > ENUM_MAX_NAME_LEN {
            Err(CodecError::MalformedPayload("ENUM name length"))
        } else if off + 12 + name_len > p.len() {
            Err(CodecError::MalformedPayload("ENUM name"))
        } else if !printable_ascii(p.subrange(off + 12, off + 12 + name_len)) {
            Err(CodecError::MalformedPayload("ENUM name ASCII"))
        } else {
            Ok((
                (
                    ascii_chars(p.subrange(off + 12, off + 12 + name_len)),
                    crate::source::VarRef { addr: get_u32(p, off), ty: var_type_of(get_u16(p, off + 4)) },
                    get_u16(p, off + 6),
                    get_u16(p, off + 8),
                ),
                off + 12 + name_len,
            ))
        }
    }
}

/// `count` ENUM entries from `off`, and the offset after them.
pub open spec fn spec_enum_entries(p: Seq<u8>, off: int, count: nat) -> Result<(Seq<(Seq<char>, crate::source::VarRef, u16, u16)>, int), CodecError>
    decreases count,
{
    if count == 0 {
        Ok((Seq::empty(), off))
    } else {
        match spec_enum_entry(p, off) {
            Err(e) => Err(e),
            Ok((d, next)) => match spec_enum_entries(p, next, (count - 1) as nat) {
                Err(e) => Err(e),
                Ok((ds, end)) => Ok((seq![d] + ds, end)),
            },
        }
    }
}

/// What an ENUM payload holds: total, start and the entries, which must
/// fill the payload exactly.
pub open spec fn spec_parse_descriptors(p: Seq<u8>) -> Result<(u16, u16, Seq<(Seq<char>, crate::source::VarRef, u16, u16)>), CodecError> {
    if p.len() < 6 {
        Err(CodecError::MalformedPayload("ENUM header"))
    } else if p[5] != 0 {
        Err(CodecError::MalformedPayload("ENUM reserved"))
    } else {
        match spec_enum_entries(p, 6, p[4] as nat) {
            Err(e) => Err(e),
            Ok((ds, end)) => if end != p.len() {
                Err(CodecError::MalformedPayload("trailing ENUM data"))
            } else {
                Ok((get_u16(p, 0), get_u16(p, 2), ds))
            },
        }
    }
}

/// Prefixes the entries of a successful tail parse.
pub open spec fn prefix_entries<T>(pre: Seq<T>, r: Result<(Seq<T>, int), CodecError>) -> Result<(Seq<T>, int), CodecError> {
    match r {
        Ok((ds, end)) => Ok((pre + ds, end)),
        Err(e) => Err(e),
    }
}

proof fn lemma_entries_error(p: Seq<u8>, off: int, n: nat)
    requires
        n > 0,
        spec_enum_entry(p, off) is Err,
    ensures
        spec_enum_entries(p, off, n) == Err::<(Seq<(Seq<char>, crate::source::VarRef, u16, u16)>, int), CodecError>(
            spec_enum_entry(p, off)->Err_0),
{
}

fn ascii_string(p: &[u8], start: usize, end: usize) -> (s: String)
    requires
        start <= end <= p@.len(),
        printable_ascii(p@.subrange(start as int, end as int)),
    ensures
        s@ == ascii_chars(p@.subrange(start as int, end as int)),
{
    let mut s = String::new();
    let mut i = start;
    while i < end
        invariant
            start <= i <= end <= p@.len(),
            s@ == ascii_chars(p@.subrange(start as int, i as int)),
        decreases end - i,
    {
        let c = p[i] as char;
        crate::text::push_char(&mut s, c);
        assert(ascii_chars(p@.subrange(start as int, i + 1)) =~= ascii_chars(p@.subrange(start as int, i as int)).push(c));
        i = i + 1;
    }
    s
}

/// Parses an ENUM page: total, start index and the descriptors on it.
pub fn parse_descriptors(payload: &[u8]) -> (r: Result<(u16, u16, Vec<crate::source::VarDescriptor>), CodecError>)
    ensures
        match spec_parse_descriptors(payload@) {
            Ok((total, start, ds)) => r matches Ok((t, s, v)) && t == total && s == start
                && v@.len() == ds.len()
                && forall|j: int| 0 <= j < ds.len() ==> descriptor_view(#[trigger] v@[j]) == ds[j],
            Err(e) => r matches Err(e2) && e2 == e,
        },
{
    if payload.len() < 6 {
        return Err(CodecError::MalformedPayload("ENUM header"));
    }
    let total = get16(payload, 0);
    let start = get16(payload, 2);
    let count = payload[4] as usize;
    if payload[5] != 0 {
        return Err(CodecError::MalformedPayload("ENUM reserved"));
    }
    let mut descriptors: Vec<crate::source::VarDescriptor> = Vec::new();
    let mut offset: usize = 6;
    let mut k: usize = 0;
    let ghost all = spec_enum_entries(payload@, 6, count as nat);
    while k < count
        invariant
            k <= count <= 255,
            count == payload@[4],
            payload@.len() >= 6,
            payload@[5] == 0,
            6 <= offset <= payload@.len(),
            all == spec_enum_entries(payload@, 6, count as nat),
            all == prefix_entries(descriptors@.map_values(|d: crate::source::VarDescriptor| descriptor_view(d)),
                spec_enum_entries(payload@, offset as int, (count - k) as nat)),
        decreases count - k,
    {
        let ghost entry_off = offset as int;
        if payload.len() - offset < 12 {
            proof {
                lemma_entries_error(payload@, entry_off, (count - k) as nat);
                assert(spec_enum_entry(payload@, entry_off) == Err::<((Seq<char>, crate::source::VarRef, u16, u16), int), CodecError>(CodecError::MalformedPayload("ENUM entry header")));
                assert(all == Err::<(Seq<(Seq<char>, crate::source::VarRef, u16, u16)>, int), CodecError>(CodecError::MalformedPayload("ENUM entry header")));
            }
            return Err(CodecError::MalformedPayload("ENUM entry header"));
        }
        let addr = get32(payload, offset);
        let ty = match crate::source::VarType::from_wire(get16(payload, offset + 4)) {
            Some(t) => t,
            None => {
                proof {
                    lemma_entries_error(payload@, entry_off, (count - k) as nat);
                    assert(spec_enum_entry(payload@, entry_off) == Err::<((Seq<char>, crate::source::VarRef, u16, u16), int), CodecError>(CodecError::MalformedPayload("unknown variable type")));
                }
                return Err(CodecError::MalformedPayload("unknown variable type"));
            },
        };
        let kind = get16(payload, offset + 6);
        let prescaler = get16(payload, offset + 8);
        let name_len = payload[offset + 10] as usize;
        if payload[offset + 11] != 0 {
            proof { lemma_entries_error(payload@, entry_off, (count - k) as nat); }
            return Err(CodecError::MalformedPayload("ENUM entry reserved"));
        }
        if name_len == 0 || name_len > ENUM_MAX_NAME_LEN {
            proof { lemma_entries_error(payload@, entry_off, (count - k) as nat); }
            return Err(CodecError::MalformedPayload("ENUM name length"));
        }
        offset = offset + 12;
        if name_len > payload.len() - offset {
            proof { lemma_entries_error(payload@, entry_off, (count - k) as nat); }
            return Err(CodecError::MalformedPayload("ENUM name"));
        }
        let mut i = offset;
        while i < offset + name_len
            invariant
                offset <= i <= offset + name_len <= payload@.len(),
                offset + name_len <= payload.len(),
                entry_off + 12 == offset,
                printable_ascii(payload@.subrange(offset as int, i as int)),
                k < count,
                all == prefix_entries(descriptors@.map_values(|d: crate::source::VarDescriptor| descriptor_view(d)),
                    spec_enum_entries(payload@, entry_off, (count - k) as nat)),
                all == spec_enum_entries(payload@, 6, count as nat),
                count == payload@[4],
                payload@.len() >= 6,
                payload@[5] == 0,
                get_u16(payload@, entry_off + 4) <= 4,
                payload@[entry_off + 11] == 0,
                name_len == payload@[entry_off + 10],
                0 < name_len <= ENUM_MAX_NAME_LEN,
            decreases offset + name_len - i,
        {
            if payload[i] < 0x20 || payload[i] > 0x7e {
                assert(payload@.subrange(offset as int, (offset + name_len) as int)[i - offset] == payload@[i as int]);
                proof { lemma_entries_error(payload@, entry_off, (count - k) as nat); }
                return Err(CodecError::MalformedPayload("ENUM name ASCII"));
            }
            assert forall|j: int| 0 <= j < i + 1 - offset implies 0x20 <= #[trigger] payload@.subrange(offset as int, i + 1)[j] <= 0x7e by {
                if j < i - offset {
                    assert(payload@.subrange(offset as int, i + 1)[j] == payload@.subrange(offset as int, i as int)[j]);
                }
            }
            i = i + 1;
        }
        let name = ascii_string(payload, offset, offset + name_len);
        let d = crate::source::VarDescriptor { name, var: crate::source::VarRef { addr, ty }, kind, prescaler };
        let ghost before = descriptors@;
        descriptors.push(d);
        proof {
            let dv = descriptor_view(d);
            assert(spec_enum_entry(payload@, (offset - 12) as int) == Ok::<((Seq<char>, crate::source::VarRef, u16, u16), int), CodecError>((dv, (offset + name_len) as int)));
            assert(descriptors@.map_values(|d: crate::source::VarDescriptor| descriptor_view(d)) =~=
                before.map_values(|d: crate::source::VarDescriptor| descriptor_view(d)) + seq![dv]);
            match spec_enum_entries(payload@, (offset + name_len) as int, (count - k - 1) as nat) {
                Ok((ds, end)) => {
                    assert(before.map_values(|d: crate::source::VarDescriptor| descriptor_view(d)) + (seq![dv] + ds)
                        =~= descriptors@.map_values(|d: crate::source::VarDescriptor| descriptor_view(d)) + ds);
                },
                Err(_) => {},
            }
        }
        offset = offset + name_len;
        k = k + 1;
    }
    if offset != payload.len() {
        return Err(CodecError::MalformedPayload("trailing ENUM data"));
    }
    proof {
        assert(descriptors@.map_values(|d: crate::source::VarDescriptor| descriptor_view(d)) + Seq::empty()
            =~= descriptors@.map_values(|d: crate::source::VarDescriptor| descriptor_view(d)));
    }
    Ok((total, start, descriptors))
}

} // verus!

verus! {

/// The view of a scope block: header fields and samples.
pub open spec fn block_view(b: crate::source::ScopeBlock) -> (u32, u16, u16, u16, u16, u16, u16, Seq<u8>) {
    (b.start_tick, b.block_seq, b.flags, b.sample_count, b.channel_count, b.bind_seq, b.stride_octets, b.samples@)
}

/// One scope block at `off` (16 header octets, then `sample_count *
/// stride` sample octets), and the offset after it.
pub open spec fn spec_scope_block(p: Seq<u8>, off: int) -> Result<((u32, u16, u16, u16, u16, u16, u16, Seq<u8>), int), CodecError> {
    if p.len() < off + 16 {
        Err(CodecError::MalformedPayload("block header"))
    } else {
        let sample_count = get_u16(p, off + 8);
        let stride = get_u16(p, off + 14);
        let end = off + 16 + (sample_count as int) * (stride as int);
        if end > p.len() {
            Err(CodecError::MalformedPayload("block samples"))
        } else {
            Ok((
                (get_u32(p, off), get_u16(p, off + 4), get_u16(p, off + 6), sample_count,
                    get_u16(p, off + 10), get_u16(p, off + 12), stride, p.subrange(off + 16, end)),
                end,
            ))
        }
    }
}

/// `count` scope blocks from `off`, and the offset after them.
pub open spec fn spec_scope_blocks_from(p: Seq<u8>, off: int, count: nat) -> Result<(Seq<(u32, u16, u16, u16, u16, u16, u16, Seq<u8>)>, int), CodecError>
    decreases count,
{
    if count == 0 {
        Ok((Seq::empty(), off))
    } else {
        match spec_scope_block(p, off) {
            Err(e) => Err(e),
            Ok((b, next)) => match spec_scope_blocks_from(p, next, (count - 1) as nat) {
                Err(e) => Err(e),
                Ok((bs, end)) => Ok((seq![b] + bs, end)),
            },
        }
    }
}

/// `count` scope blocks from `off` that fill the rest of the payload.
pub open spec fn spec_scope_blocks(p: Seq<u8>, off: int, count: nat) -> Result<Seq<(u32, u16, u16, u16, u16, u16, u16, Seq<u8>)>, CodecError> {
    match spec_scope_blocks_from(p, off, count) {
        Err(e) => Err(e),
        Ok((bs, end)) => if end != p.len() { Err(CodecError::MalformedPayload("trailing block data")) } else { Ok(bs) },
    }
}

proof fn lemma_blocks_error(p: Seq<u8>, off: int, n: nat)
    requires
        n > 0,
        spec_scope_block(p, off) is Err,
    ensures
        spec_scope_blocks_from(p, off, n) == Err::<(Seq<(u32, u16, u16, u16, u16, u16, u16, Seq<u8>)>, int), CodecError>(
            spec_scope_block(p, off)->Err_0),
{
}

fn parse_scope_blocks(payload: &[u8], count: usize, start: usize) -> (r: Result<Vec<crate::source::ScopeBlock>, CodecError>)
    requires
        start <= payload@.len(),
    ensures
        match spec_scope_blocks(payload@, start as int, count as nat) {
            Ok(bs) => r matches Ok(v) && v@.len() == bs.len()
                && forall|j: int| 0 <= j < bs.len() ==> block_view(#[trigger] v@[j]) == bs[j],
            Err(e) => r matches Err(e2) && e2 == e,
        },
{
    let mut blocks: Vec<crate::source::ScopeBlock> = Vec::new();
    let mut offset = start;
    let mut k: usize = 0;
    let ghost all = spec_scope_blocks_from(payload@, start as int, count as nat);
    while k < count
        invariant
            k <= count,
            all == spec_scope_blocks_from(payload@, start as int, count as nat),
            offset <= payload@.len(),
            all == prefix_entries(blocks@.map_values(|b: crate::source::ScopeBlock| block_view(b)),
                spec_scope_blocks_from(payload@, offset as int, (count - k) as nat)),
        decreases count - k,
    {
        let ghost entry_off = offset as int;
        if payload.len() - offset < 16 {
            proof { lemma_blocks_error(payload@, entry_off, (count - k) as nat); }
            return Err(CodecError::MalformedPayload("block header"));
        }
        let flags = get16(payload, offset + 6);
        let sample_count = get16(payload, offset + 8);
        let stride = get16(payload, offset + 14);
        assert((sample_count as int) * (stride as int) <= 65535 * 65535) by (nonlinear_arith)
            requires sample_count <= 65535, stride <= 65535;
        let sample_octets = (sample_count as usize) * (stride as usize);
        if sample_octets > payload.len() - offset - 16 {
            proof { lemma_blocks_error(payload@, entry_off, (count - k) as nat); }
            return Err(CodecError::MalformedPayload("block samples"));
        }
        let end = offset + 16 + sample_octets;
        let b = crate::source::ScopeBlock {
            start_tick: get32(payload, offset),
            block_seq: get16(payload, offset + 4),
            flags,
            sample_count,
            channel_count: get16(payload, offset + 10),
            bind_seq: get16(payload, offset + 12),
            stride_octets: stride,
            samples: copy_range(payload, offset + 16, end),
        };
        let ghost before = blocks@;
        blocks.push(b);
        proof {
            let bv = block_view(b);
            assert(spec_scope_block(payload@, entry_off) == Ok::<((u32, u16, u16, u16, u16, u16, u16, Seq<u8>), int), CodecError>((bv, end as int)));
            assert(blocks@.map_values(|b: crate::source::ScopeBlock| block_view(b)) =~=
                before.map_values(|b: crate::source::ScopeBlock| block_view(b)) + seq![bv]);
            match spec_scope_blocks_from(payload@, end as int, (count - k - 1) as nat) {
                Ok((bs, e)) => {
                    assert(before.map_values(|b: crate::source::ScopeBlock| block_view(b)) + (seq![bv] + bs)
                        =~= blocks@.map_values(|b: crate::source::ScopeBlock| block_view(b)) + bs);
                },
                Err(_) => {},
            }
        }
        offset = end;
        k = k + 1;
    }
    if offset != payload.len() {
        return Err(CodecError::MalformedPayload("trailing block data"));
    }
    proof {
        assert(blocks@.map_values(|b: crate::source::ScopeBlock| block_view(b)) + Seq::empty()
            =~= blocks@.map_values(|b: crate::source::ScopeBlock| block_view(b)));
    }
    Ok(blocks)
}

/// A SCOPE_BLOCK_PUSH batch.
#[derive(Debug)]
pub struct BlockBatch {
    pub overrun_count: u16,
    pub blocks: Vec<crate::source::ScopeBlock>,
}

/// A CAPTURE_BATCH_PUSH batch.
#[derive(Debug)]
pub struct CaptureBatch {
    pub capture_id: u16,
    pub total_blocks: u16,
    pub first_block_index: u16,
    pub is_replay: bool,
    pub remaining_hint: u16,
    pub trigger_tick: u32,
    pub blocks: Vec<crate::source::ScopeBlock>,
}

/// Whether a block vector holds the given block views.
pub open spec fn blocks_match(v: Seq<crate::source::ScopeBlock>, bs: Seq<(u32, u16, u16, u16, u16, u16, u16, Seq<u8>)>) -> bool {
    v.len() == bs.len() && forall|j: int| 0 <= j < bs.len() ==> block_view(#[trigger] v[j]) == bs[j]
}

/// Parses SCOPE_BLOCK_PUSH: an 8-octet header (count, zero, overruns,
/// remaining hint, zero word) and `count` blocks that fill the payload.
pub fn parse_block_batch(payload: &[u8]) -> (r: Result<BlockBatch, CodecError>)
    ensures
        payload@.len() < 8 ==> (r matches Err(e) && e == CodecError::MalformedPayload("SCOPE_BLOCK_PUSH header")),
        payload@.len() >= 8 && (payload@[1] != 0 || get_u16(payload@, 6) != 0)
            ==> (r matches Err(e) && e == CodecError::MalformedPayload("SCOPE_BLOCK_PUSH reserved")),
        payload@.len() >= 8 && payload@[1] == 0 && get_u16(payload@, 6) == 0 ==> match spec_scope_blocks(payload@, 8, payload@[0] as nat) {
            Ok(bs) => r matches Ok(b) && b.overrun_count == get_u16(payload@, 2) && blocks_match(b.blocks@, bs),
            Err(e) => r matches Err(e2) && e2 == e,
        },
{
    if payload.len() < 8 {
        return Err(CodecError::MalformedPayload("SCOPE_BLOCK_PUSH header"));
    }
    let count = payload[0] as usize;
    if payload[1] != 0 || get16(payload, 6) != 0 {
        return Err(CodecError::MalformedPayload("SCOPE_BLOCK_PUSH reserved"));
    }
    let blocks = match parse_scope_blocks(payload, count, 8) {
        Ok(b) => b,
        Err(e) => return Err(e),
    };
    Ok(BlockBatch { overrun_count: get16(payload, 2), blocks })
}

/// Parses CAPTURE_BATCH_PUSH: a 16-octet header (capture id, total,
/// first index, count, flags with only the replay bit, remaining hint,
/// zero word, trigger tick) and `count` blocks that fill the payload.
pub fn parse_capture_batch(payload: &[u8]) -> (r: Result<CaptureBatch, CodecError>)
    ensures
        payload@.len() < 16 ==> (r matches Err(e) && e == CodecError::MalformedPayload("CAPTURE_BATCH_PUSH header")),
        payload@.len() >= 16 && (payload@[7] & 0xFE != 0 || get_u16(payload@, 10) != 0)
            ==> (r matches Err(e) && e == CodecError::MalformedPayload("CAPTURE_BATCH_PUSH reserved")),
        payload@.len() >= 16 && payload@[7] & 0xFE == 0 && get_u16(payload@, 10) == 0 ==> match spec_scope_blocks(payload@, 16, payload@[6] as nat) {
            Ok(bs) => r matches Ok(c) && c.capture_id == get_u16(payload@, 0)
                && c.total_blocks == get_u16(payload@, 2)
                && c.first_block_index == get_u16(payload@, 4)
                && c.is_replay == (payload@[7] & 1 != 0)
                && c.remaining_hint == get_u16(payload@, 8)
                && c.trigger_tick == get_u32(payload@, 12)
                && blocks_match(c.blocks@, bs),
            Err(e) => r matches Err(e2) && e2 == e,
        },
{
    if payload.len() < 16 {
        return Err(CodecError::MalformedPayload("CAPTURE_BATCH_PUSH header"));
    }
    let count = payload[6] as usize;
    let flags = payload[7];
    if flags & 0xFE != 0 || get16(payload, 10) != 0 {
        return Err(CodecError::MalformedPayload("CAPTURE_BATCH_PUSH reserved"));
    }
    let blocks = match parse_scope_blocks(payload, count, 16) {
        Ok(b) => b,
        Err(e) => return Err(e),
    };
    Ok(CaptureBatch {
        capture_id: get16(payload, 0),
        total_blocks: get16(payload, 2),
        first_block_index: get16(payload, 4),
        is_replay: flags & 1 != 0,
        remaining_hint: get16(payload, 8),
        trigger_tick: get32(payload, 12),
        blocks,
    })
}

/// Parses CAL_VALUES: read sequence, count at octet 4, and `count` words
/// from octet 8 that fill the payload exactly.
pub fn parse_cal_values(payload: &[u8]) -> (r: Result<(u32, Vec<u32>), CodecError>)
    ensures
        payload@.len() < 8 ==> (r matches Err(e) && e == CodecError::MalformedPayload("CAL_READ header")),
        payload@.len() >= 8 && payload@.len() != 8 + 4 * payload@[4] ==> (r matches Err(e) && e == CodecError::MalformedPayload("CAL_READ values")),
        payload@.len() >= 8 && payload@.len() == 8 + 4 * payload@[4] ==> (r matches Ok((seq, values))
            && seq == get_u32(payload@, 0) && values@.len() == payload@[4]
            && forall|j: int| 0 <= j < values@.len() ==> #[trigger] values@[j] == get_u32(payload@, 8 + 4 * j)),
{
    if payload.len() < 8 {
        return Err(CodecError::MalformedPayload("CAL_READ header"));
    }
    let count = payload[4] as usize;
    if payload.len() != 8 + count * 4 {
        return Err(CodecError::MalformedPayload("CAL_READ values"));
    }
    let mut values: Vec<u32> = Vec::new();
    let mut index: usize = 0;
    while index < count
        invariant
            index <= count,
            count <= 255,
            payload@.len() == 8 + 4 * count,
            values@.len() == index,
            forall|j: int| 0 <= j < index ==> #[trigger] values@[j] == get_u32(payload@, 8 + 4 * j),
        decreases count - index,
    {
        assert(index * 4 + 4 <= count * 4) by (nonlinear_arith)
            requires index < count;
        values.push(get32(payload, 8 + index * 4));
        index = index + 1;
    }
    Ok((get32(payload, 0), values))
}

} // verus!

verus! {

// ---------------------------------------------------------------------------
// Requests

/// HELLO carries no payload.
pub fn hello_request() -> (r: Vec<u8>)
    ensures
        r@ == Seq::<u8>::empty(),
{
    Vec::new()
}

/// ENUMERATE: start index, page size and a zero octet.
pub fn enum_request(start: u16, max_count: u8) -> (r: Vec<u8>)
    ensures
        r@ == le16(start) + seq![max_count, 0u8],
{
    let mut payload: Vec<u8> = Vec::new();
    put_u16(&mut payload, start);
    payload.push(max_count);
    payload.push(0);
    assert(payload@ =~= le16(start) + seq![max_count, 0u8]);
    payload
}

/// The 8-octet record of a variable reference: address, type code, zero.
pub open spec fn var_record(v: crate::source::VarRef) -> Seq<u8> {
    le32(v.addr) + le16(v.ty.spec_wire()) + le16(0)
}

/// The records of a list of variable references, in order.
pub open spec fn var_records(vs: Seq<crate::source::VarRef>) -> Seq<u8>
    decreases vs.len(),
{
    if vs.len() == 0 { Seq::empty() } else { var_records(vs.drop_last()) + var_record(vs.last()) }
}

/// The 12-octet record of a write: address, value bits, type code, zero.
pub open spec fn write_record(w: (crate::source::VarRef, u32)) -> Seq<u8> {
    le32(w.0.addr) + le32(w.1) + le16(w.0.ty.spec_wire()) + le16(0)
}

/// The records of a list of writes, in order.
pub open spec fn write_records(ws: Seq<(crate::source::VarRef, u32)>) -> Seq<u8>
    decreases ws.len(),
{
    if ws.len() == 0 { Seq::empty() } else { write_records(ws.drop_last()) + write_record(ws.last()) }
}

/// CAL_WRITE: the entry count (its low octet), a zero octet, and one
/// record per write.
pub fn cal_write_request(writes: &[(crate::source::VarRef, u32)]) -> (r: Vec<u8>)
    ensures
        r@ == seq![(writes@.len() % 256) as u8, 0u8] + write_records(writes@),
{
    let mut payload: Vec<u8> = Vec::new();
    payload.push((writes.len() % 256) as u8);
    payload.push(0);
    let mut i: usize = 0;
    while i < writes.len()
        invariant
            i <= writes@.len(),
            payload@ == seq![(writes@.len() % 256) as u8, 0u8] + write_records(writes@.take(i as int)),
        decreases writes.len() - i,
    {
        let (var, bits) = writes[i];
        put_u32(&mut payload, var.addr);
        put_u32(&mut payload, bits);
        put_u16(&mut payload, var.ty.wire_value());
        put_u16(&mut payload, 0);
        assert(writes@.take(i as int + 1).drop_last() =~= writes@.take(i as int));
        assert(payload@ =~= seq![(writes@.len() % 256) as u8, 0u8] + write_records(writes@.take(i as int + 1)));
        i = i + 1;
    }
    assert(writes@.take(writes@.len() as int) =~= writes@);
    payload
}

fn var_list_request(vars: &[crate::source::VarRef]) -> (r: Vec<u8>)
    ensures
        r@ == seq![(vars@.len() % 256) as u8, 0u8] + var_records(vars@),
{
    let mut payload: Vec<u8> = Vec::new();
    payload.push((vars.len() % 256) as u8);
    payload.push(0);
    let mut i: usize = 0;
    while i < vars.len()
        invariant
            i <= vars@.len(),
            payload@ == seq![(vars@.len() % 256) as u8, 0u8] + var_records(vars@.take(i as int)),
        decreases vars.len() - i,
    {
        let var = vars[i];
        put_u32(&mut payload, var.addr);
        put_u16(&mut payload, var.ty.wire_value());
        put_u16(&mut payload, 0);
        assert(vars@.take(i as int + 1).drop_last() =~= vars@.take(i as int));
        assert(payload@ =~= seq![(vars@.len() % 256) as u8, 0u8] + var_records(vars@.take(i as int + 1)));
        i = i + 1;
    }
    assert(vars@.take(vars@.len() as int) =~= vars@);
    payload
}

/// CAL_READ: the entry count (its low octet), a zero octet, and one
/// record per variable.
pub fn cal_read_request(reads: &[crate::source::VarRef]) -> (r: Vec<u8>)
    ensures
        r@ == seq![(reads@.len() % 256) as u8, 0u8] + var_records(reads@),
{
    var_list_request(reads)
}

/// DAQ_BIND: the channel count (its low octet), a zero octet, and one
/// record per channel.
pub fn daq_bind_request(channels: &[crate::source::VarRef]) -> (r: Vec<u8>)
    ensures
        r@ == seq![(channels@.len() % 256) as u8, 0u8] + var_records(channels@),
{
    var_list_request(channels)
}

/// A scope configuration, with the trigger level and hysteresis held as
/// the bit patterns of their `f32` values.
#[derive(Debug, Clone, Copy, PartialEq, Eq)]
pub struct ScopeConfig {
    pub mode: crate::source::ScopeMode,
    pub trigger_slot: u16,
    pub trigger_level_bits: u32,
    pub trigger_hysteresis_bits: u32,
    pub trigger_edge: crate::source::TriggerEdge,
    pub pre_trigger_percent: u8,
    pub prescaler: u16,
    pub record_points: u16,
    pub ack_capture_id: u16,
    pub flags: u16,
}

/// The 24-octet DAQ_CONTROL payload of a configuration.
pub open spec fn spec_daq_control(c: ScopeConfig) -> Seq<u8> {
    le16(c.mode.spec_wire() as u16) + le16(c.trigger_slot) + le32(c.trigger_level_bits)
        + le32(c.trigger_hysteresis_bits)
        + le16(if c.trigger_edge == crate::source::TriggerEdge::Rise { 0u16 } else { 1u16 })
        + le16(c.pre_trigger_percent as u16) + le16(c.prescaler) + le16(c.record_points)
        + le16(c.ack_capture_id) + le16(c.flags)
}

/// DAQ_CONTROL: mode, trigger slot, level and hysteresis bits, edge (0
/// rising, 1 falling), pre-trigger percent, prescaler, record points,
/// acknowledged capture id and flags.
pub fn daq_control_request(config: &ScopeConfig) -> (r: Vec<u8>)
    ensures
        r@ == spec_daq_control(*config),
        r@.len() == 24,
{
    let mut payload: Vec<u8> = Vec::new();
    put_u16(&mut payload, config.mode.wire_value() as u16);
    put_u16(&mut payload, config.trigger_slot);
    put_u32(&mut payload, config.trigger_level_bits);
    put_u32(&mut payload, config.trigger_hysteresis_bits);
    put_u16(&mut payload, match config.trigger_edge {
        crate::source::TriggerEdge::Rise => 0,
        crate::source::TriggerEdge::Fall => 1,
    });
    put_u16(&mut payload, config.pre_trigger_percent as u16);
    put_u16(&mut payload, config.prescaler);
    put_u16(&mut payload, config.record_points);
    put_u16(&mut payload, config.ack_capture_id);
    put_u16(&mut payload, config.flags);
    assert(payload@ =~= spec_daq_control(*config));
    payload
}

/// CAPTURE_REPLAY: capture id, first block index, block count and three
/// zero octets.
pub fn capture_replay_request(capture_id: u16, first_block_index: u16, max_blocks: u8) -> (r: Vec<u8>)
    ensures
        r@ == le16(capture_id) + le16(first_block_index) + seq![max_blocks, 0u8, 0u8, 0u8],
{
    let mut payload: Vec<u8> = Vec::new();
    put_u16(&mut payload, capture_id);
    put_u16(&mut payload, first_block_index);
    payload.push(max_blocks);
    payload.push(0);
    payload.push(0);
    payload.push(0);
    assert(payload@ =~= le16(capture_id) + le16(first_block_index) + seq![max_blocks, 0u8, 0u8, 0u8]);
    payload
}

/// The wire code of a system command.
pub open spec fn system_command_code(c: crate::source::SystemCommand) -> u16 {
    match c {
        crate::source::SystemCommand::Start => 1,
        crate::source::SystemCommand::Stop => 2,
        crate::source::SystemCommand::ClearFault => 3,
    }
}

/// SYSTEM_COMMAND: the command code (Start 1, Stop 2, Clear Fault 3) and
/// six zero octets.
pub fn system_command_request(command: crate::source::SystemCommand) -> (r: Vec<u8>)
    ensures
        r@ == le16(system_command_code(command)) + le16(0) + le32(0),
{
    let code: u16 = match command {
        crate::source::SystemCommand::Start => 1,
        crate::source::SystemCommand::Stop => 2,
        crate::source::SystemCommand::ClearFault => 3,
    };
    let mut payload: Vec<u8> = Vec::new();
    put_u16(&mut payload, code);
    put_u16(&mut payload, 0);
    put_u32(&mut payload, 0);
    payload
}

} // verus!
