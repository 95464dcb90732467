use vstd::prelude::*;
use crate::text::{string_of};
use base64::Engine;
use sha2::Digest;
use rsa::pkcs8::DecodePrivateKey;

verus! {

/// The seed both generators start from.
pub const XORSHIFT_SEED: u64 = 0x853c49e6748fea9b;

/// One step of the 64-bit xorshift generator.
pub open spec fn xorshift_step(x: u64) -> u64 {
    let a = x ^ (x << 13u64);
    let b = a ^ (a >> 7u64);
    b ^ (b << 17u64)
}

/// The generator state after `n` steps from `s`.
pub open spec fn xorshift_iter(s: u64, n: nat) -> u64
    decreases n,
{
    if n == 0 {
        s
    } else {
        xorshift_step(xorshift_iter(s, (n - 1) as nat))
    }
}

/// Byte `k` (little endian) of `x`.
pub open spec fn le_byte(x: u64, k: u64) -> u8 {
    (x >> (8 * k)) as u8
}

fn step(x: u64) -> (r: u64)
    ensures
        r == xorshift_step(x),
{
    let a = x ^ (x << 13u64);
    let b = a ^ (a >> 7u64);
    b ^ (b << 17u64)
}

/// A deterministic xorshift generator, used where the license protocol asks
/// for random bytes.
pub struct XorShift64(u64);

impl XorShift64 {
    pub closed spec fn state(&self) -> u64 {
        self.0
    }

    pub fn new() -> (r: Self)
        ensures
            r.state() == XORSHIFT_SEED,
    {
        XorShift64(XORSHIFT_SEED)
    }

    pub fn next_u64(&mut self) -> (x: u64)
        ensures
            x == xorshift_step(old(self).state()),
            final(self).state() == x,
    {
        let x = step(self.0);
        self.0 = x;
        x
    }

    pub fn next_u32(&mut self) -> (x: u32)
        ensures
            x == xorshift_step(old(self).state()) as u32,
            final(self).state() == xorshift_step(old(self).state()),
    {
        let x = self.next_u64();
        x as u32
    }

    /// Fills `dest` with the little endian bytes of successive outputs,
    /// taking a whole output for a trailing partial block.
    pub fn fill_bytes(&mut self, dest: &mut [u8])
        ensures
            final(dest)@.len() == old(dest)@.len(),
            final(self).state() == xorshift_iter(old(self).state(), ((old(dest)@.len() + 7) / 8) as nat),
            forall|i: int|
                0 <= i < old(dest)@.len() ==> #[trigger] final(dest)@[i] == le_byte(
                    xorshift_iter(old(self).state(), (i / 8 + 1) as nat),
                    (i % 8) as u64,
                ),
    {
        let ghost s0 = self.0;
        let len = dest.len();
        let mut i: usize = 0;
        while i < len
            invariant
                len == dest@.len(),
                dest@.len() == old(dest)@.len(),
                i <= len,
                i < len ==> i % 8 == 0,
                self.0 == xorshift_iter(s0, ((i + 7) / 8) as nat),
                forall|j: int|
                    0 <= j < i && j < len ==> #[trigger] dest@[j] == le_byte(
                        xorshift_iter(s0, (j / 8 + 1) as nat),
                        (j % 8) as u64,
                    ),
            decreases len - i,
        {
            assert((i + 7) / 8 == i / 8) by (nonlinear_arith) requires i % 8 == 0;
            let n = self.next_u64();
            let mut k: usize = 0;
            while k < 8 && i + k < len
                invariant
                    len == dest@.len(),
                    dest@.len() == old(dest)@.len(),
                    i % 8 == 0,
                    i < len,
                    k <= 8,
                    n == xorshift_iter(s0, (i / 8 + 1) as nat),
                    forall|j: int|
                        0 <= j < i + k && j < len ==> #[trigger] dest@[j] == le_byte(
                            xorshift_iter(s0, (j / 8 + 1) as nat),
                            (j % 8) as u64,
                        ),
                decreases 8 - k,
            {
                dest[i + k] = #[verifier::truncate] ((n >> (8 * k as u64)) as u8);
                assert((i + k) / 8 == i / 8 && (i + k) % 8 == k) by (nonlinear_arith)
                    requires i % 8 == 0, k < 8;
                k = k + 1;
            }
            if len - i <= 8 {
                assert((len + 7) / 8 == i / 8 + 1) by (nonlinear_arith)
                    requires i % 8 == 0, i < len, len - i <= 8;
                i = len;
            } else {
                assert((i + 8 + 7) / 8 == i / 8 + 1) by (nonlinear_arith) requires i % 8 == 0;
                i = i + 8;
            }
        }
    }
}

/// The error type of the `getrandom` crate.
#[verifier::external_type_specification]
#[verifier::external_body]
pub struct ExGetrandomError(getrandom::Error);

/// Advances the shared generator state `state` once per byte of `buf`,
/// writing the low byte of each new state.
pub fn custom_getrandom(state: &mut u64, buf: &mut [u8]) -> (r: Result<(), getrandom::Error>)
    ensures
        r is Ok,
        final(buf)@.len() == old(buf)@.len(),
        *final(state) == xorshift_iter(*old(state), old(buf)@.len() as nat),
        forall|i: int|
            0 <= i < old(buf)@.len() ==> #[trigger] final(buf)@[i] == xorshift_iter(
                *old(state),
                (i + 1) as nat,
            ) as u8,
{
    let ghost s0 = *state;
    let mut i: usize = 0;
    while i < buf.len()
        invariant
            i <= buf@.len(),
            buf@.len() == old(buf)@.len(),
            *state == xorshift_iter(s0, i as nat),
            forall|j: int| 0 <= j < i ==> #[trigger] buf@[j] == xorshift_iter(s0, (j + 1) as nat) as u8,
        decreases buf@.len() - i,
    {
        let x = step(*state);
        *state = x;
        buf[i] = #[verifier::truncate] (x as u8);
        i = i + 1;
    }
    Ok(())
}

// ---------------------------------------------------------------------------
// Errors
// ---------------------------------------------------------------------------

#[derive(Debug, Clone, Copy, PartialEq, Eq, Structural)]
pub enum WvdError {
    TooShort,
    InvalidMagic,
    UnsupportedVersion,
    TruncatedPrivateKey,
    TruncatedClientId,
    PsshTooShort,
    PsshTruncated,
    NoKey,
    InvalidBase64,
    InvalidPrivateKey,
}

impl WvdError {
    /// The message shown to the user.
    pub fn message(&self) -> (r: &'static str)
        ensures
            r@ == (match self {
                WvdError::TooShort => "WVD too short"@,
                WvdError::InvalidMagic => "Invalid WVD magic"@,
                WvdError::UnsupportedVersion => "Unsupported WVD version (expected 2)"@,
                WvdError::TruncatedPrivateKey => "WVD truncated (private key)"@,
                WvdError::TruncatedClientId => "WVD truncated (client_id)"@,
                WvdError::PsshTooShort => "PSSH too short"@,
                WvdError::PsshTruncated => "PSSH data truncated"@,
                WvdError::NoKey => "No WVD key configured. Add your WVD file (base64) in source settings."@,
                WvdError::InvalidBase64 => "Invalid WVD base64 encoding"@,
                WvdError::InvalidPrivateKey => "Failed to parse RSA private key from WVD"@,
            }),
    {
        match self {
            WvdError::TooShort => "WVD too short",
            WvdError::InvalidMagic => "Invalid WVD magic",
            WvdError::UnsupportedVersion => "Unsupported WVD version (expected 2)",
            WvdError::TruncatedPrivateKey => "WVD truncated (private key)",
            WvdError::TruncatedClientId => "WVD truncated (client_id)",
            WvdError::PsshTooShort => "PSSH too short",
            WvdError::PsshTruncated => "PSSH data truncated",
            WvdError::NoKey => "No WVD key configured. Add your WVD file (base64) in source settings.",
            WvdError::InvalidBase64 => "Invalid WVD base64 encoding",
            WvdError::InvalidPrivateKey => "Failed to parse RSA private key from WVD",
        }
    }
}

// ---------------------------------------------------------------------------
// Byte layouts
// ---------------------------------------------------------------------------

pub open spec fn be16(n: nat) -> Seq<u8> {
    seq![((n / 256) % 256) as u8, (n % 256) as u8]
}

pub open spec fn be32(n: nat) -> Seq<u8> {
    seq![
        ((n / 16777216) % 256) as u8,
        ((n / 65536) % 256) as u8,
        ((n / 256) % 256) as u8,
        (n % 256) as u8,
    ]
}

pub open spec fn be16_value(b: Seq<u8>, at: int) -> nat {
    (b[at] as nat) * 256 + (b[at + 1] as nat)
}

pub open spec fn be32_value(b: Seq<u8>, at: int) -> nat {
    (b[at] as nat) * 16777216 + (b[at + 1] as nat) * 65536 + (b[at + 2] as nat) * 256 + (b[at
        + 3] as nat)
}

/// A protobuf varint: seven bits per byte, least significant first, the
/// high bit set on every byte but the last.
pub open spec fn varint(v: nat) -> Seq<u8>
    decreases v,
{
    if v < 128 {
        seq![v as u8]
    } else {
        seq![((v % 128) + 128) as u8] + varint(v / 128)
    }
}

/// A length delimited protobuf field.
pub open spec fn bytes_field(field: nat, data: Seq<u8>) -> Seq<u8> {
    varint(field * 8 + 2) + varint(data.len()) + data
}

/// A varint protobuf field.
pub open spec fn varint_field(field: nat, value: nat) -> Seq<u8> {
    varint(field * 8) + varint(value)
}

pub open spec fn wvd_magic() -> Seq<u8> {
    seq![87u8, 86u8, 68u8]
}

/// What a WVD file holds.
pub struct WvdData {
    pub device_type: u8,
    pub private_key_der: Vec<u8>,
    pub client_id: Vec<u8>,
}

pub open spec fn parse_wvd_spec(data: Seq<u8>) -> Result<(u8, Seq<u8>, Seq<u8>), WvdError> {
    if data.len() < 9 {
        Err(WvdError::TooShort)
    } else if data.subrange(0, 3) != wvd_magic() {
        Err(WvdError::InvalidMagic)
    } else if data[3] != 2 {
        Err(WvdError::UnsupportedVersion)
    } else {
        let pk_end: int = 9 + be16_value(data, 7) as int;
        if data.len() < pk_end + 2 {
            Err(WvdError::TruncatedPrivateKey)
        } else {
            let ci_start: int = pk_end + 2;
            let ci_end: int = ci_start + be16_value(data, pk_end) as int;
            if data.len() < ci_end {
                Err(WvdError::TruncatedClientId)
            } else {
                Ok((data[4], data.subrange(9, pk_end), data.subrange(ci_start, ci_end)))
            }
        }
    }
}

pub open spec fn wvd_view(r: Result<WvdData, WvdError>) -> Result<(u8, Seq<u8>, Seq<u8>), WvdError> {
    match r {
        Ok(w) => Ok((w.device_type, w.private_key_der@, w.client_id@)),
        Err(e) => Err(e),
    }
}

/// A copy of `data[from..to]`.
fn copy_range(data: &[u8], from: usize, to: usize) -> (r: Vec<u8>)
    requires
        from <= to <= data@.len(),
    ensures
        r@ == data@.subrange(from as int, to as int),
{
    let mut v: Vec<u8> = Vec::new();
    let mut i = from;
    while i < to
        invariant
            from <= i <= to,
            to <= data@.len(),
            v@ == data@.subrange(from as int, i as int),
        decreases to - i,
    {
        v.push(data[i]);
        assert(v@ =~= data@.subrange(from as int, i + 1));
        i = i + 1;
    }
    v
}

/// Reads a WVD (version 2) file: magic, version, device type, then the
/// private key and the client id, each behind a big endian length.
pub fn parse_wvd(data: &[u8]) -> (r: Result<WvdData, WvdError>)
    ensures
        wvd_view(r) == parse_wvd_spec(data@),
{
    if data.len() < 9 {
        return Err(WvdError::TooShort);
    }
    if !(data[0] == 87 && data[1] == 86 && data[2] == 68) {
        assert(data@.subrange(0, 3) != wvd_magic()) by {
            if data@.subrange(0, 3) == wvd_magic() {
                assert(data@.subrange(0, 3)[0] == data@[0]);
                assert(data@.subrange(0, 3)[1] == data@[1]);
                assert(data@.subrange(0, 3)[2] == data@[2]);
            }
        }
        return Err(WvdError::InvalidMagic);
    }
    assert(data@.subrange(0, 3) =~= wvd_magic());
    if data[3] != 2 {
        return Err(WvdError::UnsupportedVersion);
    }
    let device_type = data[4];
    let pk_len = (data[7] as usize) * 256 + (data[8] as usize);
    let pk_end = 9 + pk_len;
    if data.len() < pk_end + 2 {
        return Err(WvdError::TruncatedPrivateKey);
    }
    let private_key_der = copy_range(data, 9, pk_end);
    let ci_len = (data[pk_end] as usize) * 256 + (data[pk_end + 1] as usize);
    let ci_start = pk_end + 2;
    if data.len() < ci_start + ci_len {
        return Err(WvdError::TruncatedClientId);
    }
    let client_id = copy_range(data, ci_start, ci_start + ci_len);
    Ok(WvdData { device_type, private_key_der, client_id })
}

fn push_be32(out: &mut Vec<u8>, n: u32)
    ensures
        final(out)@ == old(out)@ + be32(n as nat),
{
    out.push(((n / 16777216) % 256) as u8);
    out.push(((n / 65536) % 256) as u8);
    out.push(((n / 256) % 256) as u8);
    out.push((n % 256) as u8);
    assert(final(out)@ =~= old(out)@ + be32(n as nat));
}

fn push_bytes(out: &mut Vec<u8>, data: &[u8])
    ensures
        final(out)@ == old(out)@ + data@,
{
    out.extend_from_slice(data);
}

/// Appends the varint encoding of `v`.
pub fn proto_write_varint(buf: &mut Vec<u8>, v: u64)
    ensures
        final(buf)@ == old(buf)@ + varint(v as nat),
{
    let ghost start = buf@;
    let mut x = v;
    loop
        invariant
            start == old(buf)@,
            buf@ + varint(x as nat) == start + varint(v as nat),
        decreases x,
    {
        if x < 128 {
            let ghost before = buf@;
            buf.push(x as u8);
            assert(buf@ =~= before + varint(x as nat));
            return;
        }
        let ghost before = buf@;
        buf.push(((x % 128) + 128) as u8);
        assert(buf@ + varint((x / 128) as nat) =~= before + varint(x as nat));
        x = x / 128;
    }
}

/// Appends a length delimited field.
pub fn proto_write_bytes_field(buf: &mut Vec<u8>, field: u32, data: &[u8])
    ensures
        final(buf)@ == old(buf)@ + bytes_field(field as nat, data@),
{
    proto_write_varint(buf, (field as u64) * 8 + 2);
    proto_write_varint(buf, data.len() as u64);
    push_bytes(buf, data);
    assert(final(buf)@ =~= old(buf)@ + bytes_field(field as nat, data@));
}

/// Appends a varint field.
pub fn proto_write_varint_field(buf: &mut Vec<u8>, field: u32, value: u64)
    ensures
        final(buf)@ == old(buf)@ + varint_field(field as nat, value as nat),
{
    proto_write_varint(buf, (field as u64) * 8);
    proto_write_varint(buf, value);
    assert(final(buf)@ =~= old(buf)@ + varint_field(field as nat, value as nat));
}

pub open spec fn system_id() -> Seq<u8> {
    seq![
        0xEDu8, 0xEFu8, 0x8Bu8, 0xA9u8, 0x79u8, 0xD6u8, 0x2Au8, 0xCEu8, 0xA3u8, 0xC8u8, 0x27u8,
        0xDCu8, 0xD5u8, 0x1Du8, 0x21u8, 0xEDu8,
    ]
}

/// A version 0 `pssh` box for the Widevine system, holding the key id `f`.
pub open spec fn pssh_spec(f: Seq<u8>) -> Seq<u8> {
    let data = bytes_field(2, f);
    be32(32 + data.len()) + seq![112u8, 115u8, 115u8, 104u8] + seq![0u8, 0u8, 0u8, 0u8] + system_id()
        + be32(data.len()) + data
}

/// Builds the `pssh` box for a key id.
pub fn build_pssh(f: &[u8; 16]) -> (r: Vec<u8>)
    ensures
        r@ == pssh_spec(f@),
{
    let mut widevine_data: Vec<u8> = Vec::new();
    proto_write_bytes_field(&mut widevine_data, 2, f.as_slice());
    assert(widevine_data@ =~= bytes_field(2, f@));
    assert(varint(18) =~= seq![18u8]);
    assert(varint(16) =~= seq![16u8]);
    assert(widevine_data@.len() == 18);
    let total_size = 32 + widevine_data.len();
    let mut pssh: Vec<u8> = Vec::new();
    push_be32(&mut pssh, total_size as u32);
    pssh.push(112);
    pssh.push(115);
    pssh.push(115);
    pssh.push(104);
    pssh.push(0);
    pssh.push(0);
    pssh.push(0);
    pssh.push(0);
    let sid: [u8; 16] = [
        0xED, 0xEF, 0x8B, 0xA9, 0x79, 0xD6, 0x2A, 0xCE, 0xA3, 0xC8, 0x27, 0xDC, 0xD5, 0x1D, 0x21,
        0xED,
    ];
    assert(sid@ =~= system_id());
    push_bytes(&mut pssh, sid.as_slice());
    push_be32(&mut pssh, widevine_data.len() as u32);
    push_bytes(&mut pssh, widevine_data.as_slice());
    assert(pssh@ =~= pssh_spec(f@));
    pssh
}

pub open spec fn init_data_spec(pssh: Seq<u8>) -> Result<Seq<u8>, WvdError> {
    if pssh.len() < 32 {
        Err(WvdError::PsshTooShort)
    } else if pssh.len() < 32 + be32_value(pssh, 28) {
        Err(WvdError::PsshTruncated)
    } else {
        Ok(pssh.subrange(32, 32 + be32_value(pssh, 28) as int))
    }
}

pub open spec fn bytes_result_view(r: Result<Vec<u8>, WvdError>) -> Result<Seq<u8>, WvdError> {
    match r {
        Ok(v) => Ok(v@),
        Err(e) => Err(e),
    }
}

/// The system specific data of a `pssh` box.
pub fn extract_init_data(pssh: &[u8]) -> (r: Result<Vec<u8>, WvdError>)
    ensures
        bytes_result_view(r) == init_data_spec(pssh@),
{
    if pssh.len() < 32 {
        return Err(WvdError::PsshTooShort);
    }
    let data_size = (pssh[28] as usize) * 16777216 + (pssh[29] as usize) * 65536 + (pssh[30] as usize)
        * 256 + (pssh[31] as usize);
    if pssh.len() - 32 < data_size {
        return Err(WvdError::PsshTruncated);
    }
    Ok(copy_range(pssh, 32, 32 + data_size))
}

pub open spec fn license_request_spec(
    client_id: Seq<u8>,
    init_data: Seq<u8>,
    request_id: Seq<u8>,
    request_time: i64,
    nonce: u32,
) -> Seq<u8> {
    let pssh_data = bytes_field(1, init_data) + varint_field(2, 1) + bytes_field(3, request_id);
    let content_id = bytes_field(1, pssh_data);
    bytes_field(1, client_id) + bytes_field(2, content_id) + varint_field(3, 1) + varint_field(
        4,
        (request_time as u64) as nat,
    ) + varint_field(6, 21) + varint_field(7, nonce as nat)
}

/// The license request is Widevine's `LicenseRequest` message: the client
/// id as field 1 (tag `0x0a`); the content id as field 2 (tag `0x12`),
/// wrapping in its field 1 the PSSH data (the init data as field 1, license
/// type 1 as field 2, the request id as field 3); the request type 1 as
/// field 3 (`0x18 0x01`); the request time as field 4 (`0x20`); protocol
/// version 21 as field 6 (`0x30 0x15`); the nonce as field 7 (`0x38`).
/// Lengths and numbers are varints.
pub proof fn lemma_license_request_layout(
    client_id: Seq<u8>,
    init_data: Seq<u8>,
    request_id: Seq<u8>,
    request_time: i64,
    nonce: u32,
)
    ensures
        ({
            let pssh_data = seq![0x0au8] + varint(init_data.len()) + init_data + seq![0x10u8, 0x01u8, 0x1au8]
                + varint(request_id.len()) + request_id;
            let content_id = seq![0x0au8] + varint(pssh_data.len()) + pssh_data;
            license_request_spec(client_id, init_data, request_id, request_time, nonce) == seq![0x0au8]
                + varint(client_id.len()) + client_id + seq![0x12u8] + varint(content_id.len()) + content_id
                + seq![0x18u8, 0x01u8, 0x20u8] + varint((request_time as u64) as nat) + seq![0x30u8, 0x15u8, 0x38u8]
                + varint(nonce as nat)
        }),
{
    assert(varint(10) =~= seq![0x0au8]);
    assert(varint(16) =~= seq![0x10u8]);
    assert(varint(1) =~= seq![0x01u8]);
    assert(varint(26) =~= seq![0x1au8]);
    assert(varint(18) =~= seq![0x12u8]);
    assert(varint(24) =~= seq![0x18u8]);
    assert(varint(32) =~= seq![0x20u8]);
    assert(varint(48) =~= seq![0x30u8]);
    assert(varint(21) =~= seq![0x15u8]);
    assert(varint(56) =~= seq![0x38u8]);
    let pssh_data = seq![0x0au8] + varint(init_data.len()) + init_data + seq![0x10u8, 0x01u8, 0x1au8]
        + varint(request_id.len()) + request_id;
    assert(bytes_field(1, init_data) + varint_field(2, 1) + bytes_field(3, request_id) =~= pssh_data);
    let content_id = seq![0x0au8] + varint(pssh_data.len()) + pssh_data;
    assert(bytes_field(1, pssh_data) =~= content_id);
    assert(license_request_spec(client_id, init_data, request_id, request_time, nonce) =~= seq![0x0au8]
        + varint(client_id.len()) + client_id + seq![0x12u8] + varint(content_id.len()) + content_id
        + seq![0x18u8, 0x01u8, 0x20u8] + varint((request_time as u64) as nat) + seq![0x30u8, 0x15u8, 0x38u8]
        + varint(nonce as nat));
}

/// The license request message.
pub fn encode_license_request(
    client_id: &[u8],
    init_data: &[u8],
    request_id: &[u8],
    request_time: i64,
    nonce: u32,
) -> (r: Vec<u8>)
    ensures
        r@ == license_request_spec(client_id@, init_data@, request_id@, request_time, nonce),
{
    let mut pssh_data_msg: Vec<u8> = Vec::new();
    proto_write_bytes_field(&mut pssh_data_msg, 1, init_data);
    proto_write_varint_field(&mut pssh_data_msg, 2, 1);
    proto_write_bytes_field(&mut pssh_data_msg, 3, request_id);

    let mut content_id: Vec<u8> = Vec::new();
    proto_write_bytes_field(&mut content_id, 1, pssh_data_msg.as_slice());

    let mut msg: Vec<u8> = Vec::new();
    proto_write_bytes_field(&mut msg, 1, client_id);
    proto_write_bytes_field(&mut msg, 2, content_id.as_slice());
    proto_write_varint_field(&mut msg, 3, 1);
    proto_write_varint_field(&mut msg, 4, request_time as u64);
    proto_write_varint_field(&mut msg, 6, 21);
    proto_write_varint_field(&mut msg, 7, nonce as u64);
    assert(pssh_data_msg@ =~= bytes_field(1, init_data@) + varint_field(2, 1) + bytes_field(
        3,
        request_id@,
    ));
    assert(msg@ =~= license_request_spec(client_id@, init_data@, request_id@, request_time, nonce));
    msg
}

pub open spec fn signed_message_spec(msg: Seq<u8>, signature: Seq<u8>) -> Seq<u8> {
    varint_field(1, 1) + bytes_field(2, msg) + bytes_field(3, signature)
}

/// The signed message wrapping a license request.
pub fn encode_signed_message(msg: &[u8], signature: &[u8]) -> (r: Vec<u8>)
    ensures
        r@ == signed_message_spec(msg@, signature@),
{
    let mut out: Vec<u8> = Vec::new();
    proto_write_varint_field(&mut out, 1, 1);
    proto_write_bytes_field(&mut out, 2, msg);
    proto_write_bytes_field(&mut out, 3, signature);
    assert(out@ =~= signed_message_spec(msg@, signature@));
    out
}

pub open spec fn pkcs8_header(total: nat, inner: nat) -> Seq<u8> {
    seq![0x30u8, 0x82u8] + be16((total - 4) as nat) + seq![
        0x02u8, 0x01u8, 0x00u8, 0x30u8, 0x0du8, 0x06u8, 0x09u8, 0x2au8, 0x86u8, 0x48u8, 0x86u8,
        0xf7u8, 0x0du8, 0x01u8, 0x01u8, 0x01u8, 0x05u8, 0x00u8, 0x04u8, 0x82u8,
    ] + be16(inner)
}

/// An RSA key in PKCS#1 form wrapped in a PKCS#8 envelope; both lengths are
/// written as 16 bits.
pub open spec fn pkcs8_wrap_spec(pkcs1: Seq<u8>) -> Seq<u8> {
    pkcs8_header(26 + pkcs1.len(), pkcs1.len()) + pkcs1
}

pub fn wrap_pkcs1_in_pkcs8(pkcs1: &[u8]) -> (r: Vec<u8>)
    requires
        pkcs1@.len() + 26 <= usize::MAX,
    ensures
        r@ == pkcs8_wrap_spec(pkcs1@),
{
    let total = 26 + pkcs1.len();
    let outer = total - 4;
    let inner = pkcs1.len();
    let mut out: Vec<u8> = Vec::new();
    out.push(0x30);
    out.push(0x82);
    out.push(((outer / 256) % 256) as u8);
    out.push((outer % 256) as u8);
    let rest: [u8; 20] = [
        0x02, 0x01, 0x00, 0x30, 0x0d, 0x06, 0x09, 0x2a, 0x86, 0x48, 0x86, 0xf7, 0x0d, 0x01, 0x01,
        0x01, 0x05, 0x00, 0x04, 0x82,
    ];
    push_bytes(&mut out, rest.as_slice());
    out.push(((inner / 256) % 256) as u8);
    out.push((inner % 256) as u8);
    push_bytes(&mut out, pkcs1);
    assert(out@ =~= pkcs8_wrap_spec(pkcs1@));
    out
}

pub open spec fn hex_upper_digit(d: nat) -> char {
    if d < 10 {
        (d + 48) as char
    } else {
        (d + 55) as char
    }
}

/// Each byte as two upper case hex digits.
pub open spec fn hex_upper(bytes: Seq<u8>) -> Seq<char>
    decreases bytes.len(),
{
    if bytes.len() == 0 {
        Seq::empty()
    } else {
        hex_upper(bytes.drop_last()) + seq![
            hex_upper_digit((bytes.last() / 16) as nat),
            hex_upper_digit((bytes.last() % 16) as nat),
        ]
    }
}

fn hex_char(d: u8) -> (c: char)
    requires
        d < 16,
    ensures
        c == hex_upper_digit(d as nat),
{
    if d < 10 {
        crate::text::char_from_u32_ascii((d + 48) as u32)
    } else {
        crate::text::char_from_u32_ascii((d + 55) as u32)
    }
}

fn hex_upper_chars(bytes: &[u8]) -> (r: Vec<char>)
    ensures
        r@ == hex_upper(bytes@),
{
    let mut out: Vec<char> = Vec::new();
    let mut i: usize = 0;
    while i < bytes.len()
        invariant
            i <= bytes@.len(),
            out@ == hex_upper(bytes@.subrange(0, i as int)),
        decreases bytes@.len() - i,
    {
        let b = bytes[i];
        out.push(hex_char(b / 16));
        out.push(hex_char(b % 16));
        assert(bytes@.subrange(0, i + 1).drop_last() =~= bytes@.subrange(0, i as int));
        i = i + 1;
    }
    assert(bytes@.subrange(0, bytes@.len() as int) =~= bytes@);
    out
}

/// The bytes as upper case hex.
pub fn to_hex_upper(bytes: &[u8]) -> (r: String)
    ensures
        r@ == hex_upper(bytes@),
{
    let v = hex_upper_chars(bytes);
    string_of(v.as_slice())
}

// ---------------------------------------------------------------------------
// Laws of the layouts
// ---------------------------------------------------------------------------

/// A WVD file as the format lays it out, with arbitrary flag bytes.
pub open spec fn wvd_file(device_type: u8, b5: u8, b6: u8, key: Seq<u8>, client_id: Seq<u8>) -> Seq<u8> {
    wvd_magic() + seq![2u8, device_type, b5, b6] + be16(key.len()) + key + be16(client_id.len())
        + client_id
}

proof fn lemma_be16(n: nat)
    requires
        n < 65536,
    ensures
        (((n / 256) % 256) as u8) as nat * 256 + ((n % 256) as u8) as nat == n,
{
    assert(((n / 256) % 256) * 256 + n % 256 == n) by (nonlinear_arith)
        requires n < 65536;
}

/// The signed message is Widevine's `SignedMessage`: type 1 as field 1
/// (`0x08 0x01`), the license request as field 2 (`0x12`), the signature as
/// field 3 (`0x1a`), each length a varint.
pub proof fn lemma_signed_message_layout(msg: Seq<u8>, signature: Seq<u8>)
    ensures
        signed_message_spec(msg, signature) == seq![0x08u8, 0x01u8, 0x12u8] + varint(msg.len()) + msg + seq![0x1au8]
            + varint(signature.len()) + signature,
{
    assert(varint(8) =~= seq![0x08u8]);
    assert(varint(1) =~= seq![0x01u8]);
    assert(varint(18) =~= seq![0x12u8]);
    assert(varint(26) =~= seq![0x1au8]);
    assert(signed_message_spec(msg, signature) =~= seq![0x08u8, 0x01u8, 0x12u8] + varint(msg.len()) + msg
        + seq![0x1au8] + varint(signature.len()) + signature);
}

/// What an upper case hex digit stands for.
pub open spec fn hex_digit_value(c: char) -> int {
    if '0' <= c <= '9' {
        c as int - 48
    } else {
        c as int - 55
    }
}

/// Reading the hex text back gives the bytes: two digits per byte, each
/// `0`-`9` or `A`-`F`, the high one first.
pub proof fn lemma_hex_upper_reads_back(bytes: Seq<u8>)
    ensures
        hex_upper(bytes).len() == 2 * bytes.len(),
        forall|i: int| 0 <= i < bytes.len() ==> {
            &&& ('0' <= #[trigger] hex_upper(bytes)[2 * i] <= '9' || 'A' <= hex_upper(bytes)[2 * i] <= 'F')
            &&& ('0' <= hex_upper(bytes)[2 * i + 1] <= '9' || 'A' <= hex_upper(bytes)[2 * i + 1] <= 'F')
            &&& hex_digit_value(hex_upper(bytes)[2 * i]) * 16 + hex_digit_value(hex_upper(bytes)[2 * i + 1])
                == bytes[i] as int
        },
    decreases bytes.len(),
{
    if bytes.len() > 0 {
        let init = bytes.drop_last();
        lemma_hex_upper_reads_back(init);
        let h = hex_upper(bytes);
        let hi = (bytes.last() / 16) as nat;
        let lo = (bytes.last() % 16) as nat;
        assert(hi < 16 && lo < 16);
        assert(hi * 16 + lo == bytes.last() as int);
        assert forall|i: int| 0 <= i < bytes.len() implies {
            &&& ('0' <= #[trigger] h[2 * i] <= '9' || 'A' <= h[2 * i] <= 'F')
            &&& ('0' <= h[2 * i + 1] <= '9' || 'A' <= h[2 * i + 1] <= 'F')
            &&& hex_digit_value(h[2 * i]) * 16 + hex_digit_value(h[2 * i + 1]) == bytes[i] as int
        } by {
            if i < init.len() {
                assert(h[2 * i] == hex_upper(init)[2 * i]);
                assert(h[2 * i + 1] == hex_upper(init)[2 * i + 1]);
                assert(bytes[i] == init[i]);
            } else {
                assert(h[2 * i] == hex_upper_digit(hi));
                assert(h[2 * i + 1] == hex_upper_digit(lo));
            }
        }
    }
}

/// The PKCS#8 envelope is a DER sequence whose two-byte length covers the
/// rest, holding version 0, the `rsaEncryption` algorithm with no
/// parameters, and an octet string whose two-byte length is the key's,
/// followed by the PKCS#1 key itself.
pub proof fn lemma_pkcs8_envelope(pkcs1: Seq<u8>)
    requires
        pkcs1.len() + 22 < 65536,
    ensures
        ({
            let w = pkcs8_wrap_spec(pkcs1);
            &&& w.len() == pkcs1.len() + 26
            &&& w[0] == 0x30u8 && w[1] == 0x82u8
            &&& be16_value(w, 2) == w.len() - 4
            &&& w.subrange(4, 22) == seq![
                0x02u8, 0x01u8, 0x00u8, 0x30u8, 0x0du8, 0x06u8, 0x09u8, 0x2au8, 0x86u8, 0x48u8, 0x86u8,
                0xf7u8, 0x0du8, 0x01u8, 0x01u8, 0x01u8, 0x05u8, 0x00u8,
            ]
            &&& w[22] == 0x04u8 && w[23] == 0x82u8
            &&& be16_value(w, 24) == pkcs1.len()
            &&& w.subrange(26, w.len() as int) == pkcs1
        }),
{
    let w = pkcs8_wrap_spec(pkcs1);
    lemma_be16(pkcs1.len() + 22);
    lemma_be16(pkcs1.len());
    assert(w.subrange(4, 22) =~= seq![
        0x02u8, 0x01u8, 0x00u8, 0x30u8, 0x0du8, 0x06u8, 0x09u8, 0x2au8, 0x86u8, 0x48u8, 0x86u8,
        0xf7u8, 0x0du8, 0x01u8, 0x01u8, 0x01u8, 0x05u8, 0x00u8,
    ]);
    assert(w.subrange(26, w.len() as int) =~= pkcs1);
}

/// Reading a WVD file gives back the device type, private key and client id
/// it was written with.
pub proof fn lemma_parse_wvd_roundtrip(device_type: u8, b5: u8, b6: u8, key: Seq<u8>, client_id: Seq<u8>)
    requires
        key.len() < 65536,
        client_id.len() < 65536,
    ensures
        parse_wvd_spec(wvd_file(device_type, b5, b6, key, client_id)) == Ok::<(u8, Seq<u8>, Seq<u8>), WvdError>((device_type, key, client_id)),
{
    let d = wvd_file(device_type, b5, b6, key, client_id);
    lemma_be16(key.len());
    lemma_be16(client_id.len());
    assert(d.subrange(0, 3) =~= wvd_magic());
    assert(be16_value(d, 7) == key.len());
    let pk_end: int = 9 + key.len() as int;
    assert(d[pk_end] == be16(client_id.len())[0]);
    assert(d[pk_end + 1] == be16(client_id.len())[1]);
    assert(be16_value(d, pk_end) == client_id.len());
    assert(d.subrange(9, pk_end) =~= key);
    assert(d.subrange(pk_end + 2, pk_end + 2 + client_id.len() as int) =~= client_id);
}

/// The system data read back out of a built `pssh` box is the key id field
/// it was built around: the protobuf tag of field 2 (`0x12`), the length 16
/// (`0x10`), then the key id itself.
pub proof fn lemma_pssh_roundtrip(f: Seq<u8>)
    requires
        f.len() == 16,
    ensures
        init_data_spec(pssh_spec(f)) == Ok::<Seq<u8>, WvdError>(bytes_field(2, f)),
        init_data_spec(pssh_spec(f)) == Ok::<Seq<u8>, WvdError>(seq![0x12u8, 0x10u8] + f),
{
    assert(bytes_field(2, f) =~= seq![0x12u8, 0x10u8] + f);
    assert(varint(18) =~= seq![18u8]);
    assert(varint(16) =~= seq![16u8]);
    let data = bytes_field(2, f);
    assert(data.len() == 18);
    let p = pssh_spec(f);
    assert(p.len() == 50);
    assert(p[28] == 0 && p[29] == 0 && p[30] == 0 && p[31] == 18);
    assert(be32_value(p, 28) == 18);
    assert(p.subrange(32, 50) =~= data);
}

// ---------------------------------------------------------------------------
// Outside computations
// ---------------------------------------------------------------------------

/// The private key type of the `rsa` crate.
#[verifier::external_type_specification]
#[verifier::external_body]
pub struct ExRsaPrivateKey(rsa::RsaPrivateKey);

/// What `base64`'s standard engine decodes a text into, if it is valid.
pub uninterp spec fn base64_standard_decoded(s: Seq<char>) -> Option<Seq<u8>>;

/// What `base64`'s standard engine encodes bytes as.
pub uninterp spec fn base64_standard_encoded(b: Seq<u8>) -> Seq<char>;

/// The SHA-256 digest of some bytes.
pub uninterp spec fn sha256_digest(b: Seq<u8>) -> Seq<u8>;

/// Whether `rsa` reads some DER bytes as a PKCS#8 RSA private key.
pub uninterp spec fn is_pkcs8_rsa_key(der: Seq<u8>) -> bool;

/// `base64::engine::general_purpose::STANDARD.decode`: the decoded bytes,
/// or `None` where the engine reports an error.
#[verifier::external_body]
fn base64_decode(s: &str) -> (r: Option<Vec<u8>>)
    ensures
        match r {
            Some(v) => base64_standard_decoded(s@) == Some(v@),
            None => base64_standard_decoded(s@) is None,
        },
{
    base64::engine::general_purpose::STANDARD.decode(s).ok()
}

/// `base64::engine::general_purpose::STANDARD.encode`.
#[verifier::external_body]
fn base64_encode(b: &[u8]) -> (r: String)
    ensures
        r@ == base64_standard_encoded(b@),
{
    base64::engine::general_purpose::STANDARD.encode(b)
}

/// `sha2::Sha256::digest`, which always gives 32 bytes.
#[verifier::external_body]
fn sha256(data: &[u8]) -> (r: Vec<u8>)
    ensures
        r@ == sha256_digest(data@),
        r@.len() == 32,
{
    sha2::Sha256::digest(data).to_vec()
}

/// `rsa::RsaPrivateKey::from_pkcs8_der`, the key or `None` on an error.
#[verifier::external_body]
fn private_key_from_pkcs8(der: &[u8]) -> (r: Option<rsa::RsaPrivateKey>)
    ensures
        r is Some <==> is_pkcs8_rsa_key(der@),
{
    rsa::RsaPrivateKey::from_pkcs8_der(der).ok()
}

/// Reads an RSA private key, as PKCS#8 or else as PKCS#1 wrapped into
/// PKCS#8.
pub fn parse_private_key(der: &[u8]) -> (r: Result<rsa::RsaPrivateKey, WvdError>)
    requires
        der@.len() + 26 <= usize::MAX,
    ensures
        r is Ok <==> (is_pkcs8_rsa_key(der@) || is_pkcs8_rsa_key(pkcs8_wrap_spec(der@))),
        r is Err ==> r == Err::<rsa::RsaPrivateKey, WvdError>(WvdError::InvalidPrivateKey),
{
    match private_key_from_pkcs8(der) {
        Some(key) => Ok(key),
        None => {
            let pkcs8 = wrap_pkcs1_in_pkcs8(der);
            match private_key_from_pkcs8(pkcs8.as_slice()) {
                Some(key) => Ok(key),
                None => Err(WvdError::InvalidPrivateKey),
            }
        },
    }
}

// ---------------------------------------------------------------------------
// The challenge
// ---------------------------------------------------------------------------

/// The bytes of the hex text of `b`.
pub open spec fn hex_upper_bytes(b: Seq<u8>) -> Seq<u8> {
    hex_upper(b).map_values(|c: char| c as u8)
}

pub open spec fn le_bytes(x: u64, n: nat) -> Seq<u8> {
    Seq::new(n, |k: int| le_byte(x, k as u64))
}

/// The request id: for devices of type 2 the hex text of four random bytes,
/// four zero bytes and the counter 1; otherwise sixteen random bytes.
pub open spec fn request_id_spec(device_type: u8) -> Seq<u8> {
    if device_type == 2 {
        hex_upper_bytes(
            le_bytes(xorshift_iter(XORSHIFT_SEED, 1), 4) + seq![0u8, 0u8, 0u8, 0u8] + le_bytes(1, 8),
        )
    } else {
        le_bytes(xorshift_iter(XORSHIFT_SEED, 1), 8) + le_bytes(xorshift_iter(XORSHIFT_SEED, 2), 8)
    }
}

/// Generator steps taken by the request id.
pub open spec fn request_id_steps(device_type: u8) -> nat {
    if device_type == 2 {
        1
    } else {
        2
    }
}

/// The key id of a chapter: the first half of the SHA-256 of `:` and the id.
pub open spec fn key_id_spec(chapter_id: Seq<char>) -> Seq<u8> {
    sha256_digest(seq![58u8] + vstd::utf8::encode_utf8(chapter_id)).subrange(0, 16)
}

/// A license request ready to be signed, with the key that signs it and the
/// generator the signature takes its salt from.
pub struct ChallengeRequest {
    pub license_request: Vec<u8>,
    pub private_key: rsa::RsaPrivateKey,
    pub rng: XorShift64,
}

/// The license request for a chapter, up to its signature.
pub open spec fn license_request_for(w: (u8, Seq<u8>, Seq<u8>), chapter_id: Seq<char>, request_time: i64) -> Seq<u8> {
    license_request_spec(
        w.2,
        bytes_field(2, key_id_spec(chapter_id)),
        request_id_spec(w.0),
        request_time,
        xorshift_iter(XORSHIFT_SEED, request_id_steps(w.0) + 1) as u32,
    )
}

fn hex_upper_bytes_exec(b: &[u8]) -> (r: Vec<u8>)
    ensures
        r@ == hex_upper_bytes(b@),
{
    let chars = hex_upper_chars(b);
    let mut out: Vec<u8> = Vec::new();
    let mut i: usize = 0;
    while i < chars.len()
        invariant
            i <= chars@.len(),
            chars@ == hex_upper(b@),
            out@ == chars@.subrange(0, i as int).map_values(|c: char| c as u8),
        decreases chars@.len() - i,
    {
        out.push(chars[i] as u8);
        assert(out@ =~= chars@.subrange(0, i + 1).map_values(|c: char| c as u8));
        i = i + 1;
    }
    assert(chars@.subrange(0, chars@.len() as int) =~= chars@);
    out
}

/// Builds the license request for a chapter out of a WVD file given as
/// base64, at `request_time`, and reads the key that is to sign it.
pub fn prepare_challenge(wvd_base64: &str, chapter_id: &str, request_time: i64) -> (r: Result<
    ChallengeRequest,
    WvdError,
>)
    ensures
        wvd_base64@.len() == 0 ==> r == Err::<ChallengeRequest, WvdError>(WvdError::NoKey),
        wvd_base64@.len() > 0 && base64_standard_decoded(wvd_base64@) is None ==> r == Err::<
            ChallengeRequest,
            WvdError,
        >(WvdError::InvalidBase64),
        (wvd_base64@.len() > 0 && base64_standard_decoded(wvd_base64@) is Some) ==> match parse_wvd_spec(base64_standard_decoded(wvd_base64@)->0) {
            Err(e) => r == Err::<ChallengeRequest, WvdError>(e),
            Ok(w) => {
                &&& r is Ok <==> (is_pkcs8_rsa_key(w.1) || is_pkcs8_rsa_key(pkcs8_wrap_spec(w.1)))
                &&& r is Err ==> r == Err::<ChallengeRequest, WvdError>(WvdError::InvalidPrivateKey)
                &&& r matches Ok(c) ==> {
                    &&& c.license_request@ == license_request_for(w, chapter_id@, request_time)
                    &&& c.rng.state() == xorshift_iter(XORSHIFT_SEED, request_id_steps(w.0) + 1)
                }
            },
        },
{
    if wvd_base64.is_empty() {
        return Err(WvdError::NoKey);
    }
    let wvd_bytes = match base64_decode(wvd_base64) {
        Some(b) => b,
        None => return Err(WvdError::InvalidBase64),
    };
    let wvd = match parse_wvd(wvd_bytes.as_slice()) {
        Ok(w) => w,
        Err(e) => return Err(e),
    };

    let mut input: Vec<u8> = Vec::new();
    input.push(58);
    input.extend_from_slice(chapter_id.as_bytes());
    let hash = sha256(input.as_slice());
    let mut f: [u8; 16] = [0u8; 16];
    let mut k: usize = 0;
    while k < 16
        invariant
            k <= 16,
            hash@.len() == 32,
            f@.len() == 16,
            forall|j: int| 0 <= j < k ==> f@[j] == hash@[j],
        decreases 16 - k,
    {
        f[k] = hash[k];
        k = k + 1;
    }
    assert(f@ =~= hash@.subrange(0, 16));
    assert(input@ =~= seq![58u8] + vstd::utf8::encode_utf8(chapter_id@));

    let pssh = build_pssh(&f);
    proof {
        lemma_pssh_roundtrip(f@);
    }
    let init_data = match extract_init_data(pssh.as_slice()) {
        Ok(d) => d,
        Err(e) => return Err(e),
    };

    let mut rng = XorShift64::new();
    let request_id: Vec<u8> = if wvd.device_type == 2 {
        let mut random: [u8; 4] = [0u8; 4];
        rng.fill_bytes(&mut random);
        let mut id_bytes: Vec<u8> = Vec::new();
        id_bytes.extend_from_slice(random.as_slice());
        let tail: [u8; 12] = [0, 0, 0, 0, 1, 0, 0, 0, 0, 0, 0, 0];
        id_bytes.extend_from_slice(tail.as_slice());
        proof {
            assert(random@ =~= le_bytes(xorshift_iter(XORSHIFT_SEED, 1), 4));
            assert(le_bytes(1, 8) =~= seq![1u8, 0u8, 0u8, 0u8, 0u8, 0u8, 0u8, 0u8]) by {
                assert(le_byte(1, 0) == 1u8) by (bit_vector);
                assert(le_byte(1, 1) == 0u8) by (bit_vector);
                assert(le_byte(1, 2) == 0u8) by (bit_vector);
                assert(le_byte(1, 3) == 0u8) by (bit_vector);
                assert(le_byte(1, 4) == 0u8) by (bit_vector);
                assert(le_byte(1, 5) == 0u8) by (bit_vector);
                assert(le_byte(1, 6) == 0u8) by (bit_vector);
                assert(le_byte(1, 7) == 0u8) by (bit_vector);
            }
            assert(id_bytes@ =~= le_bytes(xorshift_iter(XORSHIFT_SEED, 1), 4) + seq![
                0u8,
                0u8,
                0u8,
                0u8,
            ] + le_bytes(1, 8));
        }
        hex_upper_bytes_exec(id_bytes.as_slice())
    } else {
        let mut bytes: [u8; 16] = [0u8; 16];
        rng.fill_bytes(&mut bytes);
        proof {
            assert forall|i: int| 0 <= i < 16 implies bytes@[i] == (le_bytes(
                xorshift_iter(XORSHIFT_SEED, 1),
                8,
            ) + le_bytes(xorshift_iter(XORSHIFT_SEED, 2), 8))[i] by {
                if i < 8 {
                    assert(i / 8 == 0 && i % 8 == i);
                } else {
                    assert(i / 8 == 1 && i % 8 == i - 8);
                }
            }
            assert(bytes@ =~= le_bytes(xorshift_iter(XORSHIFT_SEED, 1), 8) + le_bytes(
                xorshift_iter(XORSHIFT_SEED, 2),
                8,
            ));
        }
        let mut v: Vec<u8> = Vec::new();
        v.extend_from_slice(bytes.as_slice());
        v
    };
    let nonce = rng.next_u32();
    let license_request = encode_license_request(
        wvd.client_id.as_slice(),
        init_data.as_slice(),
        request_id.as_slice(),
        request_time,
        nonce,
    );
    if wvd.private_key_der.len() > usize::MAX - 26 {
        return Err(WvdError::InvalidPrivateKey);
    }
    let private_key = match parse_private_key(wvd.private_key_der.as_slice()) {
        Ok(k) => k,
        Err(e) => return Err(e),
    };
    Ok(ChallengeRequest { license_request, private_key, rng })
}

/// The challenge sent for a signed license request: the signed message,
/// base64 encoded.
pub fn finish_challenge(license_request: &[u8], signature: &[u8]) -> (r: String)
    ensures
        r@ == base64_standard_encoded(signed_message_spec(license_request@, signature@)),
{
    let signed = encode_signed_message(license_request, signature);
    base64_encode(signed.as_slice())
}

} // verus!
