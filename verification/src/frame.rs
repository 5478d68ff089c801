//! RFC 6455 frames: the header that introduces a frame, the masking of
//! payloads, and the encoding and decoding of a whole frame.
use vstd::prelude::*;

verus! {

/// Opcode of a continuation frame.
pub const OP_CONTINUATION: u8 = 0;
/// Opcode of a text frame.
pub const OP_TEXT: u8 = 1;
/// Opcode of a binary frame.
pub const OP_BINARY: u8 = 2;
/// Opcode of a close frame.
pub const OP_CLOSE: u8 = 8;
/// Opcode of a ping frame.
pub const OP_PING: u8 = 9;
/// Opcode of a pong frame.
pub const OP_PONG: u8 = 10;
/// Largest payload of a frame, and of a reassembled message.
pub const MAX_FRAME: usize = 1048576;

/// Why a frame is refused.
#[derive(PartialEq, Eq, Structural, Clone, Copy, Debug)]
pub enum FrameError {
    /// A client frame without a mask, or a server frame with one.
    InvalidMasking,
    /// A payload over `MAX_FRAME`, or a control frame that is fragmented or
    /// longer than 125 bytes.
    InvalidSize,
}

/// The first two bytes of a frame, taken apart.
#[derive(PartialEq, Eq, Structural, Clone, Copy, Debug)]
pub struct FrameStart {
    pub fin: bool,
    pub opcode: u8,
    pub masked: bool,
    /// The 7-bit length field: the length itself below 126, else the size of
    /// the extended length that follows.
    pub len_code: u8,
}

/// The fields of the first two bytes of a frame.
pub open spec fn start_of(b0: u8, b1: u8) -> FrameStart {
    FrameStart {
        fin: b0 & 0x80 != 0,
        opcode: b0 & 0x0f,
        masked: b1 & 0x80 != 0,
        len_code: b1 & 0x7f,
    }
}

/// Takes apart the first two bytes of a frame. A reader that is a client
/// refuses masked frames, a server refuses unmasked ones.
pub fn parse_frame_start(b0: u8, b1: u8, client: bool) -> (r: Result<FrameStart, FrameError>)
    ensures
        r == (if start_of(b0, b1).masked == client {
            Err(FrameError::InvalidMasking)
        } else {
            Ok(start_of(b0, b1))
        }),
{
    let start = FrameStart {
        fin: b0 & 0x80 != 0,
        opcode: b0 & 0x0f,
        masked: b1 & 0x80 != 0,
        len_code: b1 & 0x7f,
    };
    if start.masked == client {
        Err(FrameError::InvalidMasking)
    } else {
        Ok(start)
    }
}

/// How many bytes of extended length follow the first two.
pub open spec fn ext_size(len_code: u8) -> nat {
    if len_code == 126 {
        2
    } else if len_code == 127 {
        8
    } else {
        0
    }
}

/// How many bytes of extended length follow the first two.
pub fn ext_len_size(len_code: u8) -> (n: usize)
    ensures
        n == ext_size(len_code),
{
    if len_code == 126 {
        2
    } else if len_code == 127 {
        8
    } else {
        0
    }
}

/// The number that bytes spell in big-endian order.
pub open spec fn be_value(s: Seq<u8>) -> nat
    decreases s.len(),
{
    if s.len() == 0 {
        0
    } else {
        be_value(s.drop_last()) * 256 + s.last() as nat
    }
}

/// `256` to the power `n`.
pub open spec fn pow256(n: nat) -> nat
    decreases n,
{
    if n == 0 {
        1
    } else {
        256 * pow256((n - 1) as nat)
    }
}

/// The `n` big-endian bytes of `v`.
pub open spec fn be_bytes(v: nat, n: nat) -> Seq<u8>
    decreases n,
{
    if n == 0 {
        Seq::empty()
    } else {
        be_bytes(v / 256, (n - 1) as nat).push((v % 256) as u8)
    }
}

/// The big-endian spelling of a number in `n` bytes has `n` bytes.
pub proof fn lemma_be_bytes_len(v: nat, n: nat)
    ensures
        be_bytes(v, n).len() == n,
    decreases n,
{
    if n > 0 {
        lemma_be_bytes_len(v / 256, (n - 1) as nat);
    }
}

/// The number that `k` bytes spell is below `256^k`.
pub proof fn lemma_be_value_bound(s: Seq<u8>)
    ensures
        be_value(s) < pow256(s.len()),
    decreases s.len(),
{
    if s.len() > 0 {
        lemma_be_value_bound(s.drop_last());
        assert(be_value(s) < pow256(s.len())) by (nonlinear_arith)
            requires
                be_value(s) == be_value(s.drop_last()) * 256 + s.last(),
                be_value(s.drop_last()) < pow256(s.drop_last().len()),
                pow256(s.len()) == 256 * pow256(s.drop_last().len()),
                s.last() < 256,
        ;
    }
}

/// Big-endian bytes read back give the number they were made from.
pub proof fn lemma_be_roundtrip(v: nat, n: nat)
    requires
        v < pow256(n),
    ensures
        be_bytes(v, n).len() == n,
        be_value(be_bytes(v, n)) == v,
    decreases n,
{
    if n > 0 {
        assert(v / 256 < pow256((n - 1) as nat)) by (nonlinear_arith)
            requires
                v < pow256(n),
                pow256(n) == 256 * pow256((n - 1) as nat),
        ;
        lemma_be_roundtrip(v / 256, (n - 1) as nat);
        let s = be_bytes(v, n);
        assert(s.drop_last() =~= be_bytes(v / 256, (n - 1) as nat));
        assert(v == (v / 256) * 256 + v % 256) by (nonlinear_arith);
    }
}

/// The number that up to eight bytes spell in big-endian order.
pub fn payload_len(ext: &[u8]) -> (len: u64)
    requires
        ext@.len() <= 8,
    ensures
        len == be_value(ext@),
{
    let mut v: u64 = 0;
    let mut i: usize = 0;
    while i < ext.len()
        invariant
            i <= ext@.len() <= 8,
            v == be_value(ext@.take(i as int)),
        decreases ext@.len() - i,
    {
        proof {
            lemma_be_value_bound(ext@.take(i as int));
            assert(pow256(i as nat) <= pow256(7)) by {
                lemma_pow256_mono(i as nat, 7);
            }
            lemma_pow256_values();
            assert(ext@.take(i + 1).drop_last() =~= ext@.take(i as int));
        }
        v = v * 256 + ext[i] as u64;
        i += 1;
    }
    assert(ext@.take(i as int) =~= ext@);
    v
}

/// The powers of 256 that frame lengths use.
pub proof fn lemma_pow256_values()
    ensures
        pow256(1) == 256,
        pow256(2) == 65536,
        pow256(7) == 72057594037927936,
        pow256(8) == 18446744073709551616,
{
    assert(pow256(0) == 1);
    assert(pow256(1) == 256);
    assert(pow256(2) == 65536);
    assert(pow256(3) == 16777216);
    assert(pow256(4) == 4294967296);
    assert(pow256(5) == 1099511627776);
    assert(pow256(6) == 281474976710656);
    assert(pow256(7) == 72057594037927936);
    assert(pow256(8) == 18446744073709551616);
}

/// Powers of 256 grow with the exponent.
pub proof fn lemma_pow256_mono(a: nat, b: nat)
    requires
        a <= b,
    ensures
        pow256(a) <= pow256(b),
    decreases b,
{
    if a < b {
        lemma_pow256_mono(a, (b - 1) as nat);
    }
}

/// Whether a frame's size is acceptable: at most `MAX_FRAME`, and a control
/// frame (opcode 8 and above) final and at most 125 bytes long.
pub open spec fn size_ok(fin: bool, opcode: u8, len: nat) -> bool {
    len <= MAX_FRAME && !(opcode >= 8 && (!fin || len > 125))
}

/// Checks a frame's size and gives it as a `usize`.
pub fn check_frame(fin: bool, opcode: u8, len: u64) -> (r: Result<usize, FrameError>)
    ensures
        r == (if size_ok(fin, opcode, len as nat) {
            Ok(len as usize)
        } else {
            Err(FrameError::InvalidSize)
        }),
{
    if len > MAX_FRAME as u64 || (opcode >= 8 && (!fin || len > 125)) {
        Err(FrameError::InvalidSize)
    } else {
        Ok(len as usize)
    }
}

/// `payload` with each byte combined by exclusive or with the key byte at its
/// position modulo four.
pub open spec fn xor_mask(payload: Seq<u8>, key: Seq<u8>) -> Seq<u8> {
    Seq::new(payload.len(), |i: int| payload[i] ^ key[i % 4])
}

/// Masking twice with one key gives the payload back.
pub proof fn lemma_mask_involution(payload: Seq<u8>, key: Seq<u8>)
    ensures
        xor_mask(xor_mask(payload, key), key) == payload,
{
    let once = xor_mask(payload, key);
    let twice = xor_mask(once, key);
    assert forall|i: int| 0 <= i < payload.len() implies twice[i] == payload[i] by {
        let a = payload[i];
        let k = key[i % 4];
        assert((a ^ k) ^ k == a) by (bit_vector);
    }
    assert(twice =~= payload);
}

/// Masks (or unmasks) `payload` in place with `key`.
pub fn apply_mask(payload: &mut Vec<u8>, key: [u8; 4])
    ensures
        final(payload)@ == xor_mask(old(payload)@, key@),
{
    let n = payload.len();
    let mut i: usize = 0;
    while i < n
        invariant
            n == payload@.len() == old(payload)@.len(),
            i <= n,
            forall|j: int| 0 <= j < i ==> payload@[j] == old(payload)@[j] ^ key@[j % 4],
            forall|j: int| i <= j < n ==> payload@[j] == old(payload)@[j],
        decreases n - i,
    {
        let b = payload[i] ^ key[i % 4];
        payload.set(i, b);
        i += 1;
    }
    assert(payload@ =~= xor_mask(old(payload)@, key@));
}

/// The bytes of a final frame: opcode, length field (with the mask bit when a
/// key is given), extended length, key, and payload, masked by the key.
pub open spec fn frame_bytes(opcode: u8, payload: Seq<u8>, mask: Option<Seq<u8>>) -> Seq<u8> {
    let len = payload.len();
    let bit: u8 = if mask is Some {
        0x80
    } else {
        0
    };
    let len_part = if len < 126 {
        seq![(len as u8) | bit]
    } else if len <= 65535 {
        seq![126u8 | bit] + be_bytes(len, 2)
    } else {
        seq![127u8 | bit] + be_bytes(len, 8)
    };
    let body = match mask {
        Some(key) => key + xor_mask(payload, key),
        None => payload,
    };
    seq![0x80u8 | opcode] + len_part + body
}

/// Appends the `n` big-endian bytes of `v`.
pub fn push_be(out: &mut Vec<u8>, v: u64, n: usize)
    requires
        n <= 8,
    ensures
        final(out)@ == old(out)@ + be_bytes(v as nat, n as nat),
    decreases n,
{
    if n > 0 {
        push_be(out, v / 256, n - 1);
        out.push((v % 256) as u8);
        assert(final(out)@ =~= old(out)@ + be_bytes(v as nat, n as nat));
    }
}

/// Builds a final frame. A client gives a key and its payload goes masked.
pub fn encode_frame(opcode: u8, payload: &[u8], mask: Option<[u8; 4]>) -> (out: Vec<u8>)
    requires
        payload@.len() < pow256(8),
    ensures
        out@ == frame_bytes(
            opcode,
            payload@,
            match mask {
                Some(k) => Some(k@),
                None => None,
            },
        ),
{
    let len = payload.len();
    let bit: u8 = if mask.is_some() {
        0x80
    } else {
        0
    };
    let mut out: Vec<u8> = Vec::new();
    out.push(0x80u8 | opcode);
    if len < 126 {
        out.push((len as u8) | bit);
    } else if len <= 65535 {
        out.push(126u8 | bit);
        push_be(&mut out, len as u64, 2);
    } else {
        out.push(127u8 | bit);
        push_be(&mut out, len as u64, 8);
    }
    let ghost head = out@;
    let mut body: Vec<u8> = vstd::slice::slice_to_vec(payload);
    match mask {
        Some(key) => {
            apply_mask(&mut body, key);
            let mut i: usize = 0;
            while i < 4
                invariant
                    i <= 4,
                    out@ == head + key@.take(i as int),
                decreases 4 - i,
            {
                out.push(key[i]);
                i += 1;
                assert(out@ =~= head + key@.take(i as int));
            }
            assert(key@.take(4) =~= key@);
        },
        None => {},
    }
    let ghost mid = out@;
    let mut j: usize = 0;
    while j < body.len()
        invariant
            j <= body@.len(),
            out@ == mid + body@.take(j as int),
        decreases body@.len() - j,
    {
        out.push(body[j]);
        j += 1;
        assert(out@ =~= mid + body@.take(j as int));
    }
    assert(body@.take(j as int) =~= body@);
    let ghost m = match mask {
        Some(k) => Some(k@),
        None => None,
    };
    assert(out@ =~= frame_bytes(opcode, payload@, m));
    out
}


/// What the bytes at the start of a stream make of a frame.
pub enum Decoded {
    /// The bytes end before the frame does.
    NeedMore,
    /// The frame is refused.
    Invalid(FrameError),
    /// A whole frame, which takes up the first `used` bytes.
    Complete { fin: bool, opcode: u8, payload: Seq<u8>, used: nat },
}

/// How the bytes at the start of a stream decode as one frame, read by a
/// client (which refuses masked frames) or a server (which refuses unmasked
/// ones). The checks come in the order in which the bytes arrive: masking,
/// then the extended length, then the size, then the key and the payload.
pub open spec fn decode_spec(buf: Seq<u8>, client: bool) -> Decoded {
    if buf.len() < 2 {
        Decoded::NeedMore
    } else {
        let st = start_of(buf[0], buf[1]);
        let e = ext_size(st.len_code);
        if st.masked == client {
            Decoded::Invalid(FrameError::InvalidMasking)
        } else if buf.len() < 2 + e {
            Decoded::NeedMore
        } else {
            let len = if e == 0 {
                st.len_code as nat
            } else {
                be_value(buf.subrange(2, 2 + e as int))
            };
            if !size_ok(st.fin, st.opcode, len) {
                Decoded::Invalid(FrameError::InvalidSize)
            } else {
                let k: nat = if st.masked {
                    4
                } else {
                    0
                };
                let p = 2 + e + k;
                if buf.len() < p + len {
                    Decoded::NeedMore
                } else {
                    let raw = buf.subrange(p as int, (p + len) as int);
                    Decoded::Complete {
                        fin: st.fin,
                        opcode: st.opcode,
                        payload: if st.masked {
                            xor_mask(raw, buf.subrange(2 + e as int, 2 + e as int + 4))
                        } else {
                            raw
                        },
                        used: p + len,
                    }
                }
            }
        }
    }
}

/// One frame as read from the wire.
pub struct Frame {
    pub fin: bool,
    pub opcode: u8,
    pub payload: Vec<u8>,
}

/// What a buffer holds of a frame.
pub enum FrameRead {
    NeedMore,
    Invalid(FrameError),
    /// The frame and how many bytes of the buffer it takes up.
    Complete(Frame, usize),
}

/// Decodes the frame at the start of `buf`.
pub fn decode_frame(buf: &[u8], client: bool) -> (r: FrameRead)
    ensures
        match (r, decode_spec(buf@, client)) {
            (FrameRead::NeedMore, Decoded::NeedMore) => true,
            (FrameRead::Invalid(e1), Decoded::Invalid(e2)) => e1 == e2,
            (FrameRead::Complete(f, n), Decoded::Complete { fin, opcode, payload, used }) => {
                &&& f.fin == fin
                &&& f.opcode == opcode
                &&& f.payload@ == payload
                &&& n as nat == used
            },
            _ => false,
        },
{
    let bl = buf.len();
    if bl < 2 {
        return FrameRead::NeedMore;
    }
    let st = match parse_frame_start(buf[0], buf[1], client) {
        Ok(st) => st,
        Err(e) => return FrameRead::Invalid(e),
    };
    let e = ext_len_size(st.len_code);
    if bl < 2 + e {
        return FrameRead::NeedMore;
    }
    let len64: u64 = if e == 0 {
        st.len_code as u64
    } else {
        let ext = vstd::slice::slice_subrange(buf, 2, 2 + e);
        payload_len(ext)
    };
    let len = match check_frame(st.fin, st.opcode, len64) {
        Ok(n) => n,
        Err(err) => return FrameRead::Invalid(err),
    };
    let k: usize = if st.masked {
        4
    } else {
        0
    };
    let p = 2 + e + k;
    if bl < p || bl - p < len {
        return FrameRead::NeedMore;
    }
    let raw = vstd::slice::slice_subrange(buf, p, p + len);
    let mut payload = vstd::slice::slice_to_vec(raw);
    if st.masked {
        let key = [buf[2 + e], buf[3 + e], buf[4 + e], buf[5 + e]];
        assert(key@ =~= buf@.subrange(2 + e, 2 + e + 4));
        apply_mask(&mut payload, key);
    }
    FrameRead::Complete(Frame { fin: st.fin, opcode: st.opcode, payload }, p + len)
}

/// A frame that was built reads back, whatever follows it on the stream:
/// final, with its opcode and its payload, and taking up exactly its own bytes.
/// A frame built with a key is read by a server, one built without by a client.
pub proof fn lemma_frame_roundtrip(opcode: u8, payload: Seq<u8>, mask: Option<Seq<u8>>, rest: Seq<u8>)
    requires
        opcode < 16,
        mask matches Some(k) ==> k.len() == 4,
        size_ok(true, opcode, payload.len()),
    ensures
        decode_spec(frame_bytes(opcode, payload, mask) + rest, mask is None) == (Decoded::Complete {
            fin: true,
            opcode,
            payload,
            used: frame_bytes(opcode, payload, mask).len(),
        }),
{
    let bytes = frame_bytes(opcode, payload, mask);
    let buf = bytes + rest;
    let len = payload.len();
    let masked = mask is Some;
    let bit: u8 = if masked {
        0x80
    } else {
        0
    };
    let b0: u8 = 0x80u8 | opcode;
    assert(b0 & 0x80 != 0 && b0 & 0x0f == opcode) by (bit_vector)
        requires
            b0 == 0x80u8 | opcode,
            opcode < 16,
    ;
    lemma_pow256_values();
    let e: int = if len < 126 {
        0
    } else if len <= 65535 {
        2
    } else {
        8
    };
    let b1: u8 = if len < 126 {
        (len as u8) | bit
    } else if len <= 65535 {
        126u8 | bit
    } else {
        127u8 | bit
    };
    let code: u8 = if len < 126 {
        len as u8
    } else if len <= 65535 {
        126
    } else {
        127
    };
    assert(b1 & 0x80 != 0 <==> masked) by {
        assert(bit == 0x80 || bit == 0);
        assert(code < 128);
        assert(b1 == code | bit);
        assert(code < 128 && (bit == 0x80u8 || bit == 0u8) ==> (((code | bit) & 0x80 != 0) <==> bit == 0x80u8)
            && (code | bit) & 0x7f == code) by (bit_vector);
    }
    assert(b1 & 0x7f == code) by {
        assert(code < 128 && (bit == 0x80u8 || bit == 0u8) ==> (code | bit) & 0x7f == code) by (bit_vector);
    }
    let len_part = if len < 126 {
        seq![b1]
    } else if len <= 65535 {
        seq![b1] + be_bytes(len, 2)
    } else {
        seq![b1] + be_bytes(len, 8)
    };
    let body = match mask {
        Some(key) => key + xor_mask(payload, key),
        None => payload,
    };
    assert(bytes == seq![b0] + len_part + body);
    if e > 0 {
        lemma_be_roundtrip(len, e as nat);
        assert(buf.subrange(2, 2 + e) =~= be_bytes(len, e as nat));
    }
    assert(len_part.len() == 1 + e);
    assert(buf[0] == b0);
    assert(buf[1] == b1);
    let k: int = if masked {
        4
    } else {
        0
    };
    let p = 2 + e + k;
    assert(bytes.len() == p + len);
    match mask {
        Some(key) => {
            assert(buf.subrange(2 + e, 2 + e + 4) =~= key);
            assert(buf.subrange(p, p + len) =~= xor_mask(payload, key));
            lemma_mask_involution(payload, key);
        },
        None => {
            assert(buf.subrange(p, p + len) =~= payload);
        },
    }
}

/// The two bytes of a 16-bit big-endian length.
proof fn lemma_be_two(n: nat)
    requires
        n <= 65535,
    ensures
        be_bytes(n, 2) == seq![(n / 256) as u8, (n % 256) as u8],
{
    assert(n / 256 < 256);
    assert((n / 256) % 256 == n / 256);
    assert((n / 256) / 256 == 0);
    assert(be_bytes(n, 2) =~= seq![(n / 256) as u8, (n % 256) as u8]) by {
        reveal_with_fuel(be_bytes, 3);
    }
}

/// The layout of RFC 6455 (section 5.2) for a payload of 126 to 65535
/// bytes: the first byte, `126` with the mask bit, the length in two
/// big-endian bytes, then the key (when masked), then the (masked) payload.
pub proof fn lemma_frame_layout_16(opcode: u8, payload: Seq<u8>, mask: Option<Seq<u8>>)
    requires
        126 <= payload.len() <= 65535,
        mask matches Some(k) ==> k.len() == 4,
    ensures
        ({
            let b = frame_bytes(opcode, payload, mask);
            let n = payload.len();
            &&& b[0] == 0x80u8 | opcode
            &&& b[1] == (if mask is Some { 0xFEu8 } else { 0x7Eu8 })
            &&& b[2] == (n / 256) as u8
            &&& b[3] == (n % 256) as u8
            &&& match mask {
                Some(k) => b.len() == 8 + n && b.subrange(4, 8) == k && b.subrange(8, b.len() as int) == xor_mask(
                    payload,
                    k,
                ),
                None => b.len() == 4 + n && b.subrange(4, b.len() as int) == payload,
            }
        }),
{
    let n = payload.len();
    lemma_be_two(n);
    assert(126u8 | 0x80u8 == 0xFEu8) by (bit_vector);
    assert(126u8 | 0u8 == 0x7Eu8) by (bit_vector);
    let b = frame_bytes(opcode, payload, mask);
    match mask {
        Some(k) => {
            assert(b =~= seq![0x80u8 | opcode, 0xFEu8, (n / 256) as u8, (n % 256) as u8] + k + xor_mask(payload, k));
            assert(b.subrange(4, 8) =~= k);
            assert(b.subrange(8, b.len() as int) =~= xor_mask(payload, k));
        },
        None => {
            assert(b =~= seq![0x80u8 | opcode, 0x7Eu8, (n / 256) as u8, (n % 256) as u8] + payload);
            assert(b.subrange(4, b.len() as int) =~= payload);
        },
    }
}

/// The layout of RFC 6455 (section 5.2) for a payload under 126 bytes: the
/// first byte, the length with the mask bit, then the key (when masked), then
/// the (masked) payload.
pub proof fn lemma_frame_layout_small(opcode: u8, payload: Seq<u8>, mask: Option<Seq<u8>>)
    requires
        payload.len() < 126,
        mask matches Some(k) ==> k.len() == 4,
    ensures
        ({
            let b = frame_bytes(opcode, payload, mask);
            let n = payload.len();
            &&& b[0] == 0x80u8 | opcode
            &&& b[1] as nat == (if mask is Some { n + 128 } else { n })
            &&& match mask {
                Some(k) => b.len() == 6 + n && b.subrange(2, 6) == k && b.subrange(6, b.len() as int) == xor_mask(
                    payload,
                    k,
                ),
                None => b.len() == 2 + n && b.subrange(2, b.len() as int) == payload,
            }
        }),
{
    let n = payload.len();
    let c = n as u8;
    assert(c < 126u8 ==> (c | 0x80u8) as int == c as int + 128 && (c | 0u8) == c) by (bit_vector);
    let b = frame_bytes(opcode, payload, mask);
    match mask {
        Some(k) => {
            assert(b =~= seq![0x80u8 | opcode, c | 0x80u8] + k + xor_mask(payload, k));
            assert(b.subrange(2, 6) =~= k);
            assert(b.subrange(6, b.len() as int) =~= xor_mask(payload, k));
        },
        None => {
            assert(b =~= seq![0x80u8 | opcode, c | 0u8] + payload);
            assert(b.subrange(2, b.len() as int) =~= payload);
        },
    }
}

/// The layout of RFC 6455 (section 5.2) for a payload over 65535 bytes: the
/// first byte, `127` with the mask bit, the length in eight big-endian bytes,
/// then the key (when masked), then the (masked) payload.
pub proof fn lemma_frame_layout_64(opcode: u8, payload: Seq<u8>, mask: Option<Seq<u8>>)
    requires
        65535 < payload.len() < pow256(8),
        mask matches Some(k) ==> k.len() == 4,
    ensures
        ({
            let b = frame_bytes(opcode, payload, mask);
            let n = payload.len();
            &&& b[0] == 0x80u8 | opcode
            &&& b[1] == (if mask is Some { 0xFFu8 } else { 0x7Fu8 })
            &&& be_value(b.subrange(2, 10)) == n
            &&& match mask {
                Some(k) => b.len() == 14 + n && b.subrange(10, 14) == k && b.subrange(14, b.len() as int)
                    == xor_mask(payload, k),
                None => b.len() == 10 + n && b.subrange(10, b.len() as int) == payload,
            }
        }),
{
    let n = payload.len();
    lemma_be_roundtrip(n, 8);
    assert(127u8 | 0x80u8 == 0xFFu8) by (bit_vector);
    assert(127u8 | 0u8 == 0x7Fu8) by (bit_vector);
    let b = frame_bytes(opcode, payload, mask);
    let ext = be_bytes(n, 8);
    match mask {
        Some(k) => {
            assert(b =~= seq![0x80u8 | opcode, 0xFFu8] + ext + k + xor_mask(payload, k));
            assert(b.subrange(2, 10) =~= ext);
            assert(b.subrange(10, 14) =~= k);
            assert(b.subrange(14, b.len() as int) =~= xor_mask(payload, k));
        },
        None => {
            assert(b =~= seq![0x80u8 | opcode, 0x7Fu8] + ext + payload);
            assert(b.subrange(2, 10) =~= ext);
            assert(b.subrange(10, b.len() as int) =~= payload);
        },
    }
}

/// A server reads a masked frame laid out as RFC 6455 says, with a 16-bit
/// length (the length, then the key, then the masked payload), as the
/// payload, whatever follows it.
pub proof fn lemma_server_reads_16(opcode: u8, payload: Seq<u8>, key: Seq<u8>, rest: Seq<u8>)
    requires
        opcode < 8,
        126 <= payload.len() <= 65535,
        key.len() == 4,
    ensures
        decode_spec(
            seq![0x80u8 | opcode, 0xFEu8, (payload.len() / 256) as u8, (payload.len() % 256) as u8] + key
                + xor_mask(payload, key) + rest,
            false,
        ) == (Decoded::Complete { fin: true, opcode, payload, used: 8 + payload.len() }),
{
    let n = payload.len();
    lemma_frame_layout_16(opcode, payload, Some(key));
    let b = frame_bytes(opcode, payload, Some(key));
    let head = seq![0x80u8 | opcode, 0xFEu8, (n / 256) as u8, (n % 256) as u8];
    assert(b.subrange(0, 4) =~= head);
    assert(b =~= b.subrange(0, 4) + b.subrange(4, 8) + b.subrange(8, b.len() as int));
    assert(head + key + xor_mask(payload, key) == b);
    lemma_frame_roundtrip(opcode, payload, Some(key), rest);
}

/// A client reads an unmasked frame laid out as RFC 6455 says, with a 16-bit
/// length, as the payload, whatever follows it.
pub proof fn lemma_client_reads_16(opcode: u8, payload: Seq<u8>, rest: Seq<u8>)
    requires
        opcode < 8,
        126 <= payload.len() <= 65535,
    ensures
        decode_spec(
            seq![0x80u8 | opcode, 0x7Eu8, (payload.len() / 256) as u8, (payload.len() % 256) as u8] + payload + rest,
            true,
        ) == (Decoded::Complete { fin: true, opcode, payload, used: 4 + payload.len() }),
{
    let n = payload.len();
    lemma_frame_layout_16(opcode, payload, None);
    let b = frame_bytes(opcode, payload, None);
    let head = seq![0x80u8 | opcode, 0x7Eu8, (n / 256) as u8, (n % 256) as u8];
    assert(b.subrange(0, 4) =~= head);
    assert(b =~= b.subrange(0, 4) + b.subrange(4, b.len() as int));
    assert(head + payload == b);
    lemma_frame_roundtrip(opcode, payload, None, rest);
}

/// A server reads a masked frame laid out as RFC 6455 says, with a length
/// under 126 (the length, then the key, then the masked payload), as the
/// payload, whatever follows it.
pub proof fn lemma_server_reads_small(opcode: u8, payload: Seq<u8>, key: Seq<u8>, rest: Seq<u8>)
    requires
        opcode < 16,
        payload.len() < 126,
        key.len() == 4,
    ensures
        decode_spec(
            seq![0x80u8 | opcode, (payload.len() + 128) as u8] + key + xor_mask(payload, key) + rest,
            false,
        ) == (Decoded::Complete { fin: true, opcode, payload, used: 6 + payload.len() }),
{
    lemma_frame_layout_small(opcode, payload, Some(key));
    let b = frame_bytes(opcode, payload, Some(key));
    let head = seq![0x80u8 | opcode, (payload.len() + 128) as u8];
    assert(b.subrange(0, 2) =~= head);
    assert(b =~= b.subrange(0, 2) + b.subrange(2, 6) + b.subrange(6, b.len() as int));
    assert(head + key + xor_mask(payload, key) == b);
    lemma_frame_roundtrip(opcode, payload, Some(key), rest);
}

} // verus!
