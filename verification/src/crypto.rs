//! Encodings and digests that the handshake and the updater use: base64,
//! hexadecimal, a comparison that takes the same time whatever the bytes, and
//! SHA-1.
use vstd::prelude::*;
use crate::frame::{be_bytes, pow256, push_be};
use crate::json::hex_lower;

verus! {

/// The base64 digit for a 6-bit value.
pub open spec fn b64_digit(v: nat) -> char {
    if v < 26 {
        (v + 65) as char
    } else if v < 52 {
        (v - 26 + 97) as char
    } else if v < 62 {
        (v - 52 + 48) as char
    } else if v == 62 {
        '+'
    } else {
        '/'
    }
}

/// Standard base64 (RFC 4648) with `=` padding.
pub open spec fn base64_spec(data: Seq<u8>) -> Seq<char>
    decreases data.len(),
{
    if data.len() == 0 {
        Seq::empty()
    } else if data.len() == 1 {
        let b0 = data[0] as nat;
        seq![b64_digit(b0 / 4), b64_digit((b0 % 4) * 16), '=', '=']
    } else if data.len() == 2 {
        let b0 = data[0] as nat;
        let b1 = data[1] as nat;
        seq![b64_digit(b0 / 4), b64_digit((b0 % 4) * 16 + b1 / 16), b64_digit((b1 % 16) * 4), '=']
    } else {
        let b0 = data[0] as nat;
        let b1 = data[1] as nat;
        let b2 = data[2] as nat;
        seq![
            b64_digit(b0 / 4),
            b64_digit((b0 % 4) * 16 + b1 / 16),
            b64_digit((b1 % 16) * 4 + b2 / 64),
            b64_digit(b2 % 64),
        ] + base64_spec(data.skip(3))
    }
}

fn b64_digit_exec(v: u32) -> (c: char)
    requires
        v < 64,
    ensures
        c == b64_digit(v as nat),
{
    if v < 26 {
        (65u8 + v as u8) as char
    } else if v < 52 {
        (97u8 + (v - 26) as u8) as char
    } else if v < 62 {
        (48u8 + (v - 52) as u8) as char
    } else if v == 62 {
        '+'
    } else {
        '/'
    }
}

/// Encodes bytes in standard base64 with padding.
pub fn base64(data: &[u8]) -> (out: Vec<char>)
    ensures
        out@ == base64_spec(data@),
{
    let mut out: Vec<char> = Vec::new();
    let mut i: usize = 0;
    let n = data.len();
    assert(data@.skip(0) =~= data@);
    while i < n
        invariant
            n == data@.len(),
            i <= n,
            base64_spec(data@) == out@ + base64_spec(data@.skip(i as int)),
        decreases n - i,
    {
        let rest = Ghost(data@.skip(i as int));
        let b0 = data[i] as u32;
        if n - i == 1 {
            out.push(b64_digit_exec(b0 / 4));
            out.push(b64_digit_exec((b0 % 4) * 16));
            out.push('=');
            out.push('=');
            i = n;
            assert(data@.skip(i as int) =~= Seq::<u8>::empty());
        } else if n - i == 2 {
            let b1 = data[i + 1] as u32;
            out.push(b64_digit_exec(b0 / 4));
            out.push(b64_digit_exec((b0 % 4) * 16 + b1 / 16));
            out.push(b64_digit_exec((b1 % 16) * 4));
            out.push('=');
            i = n;
            assert(data@.skip(i as int) =~= Seq::<u8>::empty());
        } else {
            let b1 = data[i + 1] as u32;
            let b2 = data[i + 2] as u32;
            out.push(b64_digit_exec(b0 / 4));
            out.push(b64_digit_exec((b0 % 4) * 16 + b1 / 16));
            out.push(b64_digit_exec((b1 % 16) * 4 + b2 / 64));
            out.push(b64_digit_exec(b2 % 64));
            assert(rest@.skip(3) =~= data@.skip(i + 3));
            i += 3;
        }
    }
    assert(data@.skip(i as int) =~= Seq::<u8>::empty());
    out
}


/// Compares two byte strings, looking at every byte of both whenever their
/// lengths agree, so that the time taken does not tell where they differ.
pub fn ct_eq(a: &[u8], b: &[u8]) -> (r: bool)
    ensures
        r == (a@ == b@),
{
    if a.len() != b.len() {
        return false;
    }
    let mut acc: u8 = 0;
    let mut i: usize = 0;
    while i < a.len()
        invariant
            a@.len() == b@.len(),
            i <= a@.len(),
            (acc == 0) <==> (forall|j: int| 0 <= j < i ==> a@[j] == b@[j]),
        decreases a@.len() - i,
    {
        let x = a[i];
        let y = b[i];
        let next = acc | (x ^ y);
        assert((next == 0) <==> (acc == 0 && x == y)) by (bit_vector)
            requires
                next == acc | (x ^ y),
        ;
        acc = next;
        i += 1;
    }
    if acc == 0 {
        assert(a@ =~= b@);
        true
    } else {
        false
    }
}

/// Lower-case hexadecimal, two digits per byte.
pub open spec fn hex_spec(data: Seq<u8>) -> Seq<char>
    decreases data.len(),
{
    if data.len() == 0 {
        Seq::empty()
    } else {
        hex_spec(data.drop_last()) + seq![
            hex_lower((data.last() / 16) as nat),
            hex_lower((data.last() % 16) as nat),
        ]
    }
}

fn hex_digit(d: u8) -> (c: char)
    requires
        d < 16,
    ensures
        c == hex_lower(d as nat),
{
    if d < 10 {
        (48u8 + d) as char
    } else {
        (87u8 + d) as char
    }
}

/// Writes bytes as lower-case hexadecimal.
pub fn hex(data: &[u8]) -> (out: Vec<char>)
    ensures
        out@ == hex_spec(data@),
{
    let mut out: Vec<char> = Vec::new();
    let mut i: usize = 0;
    while i < data.len()
        invariant
            i <= data@.len(),
            out@ == hex_spec(data@.take(i as int)),
        decreases data@.len() - i,
    {
        let b = data[i];
        out.push(hex_digit(b / 16));
        out.push(hex_digit(b % 16));
        assert(data@.take(i + 1).drop_last() =~= data@.take(i as int));
        i += 1;
        assert(out@ =~= hex_spec(data@.take(i as int)));
    }
    assert(data@.take(i as int) =~= data@);
    out
}

/// The five words of a SHA-1 state.
pub type Sha1State = (u32, u32, u32, u32, u32);

/// The initial SHA-1 state (FIPS 180-4, 5.3.1).
pub open spec fn sha1_init() -> Sha1State {
    (0x67452301u32, 0xEFCDAB89u32, 0x98BADCFEu32, 0x10325476u32, 0xC3D2E1F0u32)
}

/// Left rotation of a word.
pub open spec fn rotl(x: u32, n: u32) -> u32 {
    (x << n) | (x >> (32 - n) as u32)
}

/// The big-endian word at byte `i` of a block.
pub open spec fn word_at(block: Seq<u8>, i: int) -> u32 {
    ((block[i] as u32) << 24u32) | ((block[i + 1] as u32) << 16u32) | ((block[i + 2] as u32) << 8u32)
        | (block[i + 3] as u32)
}

/// The message schedule of a block (FIPS 180-4, 6.1.2 step 1).
pub open spec fn schedule(block: Seq<u8>, t: nat) -> u32
    decreases t,
{
    if t < 16 {
        word_at(block, 4 * t as int)
    } else {
        rotl(
            schedule(block, (t - 3) as nat) ^ schedule(block, (t - 8) as nat) ^ schedule(block, (t - 14) as nat)
                ^ schedule(block, (t - 16) as nat),
            1,
        )
    }
}

/// The round function of round `t`.
pub open spec fn round_fn(t: nat, b: u32, c: u32, d: u32) -> u32 {
    if t < 20 {
        (b & c) | (!b & d)
    } else if t < 40 {
        b ^ c ^ d
    } else if t < 60 {
        (b & c) | (b & d) | (c & d)
    } else {
        b ^ c ^ d
    }
}

/// The round constant of round `t`.
pub open spec fn round_const(t: nat) -> u32 {
    if t < 20 {
        0x5A827999u32
    } else if t < 40 {
        0x6ED9EBA1u32
    } else if t < 60 {
        0x8F1BBCDCu32
    } else {
        0xCA62C1D6u32
    }
}

/// The working variables after the first `t` rounds on a block.
pub open spec fn rounds(block: Seq<u8>, s: Sha1State, t: nat) -> Sha1State
    decreases t,
{
    if t == 0 {
        s
    } else {
        let p = rounds(block, s, (t - 1) as nat);
        let tmp = rotl(p.0, 5).wrapping_add(round_fn((t - 1) as nat, p.1, p.2, p.3)).wrapping_add(p.4).wrapping_add(
            round_const((t - 1) as nat),
        ).wrapping_add(schedule(block, (t - 1) as nat));
        (tmp, p.0, rotl(p.1, 30), p.2, p.3)
    }
}

/// The state after one 64-byte block.
pub open spec fn compress(h: Sha1State, block: Seq<u8>) -> Sha1State {
    let r = rounds(block, h, 80);
    (h.0.wrapping_add(r.0), h.1.wrapping_add(r.1), h.2.wrapping_add(r.2), h.3.wrapping_add(r.3), h.4.wrapping_add(r.4))
}

/// The state after the whole 64-byte blocks of `data`.
pub open spec fn sha1_blocks(h: Sha1State, data: Seq<u8>) -> Sha1State
    decreases data.len(),
{
    if data.len() < 64 {
        h
    } else {
        sha1_blocks(compress(h, data.take(64)), data.skip(64))
    }
}

/// Number of zero bytes after the `0x80` that pads a message of `len` bytes.
pub open spec fn pad_zeros(len: nat) -> nat {
    ((119 - (len % 64) as int) % 64) as nat
}

/// A message padded to whole blocks: `0x80`, zeros, and the length in bits as
/// a 64-bit big-endian number (modulo 2^64, the most that the field holds).
pub open spec fn sha1_padded(msg: Seq<u8>) -> Seq<u8> {
    msg + seq![0x80u8] + Seq::new(pad_zeros(msg.len()), |i: int| 0u8) + be_bytes((msg.len() * 8) % pow256(8), 8)
}

/// The digest of a state: its words in big-endian order.
pub open spec fn state_bytes(h: Sha1State) -> Seq<u8> {
    be_bytes(h.0 as nat, 4) + be_bytes(h.1 as nat, 4) + be_bytes(h.2 as nat, 4) + be_bytes(h.3 as nat, 4)
        + be_bytes(h.4 as nat, 4)
}

/// SHA-1 (FIPS 180-4).
pub open spec fn sha1_spec(msg: Seq<u8>) -> Seq<u8> {
    state_bytes(sha1_blocks(sha1_init(), sha1_padded(msg)))
}

fn rotl_exec(x: u32, n: u32) -> (r: u32)
    requires
        0 < n < 32,
    ensures
        r == rotl(x, n),
{
    (x << n) | (x >> (32 - n))
}

fn compress_exec(h: Sha1State, block: &[u8]) -> (r: Sha1State)
    requires
        block@.len() == 64,
    ensures
        r == compress(h, block@),
{
    let mut w: Vec<u32> = Vec::new();
    let mut t: usize = 0;
    while t < 80
        invariant
            block@.len() == 64,
            t <= 80,
            w@.len() == t,
            forall|j: int| 0 <= j < t ==> w@[j] == schedule(block@, j as nat),
        decreases 80 - t,
    {
        let v = if t < 16 {
            ((block[4 * t] as u32) << 24u32) | ((block[4 * t + 1] as u32) << 16u32) | ((block[4 * t + 2] as u32)
                << 8u32) | (block[4 * t + 3] as u32)
        } else {
            rotl_exec(w[t - 3] ^ w[t - 8] ^ w[t - 14] ^ w[t - 16], 1)
        };
        assert(v == schedule(block@, t as nat));
        w.push(v);
        t += 1;
    }
    let mut a = h.0;
    let mut b = h.1;
    let mut c = h.2;
    let mut d = h.3;
    let mut e = h.4;
    let mut t: usize = 0;
    while t < 80
        invariant
            block@.len() == 64,
            t <= 80,
            w@.len() == 80,
            forall|j: int| 0 <= j < 80 ==> w@[j] == schedule(block@, j as nat),
            (a, b, c, d, e) == rounds(block@, h, t as nat),
        decreases 80 - t,
    {
        let f = if t < 20 {
            (b & c) | (!b & d)
        } else if t < 40 {
            b ^ c ^ d
        } else if t < 60 {
            (b & c) | (b & d) | (c & d)
        } else {
            b ^ c ^ d
        };
        let k: u32 = if t < 20 {
            0x5A827999
        } else if t < 40 {
            0x6ED9EBA1
        } else if t < 60 {
            0x8F1BBCDC
        } else {
            0xCA62C1D6
        };
        let tmp = rotl_exec(a, 5).wrapping_add(f).wrapping_add(e).wrapping_add(k).wrapping_add(w[t]);
        e = d;
        d = c;
        c = rotl_exec(b, 30);
        b = a;
        a = tmp;
        t += 1;
    }
    (h.0.wrapping_add(a), h.1.wrapping_add(b), h.2.wrapping_add(c), h.3.wrapping_add(d), h.4.wrapping_add(e))
}

fn push_word(out: &mut Vec<u8>, v: u32)
    ensures
        final(out)@ == old(out)@ + be_bytes(v as nat, 4),
{
    let b0 = (v / 16777216) as u8;
    let b1 = ((v / 65536) % 256) as u8;
    let b2 = ((v / 256) % 256) as u8;
    let b3 = (v % 256) as u8;
    out.push(b0);
    out.push(b1);
    out.push(b2);
    out.push(b3);
    proof {
        let x = v as nat;
        assert(x / 256 / 256 / 256 / 256 == 0) by (nonlinear_arith)
            requires
                x < 4294967296,
        ;
        assert(x / 256 / 256 / 256 == x / 16777216) by (nonlinear_arith);
        assert(x / 256 / 256 == x / 65536) by (nonlinear_arith);
        assert((x / 256 / 256 / 256) % 256 == x / 16777216) by (nonlinear_arith)
            requires
                x < 4294967296,
        ;
        reveal_with_fuel(be_bytes, 5);
        assert(be_bytes(x / 256 / 256 / 256 / 256, 0) =~= Seq::<u8>::empty());
        assert(be_bytes(x, 4) =~= seq![b0, b1, b2, b3]);
        assert(final(out)@ =~= old(out)@ + be_bytes(x, 4));
    }
}

/// `msg` padded to whole 64-byte blocks, as SHA-1 and SHA-256 pad it.
fn pad_message(msg: &[u8]) -> (padded: Vec<u8>)
    ensures
        padded@ == sha1_padded(msg@),
        padded@.len() % 64 == 0,
{
    let mut padded: Vec<u8> = vstd::slice::slice_to_vec(msg);
    padded.push(0x80);
    let n = msg.len();
    let zeros = (119 - (n % 64)) % 64;
    let mut z: usize = 0;
    let ghost base = padded@;
    while z < zeros
        invariant
            z <= zeros,
            padded@ == base + Seq::new(z as nat, |i: int| 0u8),
        decreases zeros - z,
    {
        padded.push(0);
        z += 1;
        assert(padded@ =~= base + Seq::new(z as nat, |i: int| 0u8));
    }
    let ghost with_zeros = padded@;
    proof {
        crate::frame::lemma_pow256_values();
    }
    let bits = (n as u64).wrapping_mul(8);
    assert(bits as nat == (n as nat * 8) % pow256(8));
    push_be(&mut padded, bits, 8);
    assert(padded@ =~= sha1_padded(msg@));
    proof {
        let r = n % 64;
        assert(n == 64 * (n / 64) + r) by (nonlinear_arith)
            requires
                r == n % 64,
        ;
        crate::frame::lemma_be_bytes_len(bits as nat, 8);
        if r <= 55 {
            assert(zeros == 55 - r);
        } else {
            assert(zeros == 119 - r);
        }
        assert(padded@.len() == n + 9 + zeros);
        assert(padded@.len() == 64 * (n / 64) + 64 || padded@.len() == 64 * (n / 64) + 128);
        assert(padded@.len() % 64 == 0) by (nonlinear_arith)
            requires
                padded@.len() == 64 * (n / 64) + 64 || padded@.len() == 64 * (n / 64) + 128,
        ;
    }
    padded
}

/// The SHA-1 digest of `msg`.
pub fn sha1(msg: &[u8]) -> (digest: Vec<u8>)
    ensures
        digest@ == sha1_spec(msg@),
{
    let padded = pad_message(msg);
    let mut h: Sha1State = (0x67452301u32, 0xEFCDAB89u32, 0x98BADCFEu32, 0x10325476u32, 0xC3D2E1F0u32);
    let mut i: usize = 0;
    let total = padded.len();
    proof {
        assert(padded@.skip(0) =~= padded@);
    }
    while i < total
        invariant
            total == padded@.len(),
            total % 64 == 0,
            i % 64 == 0,
            i <= total,
            sha1_blocks(sha1_init(), padded@) == sha1_blocks(h, padded@.skip(i as int)),
        decreases total - i,
    {
        let block = vstd::slice::slice_subrange(padded.as_slice(), i, i + 64);
        assert(padded@.skip(i as int).take(64) =~= block@);
        assert(padded@.skip(i as int).skip(64) =~= padded@.skip(i + 64));
        h = compress_exec(h, block);
        i += 64;
    }
    let mut out: Vec<u8> = Vec::new();
    push_word(&mut out, h.0);
    push_word(&mut out, h.1);
    push_word(&mut out, h.2);
    push_word(&mut out, h.3);
    push_word(&mut out, h.4);
    assert(out@ =~= state_bytes(h));
    out
}


/// The SHA-256 round constants (FIPS 180-4, 4.2.2).
pub const SHA256_K: [u32; 64] = [
    0x428a2f98, 0x71374491, 0xb5c0fbcf, 0xe9b5dba5,
    0x3956c25b, 0x59f111f1, 0x923f82a4, 0xab1c5ed5,
    0xd807aa98, 0x12835b01, 0x243185be, 0x550c7dc3,
    0x72be5d74, 0x80deb1fe, 0x9bdc06a7, 0xc19bf174,
    0xe49b69c1, 0xefbe4786, 0x0fc19dc6, 0x240ca1cc,
    0x2de92c6f, 0x4a7484aa, 0x5cb0a9dc, 0x76f988da,
    0x983e5152, 0xa831c66d, 0xb00327c8, 0xbf597fc7,
    0xc6e00bf3, 0xd5a79147, 0x06ca6351, 0x14292967,
    0x27b70a85, 0x2e1b2138, 0x4d2c6dfc, 0x53380d13,
    0x650a7354, 0x766a0abb, 0x81c2c92e, 0x92722c85,
    0xa2bfe8a1, 0xa81a664b, 0xc24b8b70, 0xc76c51a3,
    0xd192e819, 0xd6990624, 0xf40e3585, 0x106aa070,
    0x19a4c116, 0x1e376c08, 0x2748774c, 0x34b0bcb5,
    0x391c0cb3, 0x4ed8aa4a, 0x5b9cca4f, 0x682e6ff3,
    0x748f82ee, 0x78a5636f, 0x84c87814, 0x8cc70208,
    0x90befffa, 0xa4506ceb, 0xbef9a3f7, 0xc67178f2,
];

/// The eight words of a SHA-256 state.
pub type Sha256State = (u32, u32, u32, u32, u32, u32, u32, u32);

/// The initial SHA-256 state (FIPS 180-4, 5.3.3).
pub open spec fn sha256_init() -> Sha256State {
    (
        0x6a09e667u32,
        0xbb67ae85u32,
        0x3c6ef372u32,
        0xa54ff53au32,
        0x510e527fu32,
        0x9b05688cu32,
        0x1f83d9abu32,
        0x5be0cd19u32,
    )
}

/// Right rotation of a word.
pub open spec fn rotr(x: u32, n: u32) -> u32 {
    (x >> n) | (x << (32 - n) as u32)
}

pub open spec fn small_sigma0(x: u32) -> u32 {
    rotr(x, 7) ^ rotr(x, 18) ^ (x >> 3u32)
}

pub open spec fn small_sigma1(x: u32) -> u32 {
    rotr(x, 17) ^ rotr(x, 19) ^ (x >> 10u32)
}

pub open spec fn big_sigma0(x: u32) -> u32 {
    rotr(x, 2) ^ rotr(x, 13) ^ rotr(x, 22)
}

pub open spec fn big_sigma1(x: u32) -> u32 {
    rotr(x, 6) ^ rotr(x, 11) ^ rotr(x, 25)
}

/// The SHA-256 message schedule of a block (FIPS 180-4, 6.2.2 step 1).
pub open spec fn schedule256(block: Seq<u8>, t: nat) -> u32
    decreases t,
{
    if t < 16 {
        word_at(block, 4 * t as int)
    } else {
        small_sigma1(schedule256(block, (t - 2) as nat)).wrapping_add(schedule256(block, (t - 7) as nat)).wrapping_add(
            small_sigma0(schedule256(block, (t - 15) as nat)),
        ).wrapping_add(schedule256(block, (t - 16) as nat))
    }
}

/// The working variables after the first `t` rounds on a block.
pub open spec fn rounds256(block: Seq<u8>, s: Sha256State, t: nat) -> Sha256State
    decreases t,
{
    if t == 0 {
        s
    } else {
        let p = rounds256(block, s, (t - 1) as nat);
        let ch = (p.4 & p.5) ^ (!p.4 & p.6);
        let maj = (p.0 & p.1) ^ (p.0 & p.2) ^ (p.1 & p.2);
        let t1 = p.7.wrapping_add(big_sigma1(p.4)).wrapping_add(ch).wrapping_add(SHA256_K@[t - 1]).wrapping_add(
            schedule256(block, (t - 1) as nat),
        );
        let t2 = big_sigma0(p.0).wrapping_add(maj);
        (t1.wrapping_add(t2), p.0, p.1, p.2, p.3.wrapping_add(t1), p.4, p.5, p.6)
    }
}

/// The state after one 64-byte block.
pub open spec fn compress256(h: Sha256State, block: Seq<u8>) -> Sha256State {
    let r = rounds256(block, h, 64);
    (
        h.0.wrapping_add(r.0),
        h.1.wrapping_add(r.1),
        h.2.wrapping_add(r.2),
        h.3.wrapping_add(r.3),
        h.4.wrapping_add(r.4),
        h.5.wrapping_add(r.5),
        h.6.wrapping_add(r.6),
        h.7.wrapping_add(r.7),
    )
}

/// The state after the whole 64-byte blocks of `data`.
pub open spec fn sha256_blocks(h: Sha256State, data: Seq<u8>) -> Sha256State
    decreases data.len(),
{
    if data.len() < 64 {
        h
    } else {
        sha256_blocks(compress256(h, data.take(64)), data.skip(64))
    }
}

/// The digest of a SHA-256 state: its words in big-endian order.
pub open spec fn state256_bytes(h: Sha256State) -> Seq<u8> {
    be_bytes(h.0 as nat, 4) + be_bytes(h.1 as nat, 4) + be_bytes(h.2 as nat, 4) + be_bytes(h.3 as nat, 4)
        + be_bytes(h.4 as nat, 4) + be_bytes(h.5 as nat, 4) + be_bytes(h.6 as nat, 4) + be_bytes(h.7 as nat, 4)
}

/// SHA-256 (FIPS 180-4).
pub open spec fn sha256_spec(msg: Seq<u8>) -> Seq<u8> {
    state256_bytes(sha256_blocks(sha256_init(), sha1_padded(msg)))
}

fn rotr_exec(x: u32, n: u32) -> (r: u32)
    requires
        0 < n < 32,
    ensures
        r == rotr(x, n),
{
    (x >> n) | (x << (32 - n))
}

fn compress256_exec(h: Sha256State, block: &[u8]) -> (r: Sha256State)
    requires
        block@.len() == 64,
    ensures
        r == compress256(h, block@),
{
    let mut w: Vec<u32> = Vec::new();
    let mut t: usize = 0;
    while t < 64
        invariant
            block@.len() == 64,
            t <= 64,
            w@.len() == t,
            forall|j: int| 0 <= j < t ==> w@[j] == schedule256(block@, j as nat),
        decreases 64 - t,
    {
        let v = if t < 16 {
            ((block[4 * t] as u32) << 24u32) | ((block[4 * t + 1] as u32) << 16u32) | ((block[4 * t + 2] as u32)
                << 8u32) | (block[4 * t + 3] as u32)
        } else {
            let x = w[t - 2];
            let y = w[t - 15];
            let s1 = rotr_exec(x, 17) ^ rotr_exec(x, 19) ^ (x >> 10u32);
            let s0 = rotr_exec(y, 7) ^ rotr_exec(y, 18) ^ (y >> 3u32);
            s1.wrapping_add(w[t - 7]).wrapping_add(s0).wrapping_add(w[t - 16])
        };
        assert(v == schedule256(block@, t as nat));
        w.push(v);
        t += 1;
    }
    let mut st = h;
    let mut t: usize = 0;
    while t < 64
        invariant
            block@.len() == 64,
            t <= 64,
            w@.len() == 64,
            forall|j: int| 0 <= j < 64 ==> w@[j] == schedule256(block@, j as nat),
            st == rounds256(block@, h, t as nat),
        decreases 64 - t,
    {
        let (a, b, c, d, e, f, g, hh) = st;
        let ch = (e & f) ^ (!e & g);
        let maj = (a & b) ^ (a & c) ^ (b & c);
        let s1 = rotr_exec(e, 6) ^ rotr_exec(e, 11) ^ rotr_exec(e, 25);
        let s0 = rotr_exec(a, 2) ^ rotr_exec(a, 13) ^ rotr_exec(a, 22);
        let t1 = hh.wrapping_add(s1).wrapping_add(ch).wrapping_add(SHA256_K[t]).wrapping_add(w[t]);
        let t2 = s0.wrapping_add(maj);
        st = (t1.wrapping_add(t2), a, b, c, d.wrapping_add(t1), e, f, g);
        t += 1;
    }
    (
        h.0.wrapping_add(st.0),
        h.1.wrapping_add(st.1),
        h.2.wrapping_add(st.2),
        h.3.wrapping_add(st.3),
        h.4.wrapping_add(st.4),
        h.5.wrapping_add(st.5),
        h.6.wrapping_add(st.6),
        h.7.wrapping_add(st.7),
    )
}

/// The SHA-256 digest of `msg`.
pub fn sha256(msg: &[u8]) -> (digest: Vec<u8>)
    ensures
        digest@ == sha256_spec(msg@),
{
    let padded = pad_message(msg);
    let mut h: Sha256State = (
        0x6a09e667u32,
        0xbb67ae85u32,
        0x3c6ef372u32,
        0xa54ff53au32,
        0x510e527fu32,
        0x9b05688cu32,
        0x1f83d9abu32,
        0x5be0cd19u32,
    );
    let mut i: usize = 0;
    let total = padded.len();
    assert(padded@.skip(0) =~= padded@);
    while i < total
        invariant
            total == padded@.len(),
            total % 64 == 0,
            i % 64 == 0,
            i <= total,
            sha256_blocks(sha256_init(), padded@) == sha256_blocks(h, padded@.skip(i as int)),
        decreases total - i,
    {
        let block = vstd::slice::slice_subrange(padded.as_slice(), i, i + 64);
        assert(padded@.skip(i as int).take(64) =~= block@);
        assert(padded@.skip(i as int).skip(64) =~= padded@.skip(i + 64));
        h = compress256_exec(h, block);
        i += 64;
    }
    let mut out: Vec<u8> = Vec::new();
    push_word(&mut out, h.0);
    push_word(&mut out, h.1);
    push_word(&mut out, h.2);
    push_word(&mut out, h.3);
    push_word(&mut out, h.4);
    push_word(&mut out, h.5);
    push_word(&mut out, h.6);
    push_word(&mut out, h.7);
    assert(out@ =~= state256_bytes(h));
    out
}

} // verus!
