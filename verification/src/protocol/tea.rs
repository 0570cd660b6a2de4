use vstd::prelude::*;
use vstd::wrapping::u32_specs::{wrapping_add, wrapping_sub};

use super::writer::{be_u32, be_word, bytes_result, lemma_be_u32_of_be_word, lemma_be_word_of_be_u32, read_be_u32, write_u32};

verus! {

/// Why a buffer could not be decrypted.
#[derive(Debug, Clone, Copy, PartialEq, Eq)]
pub enum TeaError {
    /// The encrypted buffer's length is not a multiple of 8.
    InvalidLength,
    /// The decrypted buffer does not end with the seven zero bytes of the padding.
    IllegalData,
}

/// The round constant of round `i` (the multiples of 0x9e3779b9 modulo 2^32).
pub open spec fn spec_delta(i: int) -> u32 {
    if i == 0 { 0x9e3779b9 }
    else if i == 1 { 0x3c6ef372 }
    else if i == 2 { 0xdaa66d2b }
    else if i == 3 { 0x78dde6e4 }
    else if i == 4 { 0x1715609d }
    else if i == 5 { 0xb54cda56 }
    else if i == 6 { 0x5384540f }
    else if i == 7 { 0xf1bbcdc8 }
    else if i == 8 { 0x8ff34781 }
    else if i == 9 { 0x2e2ac13a }
    else if i == 10 { 0xcc623af3 }
    else if i == 11 { 0x6a99b4ac }
    else if i == 12 { 0x08d12e65 }
    else if i == 13 { 0xa708a81e }
    else if i == 14 { 0x454021d7 }
    else { 0xe3779b90 }
}

/// The round constants are the multiples of 0x9e3779b9 modulo 2^32: round `i` uses `i + 1` of
/// them, so the last of the sixteen rounds uses 16 * 0x9e3779b9 mod 2^32 = 0xe3779b90.
pub proof fn lemma_round_constants(i: int)
    requires
        0 <= i < 16,
    ensures
        spec_delta(i) as int == ((i + 1) * 0x9e3779b9) % 0x1_0000_0000,
{
    if i == 0 {
    } else if i == 1 {
    } else if i == 2 {
    } else if i == 3 {
    } else if i == 4 {
    } else if i == 5 {
    } else if i == 6 {
    } else if i == 7 {
    } else if i == 8 {
    } else if i == 9 {
    } else if i == 10 {
    } else if i == 11 {
    } else if i == 12 {
    } else if i == 13 {
    } else if i == 14 {
    } else {
        assert(i == 15);
    }
}

fn delta(i: usize) -> (d: u32)
    requires
        i < 16,
    ensures
        d == spec_delta(i as int),
{
    match i {
        0 => 0x9e3779b9,
        1 => 0x3c6ef372,
        2 => 0xdaa66d2b,
        3 => 0x78dde6e4,
        4 => 0x1715609d,
        5 => 0xb54cda56,
        6 => 0x5384540f,
        7 => 0xf1bbcdc8,
        8 => 0x8ff34781,
        9 => 0x2e2ac13a,
        10 => 0xcc623af3,
        11 => 0x6a99b4ac,
        12 => 0x08d12e65,
        13 => 0xa708a81e,
        14 => 0x454021d7,
        _ => 0xe3779b90,
    }
}

/// The four key words, read big-endian from the 16 key bytes.
pub open spec fn key_words(key: Seq<u8>) -> (u32, u32, u32, u32) {
    (be_word(key, 0), be_word(key, 4), be_word(key, 8), be_word(key, 12))
}

/// The value one half of a block is shifted by in a round: it depends on the other half `v`,
/// two key words and the round constant.
pub open spec fn mix(v: u32, ka: u32, kb: u32, d: u32) -> u32 {
    wrapping_add(v << 4u32, ka) ^ wrapping_add(v, d) ^ wrapping_add(v >> 5u32, kb)
}

/// The block `(x, y)` after the first `n` rounds of the cipher.
pub open spec fn cipher_rounds(x: u32, y: u32, k: (u32, u32, u32, u32), n: nat) -> (u32, u32)
    decreases n,
{
    if n == 0 {
        (x, y)
    } else {
        let (x1, y1) = cipher_rounds(x, y, k, (n - 1) as nat);
        let x2 = wrapping_add(x1, mix(y1, k.0, k.1, spec_delta(n - 1)));
        let y2 = wrapping_add(y1, mix(x2, k.2, k.3, spec_delta(n - 1)));
        (x2, y2)
    }
}

/// The block `(x, y)` with rounds `n - 1` down to `0` undone.
pub open spec fn decipher_rounds(x: u32, y: u32, k: (u32, u32, u32, u32), n: nat) -> (u32, u32)
    decreases n,
{
    if n == 0 {
        (x, y)
    } else {
        let y1 = wrapping_sub(y, mix(x, k.2, k.3, spec_delta(n - 1)));
        let x1 = wrapping_sub(x, mix(y1, k.0, k.1, spec_delta(n - 1)));
        decipher_rounds(x1, y1, k, (n - 1) as nat)
    }
}

/// Undoing the rounds of the cipher gives the block back.
pub proof fn lemma_decipher_cipher(x: u32, y: u32, k: (u32, u32, u32, u32), n: nat)
    ensures
        ({
            let (cx, cy) = cipher_rounds(x, y, k, n);
            decipher_rounds(cx, cy, k, n) == (x, y)
        }),
    decreases n,
{
    if n > 0 {
        lemma_decipher_cipher(x, y, k, (n - 1) as nat);
    }
}

fn encrypt_part(x: u32, y: u32, k0: u32, k1: u32, k2: u32, k3: u32) -> (r: (u32, u32))
    ensures
        r == cipher_rounds(x, y, (k0, k1, k2, k3), 16),
{
    let ghost k = (k0, k1, k2, k3);
    let mut x = x;
    let mut y = y;
    let ghost x0 = x;
    let ghost y0 = y;
    let mut i: usize = 0;
    while i < 16
        invariant
            i <= 16,
            k == (k0, k1, k2, k3),
            (x, y) == cipher_rounds(x0, y0, k, i as nat),
        decreases 16 - i,
    {
        let d = delta(i);
        let aa = (y << 4u32).wrapping_add(k0) ^ y.wrapping_add(d) ^ (y >> 5u32).wrapping_add(k1);
        assert(aa == mix(y, k0, k1, d));
        x = x.wrapping_add(aa);
        let bb = (x << 4u32).wrapping_add(k2) ^ x.wrapping_add(d) ^ (x >> 5u32).wrapping_add(k3);
        assert(bb == mix(x, k2, k3, d));
        y = y.wrapping_add(bb);
        i = i + 1;
    }
    (x, y)
}

fn decrypt_part(x: u32, y: u32, k0: u32, k1: u32, k2: u32, k3: u32) -> (r: (u32, u32))
    ensures
        r == decipher_rounds(x, y, (k0, k1, k2, k3), 16),
{
    let ghost k = (k0, k1, k2, k3);
    let mut x = x;
    let mut y = y;
    let ghost x0 = x;
    let ghost y0 = y;
    let mut i: usize = 16;
    while i > 0
        invariant
            i <= 16,
            k == (k0, k1, k2, k3),
            decipher_rounds(x, y, k, i as nat) == decipher_rounds(x0, y0, k, 16),
        decreases i,
    {
        let d = delta(i - 1);
        let aa = (x << 4u32).wrapping_add(k2) ^ x.wrapping_add(d) ^ (x >> 5u32).wrapping_add(k3);
        y = y.wrapping_sub(aa);
        let bb = (y << 4u32).wrapping_add(k0) ^ y.wrapping_add(d) ^ (y >> 5u32).wrapping_add(k1);
        x = x.wrapping_sub(bb);
        i = i - 1;
    }
    (x, y)
}


/// Cipher-block chaining over 8-byte blocks as this protocol does it: each plain block is first
/// xor-ed with the previous cipher block `c`, and the cipher output with the previous xor-ed
/// plain block `b`. Bytes after the last whole block are dropped.
pub open spec fn cbc_encrypt(plain: Seq<u8>, k: (u32, u32, u32, u32), c: (u32, u32), b: (u32, u32)) -> Seq<u8>
    decreases plain.len(),
{
    if plain.len() < 8 {
        Seq::empty()
    } else {
        let nb = (be_word(plain, 0) ^ c.0, be_word(plain, 4) ^ c.1);
        let e = cipher_rounds(nb.0, nb.1, k, 16);
        let nc = (e.0 ^ b.0, e.1 ^ b.1);
        be_u32(nc.0) + be_u32(nc.1) + cbc_encrypt(plain.subrange(8, plain.len() as int), k, nc, nb)
    }
}

/// The inverse chaining: `x` is the previous deciphered block and `t` the previous cipher block.
pub open spec fn cbc_decrypt(enc: Seq<u8>, k: (u32, u32, u32, u32), x: (u32, u32), t: (u32, u32)) -> Seq<u8>
    decreases enc.len(),
{
    if enc.len() < 8 {
        Seq::empty()
    } else {
        let a = (be_word(enc, 0), be_word(enc, 4));
        let d = decipher_rounds(a.0 ^ x.0, a.1 ^ x.1, k, 16);
        be_u32(d.0 ^ t.0) + be_u32(d.1 ^ t.1) + cbc_decrypt(enc.subrange(8, enc.len() as int), k, d, a)
    }
}

/// How many zero bytes follow the header byte: between 2 and 9, so that the padded length is a
/// multiple of 8.
pub open spec fn pad_count(len: nat) -> nat {
    ((14 - (len % 8) as int) % 8 + 2) as nat
}

/// The plain buffer that is enciphered: a header byte holding `pad_count - 2` in its low bits,
/// `pad_count` zero bytes, the data and seven zero bytes.
pub open spec fn tea_padded(data: Seq<u8>) -> Seq<u8> {
    let n = pad_count(data.len());
    seq![((n - 2) as u8) | 0xf8u8] + Seq::new(n, |i: int| 0u8) + data + Seq::new(7, |i: int| 0u8)
}

/// The encryption of `data` under the 16-byte `key`.
pub open spec fn tea_encrypt(data: Seq<u8>, key: Seq<u8>) -> Seq<u8> {
    cbc_encrypt(tea_padded(data), key_words(key), (0, 0), (0, 0))
}

/// The deciphered blocks of `enc`, padding still in place.
pub open spec fn tea_decrypt_raw(enc: Seq<u8>, key: Seq<u8>) -> Seq<u8> {
    cbc_decrypt(enc, key_words(key), (0, 0), (0, 0))
}

/// Whether the last seven bytes are zero.
pub open spec fn zero_tail(d: Seq<u8>) -> bool {
    d.subrange(d.len() - 7, d.len() as int) == Seq::new(7, |i: int| 0u8)
}

/// Where the data starts in a deciphered buffer: after the header byte and the zero bytes that
/// its low three bits count.
pub open spec fn pad_start(d: Seq<u8>) -> int {
    ((d[0] & 7u8) + 3) as int
}

/// The inputs that `decrypt` handles: a length that is not a multiple of 8 is rejected, and
/// otherwise the buffer holds at least one block and, where the padding's zero tail is there, the
/// header byte does not point past it.
pub open spec fn tea_decrypt_safe(enc: Seq<u8>, key: Seq<u8>) -> bool {
    enc.len() % 8 == 0 ==> {
        let d = tea_decrypt_raw(enc, key);
        &&& enc.len() >= 8
        &&& zero_tail(d) ==> pad_start(d) <= d.len() - 7
    }
}

/// The decryption of `enc` under the 16-byte `key`.
pub open spec fn tea_decrypt(enc: Seq<u8>, key: Seq<u8>) -> Result<Seq<u8>, TeaError> {
    if enc.len() % 8 != 0 {
        Err(TeaError::InvalidLength)
    } else {
        let d = tea_decrypt_raw(enc, key);
        if zero_tail(d) {
            Ok(d.subrange(pad_start(d), d.len() - 7))
        } else {
            Err(TeaError::IllegalData)
        }
    }
}

proof fn lemma_cbc_encrypt_len(plain: Seq<u8>, k: (u32, u32, u32, u32), c: (u32, u32), b: (u32, u32))
    ensures
        cbc_encrypt(plain, k, c, b).len() == plain.len() - plain.len() % 8,
    decreases plain.len(),
{
    if plain.len() >= 8 {
        let nb = (be_word(plain, 0) ^ c.0, be_word(plain, 4) ^ c.1);
        let e = cipher_rounds(nb.0, nb.1, k, 16);
        let nc = (e.0 ^ b.0, e.1 ^ b.1);
        lemma_cbc_encrypt_len(plain.subrange(8, plain.len() as int), k, nc, nb);
    }
}

proof fn lemma_cbc_decrypt_len(enc: Seq<u8>, k: (u32, u32, u32, u32), x: (u32, u32), t: (u32, u32))
    ensures
        cbc_decrypt(enc, k, x, t).len() == enc.len() - enc.len() % 8,
    decreases enc.len(),
{
    if enc.len() >= 8 {
        let a = (be_word(enc, 0), be_word(enc, 4));
        let d = decipher_rounds(a.0 ^ x.0, a.1 ^ x.1, k, 16);
        lemma_cbc_decrypt_len(enc.subrange(8, enc.len() as int), k, d, a);
    }
}

proof fn lemma_xor_cancel(a: u32, b: u32)
    ensures
        (a ^ b) ^ b == a,
        (a ^ b) ^ a == b,
{
    assert((a ^ b) ^ b == a && (a ^ b) ^ a == b) by (bit_vector);
}

proof fn lemma_be_words_of_pair(p: u32, q: u32, rest: Seq<u8>)
    ensures
        be_word(be_u32(p) + be_u32(q) + rest, 0) == p,
        be_word(be_u32(p) + be_u32(q) + rest, 4) == q,
        (be_u32(p) + be_u32(q) + rest).subrange(8, (be_u32(p) + be_u32(q) + rest).len() as int)
            == rest,
{
    let s = be_u32(p) + be_u32(q) + rest;
    lemma_be_word_of_be_u32(p);
    lemma_be_word_of_be_u32(q);
    assert(be_word(s, 0) == be_word(be_u32(p), 0));
    assert(be_word(s, 4) == be_word(be_u32(q), 0));
    assert(s.subrange(8, s.len() as int) =~= rest);
}

/// Deciphering what was enciphered from the same chaining state gives the plain blocks back.
proof fn lemma_cbc_roundtrip(plain: Seq<u8>, k: (u32, u32, u32, u32), c: (u32, u32), b: (u32, u32))
    requires
        plain.len() % 8 == 0,
    ensures
        cbc_decrypt(cbc_encrypt(plain, k, c, b), k, b, c) == plain,
    decreases plain.len(),
{
    if plain.len() >= 8 {
        let nb = (be_word(plain, 0) ^ c.0, be_word(plain, 4) ^ c.1);
        let e = cipher_rounds(nb.0, nb.1, k, 16);
        let nc = (e.0 ^ b.0, e.1 ^ b.1);
        let tail = plain.subrange(8, plain.len() as int);
        let rest = cbc_encrypt(tail, k, nc, nb);
        let enc = cbc_encrypt(plain, k, c, b);
        assert(enc == be_u32(nc.0) + be_u32(nc.1) + rest);
        lemma_be_words_of_pair(nc.0, nc.1, rest);
        lemma_xor_cancel(e.0, b.0);
        lemma_xor_cancel(e.1, b.1);
        lemma_decipher_cipher(nb.0, nb.1, k, 16);
        lemma_xor_cancel(be_word(plain, 0), c.0);
        lemma_xor_cancel(be_word(plain, 4), c.1);
        lemma_be_u32_of_be_word(plain, 0);
        lemma_be_u32_of_be_word(plain, 4);
        lemma_cbc_roundtrip(tail, k, nc, nb);
        assert(cbc_decrypt(enc, k, b, c) == be_u32(be_word(plain, 0)) + be_u32(be_word(plain, 4))
            + tail);
        assert(plain =~= plain.subrange(0, 4) + plain.subrange(4, 8) + tail);
    }
}

proof fn lemma_header_low_bits(m: u8)
    requires
        m < 8,
    ensures
        ((m | 0xf8u8) & 7u8) == m,
{
    assert(m < 8 ==> ((m | 0xf8u8) & 7u8) == m) by (bit_vector);
}

/// Decrypting what `encrypt` produced under the same key gives the data back.
pub proof fn lemma_decrypt_encrypt(data: Seq<u8>, key: Seq<u8>)
    ensures
        tea_decrypt_safe(tea_encrypt(data, key), key),
        tea_decrypt(tea_encrypt(data, key), key) == Ok::<Seq<u8>, TeaError>(data),
{
    let n = pad_count(data.len());
    let p = tea_padded(data);
    let k = key_words(key);
    assert(p.len() == 1 + n + data.len() + 7);
    assert(p.len() % 8 == 0);
    lemma_cbc_encrypt_len(p, k, (0, 0), (0, 0));
    lemma_cbc_roundtrip(p, k, (0, 0), (0, 0));
    let enc = tea_encrypt(data, key);
    assert(tea_decrypt_raw(enc, key) == p);
    assert(p.subrange(p.len() - 7, p.len() as int) =~= Seq::new(7, |i: int| 0u8));
    lemma_header_low_bits((n - 2) as u8);
    assert(p[0] == ((n - 2) as u8) | 0xf8u8);
    assert(pad_start(p) == n + 1);
    assert(p.subrange(pad_start(p), p.len() - 7) =~= data);
}


fn key_word(key: &[u8; 16], i: usize) -> (w: u32)
    requires
        i + 4 <= 16,
    ensures
        w == be_word(key@, i as int),
{
    ((key[i] as u32) << 24u32) | ((key[i + 1] as u32) << 16u32) | ((key[i + 2] as u32) << 8u32)
        | (key[i + 3] as u32)
}

/// Encrypts `data` under `key`: the data is padded to a whole number of 8-byte blocks and the
/// blocks are enciphered with 16 rounds each, chained to the blocks before them.
pub fn encrypt(data: &[u8], key: &[u8; 16]) -> (res: Result<Vec<u8>, TeaError>)
    ensures
        bytes_result(res) == Ok::<Seq<u8>, TeaError>(tea_encrypt(data@, key@)),
{
    let r = data.len() % 8;
    let n = (14 - r) % 8 + 2;
    let mut v: Vec<u8> = Vec::new();
    v.push(((n - 2) as u8) | 0xf8u8);
    let mut j: usize = 0;
    while j < n
        invariant
            j <= n,
            v@ == seq![((n - 2) as u8) | 0xf8u8] + Seq::new(j as nat, |i: int| 0u8),
        decreases n - j,
    {
        v.push(0);
        j = j + 1;
        assert(v@ =~= seq![((n - 2) as u8) | 0xf8u8] + Seq::new(j as nat, |i: int| 0u8));
    }
    let ghost head = v@;
    let mut j: usize = 0;
    while j < data.len()
        invariant
            j <= data@.len(),
            v@ == head + data@.subrange(0, j as int),
        decreases data@.len() - j,
    {
        v.push(data[j]);
        j = j + 1;
        assert(v@ =~= head + data@.subrange(0, j as int));
    }
    let ghost body = v@;
    let mut j: usize = 0;
    while j < 7
        invariant
            j <= 7,
            v@ == body + Seq::new(j as nat, |i: int| 0u8),
        decreases 7 - j,
    {
        v.push(0);
        j = j + 1;
        assert(v@ =~= body + Seq::new(j as nat, |i: int| 0u8));
    }
    assert(data@.subrange(0, data@.len() as int) =~= data@);
    assert(n == pad_count(data@.len()));
    assert(v@ =~= tea_padded(data@));
    assert(v@.len() % 8 == 0);

    let k0 = key_word(key, 0);
    let k1 = key_word(key, 4);
    let k2 = key_word(key, 8);
    let k3 = key_word(key, 12);
    let ghost k = (k0, k1, k2, k3);
    assert(k == key_words(key@));

    let mut encrypted: Vec<u8> = Vec::new();
    let mut r1: u32 = 0;
    let mut r2: u32 = 0;
    let mut t1: u32 = 0;
    let mut t2: u32 = 0;
    let len = v.len();
    let mut i: usize = 0;
    assert(v@.subrange(0, len as int) =~= v@);
    while i < len
        invariant
            len == v@.len(),
            len % 8 == 0,
            i % 8 == 0,
            i <= len,
            k == (k0, k1, k2, k3),
            encrypted@ + cbc_encrypt(v@.subrange(i as int, len as int), k, (r1, r2), (t1, t2))
                == cbc_encrypt(v@, k, (0, 0), (0, 0)),
        decreases len - i,
    {
        let a1 = read_be_u32(v.as_slice(), i);
        let a2 = read_be_u32(v.as_slice(), i + 4);
        let ghost rest = v@.subrange(i as int, len as int);
        assert(be_word(rest, 0) == a1 && be_word(rest, 4) == a2);
        assert(rest.subrange(8, rest.len() as int) =~= v@.subrange(i + 8, len as int));
        let b1 = a1 ^ r1;
        let b2 = a2 ^ r2;
        let (dx, dy) = encrypt_part(b1, b2, k0, k1, k2, k3);
        r1 = dx ^ t1;
        r2 = dy ^ t2;
        t1 = b1;
        t2 = b2;
        let ghost before = encrypted@;
        write_u32(&mut encrypted, r1);
        write_u32(&mut encrypted, r2);
        assert(encrypted@ == before + be_u32(r1) + be_u32(r2));
        assert(before + (be_u32(r1) + be_u32(r2) + cbc_encrypt(v@.subrange(i + 8, len as int), k, (r1, r2), (t1, t2)))
            =~= encrypted@ + cbc_encrypt(v@.subrange(i + 8, len as int), k, (r1, r2), (t1, t2)));
        i = i + 8;
    }
    assert(v@.subrange(len as int, len as int) =~= Seq::<u8>::empty());
    assert(encrypted@ =~= tea_encrypt(data@, key@));
    Ok(encrypted)
}

/// The deciphered blocks of `encrypted`, padding still in place.
fn decipher(encrypted: &[u8], key: &[u8; 16]) -> (decrypted: Vec<u8>)
    requires
        encrypted@.len() % 8 == 0,
    ensures
        decrypted@ == tea_decrypt_raw(encrypted@, key@),
{
    let len = encrypted.len();
    let k0 = key_word(key, 0);
    let k1 = key_word(key, 4);
    let k2 = key_word(key, 8);
    let k3 = key_word(key, 12);
    let ghost k = (k0, k1, k2, k3);
    assert(k == key_words(key@));

    let mut decrypted: Vec<u8> = Vec::new();
    let mut t1: u32 = 0;
    let mut t2: u32 = 0;
    let mut x: u32 = 0;
    let mut y: u32 = 0;
    let mut i: usize = 0;
    assert(encrypted@.subrange(0, len as int) =~= encrypted@);
    while i < len
        invariant
            len == encrypted@.len(),
            len % 8 == 0,
            i % 8 == 0,
            i <= len,
            k == (k0, k1, k2, k3),
            decrypted@.len() == i,
            decrypted@ + cbc_decrypt(encrypted@.subrange(i as int, len as int), k, (x, y), (t1, t2))
                == cbc_decrypt(encrypted@, k, (0, 0), (0, 0)),
        decreases len - i,
    {
        let a1 = read_be_u32(encrypted, i);
        let a2 = read_be_u32(encrypted, i + 4);
        let ghost rest = encrypted@.subrange(i as int, len as int);
        assert(be_word(rest, 0) == a1 && be_word(rest, 4) == a2);
        assert(rest.subrange(8, rest.len() as int) =~= encrypted@.subrange(i + 8, len as int));
        let (dx, dy) = decrypt_part(a1 ^ x, a2 ^ y, k0, k1, k2, k3);
        x = dx;
        y = dy;
        let r1 = x ^ t1;
        let r2 = y ^ t2;
        t1 = a1;
        t2 = a2;
        let ghost before = decrypted@;
        write_u32(&mut decrypted, r1);
        write_u32(&mut decrypted, r2);
        assert(decrypted@ == before + be_u32(r1) + be_u32(r2));
        assert(before + (be_u32(r1) + be_u32(r2) + cbc_decrypt(encrypted@.subrange(i + 8, len as int), k, (x, y), (t1, t2)))
            =~= decrypted@ + cbc_decrypt(encrypted@.subrange(i + 8, len as int), k, (x, y), (t1, t2)));
        i = i + 8;
    }
    assert(encrypted@.subrange(len as int, len as int) =~= Seq::<u8>::empty());
    assert(decrypted@ =~= tea_decrypt_raw(encrypted@, key@));
    decrypted
}

/// Whether the seven bytes before the end of `d` are zero.
fn has_zero_tail(d: &Vec<u8>) -> (b: bool)
    requires
        d@.len() >= 7,
    ensures
        b == zero_tail(d@),
{
    let dlen = d.len();
    let mut j: usize = dlen - 7;
    while j < dlen
        invariant
            dlen == d@.len(),
            dlen >= 7,
            dlen - 7 <= j <= dlen,
            forall|m: int| dlen - 7 <= m < j ==> d@[m] == 0u8,
        decreases dlen - j,
    {
        if d[j] != 0 {
            assert(d@.subrange(dlen - 7, dlen as int)[j - (dlen - 7)] != 0u8);
            assert(Seq::new(7, |i: int| 0u8)[j - (dlen - 7)] == 0u8);
            return false;
        }
        j = j + 1;
    }
    assert(d@.subrange(dlen - 7, dlen as int) =~= Seq::new(7, |i: int| 0u8));
    true
}

/// Whether `decrypt` accepts `encrypted` under `key` (see `tea_decrypt_safe`): what a caller
/// holding bytes of unknown origin tests before it decrypts them.
pub fn decryptable(encrypted: &[u8], key: &[u8; 16]) -> (b: bool)
    ensures
        b == tea_decrypt_safe(encrypted@, key@),
{
    let len = encrypted.len();
    if len % 8 != 0 {
        return true;
    }
    if len < 8 {
        return false;
    }
    let d = decipher(encrypted, key);
    if !has_zero_tail(&d) {
        return true;
    }
    let h = d[0];
    assert(h & 7u8 <= 7u8) by (bit_vector);
    ((h & 7u8) as usize) + 3 <= d.len() - 7
}

/// Decrypts `encrypted` under `key`: deciphers the blocks, checks the seven zero bytes at the
/// end and strips the padding.
pub fn decrypt(encrypted: &[u8], key: &[u8; 16]) -> (res: Result<Vec<u8>, TeaError>)
    requires
        tea_decrypt_safe(encrypted@, key@),
    ensures
        bytes_result(res) == tea_decrypt(encrypted@, key@),
{
    let len = encrypted.len();
    if len % 8 != 0 {
        return Err(TeaError::InvalidLength);
    }
    let decrypted = decipher(encrypted, key);
    let dlen = decrypted.len();
    if !has_zero_tail(&decrypted) {
        return Err(TeaError::IllegalData);
    }
    let h = decrypted[0];
    assert(h & 7u8 <= 7u8) by (bit_vector);
    let start = ((h & 7u8) + 3) as usize;
    let end = dlen - 7;
    let mut out: Vec<u8> = Vec::new();
    let mut j: usize = start;
    while j < end
        invariant
            dlen == decrypted@.len(),
            start <= end,
            end <= dlen,
            start <= j <= end,
            out@ == decrypted@.subrange(start as int, j as int),
        decreases end - j,
    {
        out.push(decrypted[j]);
        j = j + 1;
        assert(out@ =~= decrypted@.subrange(start as int, j as int));
    }
    Ok(out)
}


/// The length of an encryption depends on the length of the data alone.
pub proof fn lemma_tea_encrypt_len(a: Seq<u8>, b: Seq<u8>, key: Seq<u8>)
    requires
        a.len() == b.len(),
    ensures
        tea_encrypt(a, key).len() == tea_encrypt(b, key).len(),
{
    lemma_cbc_encrypt_len(tea_padded(a), key_words(key), (0, 0), (0, 0));
    lemma_cbc_encrypt_len(tea_padded(b), key_words(key), (0, 0), (0, 0));
}

} // verus!
