//! The device's block cipher: a 128-bit-keyed, 16-round Feistel-like
//! transform on 64-bit blocks, with its key derived from fixed offsets of
//! the 32-byte identity payload.
//!
//! Every addition and subtraction wraps at 32 bits, and the byte-offset
//! permutation of the key derivation is a fixed table with no documented
//! rationale: both must match the device's firmware bit for bit or
//! traffic is silently corrupted. Arbitrary byte strings are handled by
//! padding to the next 32-byte boundary with zeros; the padding is
//! visible in decrypted output, so callers track the true length
//! themselves.

use vstd::prelude::*;

verus! {

/// The additive constant each round advances the accumulator by.
pub const ROUND_DELTA: u32 = 0x9E3779B9;

/// The accumulator value decryption starts from: the wrapped sum of 16
/// round constants.
pub const DECRYPT_SUM: u32 = 0xE3779B90;

/// A 32-bit word assembled from four bytes, little-endian.
pub open spec fn spec_le_u32(b0: u8, b1: u8, b2: u8, b3: u8) -> u32 {
    (b0 as u32) | ((b1 as u32) << 8) | ((b2 as u32) << 16) | ((b3 as u32) << 24)
}

/// The four little-endian bytes of a 32-bit word.
pub open spec fn spec_le_bytes(w: u32) -> Seq<u8> {
    seq![
        (w & 0xff) as u8,
        ((w >> 8) & 0xff) as u8,
        ((w >> 16) & 0xff) as u8,
        ((w >> 24) & 0xff) as u8,
    ]
}

/// The nonlinear mixing step: a function of the partner word `x` combined
/// with the accumulator `sum` and one key word `k`.
pub open spec fn spec_mix(x: u32, sum: u32, k: u32) -> u32 {
    (((x << 4) ^ (x >> 5)).wrapping_add(x)) ^ sum.wrapping_add(k)
}

/// The key index used when mixing the first word of a block.
pub open spec fn key_index_lo(sum: u32) -> int {
    (sum & 3) as int
}

/// The key index used when mixing the second word of a block.
pub open spec fn key_index_hi(sum: u32) -> int {
    ((sum >> 11) & 3) as int
}

/// The cipher, holding only its four derived key words.
pub struct Cipher {
    k: [u32; 4],
}

impl Cipher {
    /// The key word at index `i`.
    pub closed spec fn key(self, i: int) -> u32 {
        self.k[i]
    }

    /// One encryption round on the state `(v0, v1, sum)`: mix `v0` from
    /// `v1`, advance the accumulator, mix `v1` from the new `v0`.
    pub open spec fn enc_round(self, s: (u32, u32, u32)) -> (u32, u32, u32) {
        let v0 = s.0.wrapping_add(spec_mix(s.1, s.2, self.key(key_index_lo(s.2))));
        let sum = s.2.wrapping_add(ROUND_DELTA);
        let v1 = s.1.wrapping_add(spec_mix(v0, sum, self.key(key_index_hi(sum))));
        (v0, v1, sum)
    }

    /// One decryption round: the exact inverse of `enc_round`.
    pub open spec fn dec_round(self, s: (u32, u32, u32)) -> (u32, u32, u32) {
        let v1 = s.1.wrapping_sub(spec_mix(s.0, s.2, self.key(key_index_hi(s.2))));
        let sum = s.2.wrapping_sub(ROUND_DELTA);
        let v0 = s.0.wrapping_sub(spec_mix(v1, sum, self.key(key_index_lo(sum))));
        (v0, v1, sum)
    }

    /// `n` encryption rounds applied to `s`.
    pub open spec fn enc_rounds(self, s: (u32, u32, u32), n: nat) -> (u32, u32, u32)
        decreases n,
    {
        if n == 0 {
            s
        } else {
            self.enc_round(self.enc_rounds(s, (n - 1) as nat))
        }
    }

    /// `n` decryption rounds applied to `s`.
    pub open spec fn dec_rounds(self, s: (u32, u32, u32), n: nat) -> (u32, u32, u32)
        decreases n,
    {
        if n == 0 {
            s
        } else {
            self.dec_round(self.dec_rounds(s, (n - 1) as nat))
        }
    }

    /// The encrypted form of a block of two words.
    pub open spec fn spec_encrypt_pair(self, v0: u32, v1: u32) -> (u32, u32) {
        let e = self.enc_rounds((v0, v1, 0u32), 16);
        (e.0, e.1)
    }

    /// The decrypted form of a block of two words.
    pub open spec fn spec_decrypt_pair(self, v0: u32, v1: u32) -> (u32, u32) {
        let d = self.dec_rounds((v0, v1, DECRYPT_SUM), 16);
        (d.0, d.1)
    }

    /// Derives the key from a Type0 identity payload: four little-endian
    /// words over a fixed, non-sequential permutation of the payload
    /// bytes at offsets 6 through 13 and 21 through 26, with one byte of
    /// three of the words fixed to the constants 78, 117 and 126. The
    /// mapping is a fixed table: it matches the device's firmware and has
    /// no further structure.
    pub fn from_type0_bytes(bytes: &[u8]) -> (r: Self)
        requires
            bytes@.len() >= 27,
        ensures
            r.key(0) == spec_le_u32(78, bytes@[8], bytes@[26], bytes@[24]),
            r.key(1) == spec_le_u32(bytes@[6], bytes@[25], bytes@[23], bytes@[13]),
            r.key(2) == spec_le_u32(bytes@[10], 117, bytes@[7], bytes@[22]),
            r.key(3) == spec_le_u32(bytes@[9], bytes@[11], 126, bytes@[21]),
    {
        Self {
            k: [
                le_u32(78, bytes[8], bytes[26], bytes[24]),
                le_u32(bytes[6], bytes[25], bytes[23], bytes[13]),
                le_u32(bytes[10], 117, bytes[7], bytes[22]),
                le_u32(bytes[9], bytes[11], 126, bytes[21]),
            ],
        }
    }

    /// Encrypts one block, given as a slice of two words.
    pub fn encrypt_single(&self, v: &[u32]) -> (r: [u32; 2])
        requires
            v@.len() >= 2,
        ensures
            (r@[0], r@[1]) == self.spec_encrypt_pair(v@[0], v@[1]),
    {
        let mut u: u32 = v[0];
        let mut u1: u32 = v[1];
        let mut u2: u32 = 0;
        let mut round: usize = 0;
        while round < 16
            invariant
                round <= 16,
                (u, u1, u2) == self.enc_rounds((v@[0], v@[1], 0u32), round as nat),
            decreases 16 - round,
        {
            proof {
                assert(u2 & 3 < 4) by (bit_vector);
                assert((u2.wrapping_add(ROUND_DELTA) >> 11) & 3 < 4) by (bit_vector);
            }
            u = u.wrapping_add(
                (((u1 << 4) ^ (u1 >> 5)).wrapping_add(u1)) ^ u2.wrapping_add(
                    self.k[(u2 & 3) as usize],
                ),
            );
            u2 = u2.wrapping_add(ROUND_DELTA);
            u1 = u1.wrapping_add(
                (((u << 4) ^ (u >> 5)).wrapping_add(u)) ^ u2.wrapping_add(
                    self.k[((u2 >> 11) & 3) as usize],
                ),
            );
            round = round + 1;
        }
        [u, u1]
    }

    /// Decrypts one block, given as a slice of two words.
    pub fn decrypt_single(&self, v: &[u32]) -> (r: [u32; 2])
        requires
            v@.len() >= 2,
        ensures
            (r@[0], r@[1]) == self.spec_decrypt_pair(v@[0], v@[1]),
    {
        let mut u: u32 = v[0];
        let mut u1: u32 = v[1];
        let mut u2: u32 = DECRYPT_SUM;
        let mut round: usize = 0;
        while round < 16
            invariant
                round <= 16,
                (u, u1, u2) == self.dec_rounds((v@[0], v@[1], DECRYPT_SUM), round as nat),
            decreases 16 - round,
        {
            proof {
                assert((u2 >> 11) & 3 < 4) by (bit_vector);
                assert(u2.wrapping_sub(ROUND_DELTA) & 3 < 4) by (bit_vector);
            }
            u1 = u1.wrapping_sub(
                (((u << 4) ^ (u >> 5)).wrapping_add(u)) ^ u2.wrapping_add(
                    self.k[((u2 >> 11) & 3) as usize],
                ),
            );
            u2 = u2.wrapping_sub(ROUND_DELTA);
            u = u.wrapping_sub(
                (((u1 << 4) ^ (u1 >> 5)).wrapping_add(u1)) ^ u2.wrapping_add(
                    self.k[(u2 & 3) as usize],
                ),
            );
            round = round + 1;
        }
        [u, u1]
    }
}

/// Assembles a 32-bit word from four bytes, little-endian.
fn le_u32(b0: u8, b1: u8, b2: u8, b3: u8) -> (w: u32)
    ensures
        w == spec_le_u32(b0, b1, b2, b3),
{
    (b0 as u32) | ((b1 as u32) << 8) | ((b2 as u32) << 16) | ((b3 as u32) << 24)
}

/// Appends the four little-endian bytes of `w` to `out`.
fn push_le_bytes(out: &mut Vec<u8>, w: u32)
    ensures
        final(out)@ == old(out)@ + spec_le_bytes(w),
{
    proof {
        assert(w & 0xff < 256 && (w >> 8) & 0xff < 256 && (w >> 16) & 0xff < 256 && (w >> 24)
            & 0xff < 256) by (bit_vector);
    }
    out.push((w & 0xff) as u8);
    out.push(((w >> 8) & 0xff) as u8);
    out.push(((w >> 16) & 0xff) as u8);
    out.push(((w >> 24) & 0xff) as u8);
    proof {
        assert(out@ =~= old(out)@ + spec_le_bytes(w));
    }
}

/// A byte string padded to the next multiple of 32 bytes with zero bytes
/// (unchanged when the length is already a multiple of 32).
pub open spec fn spec_pad32(b: Seq<u8>) -> Seq<u8> {
    if b.len() % 32 == 0 {
        b
    } else {
        b + Seq::new((32 - b.len() % 32) as nat, |i: int| 0u8)
    }
}

impl Cipher {
    /// The encrypted form of one 8-byte block: the two little-endian
    /// words transformed and reassembled as bytes.
    pub open spec fn spec_encrypt_block(self, b: Seq<u8>) -> Seq<u8> {
        let e = self.spec_encrypt_pair(
            spec_le_u32(b[0], b[1], b[2], b[3]),
            spec_le_u32(b[4], b[5], b[6], b[7]),
        );
        spec_le_bytes(e.0) + spec_le_bytes(e.1)
    }

    /// The decrypted form of one 8-byte block.
    pub open spec fn spec_decrypt_block(self, b: Seq<u8>) -> Seq<u8> {
        let d = self.spec_decrypt_pair(
            spec_le_u32(b[0], b[1], b[2], b[3]),
            spec_le_u32(b[4], b[5], b[6], b[7]),
        );
        spec_le_bytes(d.0) + spec_le_bytes(d.1)
    }

    /// The encrypted form of a padded byte string, block by block.
    pub open spec fn spec_encrypt_bytes(self, p: Seq<u8>) -> Seq<u8>
        decreases p.len(),
    {
        if p.len() < 8 {
            Seq::empty()
        } else {
            self.spec_encrypt_block(p.subrange(0, 8)) + self.spec_encrypt_bytes(p.skip(8))
        }
    }

    /// The decrypted form of a padded byte string, block by block.
    pub open spec fn spec_decrypt_bytes(self, p: Seq<u8>) -> Seq<u8>
        decreases p.len(),
    {
        if p.len() < 8 {
            Seq::empty()
        } else {
            self.spec_decrypt_block(p.subrange(0, 8)) + self.spec_decrypt_bytes(p.skip(8))
        }
    }

    /// Encrypts a byte string of any length: the input is padded to the
    /// next 32-byte boundary with zeros (no padding when the length is
    /// already a multiple of 32) and transformed block by block.
    pub fn encrypt(&self, bytes: &[u8]) -> (r: Vec<u8>)
        requires
            bytes@.len() + 32 <= usize::MAX,
        ensures
            r@ == self.spec_encrypt_bytes(spec_pad32(bytes@)),
            r@.len() == spec_pad32(bytes@).len(),
    {
        let padded = pad32_vec(bytes);
        let mut out: Vec<u8> = Vec::new();
        let mut j: usize = 0;
        while padded.len() - j >= 8
            invariant
                j % 8 == 0,
                j <= padded@.len(),
                padded@ == spec_pad32(bytes@),
                padded@.len() % 32 == 0,
                out@ == self.spec_encrypt_bytes(padded@.subrange(0, j as int)),
                out@.len() == j,
            decreases padded@.len() - j,
        {
            let v0 = le_u32(padded[j], padded[j + 1], padded[j + 2], padded[j + 3]);
            let v1 = le_u32(padded[j + 4], padded[j + 5], padded[j + 6], padded[j + 7]);
            let mut pair: Vec<u32> = Vec::new();
            pair.push(v0);
            pair.push(v1);
            let e = self.encrypt_single(pair.as_slice());
            push_le_bytes(&mut out, e[0]);
            push_le_bytes(&mut out, e[1]);
            proof {
                let pre = padded@.subrange(0, j as int);
                let block = padded@.subrange(j as int, j + 8);
                lemma_encrypt_bytes_snoc(*self, pre, block);
                assert(padded@.subrange(0, j + 8) =~= pre + block);
                assert(self.spec_encrypt_block(block) == spec_le_bytes(e@[0]) + spec_le_bytes(
                    e@[1],
                ));
                assert(out@ =~= self.spec_encrypt_bytes(padded@.subrange(0, j + 8)));
            }
            j = j + 8;
        }
        proof {
            lemma_mult32_mult8(padded@.len() as int);
            assert(j == padded@.len()) by {
                vstd::arithmetic::div_mod::lemma_fundamental_div_mod(j as int, 8);
                vstd::arithmetic::div_mod::lemma_fundamental_div_mod(
                    padded@.len() as int,
                    8,
                );
            }
            assert(padded@.subrange(0, padded@.len() as int) =~= padded@);
        }
        out
    }

    /// Decrypts a byte string of any length: the structural mirror of
    /// `encrypt`, using the inverse block transform. Trailing zero
    /// padding from encryption is visible in the output beyond the
    /// original length.
    pub fn decrypt(&self, bytes: &[u8]) -> (r: Vec<u8>)
        requires
            bytes@.len() + 32 <= usize::MAX,
        ensures
            r@ == self.spec_decrypt_bytes(spec_pad32(bytes@)),
            r@.len() == spec_pad32(bytes@).len(),
    {
        let padded = pad32_vec(bytes);
        let mut out: Vec<u8> = Vec::new();
        let mut j: usize = 0;
        while padded.len() - j >= 8
            invariant
                j % 8 == 0,
                j <= padded@.len(),
                padded@ == spec_pad32(bytes@),
                padded@.len() % 32 == 0,
                out@ == self.spec_decrypt_bytes(padded@.subrange(0, j as int)),
                out@.len() == j,
            decreases padded@.len() - j,
        {
            let v0 = le_u32(padded[j], padded[j + 1], padded[j + 2], padded[j + 3]);
            let v1 = le_u32(padded[j + 4], padded[j + 5], padded[j + 6], padded[j + 7]);
            let mut pair: Vec<u32> = Vec::new();
            pair.push(v0);
            pair.push(v1);
            let d = self.decrypt_single(pair.as_slice());
            push_le_bytes(&mut out, d[0]);
            push_le_bytes(&mut out, d[1]);
            proof {
                let pre = padded@.subrange(0, j as int);
                let block = padded@.subrange(j as int, j + 8);
                lemma_decrypt_bytes_snoc(*self, pre, block);
                assert(padded@.subrange(0, j + 8) =~= pre + block);
                assert(self.spec_decrypt_block(block) == spec_le_bytes(d@[0]) + spec_le_bytes(
                    d@[1],
                ));
                assert(out@ =~= self.spec_decrypt_bytes(padded@.subrange(0, j + 8)));
            }
            j = j + 8;
        }
        proof {
            lemma_mult32_mult8(padded@.len() as int);
            assert(j == padded@.len()) by {
                vstd::arithmetic::div_mod::lemma_fundamental_div_mod(j as int, 8);
                vstd::arithmetic::div_mod::lemma_fundamental_div_mod(
                    padded@.len() as int,
                    8,
                );
            }
            assert(padded@.subrange(0, padded@.len() as int) =~= padded@);
        }
        out
    }
}

/// Copies `bytes` and pads the copy with zeros to the next 32-byte
/// boundary.
fn pad32_vec(bytes: &[u8]) -> (r: Vec<u8>)
    requires
        bytes@.len() + 32 <= usize::MAX,
    ensures
        r@ == spec_pad32(bytes@),
        r@.len() % 32 == 0,
{
    let mut padded: Vec<u8> = Vec::new();
    let mut i: usize = 0;
    while i < bytes.len()
        invariant
            i <= bytes@.len(),
            padded@ == bytes@.subrange(0, i as int),
        decreases bytes@.len() - i,
    {
        proof {
            assert(bytes@.subrange(0, i + 1) =~= bytes@.subrange(0, i as int).push(
                bytes@[i as int],
            ));
        }
        padded.push(bytes[i]);
        i = i + 1;
    }
    proof {
        assert(bytes@.subrange(0, bytes@.len() as int) =~= bytes@);
    }
    let rem = bytes.len() % 32;
    if rem != 0 {
        let zeros = 32 - rem;
        let mut z: usize = 0;
        while z < zeros
            invariant
                z <= zeros,
                zeros == 32 - bytes@.len() % 32,
                bytes@.len() % 32 != 0,
                bytes@.len() + 32 <= usize::MAX,
                padded@ == bytes@ + Seq::new(z as nat, |j: int| 0u8),
            decreases zeros - z,
        {
            padded.push(0);
            z = z + 1;
            proof {
                assert(padded@ =~= bytes@ + Seq::new(z as nat, |j: int| 0u8));
            }
        }
    }
    proof {
        assert(padded@ =~= spec_pad32(bytes@));
        if bytes@.len() % 32 != 0 {
            vstd::arithmetic::div_mod::lemma_fundamental_div_mod(bytes@.len() as int, 32);
            vstd::arithmetic::div_mod::lemma_mod_multiples_basic(
                bytes@.len() as int / 32 + 1,
                32,
            );
        }
        assert(padded@.len() % 32 == 0);
    }
    padded
}

/// Appending one whole block to a padded string extends its encryption
/// by that block's encryption.
proof fn lemma_encrypt_bytes_snoc(c: Cipher, q: Seq<u8>, b: Seq<u8>)
    requires
        q.len() % 8 == 0,
        b.len() == 8,
    ensures
        c.spec_encrypt_bytes(q + b) == c.spec_encrypt_bytes(q) + c.spec_encrypt_block(b),
    decreases q.len(),
{
    if q.len() == 0 {
        assert(q + b =~= b);
        assert(b.subrange(0, 8) =~= b);
        assert(b.skip(8) =~= Seq::<u8>::empty());
        assert(q + b == b);
        assert(c.spec_encrypt_bytes(b) == c.spec_encrypt_block(b.subrange(0, 8)) + c.spec_encrypt_bytes(
            b.skip(8),
        ));
        assert(c.spec_encrypt_bytes(b.skip(8)) == Seq::<u8>::empty());
        assert(c.spec_encrypt_bytes(q) == Seq::<u8>::empty());
        assert(c.spec_encrypt_bytes(q + b) =~= c.spec_encrypt_bytes(q) + c.spec_encrypt_block(b));
    } else {
        assert(q.len() >= 8) by {
            if q.len() < 8 {
                vstd::arithmetic::div_mod::lemma_small_mod(q.len(), 8);
            }
        }
        assert((q.len() - 8) % 8 == 0) by {
            vstd::arithmetic::div_mod::lemma_fundamental_div_mod(q.len() as int, 8);
            vstd::arithmetic::div_mod::lemma_mod_multiples_basic(
                q.len() as int / 8 - 1,
                8,
            );
        }
        lemma_encrypt_bytes_snoc(c, q.skip(8), b);
        assert((q + b).subrange(0, 8) =~= q.subrange(0, 8));
        assert((q + b).skip(8) =~= q.skip(8) + b);
        assert(c.spec_encrypt_bytes(q + b) == c.spec_encrypt_block(q.subrange(0, 8))
            + c.spec_encrypt_bytes(q.skip(8) + b));
        assert(c.spec_encrypt_bytes(q.skip(8) + b) == c.spec_encrypt_bytes(q.skip(8))
            + c.spec_encrypt_block(b));
        assert(c.spec_encrypt_bytes(q) == c.spec_encrypt_block(q.subrange(0, 8)) + c.spec_encrypt_bytes(
            q.skip(8),
        ));
        assert(c.spec_encrypt_bytes(q + b) =~= c.spec_encrypt_bytes(q) + c.spec_encrypt_block(b));
    }
}

/// The decryption counterpart of `lemma_encrypt_bytes_snoc`.
proof fn lemma_decrypt_bytes_snoc(c: Cipher, q: Seq<u8>, b: Seq<u8>)
    requires
        q.len() % 8 == 0,
        b.len() == 8,
    ensures
        c.spec_decrypt_bytes(q + b) == c.spec_decrypt_bytes(q) + c.spec_decrypt_block(b),
    decreases q.len(),
{
    if q.len() == 0 {
        assert(q + b =~= b);
        assert(b.subrange(0, 8) =~= b);
        assert(b.skip(8) =~= Seq::<u8>::empty());
        assert(q + b == b);
        assert(c.spec_decrypt_bytes(b) == c.spec_decrypt_block(b.subrange(0, 8)) + c.spec_decrypt_bytes(
            b.skip(8),
        ));
        assert(c.spec_decrypt_bytes(b.skip(8)) == Seq::<u8>::empty());
        assert(c.spec_decrypt_bytes(q) == Seq::<u8>::empty());
        assert(c.spec_decrypt_bytes(q + b) =~= c.spec_decrypt_bytes(q) + c.spec_decrypt_block(b));
    } else {
        assert(q.len() >= 8) by {
            if q.len() < 8 {
                vstd::arithmetic::div_mod::lemma_small_mod(q.len(), 8);
            }
        }
        assert((q.len() - 8) % 8 == 0) by {
            vstd::arithmetic::div_mod::lemma_fundamental_div_mod(q.len() as int, 8);
            vstd::arithmetic::div_mod::lemma_mod_multiples_basic(
                q.len() as int / 8 - 1,
                8,
            );
        }
        lemma_decrypt_bytes_snoc(c, q.skip(8), b);
        assert((q + b).subrange(0, 8) =~= q.subrange(0, 8));
        assert((q + b).skip(8) =~= q.skip(8) + b);
        assert(c.spec_decrypt_bytes(q + b) == c.spec_decrypt_block(q.subrange(0, 8))
            + c.spec_decrypt_bytes(q.skip(8) + b));
        assert(c.spec_decrypt_bytes(q.skip(8) + b) == c.spec_decrypt_bytes(q.skip(8))
            + c.spec_decrypt_block(b));
        assert(c.spec_decrypt_bytes(q) == c.spec_decrypt_block(q.subrange(0, 8)) + c.spec_decrypt_bytes(
            q.skip(8),
        ));
        assert(c.spec_decrypt_bytes(q + b) =~= c.spec_decrypt_bytes(q) + c.spec_decrypt_block(b));
    }
}

/// Adding then subtracting the same word in wrap-around arithmetic
/// gives the original back.
proof fn lemma_wrap_cancel(a: u32, b: u32)
    ensures
        a.wrapping_add(b).wrapping_sub(b) == a,
        a.wrapping_sub(b).wrapping_add(b) == a,
{
}

/// A decryption round undoes an encryption round.
proof fn lemma_round_inverse(c: Cipher, s: (u32, u32, u32))
    ensures
        c.dec_round(c.enc_round(s)) == s,
{
    let e = c.enc_round(s);
    let sum1 = s.2.wrapping_add(ROUND_DELTA);
    let m1 = spec_mix(s.1, s.2, c.key(key_index_lo(s.2)));
    let m2 = spec_mix(e.0, sum1, c.key(key_index_hi(sum1)));
    lemma_wrap_cancel(s.1, m2);
    lemma_wrap_cancel(s.2, ROUND_DELTA);
    lemma_wrap_cancel(s.0, m1);
    assert(c.dec_round(e) == (s.0, s.1, s.2));
}

/// Applying `n` decryption rounds after one more commutes with applying
/// the extra round after the `n`.
proof fn lemma_dec_rounds_shift(c: Cipher, s: (u32, u32, u32), n: nat)
    ensures
        c.dec_rounds(c.dec_round(s), n) == c.dec_round(c.dec_rounds(s, n)),
    decreases n,
{
    if n > 0 {
        lemma_dec_rounds_shift(c, s, (n - 1) as nat);
    }
}

/// `n` decryption rounds undo `n` encryption rounds, state for state.
proof fn lemma_rounds_roundtrip(c: Cipher, s: (u32, u32, u32), n: nat)
    ensures
        c.dec_rounds(c.enc_rounds(s, n), n) == s,
    decreases n,
{
    if n > 0 {
        let e1 = c.enc_rounds(s, (n - 1) as nat);
        lemma_rounds_roundtrip(c, s, (n - 1) as nat);
        lemma_round_inverse(c, e1);
        lemma_dec_rounds_shift(c, c.enc_round(e1), (n - 1) as nat);
        assert(c.dec_rounds(c.dec_round(c.enc_round(e1)), (n - 1) as nat) == c.dec_rounds(
            e1,
            (n - 1) as nat,
        ));
    }
}

/// The accumulator after `n` encryption rounds: the start value plus `n`
/// round constants, wrapped.
proof fn lemma_enc_rounds_sum(c: Cipher, s: (u32, u32, u32), n: nat)
    ensures
        c.enc_rounds(s, n).2 == ((s.2 + n * (ROUND_DELTA as int)) % 0x1_0000_0000) as u32,
    decreases n,
{
    if n == 0 {
        vstd::arithmetic::div_mod::lemma_small_mod(s.2 as nat, 0x1_0000_0000);
    } else {
        lemma_enc_rounds_sum(c, s, (n - 1) as nat);
        let a = s.2 + (n - 1) * (ROUND_DELTA as int);
        let prev = c.enc_rounds(s, (n - 1) as nat).2;
        vstd::arithmetic::div_mod::lemma_mod_bound(a, 0x1_0000_0000);
        vstd::arithmetic::div_mod::lemma_add_mod_noop(a, ROUND_DELTA as int, 0x1_0000_0000);
        vstd::arithmetic::div_mod::lemma_small_mod(ROUND_DELTA as nat, 0x1_0000_0000);
        assert(prev.wrapping_add(ROUND_DELTA) == ((prev + ROUND_DELTA) % 0x1_0000_0000) as u32)
            by {
            vstd::arithmetic::div_mod::lemma_mod_bound(
                prev + ROUND_DELTA,
                0x1_0000_0000,
            );
            if prev + ROUND_DELTA > u32::MAX {
                vstd::arithmetic::div_mod::lemma_mod_sub_multiples_vanish(
                    prev + ROUND_DELTA,
                    0x1_0000_0000,
                );
                vstd::arithmetic::div_mod::lemma_small_mod(
                    (prev + ROUND_DELTA - 0x1_0000_0000) as nat,
                    0x1_0000_0000,
                );
            } else {
                vstd::arithmetic::div_mod::lemma_small_mod(
                    (prev + ROUND_DELTA) as nat,
                    0x1_0000_0000,
                );
            }
        }
        assert(a % 0x1_0000_0000 + ROUND_DELTA == prev + ROUND_DELTA);
        assert((n - 1) * (ROUND_DELTA as int) + ROUND_DELTA == n * (ROUND_DELTA as int)) by {
            vstd::arithmetic::mul::lemma_mul_is_distributive_add_other_way(
                ROUND_DELTA as int,
                n - 1,
                1,
            );
        }
    }
}

impl Cipher {
    /// Decrypting an encrypted block of two words gives the block back.
    pub proof fn lemma_pair_roundtrip(self, v0: u32, v1: u32)
        ensures
            self.spec_decrypt_pair(
                self.spec_encrypt_pair(v0, v1).0,
                self.spec_encrypt_pair(v0, v1).1,
            ) == (v0, v1),
    {
        let s = (v0, v1, 0u32);
        let e = self.enc_rounds(s, 16);
        lemma_enc_rounds_sum(self, s, 16);
        assert((0 + 16 * (ROUND_DELTA as int)) % 0x1_0000_0000 == DECRYPT_SUM as int);
        assert(e.2 == DECRYPT_SUM);
        assert((e.0, e.1, DECRYPT_SUM) == e);
        lemma_rounds_roundtrip(self, s, 16);
    }
}

/// Reassembling the little-endian bytes of a word gives the word back.
proof fn lemma_word_of_le_bytes(w: u32)
    ensures
        spec_le_u32(
            spec_le_bytes(w)[0],
            spec_le_bytes(w)[1],
            spec_le_bytes(w)[2],
            spec_le_bytes(w)[3],
        ) == w,
{
    let b0 = (w & 0xff) as u8;
    let b1 = ((w >> 8) & 0xff) as u8;
    let b2 = ((w >> 16) & 0xff) as u8;
    let b3 = ((w >> 24) & 0xff) as u8;
    assert((b0 as u32) | ((b1 as u32) << 8) | ((b2 as u32) << 16) | ((b3 as u32) << 24) == w)
        by (bit_vector)
        requires
            b0 == (w & 0xff) as u8,
            b1 == ((w >> 8) & 0xff) as u8,
            b2 == ((w >> 16) & 0xff) as u8,
            b3 == ((w >> 24) & 0xff) as u8,
    ;
}

/// Taking the little-endian bytes of a word assembled from four bytes
/// gives the four bytes back.
proof fn lemma_le_bytes_of_word(b0: u8, b1: u8, b2: u8, b3: u8)
    ensures
        spec_le_bytes(spec_le_u32(b0, b1, b2, b3)) == seq![b0, b1, b2, b3],
{
    let w = spec_le_u32(b0, b1, b2, b3);
    assert((w & 0xff) as u8 == b0 && ((w >> 8) & 0xff) as u8 == b1 && ((w >> 16) & 0xff) as u8
        == b2 && ((w >> 24) & 0xff) as u8 == b3)
        by (bit_vector)
        requires
            w == (b0 as u32) | ((b1 as u32) << 8) | ((b2 as u32) << 16) | ((b3 as u32) << 24),
    ;
    assert(spec_le_bytes(w) =~= seq![b0, b1, b2, b3]);
}

/// Decrypting an encrypted 8-byte block gives the block back.
proof fn lemma_block_roundtrip(c: Cipher, b: Seq<u8>)
    requires
        b.len() == 8,
    ensures
        c.spec_decrypt_block(c.spec_encrypt_block(b)) == b,
{
    let v0 = spec_le_u32(b[0], b[1], b[2], b[3]);
    let v1 = spec_le_u32(b[4], b[5], b[6], b[7]);
    let e = c.spec_encrypt_pair(v0, v1);
    let eb = spec_le_bytes(e.0) + spec_le_bytes(e.1);
    assert(eb[0] == spec_le_bytes(e.0)[0] && eb[1] == spec_le_bytes(e.0)[1] && eb[2]
        == spec_le_bytes(e.0)[2] && eb[3] == spec_le_bytes(e.0)[3]);
    assert(eb[4] == spec_le_bytes(e.1)[0] && eb[5] == spec_le_bytes(e.1)[1] && eb[6]
        == spec_le_bytes(e.1)[2] && eb[7] == spec_le_bytes(e.1)[3]);
    lemma_word_of_le_bytes(e.0);
    lemma_word_of_le_bytes(e.1);
    c.lemma_pair_roundtrip(v0, v1);
    lemma_le_bytes_of_word(b[0], b[1], b[2], b[3]);
    lemma_le_bytes_of_word(b[4], b[5], b[6], b[7]);
    assert(c.spec_decrypt_block(eb) =~= b);
}

impl Cipher {
    /// Decrypting an encrypted byte string whose length is a multiple of
    /// the block size gives the string back.
    pub proof fn lemma_stream_roundtrip(self, p: Seq<u8>)
        requires
            p.len() % 8 == 0,
        ensures
            self.spec_decrypt_bytes(self.spec_encrypt_bytes(p)) == p,
        decreases p.len(),
    {
        if p.len() == 0 {
            assert(self.spec_decrypt_bytes(self.spec_encrypt_bytes(p)) =~= p);
        } else {
            assert(p.len() >= 8) by {
                if p.len() < 8 {
                    vstd::arithmetic::div_mod::lemma_small_mod(p.len(), 8);
                }
            }
            assert((p.len() - 8) % 8 == 0) by {
                vstd::arithmetic::div_mod::lemma_fundamental_div_mod(p.len() as int, 8);
                vstd::arithmetic::div_mod::lemma_mod_multiples_basic(
                    p.len() as int / 8 - 1,
                    8,
                );
            }
            let b = p.subrange(0, 8);
            let rest = p.skip(8);
            self.lemma_stream_roundtrip(rest);
            lemma_block_roundtrip(self, b);
            let eb = self.spec_encrypt_block(b);
            let erest = self.spec_encrypt_bytes(rest);
            assert(self.spec_encrypt_bytes(p) == eb + erest);
            assert(eb.len() == 8);
            assert((eb + erest).subrange(0, 8) =~= eb);
            assert((eb + erest).skip(8) =~= erest);
            assert(self.spec_decrypt_bytes(eb + erest) == self.spec_decrypt_block(eb)
                + self.spec_decrypt_bytes(erest));
            assert(self.spec_decrypt_bytes(self.spec_encrypt_bytes(p)) =~= p);
        }
    }

    /// Encrypting then decrypting recovers the input: in full when the
    /// input's length is a multiple of 32, and as the original-length
    /// prefix of the output otherwise (the zero padding added before
    /// encryption is visible past that prefix).
    pub proof fn lemma_cipher_roundtrip(self, b: Seq<u8>)
        ensures
            self.spec_decrypt_bytes(self.spec_encrypt_bytes(spec_pad32(b))) == spec_pad32(b),
            spec_pad32(b).subrange(0, b.len() as int) == b,
            b.len() % 32 == 0 ==> self.spec_decrypt_bytes(self.spec_encrypt_bytes(b)) == b,
    {
        lemma_pad32_mult(b);
        lemma_mult32_mult8(spec_pad32(b).len() as int);
        self.lemma_stream_roundtrip(spec_pad32(b));
        assert(spec_pad32(b).subrange(0, b.len() as int) =~= b);
    }
}

/// The padded form of a byte string has a length that is a multiple
/// of 32.
proof fn lemma_pad32_mult(b: Seq<u8>)
    ensures
        spec_pad32(b).len() % 32 == 0,
{
    if b.len() % 32 != 0 {
        vstd::arithmetic::div_mod::lemma_fundamental_div_mod(b.len() as int, 32);
        vstd::arithmetic::div_mod::lemma_mod_multiples_basic(b.len() as int / 32 + 1, 32);
    }
}

/// A length that is a multiple of 32 is a multiple of 8.
proof fn lemma_mult32_mult8(l: int)
    requires
        l >= 0,
        l % 32 == 0,
    ensures
        l % 8 == 0,
{
    vstd::arithmetic::div_mod::lemma_fundamental_div_mod(l, 32);
    vstd::arithmetic::div_mod::lemma_mod_multiples_basic(4 * (l / 32), 8);
}

} // verus!
