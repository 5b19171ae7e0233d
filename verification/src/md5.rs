//! MD5 (RFC 1321).

use vstd::prelude::*;
use crate::str_util::{c_len, c_str, hex_char, lemma_c_len_unique};

verus! {

// ---------------------------------------------------------------------------
// The algorithm as RFC 1321 states it
// ---------------------------------------------------------------------------

/// Per-step additive constants T[i] = floor(2^32 * |sin(i + 1)|).
pub const MD5_K: [u32; 64] = [
    0xd76aa478, 0xe8c7b756, 0x242070db, 0xc1bdceee, 0xf57c0faf, 0x4787c62a, 0xa8304613, 0xfd469501,
    0x698098d8, 0x8b44f7af, 0xffff5bb1, 0x895cd7be, 0x6b901122, 0xfd987193, 0xa679438e, 0x49b40821,
    0xf61e2562, 0xc040b340, 0x265e5a51, 0xe9b6c7aa, 0xd62f105d, 0x02441453, 0xd8a1e681, 0xe7d3fbc8,
    0x21e1cde6, 0xc33707d6, 0xf4d50d87, 0x455a14ed, 0xa9e3e905, 0xfcefa3f8, 0x676f02d9, 0x8d2a4c8a,
    0xfffa3942, 0x8771f681, 0x6d9d6122, 0xfde5380c, 0xa4beea44, 0x4bdecfa9, 0xf6bb4b60, 0xbebfbc70,
    0x289b7ec6, 0xeaa127fa, 0xd4ef3085, 0x04881d05, 0xd9d4d039, 0xe6db99e5, 0x1fa27cf8, 0xc4ac5665,
    0xf4292244, 0x432aff97, 0xab9423a7, 0xfc93a039, 0x655b59c3, 0x8f0ccc92, 0xffeff47d, 0x85845dd1,
    0x6fa87e4f, 0xfe2ce6e0, 0xa3014314, 0x4e0811a1, 0xf7537e82, 0xbd3af235, 0x2ad7d2bb, 0xeb86d391,
];

/// Per-step left-rotation amounts.
pub const MD5_S: [u32; 64] = [
    7, 12, 17, 22, 7, 12, 17, 22, 7, 12, 17, 22, 7, 12, 17, 22,
    5, 9, 14, 20, 5, 9, 14, 20, 5, 9, 14, 20, 5, 9, 14, 20,
    4, 11, 16, 23, 4, 11, 16, 23, 4, 11, 16, 23, 4, 11, 16, 23,
    6, 10, 15, 21, 6, 10, 15, 21, 6, 10, 15, 21, 6, 10, 15, 21,
];

/// The four 32-bit chaining words (A, B, C, D).
pub type Md5State = (u32, u32, u32, u32);

pub open spec fn md5_init() -> Md5State {
    (0x67452301u32, 0xefcdab89u32, 0x98badcfeu32, 0x10325476u32)
}

/// Addition modulo 2^32.
pub open spec fn add32(x: u32, y: u32) -> u32 {
    ((x as int + y as int) % 0x1_0000_0000) as u32
}

pub open spec fn spec_f(x: u32, y: u32, z: u32) -> u32 {
    (x & y) | (!x & z)
}

pub open spec fn spec_g(x: u32, y: u32, z: u32) -> u32 {
    (x & z) | (y & !z)
}

pub open spec fn spec_h(x: u32, y: u32, z: u32) -> u32 {
    x ^ y ^ z
}

pub open spec fn spec_i(x: u32, y: u32, z: u32) -> u32 {
    y ^ (x | !z)
}

/// `x` rotated left by `s` bits.
pub open spec fn rotl32(x: u32, s: u32) -> u32 {
    ((x << s) | (x >> ((32 - s) as u32))) as u32
}

/// The auxiliary function used in step `i`.
pub open spec fn round_fn(i: int, b: u32, c: u32, d: u32) -> u32 {
    if i < 16 {
        spec_f(b, c, d)
    } else if i < 32 {
        spec_g(b, c, d)
    } else if i < 48 {
        spec_h(b, c, d)
    } else {
        spec_i(b, c, d)
    }
}

/// The message word used in step `i`.
pub open spec fn word_index(i: int) -> int {
    if i < 16 {
        i
    } else if i < 32 {
        (5 * i + 1) % 16
    } else if i < 48 {
        (3 * i + 5) % 16
    } else {
        (7 * i) % 16
    }
}

/// Little-endian 32-bit word `j` of a 64-byte block.
pub open spec fn block_word(block: Seq<u8>, j: int) -> u32 {
    (block[4 * j] as int + 256 * block[4 * j + 1] as int + 65536 * block[4 * j + 2] as int
        + 16777216 * block[4 * j + 3] as int) as u32
}

/// Step `i` of the compression function, with `w` the message word it uses.
pub open spec fn md5_step(i: int, s: Md5State, w: u32) -> Md5State {
    let (a, b, c, d) = s;
    let t = add32(add32(add32(a, round_fn(i, b, c, d)), w), MD5_K[i]);
    (d, add32(b, rotl32(t, MD5_S[i])), b, c)
}

/// The working registers after the first `n` of the 64 steps.
pub open spec fn md5_steps(block: Seq<u8>, n: nat, start: Md5State) -> Md5State
    decreases n,
{
    if n == 0 {
        start
    } else {
        let i = n - 1;
        md5_step(i, md5_steps(block, i as nat, start), block_word(block, word_index(i)))
    }
}

/// The MD5 compression function on one 64-byte block.
#[verifier::opaque]
pub open spec fn md5_compress(s: Md5State, block: Seq<u8>) -> Md5State {
    let (a, b, c, d) = md5_steps(block, 64, s);
    (add32(s.0, a), add32(s.1, b), add32(s.2, c), add32(s.3, d))
}

/// Compresses `data` block by block (a trailing partial block is not consumed).
pub open spec fn md5_blocks(s: Md5State, data: Seq<u8>) -> Md5State
    decreases data.len(),
{
    if data.len() < 64 {
        s
    } else {
        md5_blocks(md5_compress(s, data.take(64)), data.skip(64))
    }
}

/// Number of padding bytes (0x80 followed by zeros) before the length field.
pub open spec fn md5_pad_len(len: nat) -> nat {
    let r = len % 64;
    if r < 56 {
        (56 - r) as nat
    } else {
        (120 - r) as nat
    }
}

/// Little-endian bytes of `v`, `n` of them.
pub open spec fn le_bytes(v: nat, n: nat) -> Seq<u8> {
    Seq::new(n, |k: int| ((v / pow256(k)) % 256) as u8)
}

pub open spec fn pow256(k: int) -> nat
    decreases k,
{
    if k <= 0 {
        1
    } else {
        256 * pow256(k - 1)
    }
}

/// The message followed by RFC 1321 padding and the 64-bit bit length.
pub open spec fn md5_padded(msg: Seq<u8>) -> Seq<u8> {
    msg + seq![0x80u8] + Seq::new((md5_pad_len(msg.len()) - 1) as nat, |k: int| 0u8) + le_bytes(
        8 * msg.len(),
        8,
    )
}

/// Chaining word `i` (0 = A, ..., 3 = D).
pub open spec fn state_word(s: Md5State, i: int) -> u32 {
    if i == 0 {
        s.0
    } else if i == 1 {
        s.1
    } else if i == 2 {
        s.2
    } else {
        s.3
    }
}

/// Serialised chaining words: A, B, C, D, each little-endian.
pub open spec fn state_bytes(s: Md5State) -> Seq<u8> {
    Seq::new(16, |t: int| ((state_word(s, t / 4) as nat / pow256(t % 4)) % 256) as u8)
}

/// The MD5 digest of `msg`.
pub open spec fn md5(msg: Seq<u8>) -> Seq<u8> {
    state_bytes(md5_blocks(md5_init(), md5_padded(msg)))
}

/// Two lower-case hex digits per byte, high nibble first.
pub open spec fn hex_of(d: Seq<u8>) -> Seq<u8> {
    Seq::new(
        2 * d.len(),
        |k: int|
            if k % 2 == 0 {
                hex_char(d[k / 2] as int / 16)
            } else {
                hex_char(d[k / 2] as int % 16)
            },
    )
}

// ---------------------------------------------------------------------------
// Lemmas
// ---------------------------------------------------------------------------

/// Compressing a whole-block prefix first and the rest afterwards gives the same state.
pub proof fn lemma_blocks_append(s: Md5State, a: Seq<u8>, b: Seq<u8>)
    requires
        a.len() % 64 == 0,
    ensures
        md5_blocks(s, a + b) == md5_blocks(md5_blocks(s, a), b),
    decreases a.len(),
{
    if a.len() == 0 {
        assert(a + b =~= b);
    } else {
        assert((a + b).take(64) =~= a.take(64));
        assert((a + b).skip(64) =~= a.skip(64) + b);
        lemma_blocks_append(md5_compress(s, a.take(64)), a.skip(64), b);
    }
}

/// Compressing one more block.
pub proof fn lemma_blocks_extend(s: Md5State, a: Seq<u8>, blk: Seq<u8>)
    requires
        a.len() % 64 == 0,
        blk.len() == 64,
    ensures
        md5_blocks(s, a + blk) == md5_compress(md5_blocks(s, a), blk),
{
    lemma_blocks_append(s, a, blk);
    let x = md5_blocks(s, a);
    assert(blk.take(64) =~= blk);
    assert(blk.skip(64).len() == 0);
    assert(md5_blocks(x, blk) == md5_blocks(md5_compress(x, blk.take(64)), blk.skip(64)));
    assert(md5_blocks(md5_compress(x, blk), blk.skip(64)) == md5_compress(x, blk));
}

proof fn lemma_add32(x: u32, y: u32)
    ensures
        x.wrapping_add(y) == add32(x, y),
{
}

// ---------------------------------------------------------------------------
// Executable implementation
// ---------------------------------------------------------------------------

#[inline(always)]
fn f(x: u32, y: u32, z: u32) -> (r: u32)
    ensures
        r == spec_f(x, y, z),
{
    (x & y) | ((!x) & z)
}

#[inline(always)]
fn g(x: u32, y: u32, z: u32) -> (r: u32)
    ensures
        r == spec_g(x, y, z),
{
    (x & z) | (y & (!z))
}

#[inline(always)]
fn h(x: u32, y: u32, z: u32) -> (r: u32)
    ensures
        r == spec_h(x, y, z),
{
    x ^ y ^ z
}

#[inline(always)]
fn ii(x: u32, y: u32, z: u32) -> (r: u32)
    ensures
        r == spec_i(x, y, z),
{
    y ^ (x | (!z))
}

fn rotate_left(x: u32, s: u32) -> (r: u32)
    requires
        0 < s < 32,
    ensures
        r == rotl32(x, s),
{
    (x << s) | (x >> (32 - s))
}

/// One step of the compression function.
fn one_step(i: usize, a: u32, b: u32, c: u32, d: u32, w: u32) -> (r: Md5State)
    requires
        i < 64,
    ensures
        r == md5_step(i as int, (a, b, c, d), w),
{
    let fv = step_fn(i, b, c, d);
    let t = a.wrapping_add(fv).wrapping_add(w).wrapping_add(MD5_K[i]);
    let rs = MD5_S[i];
    assert(0 < rs < 32);
    let nb = b.wrapping_add(rotate_left(t, rs));
    proof {
        lemma_add32(a, fv);
        lemma_add32(a.wrapping_add(fv), w);
        lemma_add32(a.wrapping_add(fv).wrapping_add(w), MD5_K[i as int]);
        lemma_add32(b, rotl32(t, rs));
    }
    (d, nb, b, c)
}

/// One MD5 step function value for step `i`.
fn step_fn(i: usize, b: u32, c: u32, d: u32) -> (r: u32)
    requires
        i < 64,
    ensures
        r == round_fn(i as int, b, c, d),
{
    if i < 16 {
        f(b, c, d)
    } else if i < 32 {
        g(b, c, d)
    } else if i < 48 {
        h(b, c, d)
    } else {
        ii(b, c, d)
    }
}

fn word_at(i: usize) -> (r: usize)
    requires
        i < 64,
    ensures
        r == word_index(i as int),
        r < 16,
{
    if i < 16 {
        i
    } else if i < 32 {
        (5 * i + 1) % 16
    } else if i < 48 {
        (3 * i + 5) % 16
    } else {
        (7 * i) % 16
    }
}

/// Apply the compression function to `state` with one 64-byte block.
fn md5_transform(state: &mut [u32; 4], block: &[u8])
    requires
        block@.len() >= 64,
    ensures
        (final(state)@[0], final(state)@[1], final(state)@[2], final(state)@[3]) == md5_compress(
            (old(state)@[0], old(state)@[1], old(state)@[2], old(state)@[3]),
            block@,
        ),
{
    let ghost s0: Md5State = (state[0], state[1], state[2], state[3]);
    let mut m = [0u32; 16];
    let mut j: usize = 0;
    while j < 16
        invariant
            j <= 16,
            block@.len() >= 64,
            forall|t: int| 0 <= t < j ==> m@[t] == block_word(block@, t),
        decreases 16 - j,
    {
        m[j] = (block[4 * j] as u32) + (block[4 * j + 1] as u32) * 256 + (block[4 * j + 2] as u32)
            * 65536 + (block[4 * j + 3] as u32) * 16777216;
        j += 1;
    }
    let mut a = state[0];
    let mut b = state[1];
    let mut c = state[2];
    let mut d = state[3];
    let mut i: usize = 0;
    while i < 64
        invariant
            i <= 64,
            forall|t: int| 0 <= t < 16 ==> m@[t] == block_word(block@, t),
            (a, b, c, d) == md5_steps(block@, i as nat, s0),
        decreases 64 - i,
    {
        let w = word_at(i);
        let (na, nb, nc, nd) = one_step(i, a, b, c, d, m[w]);
        a = na;
        b = nb;
        c = nc;
        d = nd;
        i += 1;
    }
    proof {
        reveal(md5_compress);
        lemma_add32(state[0], a);
        lemma_add32(state[1], b);
        lemma_add32(state[2], c);
        lemma_add32(state[3], d);
    }
    state[0] = state[0].wrapping_add(a);
    state[1] = state[1].wrapping_add(b);
    state[2] = state[2].wrapping_add(c);
    state[3] = state[3].wrapping_add(d);
}

proof fn lemma_pow256_pos(k: int)
    ensures
        pow256(k) > 0,
    decreases k,
{
    if k > 0 {
        lemma_pow256_pos(k - 1);
    }
}


/// A streaming context (chaining words `chain`, bit count `count`, pending
/// block `pending`) that has absorbed exactly the bytes of `msg`: the whole
/// blocks compressed, the rest held pending.
pub open spec fn md5_absorbed(chain: Md5State, count: u64, pending: Seq<u8>, msg: Seq<u8>) -> bool {
    let full = msg.len() - msg.len() % 64;
    &&& count as int == 8 * msg.len()
    &&& chain == md5_blocks(md5_init(), msg.take(full))
    &&& pending.take((msg.len() % 64) as int) == msg.skip(full)
}

/// Streaming does not depend on how the message is split: feeding `a` and
/// then `b` leaves a context that absorbed `a + b` (the contract of each
/// update), as feeding `a + b` at once does, and two contexts that absorbed
/// the same bytes agree on chaining words, bit count and pending bytes.
pub proof fn lemma_absorbed_split(
    a: Seq<u8>,
    b: Seq<u8>,
    c1: Md5State,
    n1: u64,
    p1: Seq<u8>,
    c2: Md5State,
    n2: u64,
    p2: Seq<u8>,
)
    requires
        md5_absorbed(c1, n1, p1, a + b),
        md5_absorbed(c2, n2, p2, Seq::empty() + (a + b)),
    ensures
        c1 == c2,
        n1 == n2,
        p1.take(((a + b).len() % 64) as int) == p2.take(((a + b).len() % 64) as int),
{
    assert(Seq::<u8>::empty() + (a + b) =~= a + b);
}

/// Streaming MD5 state: chaining words, message length in bits, pending partial block.
struct Md5Ctx {
    state: [u32; 4],
    count: u64,
    buffer: [u8; 64],
}

impl Md5Ctx {
    spec fn chain(&self) -> Md5State {
        (self.state@[0], self.state@[1], self.state@[2], self.state@[3])
    }

    /// The context has absorbed exactly the bytes of `msg`.
    spec fn absorbed(&self, msg: Seq<u8>) -> bool {
        md5_absorbed(self.chain(), self.count, self.buffer@, msg)
    }

    fn new() -> (ctx: Self)
        ensures
            ctx.absorbed(Seq::empty()),
    {
        let ctx = Md5Ctx {
            state: [0x67452301, 0xefcdab89, 0x98badcfe, 0x10325476],
            count: 0,
            buffer: [0; 64],
        };
        assert(ctx.buffer@.take(0) =~= Seq::<u8>::empty().skip(0));
        ctx
    }

    #[verifier::rlimit(60)]
    fn update(&mut self, data: &[u8], Ghost(msg): Ghost<Seq<u8>>)
        requires
            old(self).absorbed(msg),
            8 * (msg.len() + data@.len()) < 0x1_0000_0000_0000_0000,
        ensures
            final(self).absorbed(msg + data@),
    {
        let ghost total = msg + data@;
        let ghost full = msg.len() - msg.len() % 64;
        let index = ((self.count / 8) % 64) as usize;
        assert(index == msg.len() % 64);
        self.count = self.count + (data.len() as u64) * 8;
        let mut i: usize = 0;
        assert(msg.take(full) =~= total.take(full));
        let ghost old_buf = self.buffer@;
        assert(forall|t: int| 0 <= t < index ==> old_buf[t] == #[trigger] total[full + t]) by {
            assert forall|t: int| 0 <= t < index implies old_buf[t] == #[trigger] total[full + t] by {
                assert(old_buf.take(index as int)[t] == msg.skip(full)[t]);
            }
        }
        if index > 0 {
            let part_len = 64 - index;
            if data.len() >= part_len {
                copy_bytes(&mut self.buffer, index, data, 0, part_len);
                assert forall|t: int| 0 <= t < 64 implies self.buffer@[t] == total.subrange(full, full + 64)[t] by {
                    if t >= index {
                        assert(total[full + t] == data@[t - index]);
                    }
                }
                assert(self.buffer@ =~= total.subrange(full, full + 64));
                let block = self.buffer;
                md5_transform(&mut self.state, &block);
                proof {
                    lemma_blocks_extend(md5_init(), total.take(full), block@);
                    assert(total.take(full) + block@ =~= total.take(full + 64));
                }
                i = part_len;
            } else {
                copy_bytes(&mut self.buffer, index, data, 0, data.len());
                proof {
                    assert(total.len() % 64 == index + data@.len());
                    assert forall|t: int| 0 <= t < index + data@.len() implies self.buffer@[t] == total.skip(full)[t] by {
                        if t >= index {
                            assert(total[full + t] == data@[t - index]);
                        }
                    }
                    assert(self.buffer@.take((total.len() % 64) as int) =~= total.skip(full));
                }
                return;
            }
        }
        while i <= data.len() && data.len() - i >= 64
            invariant
                i <= data@.len(),
                total == msg + data@,
                (msg.len() + i) % 64 == 0,
                self.count as int == 8 * total.len(),
                self.chain() == md5_blocks(md5_init(), total.take(msg.len() + i)),
            decreases data@.len() - i,
        {
            let ghost p = msg.len() + i;
            md5_transform(&mut self.state, &data[i..i + 64]);
            proof {
                assert(data@.subrange(i as int, i + 64) =~= total.subrange(p, p + 64));
                lemma_blocks_extend(md5_init(), total.take(p), total.subrange(p, p + 64));
                assert(total.take(p) + total.subrange(p, p + 64) =~= total.take(p + 64));
            }
            i += 64;
        }
        let remaining = data.len() - i;
        copy_bytes(&mut self.buffer, 0, data, i, remaining);
        proof {
            let p = msg.len() + i;
            assert(total.len() % 64 == remaining) by {
                assert(p % 64 == 0);
                assert(total.len() == p + remaining);
            }
            assert(total.len() - total.len() % 64 == p);
            assert(self.buffer@.take(remaining as int) =~= total.skip(p));
        }
    }

    fn finalize(&mut self, digest: &mut [u8; 16], Ghost(msg): Ghost<Seq<u8>>)
        requires
            old(self).absorbed(msg),
            8 * (msg.len() + 128) < 0x1_0000_0000_0000_0000,
        ensures
            final(digest)@ == md5(msg),
    {
        let bit_count = self.count;
        let index = ((self.count / 8) % 64) as usize;
        let pad_len = if index < 56 { 56 - index } else { 120 - index };
        let mut padding = [0u8; 64];
        padding[0] = 0x80;
        let ghost pad = seq![0x80u8] + Seq::new((md5_pad_len(msg.len()) - 1) as nat, |k: int| 0u8);
        assert(padding@.subrange(0, pad_len as int) =~= pad);
        self.update(&padding[0..pad_len], Ghost(msg));

        let mut bits = [0u8; 8];
        let mut v: u64 = bit_count;
        let mut k: usize = 0;
        assert(pow256(0) == 1);
        while k < 8
            invariant
                k <= 8,
                bit_count as int == 8 * msg.len(),
                v as int == (bit_count as int) / (pow256(k as int) as int),
                forall|t: int| 0 <= t < k ==> bits@[t] == le_bytes(8 * msg.len(), 8)[t],
            decreases 8 - k,
        {
            bits[k] = (v % 256) as u8;
            proof {
                lemma_pow256_pos(k as int);
                vstd::arithmetic::div_mod::lemma_div_denominator(bit_count as int, pow256(k as int) as int, 256);
                assert(pow256(k as int + 1) == pow256(k as int) * 256);
            }
            v = v / 256;
            k += 1;
        }
        assert(bits@ =~= le_bytes(8 * msg.len(), 8));
        self.update(&bits, Ghost(msg + pad));
        let ghost padded = msg + pad + bits@;
        assert(padded =~= md5_padded(msg));
        assert(padded.len() % 64 == 0);
        assert(padded.take(padded.len() as int) =~= padded);

        proof {
            reveal_with_fuel(pow256, 4);
        }
        let mut w: usize = 0;
        while w < 4
            invariant
                w <= 4,
                pow256(0) == 1 && pow256(1) == 256 && pow256(2) == 65536 && pow256(3) == 16777216,
                forall|t: int| 0 <= t < 4 * w ==> digest@[t] == state_bytes(self.chain())[t],
            decreases 4 - w,
        {
            let sw = self.state[w];
            digest[4 * w] = (sw % 256) as u8;
            digest[4 * w + 1] = (sw / 256 % 256) as u8;
            digest[4 * w + 2] = (sw / 65536 % 256) as u8;
            digest[4 * w + 3] = (sw / 16777216 % 256) as u8;
            proof {
                let sb = state_bytes(self.chain());
                assert(state_word(self.chain(), w as int) == sw);
                assert((4 * w as int) / 4 == w as int && (4 * w as int) % 4 == 0);
                assert((4 * w as int + 1) / 4 == w as int && (4 * w as int + 1) % 4 == 1);
                assert((4 * w as int + 2) / 4 == w as int && (4 * w as int + 2) % 4 == 2);
                assert((4 * w as int + 3) / 4 == w as int && (4 * w as int + 3) % 4 == 3);
                assert(digest@[4 * w as int] == sb[4 * w as int]);
                assert(digest@[4 * w as int + 1] == sb[4 * w as int + 1]);
                assert(digest@[4 * w as int + 2] == sb[4 * w as int + 2]);
                assert(digest@[4 * w as int + 3] == sb[4 * w as int + 3]);
            }
            w += 1;
        }
        assert(digest@ =~= state_bytes(self.chain()));
    }
}

/// Copies `src[from..from+n]` into `dst` at `at`.
fn copy_bytes(dst: &mut [u8; 64], at: usize, src: &[u8], from: usize, n: usize)
    requires
        at + n <= 64,
        from + n <= src.len(),
    ensures
        final(dst)@ == crate::str_util::splice(old(dst)@, at as int, src@.subrange(from as int, from + n)),
{
    let mut j: usize = 0;
    while j < n
        invariant
            j <= n,
            at + n <= 64,
            from + n <= src.len(),
            dst@ == crate::str_util::splice(old(dst)@, at as int, src@.subrange(from as int, from + j)),
        decreases n - j,
    {
        dst[at + j] = src[from + j];
        j += 1;
        assert(dst@ =~= crate::str_util::splice(old(dst)@, at as int, src@.subrange(from as int, from + j)));
    }
}

/// Compute MD5 hash of `data`, writing 16-byte digest to `digest`.
pub fn md5_hash(data: &[u8], digest: &mut [u8; 16])
    requires
        data@.len() < 0x0100_0000_0000_0000,
    ensures
        final(digest)@ == md5(data@),
{
    let mut ctx = Md5Ctx::new();
    ctx.update(data, Ghost(Seq::empty()));
    assert(Seq::<u8>::empty() + data@ =~= data@);
    ctx.finalize(digest, Ghost(data@));
}

/// Convert a 16-byte digest to a 32-character hex string (null-terminated, 33 bytes).
pub fn md5_hex(digest: &[u8; 16], hex: &mut [u8; 33])
    ensures
        final(hex)@ == hex_of(digest@).push(0u8),
{
    let tab: [u8; 16] = [
        0x30, 0x31, 0x32, 0x33, 0x34, 0x35, 0x36, 0x37,
        0x38, 0x39, 0x61, 0x62, 0x63, 0x64, 0x65, 0x66,
    ];
    let mut i: usize = 0;
    while i < 16
        invariant
            i <= 16,
            forall|t: int| 0 <= t < 16 ==> tab@[t] == hex_char(t),
            forall|k: int| 0 <= k < 2 * i ==> hex@[k] == hex_of(digest@)[k],
        decreases 16 - i,
    {
        let b = digest[i];
        proof {
            assert((b >> 4) == b / 16) by (bit_vector);
            assert((b & 0x0F) == b % 16) by (bit_vector);
        }
        hex[i * 2] = tab[(b >> 4) as usize];
        hex[i * 2 + 1] = tab[(b & 0x0F) as usize];
        i += 1;
    }
    hex[32] = 0;
    assert(hex@ =~= hex_of(digest@).push(0u8));
}


/// A hex rendering holds no NUL byte, so it is the C string of itself with a
/// terminator.
pub proof fn lemma_hex_c_str(d: Seq<u8>)
    ensures
        c_len(hex_of(d).push(0u8)) == 2 * d.len(),
        c_str(hex_of(d).push(0u8)) == hex_of(d),
{
    let h = hex_of(d).push(0u8);
    assert forall|i: int| 0 <= i < 2 * d.len() implies h[i] != 0 by {
        assert(h[i] == hex_of(d)[i]);
    }
    lemma_c_len_unique(h, 2 * d.len() as int);
    assert(c_str(h) =~= hex_of(d));
}

} // verus!
