//! Little-endian word codec.
//!
//! Every multi-byte quantity exchanged with the device is little-endian:
//! the 32-bit fields of a firmware image as well as the sample words of
//! the bulk data stream (one word per `sample_bytes` consecutive bytes,
//! byte 0 least significant).

use vstd::prelude::*;

verus! {

use vstd::arithmetic::div_mod::lemma_fundamental_div_mod_converse;
use vstd::arithmetic::mul::lemma_mul_inequality;
use vstd::arithmetic::mul::lemma_mul_is_associative;
use vstd::arithmetic::mul::lemma_mul_is_distributive_add;

/// The value of a little-endian byte sequence, byte 0 least significant.
pub open spec fn le_value(s: Seq<u8>) -> int
    decreases s.len(),
{
    if s.len() == 0 {
        0
    } else {
        s[0] + 0x100 * le_value(s.skip(1))
    }
}

/// The `n`-byte little-endian encoding of `v` (truncated to `n` bytes).
pub open spec fn le_bytes(v: int, n: nat) -> Seq<u8>
    decreases n,
{
    if n == 0 {
        Seq::empty()
    } else {
        seq![(v % 0x100) as u8] + le_bytes(v / 0x100, (n - 1) as nat)
    }
}

/// `0x100^n`, the number of values an `n`-byte word can take.
pub open spec fn pow256(n: nat) -> int
    decreases n,
{
    if n == 0 {
        1
    } else {
        0x100 * pow256((n - 1) as nat)
    }
}

pub proof fn lemma_pow256_values()
    ensures
        pow256(0) == 1,
        pow256(1) == 0x100,
        pow256(2) == 0x10000,
        pow256(3) == 0x1000000,
        pow256(4) == 0x1_0000_0000,
{
    reveal_with_fuel(pow256, 5);
}

pub proof fn lemma_le_value_bound(s: Seq<u8>)
    ensures
        0 <= le_value(s) < pow256(s.len()),
    decreases s.len(),
{
    if s.len() == 0 {
    } else {
        lemma_le_value_bound(s.skip(1));
    }
}

/// Appending a byte adds its value at the next power of 0x100.
pub proof fn lemma_le_value_push(s: Seq<u8>, b: u8)
    ensures
        le_value(s.push(b)) == le_value(s) + pow256(s.len()) * b,
    decreases s.len(),
{
    if s.len() == 0 {
        assert(s.push(b).skip(1) =~= Seq::<u8>::empty());
        assert(s.push(b)[0] == b);
        assert(le_value(s.push(b)) == b + 0x100 * le_value(Seq::<u8>::empty()));
        assert(pow256(s.len()) * b == b) by {
            vstd::arithmetic::mul::lemma_mul_basics_3(b as int);
        }
    } else {
        let t = s.skip(1);
        assert(s.push(b).skip(1) =~= t.push(b));
        lemma_le_value_push(t, b);
        assert(le_value(s.push(b)) == s[0] + 0x100 * le_value(t.push(b)));
        assert(0x100 * (le_value(t) + pow256(t.len()) * b) == 0x100 * le_value(t) + 0x100 * (
        pow256(t.len()) * b)) by {
            lemma_mul_is_distributive_add(0x100, le_value(t), pow256(t.len()) * b);
        }
        assert(0x100 * (pow256(t.len()) * b) == (0x100 * pow256(t.len())) * b) by {
            lemma_mul_is_associative(0x100, pow256(t.len()), b as int);
        }
        assert(pow256(s.len()) == 0x100 * pow256(t.len()));
    }
}

/// Decoding is inverted exactly by encoding at the same width.
pub proof fn lemma_le_bytes_of_le_value(s: Seq<u8>)
    ensures
        le_bytes(le_value(s), s.len()) =~= s,
    decreases s.len(),
{
    if s.len() == 0 {
    } else {
        lemma_le_value_bound(s.skip(1));
        lemma_fundamental_div_mod_converse(le_value(s), 0x100, le_value(s.skip(1)), s[0] as int);
        lemma_le_bytes_of_le_value(s.skip(1));
        assert(le_bytes(le_value(s), s.len()) =~= s);
    }
}

/// Encoding is inverted exactly by decoding, for values that fit.
pub proof fn lemma_le_value_of_le_bytes(v: int, n: nat)
    requires
        0 <= v < pow256(n),
    ensures
        le_bytes(v, n).len() == n,
        le_value(le_bytes(v, n)) == v,
    decreases n,
{
    if n == 0 {
    } else {
        assert(le_bytes(v, n).skip(1) =~= le_bytes(v / 0x100, (n - 1) as nat));
        assert(v / 0x100 < pow256((n - 1) as nat)) by {
            if v / 0x100 >= pow256((n - 1) as nat) {
                lemma_mul_inequality(pow256((n - 1) as nat), v / 0x100, 0x100);
                vstd::arithmetic::div_mod::lemma_fundamental_div_mod(v, 0x100);
            }
        }
        assert(v / 0x100 >= 0) by {
            vstd::arithmetic::div_mod::lemma_div_pos_is_pos(v, 0x100);
        }
        lemma_le_value_of_le_bytes(v / 0x100, (n - 1) as nat);
        vstd::arithmetic::div_mod::lemma_fundamental_div_mod(v, 0x100);
    }
}

/// Reads one little-endian word of `width` bytes at `offset`.
pub fn decode_word(buf: &[u8], offset: usize, width: usize) -> (r: u32)
    requires
        1 <= width <= 4,
        offset + width <= buf@.len(),
    ensures
        r == le_value(buf@.subrange(offset as int, offset + width)),
{
    let ghost target = buf@.subrange(offset as int, offset + width);
    let mut word: u64 = 0;
    let mut scale: u64 = 1;
    let mut i: usize = 0;
    while i < width
        invariant
            0 <= i <= width <= 4,
            offset + width <= buf@.len(),
            target == buf@.subrange(offset as int, offset + width),
            scale == pow256(i as nat),
            word == le_value(target.take(i as int)),
        decreases width - i,
    {
        let buf_len = buf.len();
        proof {
            assert(offset + i < buf_len);
        }
        let b = buf[offset + i];
        proof {
            lemma_pow256_values();
            lemma_le_value_bound(target.take(i as int));
            lemma_mul_inequality(b as int, 0xff, pow256(i as nat));
            assert(b * scale <= 0xff * pow256(i as nat));
            assert(target[i as int] == buf@[offset + i]);
            assert(target.take(i as int).push(target[i as int]) =~= target.take(i + 1));
            lemma_le_value_push(target.take(i as int), target[i as int]);
            vstd::arithmetic::mul::lemma_mul_is_commutative(pow256(i as nat), b as int);
            assert(pow256((i + 1) as nat) == 0x100 * pow256(i as nat));
            assert(scale <= 0x1000000);
            assert(word + b * scale < 0x100 * pow256(i as nat));
            assert(0x100 * pow256(i as nat) <= 0x1_0000_0000);
        }
        word = word + (b as u64) * scale;
        scale = scale * 0x100;
        i = i + 1;
    }
    proof {
        assert(target.take(width as int) =~= target);
        lemma_le_value_bound(target);
        lemma_pow256_values();
    }
    word as u32
}

/// Writes `word` as `width` little-endian bytes.
pub fn encode_word(word: u32, width: usize) -> (r: Vec<u8>)
    requires
        1 <= width <= 4,
    ensures
        r@ == le_bytes(word as int, width as nat),
        r@.len() == width,
{
    let mut out: Vec<u8> = Vec::new();
    let mut v: u32 = word;
    let mut i: usize = 0;
    while i < width
        invariant
            0 <= i <= width,
            le_bytes(word as int, width as nat) =~= out@ + le_bytes(
                v as int,
                (width - i) as nat,
            ),
            out@.len() == i,
        decreases width - i,
    {
        proof {
            assert(le_bytes(v as int, (width - i) as nat) =~= seq![(v as int % 0x100) as u8]
                + le_bytes(v as int / 0x100, (width - i - 1) as nat));
            assert(out@ + (seq![(v as int % 0x100) as u8] + le_bytes(
                v as int / 0x100,
                (width - i - 1) as nat,
            )) =~= (out@ + seq![(v as int % 0x100) as u8]) + le_bytes(
                v as int / 0x100,
                (width - i - 1) as nat,
            ));
        }
        out.push((v % 0x100) as u8);
        v = v / 0x100;
        i = i + 1;
    }
    proof {
        assert(le_bytes(v as int, 0) =~= Seq::<u8>::empty());
        assert(out@ + Seq::<u8>::empty() =~= out@);
    }
    out
}

/// All sample words decoded from a raw buffer, in order; a trailing run
/// shorter than one word is discarded.
pub open spec fn decoded_words(buf: Seq<u8>, w: nat) -> Seq<u32>
    decreases buf.len(),
{
    if w == 0 || buf.len() < w {
        Seq::empty()
    } else {
        seq![le_value(buf.take(w as int)) as u32] + decoded_words(buf.skip(w as int), w)
    }
}

/// The little-endian bytes of all words in order, `w` bytes per word.
pub open spec fn encoded_words(ws: Seq<u32>, w: nat) -> Seq<u8>
    decreases ws.len(),
{
    if ws.len() == 0 {
        Seq::empty()
    } else {
        le_bytes(ws[0] as int, w) + encoded_words(ws.skip(1), w)
    }
}

/// Round trip: a buffer of whole words decodes into exactly
/// `len / width` sample words, and re-encoding each word back to
/// little-endian bytes reproduces the buffer.
pub proof fn lemma_decode_encode_roundtrip(buf: Seq<u8>, w: nat)
    requires
        1 <= w <= 4,
        buf.len() % w == 0,
    ensures
        decoded_words(buf, w).len() == buf.len() / w,
        encoded_words(decoded_words(buf, w), w) =~= buf,
    decreases buf.len(),
{
    if buf.len() == 0 {
        assert(buf.len() / w == 0) by {
            vstd::arithmetic::div_mod::lemma_div_of0(w as int);
        }
    } else {
        vstd::arithmetic::div_mod::lemma_mod_is_zero(buf.len(), w);
        let head = buf.take(w as int);
        let tail = buf.skip(w as int);
        assert(tail.len() % w == 0) by {
            vstd::arithmetic::div_mod::lemma_mod_sub_multiples_vanish(buf.len() as int, w as int);
        }
        lemma_decode_encode_roundtrip(tail, w);
        lemma_le_value_bound(head);
        lemma_pow256_values();
        lemma_le_bytes_of_le_value(head);
        let ws = decoded_words(buf, w);
        assert(ws == seq![le_value(head) as u32] + decoded_words(tail, w));
        assert(ws.skip(1) =~= decoded_words(tail, w));
        assert(ws[0] as int == le_value(head));
        assert(encoded_words(ws, w) == le_bytes(ws[0] as int, w) + encoded_words(ws.skip(1), w));
        assert(le_bytes(ws[0] as int, w) =~= head);
        assert(head + tail =~= buf);
        assert(ws.len() == buf.len() / w) by {
            vstd::arithmetic::div_mod::lemma_div_plus_one((buf.len() - w) as int, w as int);
        }
    }
}

/// Streaming in order: when a buffer holds whole words only, the words
/// of it followed by another buffer are its own words followed by the
/// other buffer's words.
pub proof fn lemma_decoded_words_append(a: Seq<u8>, b: Seq<u8>, w: nat)
    requires
        1 <= w,
        a.len() % w == 0,
    ensures
        decoded_words(a + b, w) =~= decoded_words(a, w) + decoded_words(b, w),
    decreases a.len(),
{
    if a.len() == 0 {
        assert(a + b =~= b);
        assert(decoded_words(a, w) =~= Seq::<u32>::empty());
        assert(Seq::<u32>::empty() + decoded_words(b, w) =~= decoded_words(b, w));
    } else {
        vstd::arithmetic::div_mod::lemma_mod_is_zero(a.len(), w);
        assert(a.skip(w as int).len() % w == 0) by {
            vstd::arithmetic::div_mod::lemma_mod_sub_multiples_vanish(a.len() as int, w as int);
        }
        assert((a + b).take(w as int) =~= a.take(w as int));
        assert((a + b).skip(w as int) =~= a.skip(w as int) + b);
        lemma_decoded_words_append(a.skip(w as int), b, w);
        assert(decoded_words(a + b, w) == seq![le_value((a + b).take(w as int)) as u32]
            + decoded_words(a.skip(w as int) + b, w));
        assert(decoded_words(a, w) == seq![le_value(a.take(w as int)) as u32] + decoded_words(
            a.skip(w as int),
            w,
        ));
    }
}

/// Decodes a whole buffer into sample words of `width` bytes each.
pub fn decode_buffer(buf: &[u8], width: usize) -> (r: Vec<u32>)
    requires
        1 <= width <= 4,
    ensures
        r@ == decoded_words(buf@, width as nat),
{
    let mut out: Vec<u32> = Vec::new();
    let mut offset: usize = 0;
    proof {
        assert(buf@.skip(0) =~= buf@);
        assert(Seq::<u32>::empty() + decoded_words(buf@, width as nat) =~= decoded_words(
            buf@,
            width as nat,
        ));
    }
    while width <= buf.len() - offset
        invariant
            1 <= width <= 4,
            0 <= offset <= buf@.len(),
            decoded_words(buf@, width as nat) =~= out@ + decoded_words(
                buf@.skip(offset as int),
                width as nat,
            ),
        decreases buf@.len() - offset,
    {
        let word = decode_word(buf, offset, width);
        proof {
            let rest = buf@.skip(offset as int);
            assert(rest.take(width as int) =~= buf@.subrange(offset as int, offset + width));
            assert(rest.skip(width as int) =~= buf@.skip(offset + width));
            assert(out@ + (seq![le_value(rest.take(width as int)) as u32] + decoded_words(
                rest.skip(width as int),
                width as nat,
            )) =~= (out@ + seq![le_value(rest.take(width as int)) as u32]) + decoded_words(
                rest.skip(width as int),
                width as nat,
            ));
        }
        out.push(word);
        offset = offset + width;
    }
    proof {
        assert(decoded_words(buf@.skip(offset as int), width as nat) =~= Seq::<u32>::empty());
        assert(out@ + Seq::<u32>::empty() =~= out@);
    }
    out
}

} // verus!
