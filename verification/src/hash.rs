//! The fingerprint algorithm: a Murmur2-style 32-bit hash over the
//! non-whitespace bytes of a buffer, packed into little-endian words.
//!
//! The mathematical model lives in the spec functions below; `fingerprint`
//! is the full statement of the algorithm, and `compute_hash` is proved to
//! return exactly that value.
use vstd::prelude::*;

verus! {

/// The 32-bit multiplier used in every mixing step, with wraparound.
pub const MULTIPLIER: u32 = 1540483477;

/// The four byte values the hash ignores: tab, line feed, carriage return,
/// and space.
pub open spec fn is_whitespace(b: u8) -> bool {
    b == 9 || b == 10 || b == 13 || b == 32
}

/// The predicate selecting the bytes that take part in the hash.
pub open spec fn non_whitespace() -> spec_fn(u8) -> bool {
    |b: u8| !is_whitespace(b)
}

/// The bytes of `s` that take part in the hash, in their original order:
/// everything except whitespace.
pub open spec fn normalized(s: Seq<u8>) -> Seq<u8> {
    s.filter(non_whitespace())
}

/// Multiplication on `u32` modulo 2^32.
pub open spec fn wmul(a: u32, b: u32) -> u32 {
    vstd::wrapping::u32_specs::wrapping_mul(a, b)
}

/// One word of up to four bytes packed little-endian: byte `i` of `s`
/// occupies bits `8*i .. 8*i + 8`; missing high bytes stay zero.
pub open spec fn pack(s: Seq<u8>) -> u32
    decreases s.len(),
{
    if s.len() == 0 {
        0u32
    } else {
        pack(s.drop_last()) | ((s.last() as u32) << ((8 * (s.len() - 1)) as u32))
    }
}

/// The mixing of one full word into the accumulator.
pub open spec fn mix(h: u32, k: u32) -> u32 {
    let k1 = wmul(k, MULTIPLIER);
    let k2 = wmul(k1 ^ (k1 >> 24), MULTIPLIER);
    wmul(h, MULTIPLIER) ^ k2
}

/// The accumulator after the first `n` full words of `p` have been mixed
/// into `h0`, where word `j` is `p[4*j .. 4*j + 4]` packed little-endian.
pub open spec fn words_hash(p: Seq<u8>, n: int, h0: u32) -> u32
    decreases n,
{
    if n <= 0 {
        h0
    } else {
        mix(words_hash(p, n - 1, h0), pack(p.subrange(4 * (n - 1), 4 * n)))
    }
}

/// The count of non-whitespace bytes, truncated to 32 bits; it seeds the
/// accumulator.
pub open spec fn norm_len_u32(s: Seq<u8>) -> u32 {
    (normalized(s).len() % 0x1_0000_0000) as u32
}

/// The final avalanche mixing.
pub open spec fn finalize(h: u32) -> u32 {
    let h1 = wmul(h ^ (h >> 13), MULTIPLIER);
    h1 ^ (h1 >> 15)
}

/// The fingerprint of a byte sequence: seed the accumulator with
/// `1 XOR` the non-whitespace count, mix every full little-endian word of
/// the non-whitespace bytes, fold in the trailing partial word if one
/// remains, then apply the avalanche mixing.
pub open spec fn fingerprint(s: Seq<u8>) -> u32 {
    let p = normalized(s);
    let h0 = 1u32 ^ norm_len_u32(s);
    let full = p.len() as int / 4;
    let hb = words_hash(p, full, h0);
    let ht = if p.len() % 4 > 0 {
        wmul(hb ^ pack(p.subrange(4 * full, p.len() as int)), MULTIPLIER)
    } else {
        hb
    };
    finalize(ht)
}

/// An owned byte buffer holding one file's full contents; the input to the
/// fingerprint algorithm. Its view is the sequence of bytes it holds.
pub struct Buffer(Vec<u8>);

impl View for Buffer {
    type V = Seq<u8>;

    closed spec fn view(&self) -> Seq<u8> {
        self.0@
    }
}

impl Buffer {
    /// A buffer of `size` zero bytes, ready to be filled.
    pub fn new(size: usize) -> (r: Buffer)
        ensures
            r@ == Seq::new(size as nat, |i: int| 0u8),
    {
        let mut v: Vec<u8> = Vec::new();
        while v.len() < size
            invariant
                v@.len() <= size,
                forall|i: int| 0 <= i < v@.len() ==> v@[i] == 0u8,
            decreases size - v.len(),
        {
            v.push(0u8);
        }
        proof {
            assert(v@ =~= Seq::new(size as nat, |i: int| 0u8));
        }
        Buffer(v)
    }

    /// The buffer's bytes, read-only.
    pub fn data(&self) -> (r: &[u8])
        ensures
            r@ == self@,
    {
        self.0.as_slice()
    }

    /// The buffer's bytes, writable, for the caller to fill.
    pub fn data_mut(&mut self) -> (r: &mut [u8])
        ensures
            r@ == old(self)@,
            final(r)@ == final(self)@,
    {
        self.0.as_mut_slice()
    }

    /// The number of bytes the buffer holds.
    pub fn size(&self) -> (r: usize)
        ensures
            r == self@.len(),
    {
        self.0.len()
    }
}

/// Whether `b` is one of the byte values the hash ignores.
pub fn is_whitespace_character(b: u8) -> (r: bool)
    ensures
        r == is_whitespace(b),
{
    b == 9 || b == 10 || b == 13 || b == 32
}

/// The number of non-whitespace bytes in the buffer, truncated to 32 bits:
/// the seed of the hash accumulator.
pub fn compute_normalized_length(buffer: &Buffer) -> (r: u32)
    ensures
        r == norm_len_u32(buffer@),
{
    let n = buffer.0.len();
    let mut count: u64 = 0;
    let mut i: usize = 0;
    while i < n
        invariant
            n == buffer@.len(),
            i <= n,
            count == normalized(buffer@.take(i as int)).len(),
            count <= i,
        decreases n - i,
    {
        let b = buffer.0[i];
        proof {
            assert(buffer@.take(i + 1) =~= buffer@.take(i as int).push(buffer@[i as int]));
            buffer@.take(i as int).lemma_filter_push(buffer@[i as int], non_whitespace());
        }
        if !is_whitespace_character(b) {
            count = count + 1;
        }
        i = i + 1;
    }
    proof {
        assert(buffer@.take(n as int) =~= buffer@);
    }
    (count % 0x1_0000_0000u64) as u32
}

/// Law: the fingerprint is a pure function of the non-whitespace bytes
/// alone — any two byte sequences with the same normalized content, however
/// much whitespace either holds and wherever it stands, have the same
/// fingerprint.
pub proof fn lemma_fingerprint_whitespace_invariant(s1: Seq<u8>, s2: Seq<u8>)
    requires
        normalized(s1) == normalized(s2),
    ensures
        fingerprint(s1) == fingerprint(s2),
{
}

/// Law: inserting a whitespace byte at any position leaves the normalized
/// content, and hence the fingerprint, unchanged.
pub proof fn lemma_whitespace_insertion(s: Seq<u8>, i: int, b: u8)
    requires
        0 <= i <= s.len(),
        is_whitespace(b),
    ensures
        normalized(s.insert(i, b)) == normalized(s),
        fingerprint(s.insert(i, b)) == fingerprint(s),
{
    let a = s.subrange(0, i);
    let c = s.subrange(i, s.len() as int);
    a.lemma_filter_push(b, non_whitespace());
    Seq::<u8>::filter_distributes_over_add(a.push(b), c, non_whitespace());
    Seq::<u8>::filter_distributes_over_add(a, c, non_whitespace());
    assert(a + c =~= s);
}

/// Packing one more byte extends the word at the next 8-bit position.
proof fn lemma_pack_push(t: Seq<u8>, b: u8)
    ensures
        pack(t.push(b)) == (pack(t) | ((b as u32) << ((8 * t.len()) as u32))),
{
    let u = t.push(b);
    assert(u.drop_last() =~= t);
    assert(pack(u) == (pack(u.drop_last()) | ((u.last() as u32) << ((8 * (u.len() - 1)) as u32))));
}

/// The hash of the first `n` full words reads only `p[0 .. 4*n]`, so it is
/// unchanged when a byte is appended past that prefix.
proof fn lemma_words_hash_push(p: Seq<u8>, b: u8, n: int, h0: u32)
    requires
        0 <= n,
        4 * n <= p.len(),
    ensures
        words_hash(p.push(b), n, h0) == words_hash(p, n, h0),
    decreases n,
{
    if n > 0 {
        lemma_words_hash_push(p, b, n - 1, h0);
        assert(p.push(b).subrange(4 * (n - 1), 4 * n) =~= p.subrange(4 * (n - 1), 4 * n));
    }
}

/// The fingerprint of the buffer's contents; see `fingerprint` for the
/// algorithm. Total over every byte sequence, including the empty one.
pub fn compute_hash(buffer: &Buffer) -> (r: u32)
    ensures
        r == fingerprint(buffer@),
{
    let length = compute_normalized_length(buffer);
    let ghost h0 = 1u32 ^ norm_len_u32(buffer@);
    let mut num2: u32 = 1 ^ length;
    let mut num3: u32 = 0;
    let mut num4: u32 = 0;
    let n = buffer.0.len();
    let mut i: usize = 0;
    proof {
        assert(buffer@.take(0) =~= Seq::<u8>::empty());
        Seq::<u8>::empty().lemma_filter_len(non_whitespace());
        assert(normalized(buffer@.take(0)) =~= Seq::<u8>::empty());
    }
    while i < n
        invariant
            n == buffer@.len(),
            i <= n,
            h0 == 1u32 ^ norm_len_u32(buffer@),
            num4 == 8 * (normalized(buffer@.take(i as int)).len() % 4),
            num3 == pack(normalized(buffer@.take(i as int)).subrange(
                4 * (normalized(buffer@.take(i as int)).len() as int / 4),
                normalized(buffer@.take(i as int)).len() as int,
            )),
            num2 == words_hash(
                normalized(buffer@.take(i as int)),
                normalized(buffer@.take(i as int)).len() as int / 4,
                h0,
            ),
        decreases n - i,
    {
        let b = buffer.0[i];
        proof {
            assert(buffer@.take(i + 1) =~= buffer@.take(i as int).push(buffer@[i as int]));
            buffer@.take(i as int).lemma_filter_push(buffer@[i as int], non_whitespace());
        }
        if !is_whitespace_character(b) {
            let ghost p = normalized(buffer@.take(i as int));
            let ghost pp = normalized(buffer@.take(i + 1));
            let ghost w = p.len() as int / 4;
            proof {
                assert(pp =~= p.push(b));
                let t = p.subrange(4 * w, p.len() as int);
                lemma_pack_push(t, b);
                assert(pp.subrange(4 * w, pp.len() as int) =~= t.push(b));
                lemma_words_hash_push(p, b, w, h0);
            }
            num3 = num3 | ((b as u32) << num4);
            num4 = num4 + 8;
            if num4 == 32 {
                let num6 = num3.wrapping_mul(MULTIPLIER);
                let num7 = (num6 ^ (num6 >> 24)).wrapping_mul(MULTIPLIER);
                num2 = num2.wrapping_mul(MULTIPLIER) ^ num7;
                num3 = 0;
                num4 = 0;
                proof {
                    assert(pp.len() == 4 * w + 4);
                    assert(pp.len() as int / 4 == w + 1);
                    assert(words_hash(pp, w + 1, h0) == mix(
                        words_hash(pp, w, h0),
                        pack(pp.subrange(4 * w, 4 * w + 4)),
                    ));
                    assert(pp.subrange(4 * (w + 1), pp.len() as int) =~= Seq::<u8>::empty());
                    assert(pack(Seq::<u8>::empty()) == 0u32);
                }
            }
        }
        i = i + 1;
    }
    proof {
        assert(buffer@.take(n as int) =~= buffer@);
    }
    if num4 > 0 {
        num2 = (num2 ^ num3).wrapping_mul(MULTIPLIER);
    }
    let num6 = (num2 ^ (num2 >> 13)).wrapping_mul(MULTIPLIER);
    num6 ^ (num6 >> 15)
}

} // verus!
