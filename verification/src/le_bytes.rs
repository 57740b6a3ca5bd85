//! Little-endian byte encodings of unsigned integers, stated over `Seq<u8>`.

use vstd::prelude::*;

verus! {

/// Little-endian byte `k` (0 or 1) of a 16-bit word.
pub open spec fn byte_of_u16(word: u16, k: int) -> u8 {
    if k == 0 {
        (word % 256) as u8
    } else {
        (word / 256) as u8
    }
}

/// Little-endian byte `k` (0 to 3) of a 32-bit word.
pub open spec fn byte_of_u32(word: u32, k: int) -> u8 {
    if k == 0 {
        (word % 256) as u8
    } else if k == 1 {
        ((word / 256) % 256) as u8
    } else if k == 2 {
        ((word / 65536) % 256) as u8
    } else {
        (word / 16777216) as u8
    }
}

/// The little-endian bytes of a run of 16-bit words.
pub open spec fn words16_bytes(words: Seq<u16>) -> Seq<u8> {
    Seq::new(words.len() * 2, |k: int| byte_of_u16(words[k / 2], k % 2))
}

/// The little-endian bytes of a run of 32-bit words.
pub open spec fn words32_bytes(words: Seq<u32>) -> Seq<u8> {
    Seq::new(words.len() * 4, |k: int| byte_of_u32(words[k / 4], k % 4))
}

/// Reads a little-endian `u16` back from two bytes.
pub open spec fn read_le16(b: Seq<u8>) -> int {
    b[0] + 256 * b[1]
}

/// Reads a little-endian `u32` back from four bytes.
pub open spec fn read_le32(b: Seq<u8>) -> int {
    b[0] + 256 * b[1] + 65536 * b[2] + 16777216 * b[3]
}

/// Word `i` of a run of little-endian 32-bit words.
pub open spec fn read_le32_at(bytes: Seq<u8>, i: int) -> int {
    read_le32(bytes.subrange(4 * i, 4 * i + 4))
}

/// Reading back the bytes of a run of 32-bit words gives the words.
pub proof fn lemma_words32_round_trip(words: Seq<u32>)
    ensures
        forall|i: int| 0 <= i < words.len() ==> #[trigger] read_le32_at(words32_bytes(words), i) == words[i],
{
    assert forall|i: int| 0 <= i < words.len() implies #[trigger] read_le32_at(words32_bytes(words), i) == words[i] by {
        let b = words32_bytes(words);
        let v = words[i];
        assert(4 * i + 4 <= b.len());
        assert((4 * i) / 4 == i && (4 * i) % 4 == 0);
        assert((4 * i + 1) / 4 == i && (4 * i + 1) % 4 == 1);
        assert((4 * i + 2) / 4 == i && (4 * i + 2) % 4 == 2);
        assert((4 * i + 3) / 4 == i && (4 * i + 3) % 4 == 3);
        assert(b.subrange(4 * i, 4 * i + 4)[0] == b[4 * i]);
        assert(b.subrange(4 * i, 4 * i + 4)[1] == b[4 * i + 1]);
        assert(b.subrange(4 * i, 4 * i + 4)[2] == b[4 * i + 2]);
        assert(b.subrange(4 * i, 4 * i + 4)[3] == b[4 * i + 3]);
        assert(v % 256 + 256 * ((v / 256) % 256) + 65536 * ((v / 65536) % 256) + 16777216 * (v / 16777216) == v) by (nonlinear_arith);
    }
}

/// Appends the little-endian bytes of `v`.
pub fn push_u32_le(out: &mut Vec<u8>, v: u32)
    ensures
        final(out)@ == old(out)@ + words32_bytes(seq![v]),
{
    out.push((v % 256) as u8);
    out.push(((v / 256) % 256) as u8);
    out.push(((v / 65536) % 256) as u8);
    out.push((v / 16777216) as u8);
    assert(final(out)@ =~= old(out)@ + words32_bytes(seq![v]));
}

/// Appending word by word builds the bytes of the whole run.
pub proof fn lemma_words32_push(words: Seq<u32>, v: u32)
    ensures
        words32_bytes(words) + words32_bytes(seq![v]) == words32_bytes(words.push(v)),
{
    let l = words32_bytes(words) + words32_bytes(seq![v]);
    let r = words32_bytes(words.push(v));
    assert forall|k: int| 0 <= k < r.len() implies l[k] == r[k] by {
        if k >= 4 * words.len() {
            let j = k - 4 * words.len();
            assert(k / 4 == words.len() + j / 4 && k % 4 == j % 4);
        }
    }
    assert(l =~= r);
}

/// Appends the little-endian bytes of every word of `words`.
pub fn push_u32s_le(out: &mut Vec<u8>, words: &[u32])
    ensures
        final(out)@ == old(out)@ + words32_bytes(words@),
{
    let ghost start = out@;
    let mut i: usize = 0;
    while i < words.len()
        invariant
            i <= words@.len(),
            out@ == start + words32_bytes(words@.take(i as int)),
        decreases words@.len() - i,
    {
        proof {
            lemma_words32_push(words@.take(i as int), words@[i as int]);
            assert(words@.take(i as int).push(words@[i as int]) =~= words@.take(i + 1));
        }
        push_u32_le(out, words[i]);
        i = i + 1;
    }
    assert(words@.take(words@.len() as int) =~= words@);
}

}
