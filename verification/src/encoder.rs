//! The fixed-width encoder: candidates of any length become records of one
//! width, laid end to end, so that a device can address them by stride.

use vstd::prelude::*;
use vstd::arithmetic::div_mod::lemma_fundamental_div_mod;
use vstd::arithmetic::div_mod::lemma_fundamental_div_mod_converse;
use vstd::arithmetic::div_mod::lemma_mod_pos_bound;
use vstd::arithmetic::mul::lemma_mul_inequality;
use vstd::arithmetic::mul::lemma_mul_is_distributive_add_other_way;
use vstd::utf8::encode_utf8;

verus! {

/// Width in bytes of one record as the engine lays it out.
pub const RECORD_WIDTH: usize = 64;

/// The record width the engine uses.
pub fn fixed_word_len() -> (w: usize)
    ensures
        w == RECORD_WIDTH,
{
    RECORD_WIDTH
}

/// One record: the word's bytes from the left, cut at `width`, then zeros.
pub open spec fn record_of(word: Seq<u8>, width: nat) -> Seq<u8> {
    Seq::new(
        width,
        |j: int|
            if j < word.len() {
                word[j]
            } else {
                0u8
            },
    )
}

/// The records of `words`, in order, as one buffer of `words.len() * width` bytes.
pub open spec fn encoded(words: Seq<Seq<u8>>, width: nat) -> Seq<u8> {
    Seq::new(
        words.len() * width,
        |i: int| record_of(words[i / (width as int)], width)[i % (width as int)],
    )
}

/// The UTF-8 bytes of each candidate.
pub open spec fn word_bytes(words: Seq<String>) -> Seq<Seq<u8>> {
    Seq::new(words.len(), |k: int| encode_utf8(words[k]@))
}

/// Encodes one word as a record of exactly `width` bytes. A longer word is cut
/// at `width` without notice; a shorter one is padded with zeros.
pub fn encode_word(word: &[u8], width: usize) -> (rec: Vec<u8>)
    ensures
        rec@ == record_of(word@, width as nat),
{
    let mut rec: Vec<u8> = Vec::with_capacity(width);
    let mut j: usize = 0;
    while j < width
        invariant
            j <= width,
            rec@.len() == j,
            forall|t: int| 0 <= t < j ==> rec@[t] == record_of(word@, width as nat)[t],
        decreases width - j,
    {
        let b: u8 = if j < word.len() {
            word[j]
        } else {
            0u8
        };
        rec.push(b);
        j += 1;
    }
    assert(rec@ =~= record_of(word@, width as nat));
    rec
}

/// One batch as the device takes it: `count` records of `width` bytes each in
/// one buffer. It belongs to the dispatch cycle that made it.
#[derive(Debug, Clone, PartialEq, Eq)]
pub struct EncodedBatch {
    pub data: Vec<u8>,
    pub count: usize,
    pub width: usize,
}

impl EncodedBatch {
    /// The buffer holds exactly `count` records of `width` bytes.
    pub open spec fn wf(&self) -> bool {
        self.data@.len() == self.count * self.width
    }
}

/// Encodes the `count` candidates that start at `start` as one buffer of
/// `count * width` bytes, one record per candidate, in wordlist order.
pub fn encode_batch(words: &[String], start: usize, count: usize, width: usize) -> (batch:
    EncodedBatch)
    requires
        start + count <= words@.len(),
        count * width <= usize::MAX,
    ensures
        batch.data@ == encoded(
            word_bytes(words@.subrange(start as int, start + count)),
            width as nat,
        ),
        batch.count == count,
        batch.width == width,
        batch.wf(),
{
    let ghost batch = word_bytes(words@.subrange(start as int, start + count));
    let total: usize = words.len();
    let mut buf: Vec<u8> = Vec::new();
    let mut k: usize = 0;
    while k < count
        invariant
            k <= count,
            total == words@.len(),
            start + count <= total,
            count * width <= usize::MAX,
            batch == word_bytes(words@.subrange(start as int, start + count)),
            buf@.len() == k * width,
            forall|i: int| 0 <= i < buf@.len() ==> buf@[i] == encoded(batch, width as nat)[i],
        decreases count - k,
    {
        let bytes: &[u8] = words[start + k].as_str().as_bytes();
        assert(bytes@ == batch[k as int]);
        let mut j: usize = 0;
        while j < width
            invariant
                j <= width,
                k < count,
                batch.len() == count,
                bytes@ == batch[k as int],
                buf@.len() == k * width + j,
                forall|i: int| 0 <= i < buf@.len() ==> buf@[i] == encoded(batch, width as nat)[i],
            decreases width - j,
        {
            let b: u8 = if j < bytes.len() {
                bytes[j]
            } else {
                0u8
            };
            proof {
                lemma_slot_index(count as int, width as int, k as int, j as int);
            }
            buf.push(b);
            j += 1;
        }
        proof {
            lemma_mul_is_distributive_add_other_way(width as int, k as int, 1);
        }
        k += 1;
    }
    assert(buf@ =~= encoded(batch, width as nat));
    EncodedBatch { data: buf, count, width }
}

/// Byte `j` of record `k` sits at `k * width + j`, inside the buffer, and
/// dividing that place by `width` gives `k` and `j` back.
proof fn lemma_slot_index(count: int, width: int, k: int, j: int)
    requires
        0 <= k < count,
        0 <= j < width,
    ensures
        0 <= k * width + j < count * width,
        (k * width + j) / width == k,
        (k * width + j) % width == j,
{
    lemma_fundamental_div_mod_converse(k * width + j, width, k, j);
    lemma_mul_inequality(k + 1, count, width);
    lemma_mul_is_distributive_add_other_way(width, k, 1);
    assert(k * width >= 0) by (nonlinear_arith)
        requires
            k >= 0,
            width > 0,
    ;
}

/// Round trip: the first `min(len, width)` bytes of a record are the word's
/// own first bytes, and every byte after them is zero.
pub proof fn law_record_round_trip(word: Seq<u8>, width: nat)
    ensures
        record_of(word, width).len() == width,
        word.len() <= width ==> record_of(word, width).subrange(0, word.len() as int) == word,
        word.len() > width ==> record_of(word, width) == word.subrange(0, width as int),
        forall|j: int| word.len() <= j < width ==> record_of(word, width)[j] == 0u8,
{
    if word.len() <= width {
        assert(record_of(word, width).subrange(0, word.len() as int) =~= word);
    } else {
        assert(record_of(word, width) =~= word.subrange(0, width as int));
    }
}

/// Record `k` of an encoded buffer occupies the bytes from `k * width` to
/// `(k + 1) * width` and is the record of word `k`: no record overlaps another.
pub proof fn law_slot_is_record(words: Seq<Seq<u8>>, width: nat, k: int)
    requires
        0 <= k < words.len(),
    ensures
        encoded(words, width).len() == words.len() * width,
        0 <= k * width <= (k + 1) * width <= words.len() * width,
        encoded(words, width).subrange(k * width, (k + 1) * width) == record_of(words[k], width),
{
    let w = width as int;
    lemma_mul_is_distributive_add_other_way(w, k, 1);
    lemma_mul_inequality(k + 1, words.len() as int, w);
    assert(k * w >= 0) by (nonlinear_arith)
        requires
            k >= 0,
            w >= 0,
    ;
    let slot = encoded(words, width).subrange(k * w, (k + 1) * w);
    assert forall|j: int| 0 <= j < w implies slot[j] == record_of(words[k], width)[j] by {
        lemma_slot_index(words.len() as int, w, k, j);
    }
    assert(slot =~= record_of(words[k], width));
}

/// Encoding is determined by its input: a buffer of `words.len() * width` bytes
/// whose every slot is the record of its word is the encoded buffer itself.
pub proof fn law_encoding_is_unique(buf: Seq<u8>, words: Seq<Seq<u8>>, width: nat)
    requires
        buf.len() == words.len() * width,
        forall|k: int|
            0 <= k < words.len() ==> #[trigger] buf.subrange(k * width, (k + 1) * width)
                == record_of(words[k], width),
    ensures
        buf == encoded(words, width),
{
    let w = width as int;
    let count = words.len() as int;
    assert forall|i: int| 0 <= i < buf.len() implies buf[i] == encoded(words, width)[i] by {
        assert(w > 0) by (nonlinear_arith)
            requires
                0 <= i < count * w,
                w >= 0,
        ;
        let k = i / w;
        let j = i % w;
        lemma_fundamental_div_mod(i, w);
        lemma_mod_pos_bound(i, w);
        assert(w * k == k * w) by (nonlinear_arith);
        assert(0 <= k < count) by (nonlinear_arith)
            requires
                0 <= i < count * w,
                i == k * w + j,
                0 <= j < w,
        ;
        lemma_slot_index(count, w, k, j);
        lemma_mul_is_distributive_add_other_way(w, k, 1);
        lemma_mul_inequality(k + 1, count, w);
        assert(0 <= k * w) by (nonlinear_arith)
            requires
                0 <= k,
                0 < w,
        ;
        let slot = buf.subrange(k * w, (k + 1) * w);
        assert(slot == record_of(words[k], width));
        assert(slot[j] == buf[k * w + j]);
    }
    assert(buf =~= encoded(words, width));
}

} // verus!
