//! Message boundaries on a stream: a message starts with a segment table (the
//! number of segments less one, then each segment's size in words, as 32-bit
//! little-endian words, padded to a whole 8-byte word), followed by the
//! segments. A message is whole once all of its bytes have come.
use vstd::prelude::*;

verus! {

/// The 32-bit little-endian word at byte `at`.
pub open spec fn le32(b: Seq<u8>, at: int) -> int {
    b[at] + 256 * b[at + 1] + 65536 * b[at + 2] + 16777216 * b[at + 3]
}

/// The number of segments of the message at the start of `b`.
pub open spec fn segment_count(b: Seq<u8>) -> int {
    le32(b, 0) + 1
}

/// The sum of the sizes, in words, of the first `n` segments.
pub open spec fn table_words(b: Seq<u8>, n: int) -> int
    decreases n,
{
    if n <= 0 {
        0
    } else {
        table_words(b, n - 1) + le32(b, 4 + 4 * (n - 1))
    }
}

/// The length of the segment table, padded to a whole word.
pub open spec fn header_len(b: Seq<u8>) -> int {
    (4 + 4 * segment_count(b) + 7) / 8 * 8
}

/// The length of the whole message at the start of `b`.
pub open spec fn message_total(b: Seq<u8>) -> int {
    header_len(b) + 8 * table_words(b, segment_count(b))
}

/// The length of the message at the start of `b`, once all of it is there:
/// `None` while the segment table or the message is still incomplete.
pub open spec fn spec_message_len(b: Seq<u8>) -> Option<int> {
    if b.len() < 4 || b.len() < 4 + 4 * segment_count(b) {
        None
    } else if message_total(b) <= b.len() {
        Some(message_total(b))
    } else {
        None
    }
}

/// A sum of sizes is never negative.
proof fn lemma_table_words_nonneg(b: Seq<u8>, n: int)
    requires
        0 <= n,
        4 + 4 * n <= b.len(),
    ensures
        0 <= table_words(b, n),
    decreases n,
{
    if n > 0 {
        lemma_table_words_nonneg(b, n - 1);
    }
}

/// Sizes add up: the sum over more segments is no smaller.
proof fn lemma_table_words_grow(b: Seq<u8>, m: int, n: int)
    requires
        0 <= m <= n,
        4 + 4 * n <= b.len(),
    ensures
        0 <= table_words(b, m) <= table_words(b, n),
    decreases n - m,
{
    if m < n {
        lemma_table_words_grow(b, m, n - 1);
    } else {
        lemma_table_words_nonneg(b, m);
    }
}

fn le32_exec(buf: &[u8], at: usize) -> (r: u64)
    requires
        at + 4 <= buf@.len(),
    ensures
        r == le32(buf@, at as int),
        r < 0x1_0000_0000,
{
    (buf[at] as u64) + (buf[at + 1] as u64) * 256 + (buf[at + 2] as u64) * 65536 + (buf[at + 3] as u64) * 16777216
}

/// The length of the message at the start of `buf`, once all of it is there.
pub fn message_len(buf: &[u8]) -> (r: Option<usize>)
    ensures
        match r {
            Some(n) => spec_message_len(buf@) == Some(n as int),
            None => spec_message_len(buf@) is None,
        },
{
    let ghost b = buf@;
    if buf.len() < 4 {
        return None;
    }
    let blen: usize = buf.len();
    let len = blen as u64;
    let count: u64 = le32_exec(buf, 0) + 1;
    assert(count == segment_count(b));
    if count > (len - 4) / 4 {
        assert(len < 4 + 4 * count) by (nonlinear_arith)
            requires
                count > (len - 4) / 4,
                len >= 4,
        ;
        return None;
    }
    assert(4 + 4 * count <= len) by (nonlinear_arith)
        requires
            count <= (len - 4) / 4,
            len >= 4,
    ;
    let table = 4 + 4 * count;
    let header = (table + 7) / 8 * 8;
    assert(header == header_len(b));
    let mut words: u64 = 0;
    let mut k: u64 = 0;
    while k < count
        invariant
            b == buf@,
            len == b.len(),
            blen == b.len(),
            count == segment_count(b),
            4 + 4 * count <= len,
            k <= count,
            words == table_words(b, k as int),
            words <= len,
        decreases count - k,
    {
        assert(4 + 4 * k + 4 <= len);
        let at: usize = (4 + 4 * k) as usize;
        assert(at == 4 + 4 * k);
        let w = le32_exec(buf, at);
        assert(table_words(b, k + 1) == words + w);
        if w > len - words {
            proof {
                lemma_table_words_grow(b, k + 1, count as int);
                assert(message_total(b) > b.len());
            }
            return None;
        }
        words = words + w;
        k = k + 1;
    }
    assert(words == table_words(b, segment_count(b)));
    assert(header <= len + 7);
    if header > len {
        proof {
            lemma_table_words_grow(b, 0, count as int);
        }
        return None;
    }
    if words > (len - header) / 8 {
        assert(header + 8 * words > len) by (nonlinear_arith)
            requires
                words > (len - header) / 8,
                header <= len,
        ;
        return None;
    }
    assert(header + 8 * words <= len) by (nonlinear_arith)
        requires
            words <= (len - header) / 8,
            header <= len,
    ;
    Some((header + 8 * words) as usize)
}

} // verus!
