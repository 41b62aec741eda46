//! The bytes that go over the wire: muffins, and the sequence number in front
//! of them.
use vstd::prelude::*;

verus! {

broadcast use vstd::string::group_string_axioms;

/// Length of the big-endian sequence number that precedes the muffins when
/// sequence tracking is enabled.
pub const SEQ_LEN: usize = 8;

/// The filler that is repeated throughout a buffer, so that wire dumps stay
/// recognizable.
pub open spec fn filler() -> Seq<char> {
    "muffin "@
}

/// The bytes of `seq`, most significant first.
pub open spec fn be_bytes(seq: u64) -> Seq<u8> {
    seq![
        (seq / 0x100_0000_0000_0000) as u8,
        (seq / 0x1_0000_0000_0000 % 0x100) as u8,
        (seq / 0x100_0000_0000 % 0x100) as u8,
        (seq / 0x1_0000_0000 % 0x100) as u8,
        (seq / 0x100_0000 % 0x100) as u8,
        (seq / 0x1_0000 % 0x100) as u8,
        (seq / 0x100 % 0x100) as u8,
        (seq % 0x100) as u8,
    ]
}

/// The number whose bytes, most significant first, start `bytes`.
pub open spec fn be_value(bytes: Seq<u8>) -> int {
    bytes[0] * 0x100_0000_0000_0000 + bytes[1] * 0x1_0000_0000_0000 + bytes[2] * 0x100_0000_0000
        + bytes[3] * 0x1_0000_0000 + bytes[4] * 0x100_0000 + bytes[5] * 0x1_0000 + bytes[6] * 0x100
        + bytes[7]
}

/// `buf` with `seq` written over its first bytes.
pub open spec fn with_seq(buf: Seq<u8>, seq: u64) -> Seq<u8> {
    be_bytes(seq) + buf.skip(SEQ_LEN as int)
}

/// The sequence number at the start of `buf`, if there is room for one.
pub open spec fn seq_of(buf: Seq<u8>) -> Option<u64> {
    if buf.len() < SEQ_LEN {
        None
    } else {
        Some(be_value(buf) as u64)
    }
}

/// Build a send buffer of `size` bytes, filled with the repeating filler. The
/// first [`SEQ_LEN`] bytes are rewritten on each send when sequence tracking
/// is enabled.
pub fn buffer(size: usize) -> (buf: Vec<u8>)
    ensures
        buf@.len() == size,
        forall|i: int|
            0 <= i < size ==> #[trigger] buf@[i] == filler()[i % filler().len() as int] as u8,
        forall|i: int| 0 <= i < size ==> #[trigger] buf@[i] == "muffin "@[i % 7] as u8,
{
    let muffin = "muffin ";
    proof {
        reveal_strlit("muffin ");
    }
    let mut buf: Vec<u8> = Vec::with_capacity(size);
    let mut i: usize = 0;
    while i < size
        invariant
            i <= size,
            muffin@ == filler(),
            muffin@.len() == 7,
            muffin.is_ascii(),
            buf@.len() == i,
            forall|j: int| 0 <= j < i ==> #[trigger] buf@[j] == filler()[j % 7] as u8,
        decreases size - i,
    {
        buf.push(muffin.get_ascii(i % 7));
        i = i + 1;
    }
    buf
}

/// Write the big-endian sequence number into the first [`SEQ_LEN`] bytes of
/// `buf`.
pub fn put_seq(buf: &mut [u8], seq: u64)
    requires
        old(buf)@.len() >= SEQ_LEN,
    ensures
        final(buf)@ == with_seq(old(buf)@, seq),
{
    buf[0] = (seq / 0x100_0000_0000_0000) as u8;
    buf[1] = (seq / 0x1_0000_0000_0000 % 0x100) as u8;
    buf[2] = (seq / 0x100_0000_0000 % 0x100) as u8;
    buf[3] = (seq / 0x1_0000_0000 % 0x100) as u8;
    buf[4] = (seq / 0x100_0000 % 0x100) as u8;
    buf[5] = (seq / 0x1_0000 % 0x100) as u8;
    buf[6] = (seq / 0x100 % 0x100) as u8;
    buf[7] = (seq % 0x100) as u8;
}

/// Read the big-endian sequence number from the first [`SEQ_LEN`] bytes of
/// `buf`, or nothing if it is too short.
pub fn get_seq(buf: &[u8]) -> (seq: Option<u64>)
    ensures
        seq == seq_of(buf@),
        seq is Some <==> buf@.len() >= SEQ_LEN,
        seq matches Some(value) ==> value == be_value(buf@),
{
    if buf.len() < SEQ_LEN {
        return None;
    }
    let value: u64 = buf[0] as u64 * 0x100_0000_0000_0000 + buf[1] as u64 * 0x1_0000_0000_0000
        + buf[2] as u64 * 0x100_0000_0000 + buf[3] as u64 * 0x1_0000_0000 + buf[4] as u64
        * 0x100_0000 + buf[5] as u64 * 0x1_0000 + buf[6] as u64 * 0x100 + buf[7] as u64;
    Some(value)
}

proof fn lemma_value_of_bytes(seq: u64)
    ensures
        be_value(be_bytes(seq)) == seq,
{
    assert(seq == (seq / 0x100_0000_0000_0000) * 0x100_0000_0000_0000 + (seq / 0x1_0000_0000_0000
        % 0x100) * 0x1_0000_0000_0000 + (seq / 0x100_0000_0000 % 0x100) * 0x100_0000_0000 + (seq
        / 0x1_0000_0000 % 0x100) * 0x1_0000_0000 + (seq / 0x100_0000 % 0x100) * 0x100_0000 + (seq
        / 0x1_0000 % 0x100) * 0x1_0000 + (seq / 0x100 % 0x100) * 0x100 + seq % 0x100)
        by (bit_vector);
    assert(seq / 0x100_0000_0000_0000 < 0x100);
}

proof fn lemma_bytes_of_value(
    seq: u64,
    b0: u8,
    b1: u8,
    b2: u8,
    b3: u8,
    b4: u8,
    b5: u8,
    b6: u8,
    b7: u8,
)
    requires
        seq == b0 * 0x100_0000_0000_0000 + b1 * 0x1_0000_0000_0000 + b2 * 0x100_0000_0000 + b3
            * 0x1_0000_0000 + b4 * 0x100_0000 + b5 * 0x1_0000 + b6 * 0x100 + b7,
    ensures
        be_bytes(seq) == seq![b0, b1, b2, b3, b4, b5, b6, b7],
{
    assert({
        &&& seq / 0x100_0000_0000_0000 == b0
        &&& seq / 0x1_0000_0000_0000 % 0x100 == b1
        &&& seq / 0x100_0000_0000 % 0x100 == b2
        &&& seq / 0x1_0000_0000 % 0x100 == b3
        &&& seq / 0x100_0000 % 0x100 == b4
        &&& seq / 0x1_0000 % 0x100 == b5
        &&& seq / 0x100 % 0x100 == b6
        &&& seq % 0x100 == b7
    }) by (bit_vector)
        requires
            seq == b0 * 0x100_0000_0000_0000 + b1 * 0x1_0000_0000_0000 + b2 * 0x100_0000_0000 + b3
                * 0x1_0000_0000 + b4 * 0x100_0000 + b5 * 0x1_0000 + b6 * 0x100 + b7,
    ;
    assert(be_bytes(seq) =~= seq![b0, b1, b2, b3, b4, b5, b6, b7]);
}

/// What was written as the sequence number of a buffer is read back from it.
pub proof fn law_seq_read_back(buf: Seq<u8>, seq: u64)
    requires
        buf.len() >= SEQ_LEN,
    ensures
        seq_of(with_seq(buf, seq)) == Some(seq),
{
    lemma_value_of_bytes(seq);
    assert(be_value(with_seq(buf, seq)) == be_value(be_bytes(seq)));
}

/// Writing the sequence number touches nothing behind it.
pub proof fn law_seq_keeps_payload(buf: Seq<u8>, seq: u64)
    requires
        buf.len() >= SEQ_LEN,
    ensures
        with_seq(buf, seq).len() == buf.len(),
        with_seq(buf, seq).skip(SEQ_LEN as int) == buf.skip(SEQ_LEN as int),
{
    assert(with_seq(buf, seq).skip(SEQ_LEN as int) =~= buf.skip(SEQ_LEN as int));
}

/// A buffer that starts with the sequence number `seq` has exactly the bytes
/// of that number there.
pub proof fn law_seq_is_unique(buf: Seq<u8>, seq: u64)
    requires
        seq_of(buf) == Some(seq),
    ensures
        buf.take(SEQ_LEN as int) == be_bytes(seq),
{
    lemma_bytes_of_value(seq, buf[0], buf[1], buf[2], buf[3], buf[4], buf[5], buf[6], buf[7]);
    assert(buf.take(SEQ_LEN as int) =~= be_bytes(seq));
}

/// The sequence number takes up the first eight bytes of a buffer, most
/// significant byte first; and is read from any buffer with that many bytes.
pub proof fn law_seq_is_big_endian(buf: Seq<u8>, seq: u64)
    ensures
        buf.len() >= 8 ==> ({
            let sent = with_seq(buf, seq);
            &&& sent.len() == buf.len()
            &&& seq == sent[0] * 0x100_0000_0000_0000 + sent[1] * 0x1_0000_0000_0000 + sent[2]
                * 0x100_0000_0000 + sent[3] * 0x1_0000_0000 + sent[4] * 0x100_0000 + sent[5]
                * 0x1_0000 + sent[6] * 0x100 + sent[7]
            &&& forall|i: int| 8 <= i < buf.len() ==> #[trigger] sent[i] == buf[i]
        }),
        buf.len() >= 8 ==> (seq_of(buf) matches Some(value) && value == buf[0]
            * 0x100_0000_0000_0000 + buf[1] * 0x1_0000_0000_0000 + buf[2] * 0x100_0000_0000 + buf[3]
            * 0x1_0000_0000 + buf[4] * 0x100_0000 + buf[5] * 0x1_0000 + buf[6] * 0x100 + buf[7]),
        buf.len() < 8 ==> seq_of(buf) is None,
{
    lemma_value_of_bytes(seq);
    if buf.len() >= 8 {
        let sent = with_seq(buf, seq);
        assert(sent.take(8) =~= be_bytes(seq));
        assert(be_value(sent) == be_value(be_bytes(seq)));
    }
}

/// The filler spells `muffin`, and a space.
pub proof fn law_filler_spells_muffin()
    ensures
        filler() == seq!['m', 'u', 'f', 'f', 'i', 'n', ' '],
{
    reveal_strlit("muffin ");
    assert(filler() =~= seq!['m', 'u', 'f', 'f', 'i', 'n', ' ']);
}

} // verus!
