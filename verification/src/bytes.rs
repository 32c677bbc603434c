//! Single-precision numbers, by their bit patterns, as bytes.

use vstd::prelude::*;

verus! {

/// Byte `k` of a number, the lowest first.
pub open spec fn byte(v: u32, k: int) -> u8 {
    if k == 0 {
        (v % 0x100) as u8
    } else if k == 1 {
        (v / 0x100 % 0x100) as u8
    } else if k == 2 {
        (v / 0x1_0000 % 0x100) as u8
    } else {
        (v / 0x100_0000) as u8
    }
}

/// The numbers as bytes, four for each, the lowest first.
pub open spec fn bytes_of(values: Seq<u32>) -> Seq<u8> {
    Seq::new(4 * values.len(), |i: int| byte(values[i / 4], i % 4))
}

/// The number that four bytes make, the lowest first.
pub open spec fn number(b0: u8, b1: u8, b2: u8, b3: u8) -> u32 {
    (b0 + 0x100 * b1 + 0x1_0000 * b2 + 0x100_0000 * b3) as u32
}

/// The numbers that bytes make, four for each; what is left at the end makes none.
pub open spec fn numbers_of(bytes: Seq<u8>) -> Seq<u32> {
    Seq::new(
        bytes.len() / 4,
        |i: int| number(bytes[4 * i], bytes[4 * i + 1], bytes[4 * i + 2], bytes[4 * i + 3]),
    )
}

proof fn lemma_number_of_bytes(v: u32)
    ensures
        number(byte(v, 0), byte(v, 1), byte(v, 2), byte(v, 3)) == v,
{
    assert(v / 0x100 / 0x100 == v / 0x1_0000);
    assert(v / 0x1_0000 / 0x100 == v / 0x100_0000);
}

/// What was written as bytes is read back as it was.
pub proof fn bytes_round_trip(values: Seq<u32>)
    ensures
        numbers_of(bytes_of(values)) == values,
{
    let bytes = bytes_of(values);
    assert forall|i: int| 0 <= i < values.len() implies #[trigger] numbers_of(bytes)[i]
        == values[i] by {
        lemma_number_of_bytes(values[i]);
        assert((4 * i) / 4 == i && (4 * i) % 4 == 0);
        assert((4 * i + 1) / 4 == i && (4 * i + 1) % 4 == 1);
        assert((4 * i + 2) / 4 == i && (4 * i + 2) % 4 == 2);
        assert((4 * i + 3) / 4 == i && (4 * i + 3) % 4 == 3);
    }
    assert(numbers_of(bytes) =~= values);
}

/// The numbers as bytes, four for each, the lowest first.
pub fn f32_vec_to_bytes(values: &[u32]) -> (r: Vec<u8>)
    ensures
        r@ == bytes_of(values@),
{
    let mut r: Vec<u8> = Vec::new();
    let mut i: usize = 0;
    while i < values.len()
        invariant
            i <= values@.len(),
            r@ == bytes_of(values@.take(i as int)),
        decreases values@.len() - i,
    {
        let v: u32 = values[i];
        r.push((v % 0x100) as u8);
        r.push((v / 0x100 % 0x100) as u8);
        r.push((v / 0x1_0000 % 0x100) as u8);
        r.push((v / 0x100_0000) as u8);
        i += 1;
        assert(r@ =~= bytes_of(values@.take(i as int)));
    }
    assert(values@.take(i as int) =~= values@);
    r
}

/// The numbers that the bytes make, four for each.
pub fn bytes_to_f32_vec(bytes: &[u8]) -> (r: Vec<u32>)
    ensures
        r@ == numbers_of(bytes@),
{
    let len: usize = bytes.len();
    let n: usize = len / 4;
    let mut r: Vec<u32> = Vec::new();
    let mut i: usize = 0;
    while i < n
        invariant
            i <= n,
            len == bytes@.len(),
            n == len / 4,
            r@ == numbers_of(bytes@).take(i as int),
        decreases n - i,
    {
        let at: usize = 4 * i;
        r.push(
            bytes[at] as u32 + 0x100 * (bytes[at + 1] as u32) + 0x1_0000 * (bytes[at + 2] as u32)
                + 0x100_0000 * (bytes[at + 3] as u32),
        );
        assert(r@ =~= numbers_of(bytes@).take(i + 1));
        i += 1;
    }
    assert(numbers_of(bytes@).take(i as int) =~= numbers_of(bytes@));
    r
}

/// How many bytes make whole numbers.
pub open spec fn whole_len(bytes: Seq<u8>) -> int {
    bytes.len() - bytes.len() % 4
}

/// The bytes at the end that make no number.
pub open spec fn left_over(bytes: Seq<u8>) -> Seq<u8> {
    bytes.skip(whole_len(bytes))
}

/// No byte is lost: the numbers that bytes make, written again, and what is left over are the
/// bytes.
pub proof fn numbers_keep_their_bytes(bytes: Seq<u8>)
    ensures
        bytes_of(numbers_of(bytes)) + left_over(bytes) == bytes,
{
    let again = bytes_of(numbers_of(bytes)) + left_over(bytes);
    assert forall|i: int| 0 <= i < bytes.len() implies again[i] == bytes[i] by {
        if i < whole_len(bytes) {
            let k = i / 4;
            lemma_bytes_of_number(bytes[4 * k], bytes[4 * k + 1], bytes[4 * k + 2], bytes[4 * k + 3]);
            assert(i == 4 * k + i % 4);
        }
    }
    assert(again =~= bytes);
}

proof fn lemma_bytes_of_number(b0: u8, b1: u8, b2: u8, b3: u8)
    ensures
        byte(number(b0, b1, b2, b3), 0) == b0,
        byte(number(b0, b1, b2, b3), 1) == b1,
        byte(number(b0, b1, b2, b3), 2) == b2,
        byte(number(b0, b1, b2, b3), 3) == b3,
{
    let v = b0 + 0x100 * b1 + 0x1_0000 * b2 + 0x100_0000 * b3;
    assert(v <= u32::MAX);
    assert(v / 0x100 == b1 + 0x100 * b2 + 0x1_0000 * b3);
    assert(v / 0x1_0000 == b2 + 0x100 * b3);
    assert(v / 0x100_0000 == b3);
}

/// It does not matter how bytes are cut into pieces: the numbers of a first piece, followed by
/// those of what it leaves over and the rest, are the numbers of the whole.
pub proof fn reading_in_pieces_is_reading_the_whole(first: Seq<u8>, rest: Seq<u8>)
    ensures
        numbers_of(first) + numbers_of(left_over(first) + rest) == numbers_of(first + rest),
        left_over(left_over(first) + rest) == left_over(first + rest),
{
    let n = whole_len(first);
    let tail = left_over(first) + rest;
    let all = first + rest;
    assert(tail =~= all.skip(n));
    assert(n % 4 == 0);
    assert(all.len() / 4 == n / 4 + tail.len() / 4);
    assert(numbers_of(first) + numbers_of(tail) =~= numbers_of(all)) by {
        assert forall|i: int| 0 <= i < all.len() / 4 implies (numbers_of(first) + numbers_of(
            tail,
        ))[i] == numbers_of(all)[i] by {
            if i >= n / 4 {
                let k = i - n / 4;
                assert(4 * k + n == 4 * i);
            }
        }
    }
    assert(left_over(tail) =~= left_over(all));
}

/// A number is stored in four bytes, the lowest first: the bytes of a number weigh one, 256,
/// 65,536 and 16,777,216.
#[verifier::spinoff_prover]
pub proof fn bytes_are_stored_lowest_first(values: Seq<u32>, i: int)
    requires
        0 <= i < values.len(),
    ensures
        bytes_of(values).len() == 4 * values.len(),
        bytes_of(values)[4 * i] == values[i] % 256,
        bytes_of(values)[4 * i + 1] == values[i] / 256 % 256,
        bytes_of(values)[4 * i + 2] == values[i] / 65_536 % 256,
        bytes_of(values)[4 * i + 3] == values[i] / 16_777_216,
{
    assert((4 * i) / 4 == i && (4 * i) % 4 == 0);
    assert((4 * i + 1) / 4 == i && (4 * i + 1) % 4 == 1);
    assert((4 * i + 2) / 4 == i && (4 * i + 2) % 4 == 2);
    assert((4 * i + 3) / 4 == i && (4 * i + 3) % 4 == 3);
}

/// Four bytes are read as a number, the lowest first; bytes beyond the last four are left out.
#[verifier::spinoff_prover]
pub proof fn bytes_are_read_lowest_first(bytes: Seq<u8>, i: int)
    requires
        0 <= i,
        4 * i + 3 < bytes.len(),
    ensures
        numbers_of(bytes).len() == bytes.len() / 4,
        numbers_of(bytes)[i] == bytes[4 * i] + 256 * bytes[4 * i + 1] + 65_536 * bytes[4 * i + 2]
            + 16_777_216 * bytes[4 * i + 3],
{
}

/// Embeddings are written and read lowest byte first.
pub proof fn embeddings_are_written_and_read(
    values: &[u32],
    written: Vec<u8>,
    bytes: &[u8],
    read: Vec<u32>,
)
    requires
        call_ensures(f32_vec_to_bytes, (values,), written),
        call_ensures(bytes_to_f32_vec, (bytes,), read),
    ensures
        written@ == bytes_of(values@),
        read@ == numbers_of(bytes@),
        bytes@ == written@ ==> read@ == values@,
{
    bytes_round_trip(values@);
}

} // verus!
