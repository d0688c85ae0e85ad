//! Rows: the form in which every record is kept in a table.
//!
//! A row is a list of integers followed by a list of texts. Its bytes are the
//! number of integers, each integer in eight little-endian bytes, and then
//! each text as its UTF-8 length in eight bytes followed by its UTF-8 bytes.
//! Decoding is the exact inverse of encoding: `lemma_row_round_trip`.

use vstd::prelude::*;
use vstd::bytes::{
    lemma_auto_spec_u64_to_from_le_bytes, spec_u64_from_le_bytes, spec_u64_to_le_bytes,
    u64_from_le_bytes, u64_to_le_bytes,
};
use vstd::slice::{slice_subrange, slice_to_vec};
use vstd::string::StrSliceExecFns;
use vstd::utf8::{
    decode_utf8, encode_utf8, encode_utf8_decode_utf8, encode_utf8_valid_utf8, valid_utf8,
};

verus! {

/// A list of integers and a list of texts.
pub struct Row {
    pub nums: Vec<u64>,
    pub texts: Vec<String>,
}

/// What a row holds, as mathematical sequences.
pub struct RowView {
    pub nums: Seq<u64>,
    pub texts: Seq<Seq<char>>,
}

/// The characters of each text of a list.
pub open spec fn text_views(texts: Seq<String>) -> Seq<Seq<char>> {
    Seq::new(texts.len(), |i: int| texts[i]@)
}

impl View for Row {
    type V = RowView;

    open spec fn view(&self) -> RowView {
        RowView { nums: self.nums@, texts: text_views(self.texts@) }
    }
}

/// The bytes of a list of integers: eight little-endian bytes each.
pub open spec fn nums_bytes(nums: Seq<u64>) -> Seq<u8>
    decreases nums.len(),
{
    if nums.len() == 0 {
        Seq::empty()
    } else {
        spec_u64_to_le_bytes(nums[0]) + nums_bytes(nums.drop_first())
    }
}

/// The bytes of one text: the length of its UTF-8 form, then that form.
pub open spec fn text_bytes(text: Seq<char>) -> Seq<u8> {
    spec_u64_to_le_bytes(encode_utf8(text).len() as u64) + encode_utf8(text)
}

/// The bytes of a list of texts, one after the other.
pub open spec fn texts_bytes(texts: Seq<Seq<char>>) -> Seq<u8>
    decreases texts.len(),
{
    if texts.len() == 0 {
        Seq::empty()
    } else {
        text_bytes(texts[0]) + texts_bytes(texts.drop_first())
    }
}

/// The bytes of a row.
pub open spec fn row_bytes(row: RowView) -> Seq<u8> {
    spec_u64_to_le_bytes(row.nums.len() as u64) + nums_bytes(row.nums) + texts_bytes(row.texts)
}

/// Whether every length in the row can be written in eight bytes.
pub open spec fn row_fits(row: RowView) -> bool {
    &&& row.nums.len() <= u64::MAX
    &&& forall|i: int| 0 <= i < row.texts.len() ==> encode_utf8(#[trigger] row.texts[i]).len() <= u64::MAX
}

/// Reads `count` integers from the front of `bytes`: the integers and the
/// bytes that follow them, or `None` where the bytes end too early.
pub open spec fn parse_nums(bytes: Seq<u8>, count: nat) -> Option<(Seq<u64>, Seq<u8>)>
    decreases count,
{
    if count == 0 {
        Some((Seq::empty(), bytes))
    } else if bytes.len() < 8 {
        None
    } else {
        match parse_nums(bytes.skip(8), (count - 1) as nat) {
            Some((nums, rest)) => Some(
                (seq![spec_u64_from_le_bytes(bytes.take(8))] + nums, rest),
            ),
            None => None,
        }
    }
}

/// Reads texts until `bytes` is used up, or `None` where a text is cut short
/// or is not UTF-8.
pub open spec fn parse_texts(bytes: Seq<u8>) -> Option<Seq<Seq<char>>>
    decreases bytes.len(),
{
    if bytes.len() == 0 {
        Some(Seq::empty())
    } else if bytes.len() < 8 {
        None
    } else {
        let n = spec_u64_from_le_bytes(bytes.take(8)) as int;
        if bytes.len() - 8 < n {
            None
        } else if !valid_utf8(bytes.subrange(8, 8 + n)) {
            None
        } else {
            match parse_texts(bytes.skip(8 + n)) {
                Some(texts) => Some(seq![decode_utf8(bytes.subrange(8, 8 + n))] + texts),
                None => None,
            }
        }
    }
}

/// The row that `bytes` encode, or `None` where they encode none.
pub open spec fn parse_row(bytes: Seq<u8>) -> Option<RowView> {
    if bytes.len() < 8 {
        None
    } else {
        match parse_nums(bytes.skip(8), spec_u64_from_le_bytes(bytes.take(8)) as nat) {
            None => None,
            Some((nums, rest)) => match parse_texts(rest) {
                None => None,
                Some(texts) => Some(RowView { nums, texts }),
            },
        }
    }
}

/// Adding an integer at the end of a list adds its bytes at the end.
pub proof fn lemma_nums_bytes_push(nums: Seq<u64>, x: u64)
    ensures
        nums_bytes(nums.push(x)) == nums_bytes(nums) + spec_u64_to_le_bytes(x),
    decreases nums.len(),
{
    if nums.len() == 0 {
        assert(nums.push(x).drop_first() =~= Seq::<u64>::empty());
        assert(nums_bytes(Seq::<u64>::empty()) =~= Seq::<u8>::empty());
        assert(nums_bytes(nums.push(x)) =~= nums_bytes(nums) + spec_u64_to_le_bytes(x));
    } else {
        assert(nums.push(x).drop_first() =~= nums.drop_first().push(x));
        lemma_nums_bytes_push(nums.drop_first(), x);
        assert(nums_bytes(nums.push(x)) =~= nums_bytes(nums) + spec_u64_to_le_bytes(x));
    }
}

/// Adding a text at the end of a list adds its bytes at the end.
pub proof fn lemma_texts_bytes_push(texts: Seq<Seq<char>>, t: Seq<char>)
    ensures
        texts_bytes(texts.push(t)) == texts_bytes(texts) + text_bytes(t),
    decreases texts.len(),
{
    if texts.len() == 0 {
        assert(texts.push(t).drop_first() =~= Seq::<Seq<char>>::empty());
        assert(texts_bytes(Seq::<Seq<char>>::empty()) =~= Seq::<u8>::empty());
        assert(texts_bytes(texts.push(t)) =~= texts_bytes(texts) + text_bytes(t));
    } else {
        assert(texts.push(t).drop_first() =~= texts.drop_first().push(t));
        lemma_texts_bytes_push(texts.drop_first(), t);
        assert(texts_bytes(texts.push(t)) =~= texts_bytes(texts) + text_bytes(t));
    }
}

/// The number of bytes that a list of texts takes: eight for each length and
/// the UTF-8 bytes of each text.
pub open spec fn texts_size(texts: Seq<Seq<char>>) -> nat
    decreases texts.len(),
{
    if texts.len() == 0 {
        0
    } else {
        8 + encode_utf8(texts[0]).len() + texts_size(texts.drop_first())
    }
}

/// The bytes of a list of texts are as many as its size says.
pub proof fn lemma_texts_bytes_len(texts: Seq<Seq<char>>)
    ensures
        texts_bytes(texts).len() == texts_size(texts),
    decreases texts.len(),
{
    lemma_auto_spec_u64_to_from_le_bytes();
    if texts.len() > 0 {
        lemma_texts_bytes_len(texts.drop_first());
    }
}

/// Texts of at most `bound` bytes each take at most eight bytes more than
/// that for each.
pub proof fn lemma_texts_size_bound(texts: Seq<Seq<char>>, bound: nat)
    requires
        forall|i: int| 0 <= i < texts.len() ==> encode_utf8(#[trigger] texts[i]).len() <= bound,
    ensures
        texts_size(texts) <= texts.len() * (8 + bound),
    decreases texts.len(),
{
    if texts.len() > 0 {
        let rest = texts.drop_first();
        assert forall|i: int| 0 <= i < rest.len() implies encode_utf8(#[trigger] rest[i]).len()
            <= bound by {
            assert(rest[i] == texts[i + 1]);
        }
        lemma_texts_size_bound(rest, bound);
        assert(texts.len() * (8 + bound) == rest.len() * (8 + bound) + (8 + bound)) by (nonlinear_arith)
            requires
                texts.len() == rest.len() + 1,
        ;
    }
}

/// The bytes of a list of integers are eight for each.
pub proof fn lemma_nums_bytes_len(nums: Seq<u64>)
    ensures
        nums_bytes(nums).len() == 8 * nums.len(),
    decreases nums.len(),
{
    lemma_auto_spec_u64_to_from_le_bytes();
    if nums.len() > 0 {
        lemma_nums_bytes_len(nums.drop_first());
    }
}

/// The size of a row: eight bytes for the number of integers, eight for each
/// integer, and the size of the texts.
pub proof fn lemma_row_bytes_len(row: RowView)
    ensures
        row_bytes(row).len() == 8 + 8 * row.nums.len() + texts_size(row.texts),
{
    lemma_auto_spec_u64_to_from_le_bytes();
    lemma_nums_bytes_len(row.nums);
    lemma_texts_bytes_len(row.texts);
}

/// Integers that were written are read back, and the bytes after them are
/// left over.
pub proof fn lemma_parse_nums_round_trip(nums: Seq<u64>, rest: Seq<u8>)
    ensures
        parse_nums(nums_bytes(nums) + rest, nums.len()) == Some((nums, rest)),
    decreases nums.len(),
{
    lemma_auto_spec_u64_to_from_le_bytes();
    let bytes = nums_bytes(nums) + rest;
    if nums.len() == 0 {
        assert(bytes =~= rest);
    } else {
        let head = spec_u64_to_le_bytes(nums[0]);
        let tail = nums.drop_first();
        assert(bytes.take(8) =~= head);
        assert(bytes.skip(8) =~= nums_bytes(tail) + rest);
        lemma_parse_nums_round_trip(tail, rest);
        assert(seq![nums[0]] + tail =~= nums);
    }
}

/// Texts that were written are read back.
pub proof fn lemma_parse_texts_round_trip(texts: Seq<Seq<char>>)
    requires
        forall|i: int| 0 <= i < texts.len() ==> encode_utf8(#[trigger] texts[i]).len() <= u64::MAX,
    ensures
        parse_texts(texts_bytes(texts)) == Some(texts),
    decreases texts.len(),
{
    lemma_auto_spec_u64_to_from_le_bytes();
    let bytes = texts_bytes(texts);
    if texts.len() > 0 {
        let body = encode_utf8(texts[0]);
        let head = spec_u64_to_le_bytes(body.len() as u64);
        let tail = texts.drop_first();
        let n = body.len() as int;
        assert(bytes =~= head + body + texts_bytes(tail));
        assert(bytes.take(8) =~= head);
        assert(spec_u64_from_le_bytes(bytes.take(8)) as int == n);
        assert(bytes.subrange(8, 8 + n) =~= body);
        assert(bytes.skip(8 + n) =~= texts_bytes(tail));
        encode_utf8_valid_utf8(texts[0]);
        encode_utf8_decode_utf8(texts[0]);
        assert forall|i: int| 0 <= i < tail.len() implies encode_utf8(#[trigger] tail[i]).len()
            <= u64::MAX by {
            assert(tail[i] == texts[i + 1]);
        }
        lemma_parse_texts_round_trip(tail);
        assert(seq![texts[0]] + tail =~= texts);
    }
}

/// A row that was written is read back: decoding inverts encoding.
pub proof fn lemma_row_round_trip(row: RowView)
    requires
        row_fits(row),
    ensures
        parse_row(row_bytes(row)) == Some(row),
{
    lemma_auto_spec_u64_to_from_le_bytes();
    let head = spec_u64_to_le_bytes(row.nums.len() as u64);
    let bytes = row_bytes(row);
    assert(bytes =~= head + (nums_bytes(row.nums) + texts_bytes(row.texts)));
    assert(bytes.take(8) =~= head);
    assert(bytes.skip(8) =~= nums_bytes(row.nums) + texts_bytes(row.texts));
    lemma_parse_nums_round_trip(row.nums, texts_bytes(row.texts));
    lemma_parse_texts_round_trip(row.texts);
}

/// Calls `String::from_utf8` of the standard library: the text whose UTF-8
/// form the bytes are, or `None` where the bytes are not UTF-8.
#[verifier::external_body]
fn text_from_utf8(bytes: Vec<u8>) -> (r: Option<String>)
    ensures
        match r {
            Some(s) => valid_utf8(bytes@) && s@ == decode_utf8(bytes@),
            None => !valid_utf8(bytes@),
        },
{
    String::from_utf8(bytes).ok()
}

/// Writes a row as bytes.
pub fn encode_row(row: &Row) -> (bytes: Vec<u8>)
    ensures
        bytes@ == row_bytes(row@),
{
    let mut out: Vec<u8> = u64_to_le_bytes(row.nums.len() as u64);
    let ghost head = out@;
    let mut i: usize = 0;
    while i < row.nums.len()
        invariant
            i <= row.nums.len(),
            out@ == head + nums_bytes(row.nums@.take(i as int)),
        decreases row.nums.len() - i,
    {
        let mut piece = u64_to_le_bytes(row.nums[i]);
        proof {
            lemma_nums_bytes_push(row.nums@.take(i as int), row.nums@[i as int]);
            assert(row.nums@.take(i as int).push(row.nums@[i as int]) =~= row.nums@.take(
                i as int + 1,
            ));
            assert((head + nums_bytes(row.nums@.take(i as int))) + piece@ =~= head + nums_bytes(
                row.nums@.take(i as int + 1),
            ));
        }
        out.append(&mut piece);
        i = i + 1;
    }
    proof {
        assert(row.nums@.take(i as int) =~= row.nums@);
    }
    let ghost front = out@;
    let ghost texts = text_views(row.texts@);
    let mut j: usize = 0;
    while j < row.texts.len()
        invariant
            j <= row.texts.len(),
            texts == text_views(row.texts@),
            out@ == front + texts_bytes(texts.take(j as int)),
        decreases row.texts.len() - j,
    {
        let mut body = row.texts[j].as_str().as_bytes_vec();
        let mut size = u64_to_le_bytes(body.len() as u64);
        proof {
            let t = texts[j as int];
            assert(t == row.texts@[j as int]@);
            assert(body@ == encode_utf8(t));
            lemma_texts_bytes_push(texts.take(j as int), t);
            assert(texts.take(j as int).push(t) =~= texts.take(j as int + 1));
            assert(((front + texts_bytes(texts.take(j as int))) + size@) + body@ =~= front
                + texts_bytes(texts.take(j as int + 1)));
        }
        out.append(&mut size);
        out.append(&mut body);
        j = j + 1;
    }
    proof {
        assert(texts.take(j as int) =~= texts);
    }
    out
}

/// Reads a row from bytes: `None` where the bytes encode no row.
pub fn decode_row(bytes: &Vec<u8>) -> (r: Option<Row>)
    ensures
        match r {
            Some(row) => parse_row(bytes@) == Some(row@),
            None => parse_row(bytes@) is None,
        },
{
    let len = bytes.len();
    if len < 8 {
        return None;
    }
    let count = u64_from_le_bytes(slice_subrange(bytes.as_slice(), 0, 8));
    proof {
        assert(bytes@.take(8) =~= bytes@.subrange(0, 8));
    }
    let mut pos: usize = 8;
    let mut nums: Vec<u64> = Vec::new();
    let mut i: u64 = 0;
    while i < count
        invariant
            len == bytes@.len(),
            8 <= pos <= len,
            i <= count,
            nums@.len() == i,
            count == spec_u64_from_le_bytes(bytes@.take(8)),
            parse_nums(bytes@.skip(8), count as nat) == match parse_nums(
                bytes@.skip(pos as int),
                (count - i) as nat,
            ) {
                Some((more, rest)) => Some((nums@ + more, rest)),
                None => None,
            },
        decreases count - i,
    {
        if len - pos < 8 {
            return None;
        }
        let x = u64_from_le_bytes(slice_subrange(bytes.as_slice(), pos, pos + 8));
        proof {
            let here = bytes@.skip(pos as int);
            assert(here.take(8) =~= bytes@.subrange(pos as int, pos + 8));
            assert(here.skip(8) =~= bytes@.skip(pos + 8));
            match parse_nums(bytes@.skip(pos + 8), (count - i - 1) as nat) {
                Some((more, rest)) => {
                    assert(nums@ + (seq![x] + more) =~= nums@.push(x) + more);
                },
                None => {},
            }
        }
        nums.push(x);
        pos = pos + 8;
        i = i + 1;
    }
    proof {
        assert(nums@ + Seq::<u64>::empty() =~= nums@);
    }
    let ghost start = pos;
    let mut texts: Vec<String> = Vec::new();
    while pos < len
        invariant
            len == bytes@.len(),
            8 <= start <= pos <= len,
            count == spec_u64_from_le_bytes(bytes@.take(8)),
            parse_nums(bytes@.skip(8), count as nat) == Some((nums@, bytes@.skip(start as int))),
            parse_texts(bytes@.skip(start as int)) == match parse_texts(bytes@.skip(pos as int)) {
                Some(more) => Some(text_views(texts@) + more),
                None => None,
            },
        decreases len - pos,
    {
        if len - pos < 8 {
            return None;
        }
        let size = u64_from_le_bytes(slice_subrange(bytes.as_slice(), pos, pos + 8));
        proof {
            let here = bytes@.skip(pos as int);
            assert(here.take(8) =~= bytes@.subrange(pos as int, pos + 8));
        }
        if ((len - pos - 8) as u64) < size {
            return None;
        }
        let n = size as usize;
        let body = slice_to_vec(slice_subrange(bytes.as_slice(), pos + 8, pos + 8 + n));
        proof {
            let here = bytes@.skip(pos as int);
            assert(here.subrange(8, 8 + n) =~= bytes@.subrange(pos + 8, pos + 8 + n));
            assert(here.skip(8 + n) =~= bytes@.skip(pos + 8 + n));
        }
        match text_from_utf8(body) {
            None => {
                return None;
            },
            Some(s) => {
                proof {
                    match parse_texts(bytes@.skip(pos + 8 + n)) {
                        Some(more) => {
                            assert(text_views(texts@) + (seq![s@] + more) =~= text_views(
                                texts@.push(s),
                            ) + more);
                        },
                        None => {},
                    }
                }
                texts.push(s);
                pos = pos + 8 + n;
            },
        }
    }
    proof {
        assert(bytes@.skip(pos as int) =~= Seq::<u8>::empty());
        assert(text_views(texts@) + Seq::<Seq<char>>::empty() =~= text_views(texts@));
    }
    Some(Row { nums, texts })
}

} // verus!
