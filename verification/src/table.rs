//! A table of rows in stable memory, keyed by identifier.

use vstd::prelude::*;
use vstd::bytes::lemma_auto_spec_u64_to_from_le_bytes;
use vstd::utf8::encode_utf8;
use crate::row::{
    decode_row, encode_row, lemma_row_round_trip, nums_bytes, parse_row, row_bytes, row_fits,
    text_bytes, texts_bytes, Row, RowView,
};
use crate::stable::{
    table_create, table_entries, table_get, table_insert, table_open, table_scan, Regions, Table,
    MAX_VALUE_BYTES, REGION_SLOTS,
};

verus! {

/// Whether a row is small enough to be stored: the stable map writes the
/// length of a value in 32 bits, so a row may take no more bytes than that
/// can count. Nothing else bounds a row.
pub open spec fn row_storable(row: RowView) -> bool {
    row_bytes(row).len() <= MAX_VALUE_BYTES
}

/// The bytes of a list of texts hold each text and its length.
proof fn lemma_texts_bytes_cover(texts: Seq<Seq<char>>, i: int)
    requires
        0 <= i < texts.len(),
    ensures
        encode_utf8(texts[i]).len() + 8 <= texts_bytes(texts).len(),
    decreases texts.len(),
{
    lemma_auto_spec_u64_to_from_le_bytes();
    assert(text_bytes(texts[0]).len() == 8 + encode_utf8(texts[0]).len());
    if i > 0 {
        lemma_texts_bytes_cover(texts.drop_first(), i - 1);
    }
}

/// The bytes of a list of integers are at least as many as the integers.
proof fn lemma_nums_bytes_cover(nums: Seq<u64>)
    ensures
        nums.len() <= nums_bytes(nums).len(),
    decreases nums.len(),
{
    lemma_auto_spec_u64_to_from_le_bytes();
    if nums.len() > 0 {
        lemma_nums_bytes_cover(nums.drop_first());
    }
}

/// A row that is small enough to be stored is read back as it was written.
pub proof fn lemma_storable_round_trip(row: RowView)
    requires
        row_storable(row),
    ensures
        row_fits(row),
        parse_row(row_bytes(row)) == Some(row),
{
    lemma_nums_bytes_cover(row.nums);
    assert forall|i: int| 0 <= i < row.texts.len() implies encode_utf8(#[trigger] row.texts[i]).len()
        <= u64::MAX by {
        lemma_texts_bytes_cover(row.texts, i);
    }
    lemma_row_round_trip(row);
}

/// A table of rows. Its view is the map from each stored identifier to its
/// row.
pub struct RowTable {
    table: Table,
}

impl RowTable {
    /// Every stored value is the encoding of a row.
    pub closed spec fn wf(&self) -> bool {
        forall|k: u64| #[trigger]
            table_entries(self.table).dom().contains(k) ==> parse_row(
                table_entries(self.table)[k],
            ) is Some
    }

    pub closed spec fn view(&self) -> Map<u64, RowView> {
        Map::new(
            |k: u64| table_entries(self.table).dom().contains(k),
            |k: u64| parse_row(table_entries(self.table)[k]).unwrap(),
        )
    }

    /// An empty table in the region with the given slot.
    pub(crate) fn create(regions: &Regions, slot: u8) -> (t: RowTable)
        requires
            slot < REGION_SLOTS,
        ensures
            t.wf(),
            t@ == Map::<u64, RowView>::empty(),
    {
        let t = RowTable { table: table_create(regions, slot) };
        proof {
            assert(t@ =~= Map::<u64, RowView>::empty());
        }
        t
    }

    /// The table that the region with the given slot holds, if every value
    /// in it is the encoding of a row; an empty table where the region holds
    /// none. What the region holds decides: see [`RowTable::adopt`].
    pub(crate) fn open(regions: &Regions, slot: u8) -> (r: Option<RowTable>)
        requires
            slot < REGION_SLOTS,
        ensures
            r matches Some(t) ==> t.wf(),
    {
        RowTable::adopt(table_open(regions, slot))
    }

    /// Takes a stable map as a table of rows, if every value in it is the
    /// encoding of a row.
    pub(crate) fn adopt(table: Table) -> (r: Option<RowTable>)
        ensures
            r is Some <==> all_rows(table_entries(table)),
            r matches Some(t) ==> t.wf() && t@ == rows_of(table_entries(table)),
    {
        let raw = table_scan(&table);
        let mut i: usize = 0;
        while i < raw.len()
            invariant
                i <= raw.len(),
                forall|j: int|
                    0 <= j < raw@.len() ==> table_entries(table).dom().contains(
                        #[trigger] raw@[j].0,
                    ) && table_entries(table)[raw@[j].0] == raw@[j].1@,
                forall|j: int| 0 <= j < i ==> parse_row((#[trigger] raw@[j]).1@) is Some,
            decreases raw.len() - i,
        {
            if decode_row(&raw[i].1).is_none() {
                proof {
                    assert(table_entries(table).dom().contains(raw@[i as int].0));
                }
                return None;
            }
            i = i + 1;
        }
        proof {
            assert forall|k: u64| #[trigger]
                table_entries(table).dom().contains(k) implies parse_row(
                table_entries(table)[k],
            ) is Some by {
                let j = choose|j: int| 0 <= j < raw@.len() && #[trigger] raw@[j].0 == k;
                assert(parse_row(raw@[j].1@) is Some);
            }
        }
        Some(RowTable { table })
    }

    /// Stores a row under an identifier, in place of the row stored there
    /// before. A row that is too large is not stored, and `false` is returned.
    pub(crate) fn put(&mut self, id: u64, row: &Row) -> (stored: bool)
        requires
            old(self).wf(),
        ensures
            final(self).wf(),
            stored == row_storable(row@),
            stored ==> final(self)@ == old(self)@.insert(id, row@),
            !stored ==> final(self)@ == old(self)@,
    {
        let bytes = encode_row(row);
        if bytes.len() > MAX_VALUE_BYTES {
            return false;
        }
        proof {
            lemma_storable_round_trip(row@);
        }
        table_insert(&mut self.table, id, bytes);
        proof {
            assert(final(self)@ =~= old(self)@.insert(id, row@));
        }
        true
    }

    /// The row stored under an identifier, if there is one.
    pub(crate) fn get(&self, id: u64) -> (r: Option<Row>)
        requires
            self.wf(),
        ensures
            match r {
                Some(row) => self@.dom().contains(id) && self@[id] == row@,
                None => !self@.dom().contains(id),
            },
    {
        match table_get(&self.table, id) {
            Some(bytes) => decode_row(&bytes),
            None => None,
        }
    }

    /// Every stored row with its identifier, in ascending order of the
    /// identifiers.
    pub(crate) fn scan(&self) -> (r: Vec<(u64, Row)>)
        requires
            self.wf(),
        ensures
            forall|i: int|
                0 <= i < r@.len() ==> self@.dom().contains(#[trigger] r@[i].0) && self@[r@[i].0]
                    == r@[i].1@,
            forall|i: int, j: int| 0 <= i < j < r@.len() ==> r@[i].0 < r@[j].0,
            forall|k: u64|
                self@.dom().contains(k) ==> exists|i: int|
                    0 <= i < r@.len() && #[trigger] r@[i].0 == k,
    {
        let raw = table_scan(&self.table);
        let mut out: Vec<(u64, Row)> = Vec::new();
        let mut i: usize = 0;
        while i < raw.len()
            invariant
                self.wf(),
                i <= raw.len(),
                out@.len() == i,
                forall|j: int|
                    0 <= j < raw@.len() ==> table_entries(self.table).dom().contains(
                        #[trigger] raw@[j].0,
                    ) && table_entries(self.table)[raw@[j].0] == raw@[j].1@,
                forall|j: int|
                    0 <= j < i ==> (#[trigger] out@[j]).0 == raw@[j].0 && self@[raw@[j].0]
                        == out@[j].1@,
            decreases raw.len() - i,
        {
            let id = raw[i].0;
            match decode_row(&raw[i].1) {
                Some(row) => {
                    out.push((id, row));
                },
                None => {
                    proof {
                        assert(table_entries(self.table).dom().contains(raw@[i as int].0));
                    }
                },
            }
            i = i + 1;
        }
        proof {
            assert forall|k: u64| self@.dom().contains(k) implies exists|j: int|
                0 <= j < out@.len() && #[trigger] out@[j].0 == k by {
                let j = choose|j: int| 0 <= j < raw@.len() && #[trigger] raw@[j].0 == k;
                assert(out@[j].0 == k);
            }
        }
        out
    }
}

/// Whether every value of a map of bytes is the encoding of a row.
pub open spec fn all_rows(entries: Map<u64, Seq<u8>>) -> bool {
    forall|k: u64| #[trigger] entries.dom().contains(k) ==> parse_row(entries[k]) is Some
}

/// The rows that the values of a map of bytes encode.
pub open spec fn rows_of(entries: Map<u64, Seq<u8>>) -> Map<u64, RowView> {
    Map::new(|k: u64| entries.dom().contains(k), |k: u64| parse_row(entries[k]).unwrap())
}

} // verus!
