//! The memory bank: an ordered sequence of word-aligned rows, grown and shrunk at the tail.
use vstd::prelude::*;

use crate::row::{MemoryRow, WORD_BITS, bit_of, with_bit};

verus! {

/// Largest number of rows a bank can hold: every address `4 * i` must fit in a `u32`.
pub const MAX_ROWS: usize = 0x4000_0000;

/// Number of rows of a freshly created bank.
pub const DEFAULT_ROWS: usize = 4;

/// Pattern word of even-indexed rows.
pub const PATTERN_EVEN: u32 = 0xAAAA_AAAA;

/// Pattern word of odd-indexed rows.
pub const PATTERN_ODD: u32 = 0x5555_5555;

/// The address of the row at position `i`.
pub open spec fn address_of(i: int) -> u32 {
    (4 * i) as u32
}

/// Every row sits at address `4 * position`.
pub open spec fn aligned(rows: Seq<MemoryRow>) -> bool {
    forall|i: int| 0 <= i < rows.len() ==> (#[trigger] rows[i]).address == 4 * i
}

/// The position of the row at `address` in a bank of `len` aligned rows, if there is one.
pub open spec fn slot_of(len: nat, address: u32) -> Option<int> {
    if address % 4 == 0 && address / 4 < len {
        Some((address / 4) as int)
    } else {
        None
    }
}

/// The data stored at `address`, if a row has that address.
pub open spec fn stored(rows: Seq<MemoryRow>, address: u32) -> Option<u32> {
    match slot_of(rows.len(), address) {
        Some(i) => Some(rows[i].data),
        None => None,
    }
}

/// The rows after writing `data` at `address`; unchanged when no row has that address.
pub open spec fn written(rows: Seq<MemoryRow>, address: u32, data: u32) -> Seq<MemoryRow> {
    match slot_of(rows.len(), address) {
        Some(i) => rows.update(i, MemoryRow { address: rows[i].address, data }),
        None => rows,
    }
}

/// The rows after one more zeroed row is added at the tail.
pub open spec fn appended(rows: Seq<MemoryRow>) -> Seq<MemoryRow> {
    rows.push(MemoryRow { address: address_of(rows.len() as int), data: 0 })
}

/// The rows after the tail row is taken away, if there is one.
pub open spec fn removed(rows: Seq<MemoryRow>) -> Seq<MemoryRow> {
    if rows.len() == 0 {
        rows
    } else {
        rows.drop_last()
    }
}

/// `n` zeroed rows at addresses `0, 4, 8, ...`.
pub open spec fn zero_rows(n: nat) -> Seq<MemoryRow> {
    Seq::new(n, |i: int| MemoryRow { address: address_of(i), data: 0 })
}

/// The rows after `values` are loaded from the first row on, growing the bank as needed.
pub open spec fn loaded(rows: Seq<MemoryRow>, values: Seq<u32>) -> Seq<MemoryRow> {
    let n = if values.len() > rows.len() { values.len() } else { rows.len() };
    Seq::new(
        n,
        |i: int|
            MemoryRow {
                address: address_of(i),
                data: if i < values.len() {
                    values[i]
                } else {
                    rows[i].data
                },
            },
    )
}

/// Every row's data set to zero.
pub open spec fn cleared(rows: Seq<MemoryRow>) -> Seq<MemoryRow> {
    rows.map_values(|r: MemoryRow| MemoryRow { address: r.address, data: 0 })
}

/// The test-pattern word of the row at position `i`.
pub open spec fn pattern_word(i: int) -> u32 {
    if i % 2 == 0 {
        PATTERN_EVEN
    } else {
        PATTERN_ODD
    }
}

/// Every row's data set to its test-pattern word.
pub open spec fn patterned(rows: Seq<MemoryRow>) -> Seq<MemoryRow> {
    rows.map(|i: int, r: MemoryRow| MemoryRow { address: r.address, data: pattern_word(i) })
}

/// The rows after bit `bit` of the row at position `row` is set to `on`;
/// unchanged when either index is out of range.
pub open spec fn bit_written(rows: Seq<MemoryRow>, row: int, bit: int, on: bool) -> Seq<MemoryRow> {
    if 0 <= row < rows.len() && 0 <= bit < 32 {
        rows.update(
            row,
            MemoryRow { address: rows[row].address, data: with_bit(rows[row].data, bit as u32, on) },
        )
    } else {
        rows
    }
}

/// The memory bank. Its rows sit at addresses `0, 4, 8, ...` in order, and its row
/// count always equals the number of rows.
pub struct TemplateApp {
    memory_rows: Vec<MemoryRow>,
    num_rows: usize,
}

impl View for TemplateApp {
    type V = Seq<MemoryRow>;

    closed spec fn view(&self) -> Seq<MemoryRow> {
        self.memory_rows@
    }
}

impl TemplateApp {
    /// The bank's invariant: the row count matches, the rows are aligned, and every
    /// address fits in a `u32`.
    pub closed spec fn wf(&self) -> bool {
        &&& self.num_rows == self.memory_rows.len()
        &&& self.memory_rows.len() <= MAX_ROWS
        &&& aligned(self.memory_rows@)
    }

    /// Rebuilds the bank as `row_count` zeroed rows at addresses `0, 4, 8, ...`.
    pub fn initialize_memory_rows(&mut self, row_count: usize)
        requires
            row_count <= MAX_ROWS,
        ensures
            final(self).wf(),
            final(self)@ == zero_rows(row_count as nat),
            final(self)@.len() == row_count,
            forall|i: int|
                0 <= i < row_count ==> (#[trigger] final(self)@[i]).address == 4 * i
                    && final(self)@[i].data == 0,
    {
        self.memory_rows.clear();
        self.num_rows = 0;
        let mut i: usize = 0;
        while i < row_count
            invariant
                i <= row_count <= MAX_ROWS,
                self.memory_rows@.len() == i,
                self.num_rows == 0,
                forall|j: int|
                    0 <= j < i ==> #[trigger] self.memory_rows@[j] == (MemoryRow {
                        address: address_of(j),
                        data: 0,
                    }),
            decreases row_count - i,
        {
            let address: u32 = (i as u32) * 4;
            self.memory_rows.push(MemoryRow::new(address, 0));
            i = i + 1;
        }
        self.num_rows = row_count;
        assert(self.memory_rows@ =~= zero_rows(row_count as nat));
    }

    /// Adds one zeroed row at the tail, at the address that follows the last one.
    pub fn add_memory_row(&mut self)
        requires
            old(self).wf(),
            old(self)@.len() < MAX_ROWS,
        ensures
            final(self).wf(),
            final(self)@ == appended(old(self)@),
            final(self)@.len() == old(self)@.len() + 1,
            final(self)@.last() == (MemoryRow { address: (4 * old(self)@.len()) as u32, data: 0 }),
    {
        let address: u32 = (self.memory_rows.len() as u32) * 4;
        self.memory_rows.push(MemoryRow::new(address, 0));
        self.num_rows = self.memory_rows.len();
        assert(aligned(self.memory_rows@)) by {
            assert forall|i: int| 0 <= i < self.memory_rows@.len() implies (
            #[trigger] self.memory_rows@[i]).address == 4 * i by {
                if i < old(self).memory_rows@.len() {
                    assert(self.memory_rows@[i] == old(self).memory_rows@[i]);
                }
            }
        }
    }

    /// Removes the tail row; does nothing on an empty bank.
    pub fn remove_memory_row(&mut self)
        requires
            old(self).wf(),
        ensures
            final(self).wf(),
            final(self)@ == removed(old(self)@),
            old(self)@.len() == 0 ==> final(self)@.len() == 0,
    {
        if self.memory_rows.len() > 0 {
            self.memory_rows.pop();
            self.num_rows = self.memory_rows.len();
        }
    }

    /// The position of the first row whose address is `address`, by a scan from the front.
    fn find_row(&self, address: u32) -> (r: Option<usize>)
        requires
            self.wf(),
        ensures
            r == match slot_of(self@.len(), address) {
                Some(i) => Some(i as usize),
                None => None::<usize>,
            },
    {
        let mut i: usize = 0;
        while i < self.memory_rows.len()
            invariant
                self.wf(),
                i <= self@.len(),
                forall|j: int| 0 <= j < i ==> (#[trigger] self@[j]).address != address,
            decreases self@.len() - i,
        {
            if self.memory_rows[i].address == address {
                return Some(i);
            }
            i = i + 1;
        }
        assert(slot_of(self@.len(), address) is None) by {
            if address % 4 == 0 && address / 4 < self@.len() {
                let k = (address / 4) as int;
                assert(self@[k].address == address);
            }
        }
        None
    }

    /// Overwrites the data of the row at `address`; does nothing when no row has it.
    pub fn set_memory_data(&mut self, address: u32, data: u32)
        requires
            old(self).wf(),
        ensures
            final(self).wf(),
            final(self)@ == written(old(self)@, address, data),
    {
        match self.find_row(address) {
            Some(i) => {
                self.memory_rows.set(i, MemoryRow::new(address, data));
                assert(aligned(self.memory_rows@)) by {
                    assert forall|j: int| 0 <= j < self.memory_rows@.len() implies (
                    #[trigger] self.memory_rows@[j]).address == 4 * j by {
                        if j != i {
                            assert(self.memory_rows@[j] == old(self).memory_rows@[j]);
                        }
                    }
                }
            },
            None => {},
        }
    }

    /// The data of the row at `address`, or `None` when no row has that address.
    pub fn get_memory_data(&self, address: u32) -> (r: Option<u32>)
        requires
            self.wf(),
        ensures
            r == stored(self@, address),
            r is Some <==> exists|i: int| 0 <= i < self@.len() && (#[trigger] self@[i]).address == address,
    {
        match self.find_row(address) {
            Some(i) => Some(self.memory_rows[i].data),
            None => None,
        }
    }

    /// Loads `data` into the rows from the first one on, adding zeroed rows at the tail
    /// until there are at least as many rows as values. Rows past the end of `data`
    /// keep their contents; no row is ever removed.
    pub fn load_memory_from_array(&mut self, data: &[u32])
        requires
            old(self).wf(),
            data@.len() <= MAX_ROWS,
        ensures
            final(self).wf(),
            final(self)@ == loaded(old(self)@, data@),
            final(self)@.len() >= data@.len(),
            final(self)@.len() >= old(self)@.len(),
            forall|i: int| 0 <= i < data@.len() ==> (#[trigger] final(self)@[i]).data == data@[i],
            forall|i: int|
                data@.len() <= i < old(self)@.len() ==> #[trigger] final(self)@[i] == old(self)@[i],
    {
        let ghost old_rows = self@;
        while self.memory_rows.len() < data.len()
            invariant
                self.wf(),
                data@.len() <= MAX_ROWS,
                old_rows.len() <= self@.len(),
                self@.len() <= old_rows.len() || self@.len() <= data@.len(),
                forall|i: int| 0 <= i < old_rows.len() ==> #[trigger] self@[i] == old_rows[i],
                forall|i: int| old_rows.len() <= i < self@.len() ==> (#[trigger] self@[i]).data == 0,
            decreases data@.len() - self@.len(),
        {
            self.add_memory_row();
        }
        let ghost grown = self@;
        let mut i: usize = 0;
        while i < data.len()
            invariant
                self.wf(),
                i <= data@.len(),
                data@.len() <= self@.len(),
                self@.len() == grown.len(),
                forall|j: int| 0 <= j < i ==> (#[trigger] self@[j]).data == data@[j],
                forall|j: int| i <= j < grown.len() ==> #[trigger] self@[j] == grown[j],
            decreases data@.len() - i,
        {
            let ghost prev = self.memory_rows@;
            let address: u32 = self.memory_rows[i].address;
            self.memory_rows.set(i, MemoryRow::new(address, data[i]));
            i = i + 1;
            assert(aligned(self.memory_rows@)) by {
                assert forall|j: int| 0 <= j < self.memory_rows@.len() implies (
                #[trigger] self.memory_rows@[j]).address == 4 * j by {
                    if j != i - 1 {
                        assert(self.memory_rows@[j] == prev[j]);
                    }
                }
            }
        }
        assert(self@ =~= loaded(old_rows, data@));
    }

    /// Sets every row's data to zero; the rows and their addresses stay.
    pub fn clear_memory(&mut self)
        requires
            old(self).wf(),
        ensures
            final(self).wf(),
            final(self)@ == cleared(old(self)@),
            final(self)@.len() == old(self)@.len(),
            forall|i: int| 0 <= i < final(self)@.len() ==> (#[trigger] final(self)@[i]).data == 0,
    {
        let mut i: usize = 0;
        while i < self.memory_rows.len()
            invariant
                self.wf(),
                i <= self@.len(),
                self@.len() == old(self)@.len(),
                forall|j: int| 0 <= j < i ==> #[trigger] self@[j] == (MemoryRow {
                    address: old(self)@[j].address,
                    data: 0,
                }),
                forall|j: int| i <= j < self@.len() ==> #[trigger] self@[j] == old(self)@[j],
            decreases self@.len() - i,
        {
            let ghost prev = self.memory_rows@;
            let address: u32 = self.memory_rows[i].address;
            self.memory_rows.set(i, MemoryRow::new(address, 0));
            assert(aligned(self.memory_rows@)) by {
                assert forall|j: int| 0 <= j < self.memory_rows@.len() implies (
                #[trigger] self.memory_rows@[j]).address == 4 * j by {
                    if j != i {
                        assert(self.memory_rows@[j] == prev[j]);
                    }
                }
            }
            i = i + 1;
        }
        assert(self@ =~= cleared(old(self)@));
    }

    /// Fills the rows with the test pattern: even positions get `0xAAAAAAAA`, odd
    /// positions `0x55555555`.
    pub fn set_test_pattern(&mut self)
        requires
            old(self).wf(),
        ensures
            final(self).wf(),
            final(self)@ == patterned(old(self)@),
            final(self)@.len() == old(self)@.len(),
            forall|i: int|
                0 <= i < final(self)@.len() ==> (#[trigger] final(self)@[i]).data == if i % 2 == 0 {
                    0xAAAA_AAAAu32
                } else {
                    0x5555_5555u32
                },
    {
        let mut i: usize = 0;
        while i < self.memory_rows.len()
            invariant
                self.wf(),
                i <= self@.len(),
                self@.len() == old(self)@.len(),
                forall|j: int| 0 <= j < i ==> #[trigger] self@[j] == (MemoryRow {
                    address: old(self)@[j].address,
                    data: pattern_word(j),
                }),
                forall|j: int| i <= j < self@.len() ==> #[trigger] self@[j] == old(self)@[j],
            decreases self@.len() - i,
        {
            let ghost prev = self.memory_rows@;
            let address: u32 = self.memory_rows[i].address;
            let word: u32 = if i % 2 == 0 {
                PATTERN_EVEN
            } else {
                PATTERN_ODD
            };
            self.memory_rows.set(i, MemoryRow::new(address, word));
            assert(aligned(self.memory_rows@)) by {
                assert forall|j: int| 0 <= j < self.memory_rows@.len() implies (
                #[trigger] self.memory_rows@[j]).address == 4 * j by {
                    if j != i {
                        assert(self.memory_rows@[j] == prev[j]);
                    }
                }
            }
            i = i + 1;
        }
        assert(self@ =~= patterned(old(self)@));
    }

    /// Writes bit `bit_index` of the row at position `row_index` to `value`; does nothing
    /// when either index is out of range.
    pub fn set_row_bit(&mut self, row_index: usize, bit_index: usize, value: bool)
        requires
            old(self).wf(),
        ensures
            final(self).wf(),
            final(self)@ == bit_written(old(self)@, row_index as int, bit_index as int, value),
    {
        if row_index < self.memory_rows.len() {
            let mut row: MemoryRow = self.memory_rows[row_index];
            row.set_bit(bit_index, value);
            self.memory_rows.set(row_index, row);
            assert(aligned(self.memory_rows@)) by {
                assert forall|j: int| 0 <= j < self.memory_rows@.len() implies (
                #[trigger] self.memory_rows@[j]).address == 4 * j by {
                    if j != row_index {
                        assert(self.memory_rows@[j] == old(self).memory_rows@[j]);
                    }
                }
            }
            assert(self@ =~= bit_written(old(self)@, row_index as int, bit_index as int, value));
        }
    }

    /// The row count.
    pub fn num_rows(&self) -> (r: usize)
        requires
            self.wf(),
        ensures
            r == self@.len(),
    {
        self.num_rows
    }

    /// The rows, in address order.
    pub fn memory_rows(&self) -> (r: &[MemoryRow])
        ensures
            r@ == self@,
    {
        self.memory_rows.as_slice()
    }
}

impl Default for TemplateApp {
    /// A bank of four zeroed rows.
    fn default() -> (r: Self)
        ensures
            r.wf(),
            r@ == zero_rows(DEFAULT_ROWS as nat),
    {
        let mut app = Self { memory_rows: Vec::new(), num_rows: DEFAULT_ROWS };
        app.initialize_memory_rows(DEFAULT_ROWS);
        app
    }
}

/// Adding a row and then removing the last row gives back exactly the rows one started with.
pub proof fn lemma_append_then_remove(rows: Seq<MemoryRow>)
    ensures
        removed(appended(rows)) == rows,
{
    assert(removed(appended(rows)) =~= rows);
}

/// After data is written at an address, reading that address gives the data back; an
/// address that no row has reads as absent both before and after.
pub proof fn lemma_write_then_read(rows: Seq<MemoryRow>, address: u32, data: u32)
    ensures
        slot_of(rows.len(), address) is Some ==> stored(written(rows, address, data), address)
            == Some(data),
        slot_of(rows.len(), address) is None ==> stored(written(rows, address, data), address)
            == None::<u32>,
{
}

} // verus!
