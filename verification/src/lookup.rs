//! The dictionary of stateful compression: field elements that later blobs
//! name by index. Entries are collected per blob and committed together,
//! once per block.

use vstd::prelude::*;
use crate::felt::{Felt, values};

verus! {

/// The first index of the dictionary.
pub const START_INDEX: u64 = 128;

/// Why the dictionary refused a call.
#[derive(Debug, Clone, Copy, PartialEq, Eq, Structural)]
pub enum LookupError {
    /// The index lies below the first index of the dictionary.
    IndexTooSmall(u64),
    /// The index was already recorded for this blob.
    IndexRepeated(u64),
    /// The lowest recorded index is not the one that follows the committed
    /// entries.
    NotComplete(u64),
    /// The recorded index does not follow the one before it.
    NotConsecutive(u64),
    /// Nothing has been committed yet.
    NotInitialized,
    /// No entry was committed under the index.
    NotFound(u64),
    /// The current block number was not set.
    BlockNotSet,
}

/// An entry observed in the current blob and not yet committed.
pub struct Pending {
    pub index: u64,
    pub value: Felt,
}

/// The dictionary as contracts see it.
pub struct LookupView {
    /// The committed entries; the one at position `i` has index `128 + i`.
    pub table: Seq<nat>,
    /// The entries of the current blob, by ascending index.
    pub scratchpad: Seq<(u64, nat)>,
    /// The block at which the first entries were committed.
    pub stateful_start: Option<u64>,
    /// The highest block whose entries were committed.
    pub crest: Option<u64>,
    /// The block of the current blob.
    pub cur_block_no: Option<u64>,
}

/// The dictionary of stateful compression.
pub struct Lookup {
    global_start_index: Felt,
    table: Vec<Felt>,
    scratchpad: Vec<Pending>,
    stateful_start: Option<u64>,
    crest: Option<u64>,
    cur_block_no: Option<u64>,
}

/// The entries of the scratchpad as pairs of index and value.
pub open spec fn pending_view(s: Seq<Pending>) -> Seq<(u64, nat)> {
    Seq::new(s.len(), |i: int| (s[i].index, s[i].value@))
}

/// The position of the first entry whose index is not the one that the
/// committed table asks for at that position, or the length where there is
/// none.
pub open spec fn first_gap(scratchpad: Seq<(u64, nat)>, table_len: nat) -> nat
    decreases scratchpad.len(),
{
    if scratchpad.len() == 0 {
        0
    } else {
        let before = first_gap(scratchpad.drop_last(), table_len);
        if before < scratchpad.len() - 1 {
            before
        } else if scratchpad.last().0 == START_INDEX + table_len + scratchpad.len() - 1 {
            scratchpad.len()
        } else {
            (scratchpad.len() - 1) as nat
        }
    }
}

/// How many entries have an index below `index`.
pub open spec fn count_below(scratchpad: Seq<(u64, nat)>, index: u64) -> nat
    decreases scratchpad.len(),
{
    if scratchpad.len() == 0 {
        0
    } else {
        count_below(scratchpad.drop_last(), index) + (if scratchpad.last().0 < index {
            1nat
        } else {
            0nat
        })
    }
}

/// Where the entries before a position lie below an index and the others do
/// not, the position is the number of entries below the index.
pub proof fn lemma_count_below(scratchpad: Seq<(u64, nat)>, index: u64, pos: int)
    requires
        0 <= pos <= scratchpad.len(),
        forall|j: int| 0 <= j < pos ==> (#[trigger] scratchpad[j]).0 < index,
        forall|j: int| pos <= j < scratchpad.len() ==> (#[trigger] scratchpad[j]).0 >= index,
    ensures
        count_below(scratchpad, index) == pos,
    decreases scratchpad.len(),
{
    if scratchpad.len() > 0 {
        let front = scratchpad.drop_last();
        assert forall|j: int| 0 <= j < front.len() implies front[j] == scratchpad[j] by {}
        if pos == scratchpad.len() {
            assert(scratchpad[pos - 1].0 < index);
            lemma_count_below(front, index, pos - 1);
        } else {
            assert(scratchpad[scratchpad.len() - 1].0 >= index);
            lemma_count_below(front, index, pos);
        }
    }
}

/// A gap within a prefix is the first gap of the whole.
pub proof fn lemma_first_gap_prefix(scratchpad: Seq<(u64, nat)>, table_len: nat, k: int)
    requires
        0 <= k <= scratchpad.len(),
        first_gap(scratchpad.take(k), table_len) < k,
    ensures
        first_gap(scratchpad, table_len) == first_gap(scratchpad.take(k), table_len),
    decreases scratchpad.len() - k,
{
    if k < scratchpad.len() {
        assert(scratchpad.take(k + 1).drop_last() =~= scratchpad.take(k));
        lemma_first_gap_prefix(scratchpad, table_len, k + 1);
    } else {
        assert(scratchpad.take(k) =~= scratchpad);
    }
}

/// Where the scratchpad has no gap, its entries have the indices that
/// follow the table, one after the other.
pub proof fn lemma_no_gap(scratchpad: Seq<(u64, nat)>, table_len: nat, j: int)
    requires
        first_gap(scratchpad, table_len) == scratchpad.len(),
        0 <= j < scratchpad.len(),
    ensures
        scratchpad[j].0 == START_INDEX + table_len + j,
    decreases scratchpad.len(),
{
    if j < scratchpad.len() - 1 {
        lemma_no_gap(scratchpad.drop_last(), table_len, j);
    }
}

impl LookupView {
    /// What `expand` does to the table and the crest. It never changes an
    /// entry of the table. Where it succeeds on a block that was committed
    /// before, it leaves table and crest as they were; where it succeeds on
    /// a later block, or on the first, the table grows by the size of the
    /// scratchpad and the crest becomes the current block.
    pub proof fn lemma_expand_commits(self)
        ensures
            self.spec_expand().1.table.len() >= self.table.len(),
            self.spec_expand().1.table.take(self.table.len() as int) == self.table,
            self.spec_expand().0 is Ok ==> self.spec_expand().1.scratchpad.len() == 0,
            self.spec_expand().0 is Ok && self.is_replay() ==> self.spec_expand().1.table
                == self.table && self.spec_expand().1.crest == self.crest,
            self.spec_expand().0 is Ok && !self.is_replay() ==> self.spec_expand().1.table.len()
                == self.table.len() + self.scratchpad.len() && self.spec_expand().1.crest
                == self.cur_block_no && self.cur_block_no is Some,
    {
        let after = self.spec_expand().1;
        assert(after.table.take(self.table.len() as int) =~= self.table);
    }

    /// Whether the current block was committed before.
    pub open spec fn is_replay(self) -> bool {
        self.crest is Some && self.cur_block_no is Some && self.cur_block_no->Some_0
            <= self.crest->Some_0
    }

    /// After a commit every entry of the scratchpad is found under its
    /// index.
    pub proof fn lemma_committed_entries_are_found(self, j: int)
        requires
            self.wf(),
            self.spec_expand().0 is Ok,
            !self.is_replay(),
            0 <= j < self.scratchpad.len(),
        ensures
            self.spec_expand().1.spec_get(self.scratchpad[j].0) == Ok::<nat, LookupError>(
                self.scratchpad[j].1,
            ),
    {
        lemma_no_gap(self.scratchpad, self.table.len(), j);
    }

    /// An entry that is found stays as it is, whatever is recorded and
    /// committed.
    pub proof fn lemma_found_entries_stay(self, index: u64, recorded: u64, value: nat)
        requires
            self.spec_get(index) is Ok,
        ensures
            self.spec_expand().1.spec_get(index) == self.spec_get(index),
            self.spec_record(recorded, value).1.spec_get(index) == self.spec_get(index),
    {
    }

    /// Nothing is found below the first index of the dictionary.
    pub proof fn lemma_small_indices_are_refused(self, index: u64)
        requires
            index < START_INDEX,
        ensures
            self.spec_get(index) == Err::<nat, LookupError>(LookupError::IndexTooSmall(index)),
    {
    }

    /// The indices of the scratchpad ascend, and none lies below the first
    /// index of the dictionary or is too large to follow the table.
    pub open spec fn wf(self) -> bool {
        &&& forall|i: int, j: int|
            0 <= i < j < self.scratchpad.len() ==> self.scratchpad[i].0 < self.scratchpad[j].0
        &&& forall|i: int|
            0 <= i < self.scratchpad.len() ==> #[trigger] self.scratchpad[i].0 >= START_INDEX
        &&& self.table.len() <= u64::MAX - START_INDEX + 1
    }

    /// Whether the index was recorded for the current blob.
    pub open spec fn has_index(self, index: u64) -> bool {
        exists|i: int| 0 <= i < self.scratchpad.len() && #[trigger] self.scratchpad[i].0 == index
    }

    /// How many recorded indices lie below `index`.
    pub open spec fn rank(self, index: u64) -> nat {
        count_below(self.scratchpad, index)
    }

    /// What `record` does: it puts the entry into the scratchpad at the place
    /// of its index, unless the index is too small or was recorded before.
    pub open spec fn spec_record(self, index: u64, value: nat) -> (Result<(), LookupError>, Self) {
        if index < START_INDEX {
            (Err(LookupError::IndexTooSmall(index)), self)
        } else if self.has_index(index) {
            (Err(LookupError::IndexRepeated(index)), self)
        } else {
            (
                Ok(()),
                LookupView {
                    scratchpad: self.scratchpad.insert(self.rank(index) as int, (index, value)),
                    ..self
                },
            )
        }
    }

    /// The values of the scratchpad, in the order of their indices.
    pub open spec fn pending_values(self) -> Seq<nat> {
        Seq::new(self.scratchpad.len(), |i: int| self.scratchpad[i].1)
    }

    /// The commit of the scratchpad: it is appended to the table where its
    /// indices follow the table without a gap and the block is known.
    pub open spec fn spec_commit(self) -> (Result<(), LookupError>, Self) {
        let cleared = LookupView { scratchpad: Seq::empty(), ..self };
        let gap = first_gap(self.scratchpad, self.table.len());
        if gap < self.scratchpad.len() {
            if gap == 0 {
                (Err(LookupError::NotComplete(self.scratchpad[0].0)), cleared)
            } else {
                (Err(LookupError::NotConsecutive(self.scratchpad[gap as int].0)), cleared)
            }
        } else {
            match self.cur_block_no {
                None => (Err(LookupError::BlockNotSet), cleared),
                Some(block_no) => (
                    Ok(()),
                    LookupView {
                        table: self.table + self.pending_values(),
                        scratchpad: Seq::empty(),
                        stateful_start: if self.stateful_start is None {
                            Some(block_no)
                        } else {
                            self.stateful_start
                        },
                        crest: Some(block_no),
                        cur_block_no: self.cur_block_no,
                    },
                ),
            }
        }
    }

    /// What `expand` does: nothing but to clear the scratchpad where the
    /// block was committed before, a commit otherwise.
    pub open spec fn spec_expand(self) -> (Result<(), LookupError>, Self) {
        match self.crest {
            Some(crest) => match self.cur_block_no {
                None => (Err(LookupError::BlockNotSet), self),
                Some(block_no) => if block_no <= crest {
                    (Ok(()), LookupView { scratchpad: Seq::empty(), ..self })
                } else {
                    self.spec_commit()
                },
            },
            None => self.spec_commit(),
        }
    }

    /// Whether compressed indices are in use: the current block is not
    /// before the first commit, and something is committed.
    pub open spec fn spec_is_on(self) -> Result<bool, LookupError> {
        match self.stateful_start {
            None => Ok(false),
            Some(start) => match self.cur_block_no {
                None => Err(LookupError::BlockNotSet),
                Some(block_no) => Ok(block_no >= start && self.table.len() > 0),
            },
        }
    }

    /// The committed entry under an index.
    pub open spec fn spec_get(self, index: u64) -> Result<nat, LookupError> {
        if index < START_INDEX {
            Err(LookupError::IndexTooSmall(index))
        } else if self.table.len() == 0 {
            Err(LookupError::NotInitialized)
        } else if index - START_INDEX >= self.table.len() {
            Err(LookupError::NotFound(index))
        } else {
            Ok(self.table[index - START_INDEX])
        }
    }
}

impl View for Lookup {
    type V = LookupView;

    closed spec fn view(&self) -> LookupView {
        LookupView {
            table: values(self.table@),
            scratchpad: pending_view(self.scratchpad@),
            stateful_start: self.stateful_start,
            crest: self.crest,
            cur_block_no: self.cur_block_no,
        }
    }
}

impl Lookup {
    /// The invariant of the dictionary.
    pub closed spec fn wf(&self) -> bool {
        &&& self@.wf()
        &&& self.global_start_index@ == START_INDEX
    }

    /// The view of a dictionary that keeps its invariant keeps its own.
    pub proof fn lemma_view_wf(&self)
        requires
            self.wf(),
        ensures
            self@.wf(),
    {
    }

    /// The first index of the dictionary, as a field element.
    pub fn global_start_index(&self) -> (r: &Felt)
        requires
            self.wf(),
        ensures
            r@ == START_INDEX,
    {
        &self.global_start_index
    }

    /// A dictionary with nothing committed.
    pub fn new() -> (r: Lookup)
        ensures
            r.wf(),
            r@.table.len() == 0,
            r@.scratchpad.len() == 0,
            r@.stateful_start is None,
            r@.crest is None,
            r@.cur_block_no is None,
    {
        Lookup {
            global_start_index: Felt::from_u64(START_INDEX),
            table: Vec::new(),
            scratchpad: Vec::new(),
            stateful_start: None,
            crest: None,
            cur_block_no: None,
        }
    }

    /// A dictionary with the entries and the two block numbers that an
    /// earlier run committed.
    pub fn restore(table: Vec<Felt>, stateful_start: Option<u64>, crest: Option<u64>) -> (r:
        Lookup)
        requires
            table@.len() <= u64::MAX - START_INDEX + 1,
        ensures
            r.wf(),
            r@.table == values(table@),
            r@.scratchpad.len() == 0,
            r@.stateful_start == stateful_start,
            r@.crest == crest,
            r@.cur_block_no is None,
    {
        Lookup {
            global_start_index: Felt::from_u64(START_INDEX),
            table,
            scratchpad: Vec::new(),
            stateful_start,
            crest,
            cur_block_no: None,
        }
    }

    /// Sets the block of the blobs that follow.
    pub fn set_block_no(&mut self, cur_block_no: u64)
        requires
            old(self).wf(),
        ensures
            final(self).wf(),
            final(self)@ == (LookupView { cur_block_no: Some(cur_block_no), ..old(self)@ }),
    {
        self.cur_block_no = Some(cur_block_no);
    }

    /// The number of entries that wait for the commit.
    pub fn get_scratchpad_size(&self) -> (r: usize)
        ensures
            r == self@.scratchpad.len(),
    {
        self.scratchpad.len()
    }

    /// The number of entries that are committed.
    pub fn get_table_size(&self) -> (r: u64)
        ensures
            r == self@.table.len(),
    {
        self.table.len() as u64
    }

    /// The highest block whose entries were committed.
    pub fn get_crest(&self) -> (r: Option<u64>)
        ensures
            r == self@.crest,
    {
        self.crest
    }

    /// The block at which the first entries were committed.
    pub fn get_stateful_start(&self) -> (r: Option<u64>)
        ensures
            r == self@.stateful_start,
    {
        self.stateful_start
    }

    /// Notes an entry of the current blob for the next commit.
    pub fn record(&mut self, index: u64, value: &Felt) -> (r: Result<(), LookupError>)
        requires
            old(self).wf(),
        ensures
            final(self).wf(),
            r == old(self)@.spec_record(index, value@).0,
            final(self)@ == old(self)@.spec_record(index, value@).1,
    {
        if index < START_INDEX {
            return Err(LookupError::IndexTooSmall(index));
        }
        let mut pos: usize = 0;
        while pos < self.scratchpad.len() && self.scratchpad[pos].index < index
            invariant
                pos <= self.scratchpad@.len(),
                forall|j: int| 0 <= j < pos ==> (#[trigger] self.scratchpad@[j]).index < index,
            decreases self.scratchpad@.len() - pos,
        {
            pos = pos + 1;
        }
        let ghost before = self@.scratchpad;
        if pos < self.scratchpad.len() && self.scratchpad[pos].index == index {
            assert(before[pos as int].0 == index);
            return Err(LookupError::IndexRepeated(index));
        }
        proof {
            assert forall|j: int| 0 <= j < before.len() implies (#[trigger] before[j]).0
                != index by {
                if j >= pos {
                    assert(before[pos as int].0 <= before[j].0);
                }
            }
            assert forall|j: int| pos <= j < before.len() implies (#[trigger] before[j]).0
                >= index by {
                assert(before[pos as int].0 <= before[j].0);
            }
            assert forall|j: int| 0 <= j < pos implies (#[trigger] before[j]).0 < index by {
                assert(self.scratchpad@[j].index < index);
            }
            lemma_count_below(before, index, pos as int);
        }
        self.scratchpad.insert(pos, Pending { index, value: value.clone() });
        proof {
            let after = self@.scratchpad;
            assert(after =~= before.insert(pos as int, (index, value@)));
            assert forall|i: int, j: int| 0 <= i < j < after.len() implies after[i].0
                < after[j].0 by {
                if i < pos && j > pos {
                    assert(before[i].0 < index);
                    assert(before[j - 1].0 >= index);
                } else if i < pos && j < pos {
                    assert(before[i].0 < before[j].0);
                } else if i > pos {
                    assert(before[i - 1].0 < before[j - 1].0);
                } else if i == pos {
                    assert(before[j - 1].0 >= index);
                } else {
                    assert(before[i].0 < index);
                }
            }
            assert forall|i: int| 0 <= i < after.len() implies #[trigger] after[i].0
                >= START_INDEX by {
                if i < pos {
                    assert(before[i].0 >= START_INDEX);
                } else if i > pos {
                    assert(before[i - 1].0 >= START_INDEX);
                }
            }
        }
        Ok(())
    }

    /// Commits the scratchpad unless the block was committed before, and
    /// clears it either way.
    pub fn expand(&mut self) -> (r: Result<(), LookupError>)
        requires
            old(self).wf(),
        ensures
            final(self).wf(),
            r == old(self)@.spec_expand().0,
            final(self)@ == old(self)@.spec_expand().1,
            final(self)@.table.take(old(self)@.table.len() as int) == old(self)@.table,
            r is Ok && !old(self)@.is_replay() ==> final(self)@.table.len() == old(self)@.table.len()
                + old(self)@.scratchpad.len() && final(self)@.crest == old(self)@.cur_block_no,
    {
        proof {
            self@.lemma_expand_commits();
        }
        match self.crest {
            Some(crest) => match self.cur_block_no {
                None => Err(LookupError::BlockNotSet),
                Some(block_no) => if block_no <= crest {
                    self.scratchpad.clear();
                    assert(self@.scratchpad =~= Seq::empty());
                    Ok(())
                } else {
                    self.do_expand()
                },
            },
            None => self.do_expand(),
        }
    }

    fn do_expand(&mut self) -> (r: Result<(), LookupError>)
        requires
            old(self).wf(),
        ensures
            final(self).wf(),
            r == old(self)@.spec_commit().0,
            final(self)@ == old(self)@.spec_commit().1,
    {
        let ghost before = self@;
        let n = self.scratchpad.len();
        let mut sz: u64 = self.table.len() as u64;
        let mut j: usize = 0;
        while j < n
            invariant
                self@ == before,
                before == old(self)@,
                before.wf(),
                self.global_start_index@ == START_INDEX,
                n == self.scratchpad@.len(),
                j <= n,
                sz == before.table.len() + j,
                sz <= u64::MAX - START_INDEX + 1,
                first_gap(before.scratchpad.take(j as int), before.table.len()) == j,
            decreases n - j,
        {
            let index = self.scratchpad[j].index;
            assert(before.scratchpad[j as int].0 == index);
            assert(before.scratchpad.take(j + 1).drop_last() =~= before.scratchpad.take(
                j as int,
            ));
            if index - START_INDEX != sz {
                proof {
                    assert(first_gap(before.scratchpad.take(j + 1), before.table.len()) == j);
                    lemma_first_gap_prefix(before.scratchpad, before.table.len(), j + 1);
                    assert(first_gap(before.scratchpad, before.table.len()) == j);
                }
                self.scratchpad.clear();
                assert(self@.scratchpad =~= Seq::empty());
                let e = if j == 0 {
                    LookupError::NotComplete(index)
                } else {
                    LookupError::NotConsecutive(index)
                };
                return Err(e);
            }
            sz = sz + 1;
            j = j + 1;
        }
        assert(before.scratchpad.take(n as int) =~= before.scratchpad);
        let block_no = match self.cur_block_no {
            None => {
                self.scratchpad.clear();
                assert(self@.scratchpad =~= Seq::empty());
                return Err(LookupError::BlockNotSet);
            },
            Some(block_no) => block_no,
        };
        let mut k: usize = 0;
        while k < n
            invariant
                n == self.scratchpad@.len(),
                k <= n,
                self.global_start_index@ == START_INDEX,
                self@.scratchpad == before.scratchpad,
                self@.stateful_start == before.stateful_start,
                self@.crest == before.crest,
                self@.cur_block_no == before.cur_block_no,
                self@.table =~= before.table + before.pending_values().take(k as int),
            decreases n - k,
        {
            let value = self.scratchpad[k].value.clone();
            let ghost table_before = self@.table;
            self.table.push(value);
            proof {
                assert(value@ == before.scratchpad[k as int].1);
                assert(self@.table =~= table_before.push(value@));
                assert(before.pending_values().take(k + 1) =~= before.pending_values().take(
                    k as int,
                ).push(before.scratchpad[k as int].1));
            }
            k = k + 1;
        }
        assert(before.pending_values().take(n as int) =~= before.pending_values());
        self.scratchpad.clear();
        assert(self@.scratchpad =~= Seq::empty());
        self.crest = Some(block_no);
        if self.stateful_start.is_none() {
            self.stateful_start = Some(block_no);
        }
        Ok(())
    }

    /// Whether compressed indices are in use at the current block.
    pub fn is_on(&self) -> (r: Result<bool, LookupError>)
        ensures
            r == self@.spec_is_on(),
    {
        match self.stateful_start {
            None => Ok(false),
            Some(start) => match self.cur_block_no {
                None => Err(LookupError::BlockNotSet),
                Some(block_no) => Ok(block_no >= start && self.table.len() > 0),
            },
        }
    }

    /// The committed entry under an index.
    pub fn get(&self, index: u64) -> (r: Result<Felt, LookupError>)
        ensures
            match r {
                Ok(v) => self@.spec_get(index) == Ok::<nat, LookupError>(v@),
                Err(e) => self@.spec_get(index) == Err::<nat, LookupError>(e),
            },
    {
        if index < START_INDEX {
            return Err(LookupError::IndexTooSmall(index));
        }
        if self.table.len() == 0 {
            return Err(LookupError::NotInitialized);
        }
        let offset = index - START_INDEX;
        if offset >= self.table.len() as u64 {
            return Err(LookupError::NotFound(index));
        }
        Ok(self.table[offset as usize].clone())
    }
}

} // verus!
