//! The sample queue between the audio input and the audio output.
//!
//! Samples are held by their bit patterns. Two running indices count the samples ever
//! written and ever read, modulo the range of `usize`; a sample's cell is its index
//! modulo the capacity.
use vstd::prelude::*;

verus! {

/// `n` brought back into the range of `usize`, for `n` below twice that range.
pub open spec fn wrapped(n: int) -> int {
    if n > usize::MAX {
        n - (usize::MAX + 1)
    } else {
        n
    }
}

/// How many samples lie between the two running indices.
pub open spec fn distance(read_index: usize, write_index: usize) -> nat {
    if write_index >= read_index {
        (write_index - read_index) as nat
    } else {
        (write_index + usize::MAX + 1 - read_index) as nat
    }
}

/// The cell of the sample `offset` places after the running index `index`.
pub open spec fn cell_of(capacity: nat, index: usize, offset: nat) -> int {
    wrapped(index + offset) % (capacity as int)
}

/// Where `len` samples are bounded by `room`.
pub open spec fn at_most(len: nat, room: nat) -> nat {
    if len <= room {
        len
    } else {
        room
    }
}

/// The state of the queue.
#[verifier::ext_equal]
pub struct RingState {
    pub cells: Seq<u32>,
    pub read_index: usize,
    pub write_index: usize,
}

/// `cells` after `samples` were stored, one after the other, from the running index
/// `index` on.
pub open spec fn stored(cells: Seq<u32>, index: usize, samples: Seq<u32>) -> Seq<u32>
    decreases samples.len(),
{
    if samples.len() == 0 {
        cells
    } else {
        let n = (samples.len() - 1) as nat;
        stored(cells, index, samples.drop_last()).update(
            cell_of(cells.len(), index, n),
            samples.last(),
        )
    }
}

impl RingState {
    pub open spec fn capacity(self) -> nat {
        self.cells.len()
    }

    /// How many samples are queued.
    pub open spec fn queued(self) -> nat {
        distance(self.read_index, self.write_index)
    }

    /// No more samples are queued than there are cells.
    pub open spec fn valid(self) -> bool {
        &&& self.queued() <= self.capacity()
        &&& self.capacity() <= usize::MAX
    }

    /// The queued samples, the oldest first.
    pub open spec fn queue(self) -> Seq<u32> {
        Seq::new(
            self.queued(),
            |i: int| self.cells[cell_of(self.capacity(), self.read_index, i as nat)],
        )
    }

    /// How many of `len` samples a push takes.
    pub open spec fn push_count(self, len: nat) -> nat {
        at_most(len, (self.capacity() - self.queued()) as nat)
    }

    /// How many samples a pop into `len` places gives.
    pub open spec fn pop_count(self, len: nat) -> nat {
        at_most(len, self.queued())
    }

    /// The state after a push of `samples`.
    pub open spec fn pushed(self, samples: Seq<u32>) -> RingState {
        let n = self.push_count(samples.len());
        RingState {
            cells: stored(self.cells, self.write_index, samples.take(n as int)),
            read_index: self.read_index,
            write_index: wrapped(self.write_index + n) as usize,
        }
    }

    /// The state after `count` samples were popped.
    pub open spec fn popped(self, count: nat) -> RingState {
        RingState {
            cells: self.cells,
            read_index: wrapped(self.read_index + count) as usize,
            write_index: self.write_index,
        }
    }

    /// The `n` samples from the oldest queued one on lie in `n` different cells.
    pub open spec fn cells_distinct(self, n: nat) -> bool {
        forall|i: nat, j: nat|
            i < j < n ==> #[trigger] cell_of(self.capacity(), self.read_index, i)
                != #[trigger] cell_of(self.capacity(), self.read_index, j)
    }
}

/// A cell lies among the cells.
proof fn lemma_cell_in_range(capacity: nat, index: usize, offset: nat)
    requires
        capacity > 0,
    ensures
        0 <= cell_of(capacity, index, offset) < capacity,
{
    let n = wrapped(index + offset);
    assert(0 <= n % (capacity as int) < capacity) by (nonlinear_arith)
        requires
            capacity > 0,
    ;
}

/// Storing keeps the number of cells.
proof fn lemma_stored_len(cells: Seq<u32>, index: usize, samples: Seq<u32>)
    requires
        samples.len() > 0 ==> cells.len() > 0,
    ensures
        stored(cells, index, samples).len() == cells.len(),
    decreases samples.len(),
{
    if samples.len() > 0 {
        lemma_stored_len(cells, index, samples.drop_last());
        lemma_cell_in_range(cells.len(), index, (samples.len() - 1) as nat);
    }
}

/// Storing keeps a cell that no stored sample falls into.
proof fn lemma_stored_keeps(cells: Seq<u32>, index: usize, samples: Seq<u32>, c: int)
    requires
        0 <= c < cells.len(),
        forall|j: nat| j < samples.len() ==> c != #[trigger] cell_of(cells.len(), index, j),
    ensures
        stored(cells, index, samples)[c] == cells[c],
    decreases samples.len(),
{
    if samples.len() > 0 {
        let n = (samples.len() - 1) as nat;
        lemma_stored_keeps(cells, index, samples.drop_last(), c);
        lemma_stored_len(cells, index, samples.drop_last());
        lemma_cell_in_range(cells.len(), index, n);
        assert(c != cell_of(cells.len(), index, n));
    }
}

/// A stored sample that shares its cell with no later one is found there.
proof fn lemma_stored_holds(cells: Seq<u32>, index: usize, samples: Seq<u32>, i: nat)
    requires
        cells.len() > 0,
        i < samples.len(),
        forall|j: nat|
            i < j < samples.len() ==> cell_of(cells.len(), index, i) != #[trigger] cell_of(
                cells.len(),
                index,
                j,
            ),
    ensures
        stored(cells, index, samples)[cell_of(cells.len(), index, i)] == samples[i as int],
    decreases samples.len(),
{
    let n = (samples.len() - 1) as nat;
    lemma_stored_len(cells, index, samples.drop_last());
    lemma_cell_in_range(cells.len(), index, n);
    lemma_cell_in_range(cells.len(), index, i);
    if i < n {
        lemma_stored_holds(cells, index, samples.drop_last(), i);
        assert(cell_of(cells.len(), index, n) != cell_of(cells.len(), index, i));
    }
}

/// A push keeps the queue valid and its number of cells, and as many samples are queued
/// after it as before it and were taken.
pub proof fn law_push_keeps_validity(state: RingState, samples: Seq<u32>)
    requires
        state.valid(),
    ensures
        state.pushed(samples).valid(),
        state.pushed(samples).capacity() == state.capacity(),
        state.pushed(samples).queued() == state.queued() + state.push_count(samples.len()),
{
    let n = state.push_count(samples.len());
    lemma_stored_len(state.cells, state.write_index, samples.take(n as int));
}

/// A pop keeps the queue valid and its number of cells, and takes the oldest samples off.
pub proof fn law_pop_takes_the_oldest(state: RingState, count: nat)
    requires
        state.valid(),
        count <= state.queued(),
    ensures
        state.popped(count).valid(),
        state.popped(count).capacity() == state.capacity(),
        state.popped(count).queue() == state.queue().skip(count as int),
{
    assert(state.popped(count).queue() =~= state.queue().skip(count as int));
}

/// A push appends the samples that it takes to the queue, as long as the queued and the
/// taken samples lie in different cells.
pub proof fn law_push_appends(state: RingState, samples: Seq<u32>)
    requires
        state.valid(),
        state.cells_distinct(state.queued() + state.push_count(samples.len())),
    ensures
        state.pushed(samples).queue() == state.queue() + samples.take(
            state.push_count(samples.len()) as int,
        ),
{
    let n = state.push_count(samples.len());
    let taken = samples.take(n as int);
    let after = state.pushed(samples);
    let cap = state.capacity();
    law_push_keeps_validity(state, samples);
    let expected = state.queue() + taken;
    assert forall|i: int| 0 <= i < expected.len() implies after.queue()[i] == expected[i] by {
        let c = cell_of(cap, state.read_index, i as nat);
        lemma_cell_in_range(cap, state.read_index, i as nat);
        if i < state.queued() {
            assert forall|j: nat| j < n implies c != #[trigger] cell_of(
                cap,
                state.write_index,
                j,
            ) by {
                lemma_cell_behind(state, j);
                assert(c != cell_of(cap, state.read_index, state.queued() + j));
            }
            lemma_stored_keeps(state.cells, state.write_index, taken, c);
        } else {
            let k = (i - state.queued()) as nat;
            lemma_cell_behind(state, k);
            assert forall|j: nat| k < j < n implies cell_of(cap, state.write_index, k)
                != #[trigger] cell_of(cap, state.write_index, j) by {
                lemma_cell_behind(state, j);
                assert(c != cell_of(cap, state.read_index, state.queued() + j));
            }
            lemma_stored_holds(state.cells, state.write_index, taken, k);
        }
    }
    assert(after.queue() =~= expected);
}

/// The cells behind the queue are those that the next samples are written to.
proof fn lemma_cell_behind(state: RingState, j: nat)
    requires
        state.valid(),
        state.queued() + j < state.capacity(),
    ensures
        cell_of(state.capacity(), state.write_index, j) == cell_of(
            state.capacity(),
            state.read_index,
            state.queued() + j,
        ),
{
    assert(wrapped(state.write_index + j) == wrapped(state.read_index + (state.queued() + j)));
}

/// Samples pushed into an empty queue that has room for them come out again in the order
/// in which they went in.
pub proof fn law_samples_come_out_in_order(state: RingState, samples: Seq<u32>)
    requires
        state.valid(),
        state.queued() == 0,
        samples.len() <= state.capacity(),
        state.cells_distinct(samples.len()),
    ensures
        state.pushed(samples).queue() == samples,
        state.pushed(samples).popped(samples.len()).queued() == 0,
{
    law_push_appends(state, samples);
    law_push_keeps_validity(state, samples);
    assert(state.pushed(samples).queue() =~= samples);
    law_pop_takes_the_oldest(state.pushed(samples), samples.len());
}

/// Two remainders by `m` of numbers less than `m` apart differ.
proof fn lemma_remainders_differ(a: int, b: int, m: int)
    by (nonlinear_arith)
    requires
        0 < b - a < m,
    ensures
        a % m != b % m,
{
    assert(a == m * (a / m) + a % m);
    assert(b == m * (b / m) + b % m);
    if a % m == b % m {
        assert(b - a == m * (b / m - a / m));
        if b / m - a / m >= 1 {
            assert(m * (b / m - a / m) >= m);
        } else {
            assert(m * (b / m - a / m) <= 0);
        }
    }
}

/// As long as the running indices have not wrapped around, the queued samples and those
/// that fit behind them lie in different cells.
pub proof fn law_cells_distinct_before_wrapping(state: RingState, n: nat)
    requires
        n <= state.capacity(),
        state.read_index + n <= usize::MAX + 1,
    ensures
        state.cells_distinct(n),
{
    assert forall|i: nat, j: nat| i < j < n implies #[trigger] cell_of(
        state.capacity(),
        state.read_index,
        i,
    ) != #[trigger] cell_of(state.capacity(), state.read_index, j) by {
        lemma_remainders_differ(
            state.read_index + i,
            state.read_index + j,
            state.capacity() as int,
        );
    }
}

/// With a capacity that divides the range of the running indices, such as a power of two,
/// samples lie in different cells wherever the indices stand.
pub proof fn law_cells_distinct_for_dividing_capacity(state: RingState, n: nat)
    requires
        state.valid(),
        n <= state.capacity(),
        state.capacity() > 0,
        (usize::MAX + 1) % (state.capacity() as int) == 0,
    ensures
        state.cells_distinct(n),
{
    let cap = state.capacity() as int;
    let range = usize::MAX + 1;
    assert forall|i: nat, j: nat| i < j < n implies #[trigger] cell_of(
        state.capacity(),
        state.read_index,
        i,
    ) != #[trigger] cell_of(state.capacity(), state.read_index, j) by {
        let a = state.read_index + i;
        let b = state.read_index + j;
        lemma_remainders_differ(a, b, cap);
        assert(wrapped(a) % cap == a % cap) by {
            lemma_remainder_of_difference(a, range, cap);
        }
        assert(wrapped(b) % cap == b % cap) by {
            lemma_remainder_of_difference(b, range, cap);
        }
    }
}

/// Taking a multiple of `m` off a number keeps its remainder by `m`.
proof fn lemma_remainder_of_difference(a: int, range: int, m: int)
    requires
        m > 0,
        range % m == 0,
    ensures
        (a - range) % m == a % m,
{
    vstd::arithmetic::div_mod::lemma_sub_mod_noop(a, range, m);
    assert((a % m) % m == a % m) by {
        vstd::arithmetic::div_mod::lemma_mod_twice(a, m);
    }
}

/// Pushing samples in two pieces is pushing them all at once.
pub proof fn law_pieces_push_like_the_whole(state: RingState, first: Seq<u32>, rest: Seq<u32>)
    requires
        state.valid(),
    ensures
        state.pushed(first).pushed(rest) == state.pushed(first + rest),
        state.push_count(first.len()) + state.pushed(first).push_count(rest.len())
            == state.push_count((first + rest).len()),
{
    let n = state.push_count(first.len());
    let m = state.pushed(first).push_count(rest.len());
    law_push_keeps_validity(state, first);
    let whole = (first + rest).take((n + m) as int);
    let a = first.take(n as int);
    let b = rest.take(m as int);
    assert(whole =~= a + b);
    if m > 0 {
        lemma_stored_in_pieces(state.cells, state.write_index, a, b);
    } else {
        assert(whole =~= a);
        assert(b =~= Seq::<u32>::empty());
    }
}

/// Storing in two pieces is storing the whole.
proof fn lemma_stored_in_pieces(cells: Seq<u32>, index: usize, a: Seq<u32>, b: Seq<u32>)
    requires
        a.len() + b.len() <= cells.len() <= usize::MAX,
    ensures
        stored(stored(cells, index, a), wrapped(index + a.len()) as usize, b) == stored(
            cells,
            index,
            a + b,
        ),
    decreases b.len(),
{
    lemma_stored_len(cells, index, a);
    if b.len() > 0 {
        lemma_stored_in_pieces(cells, index, a, b.drop_last());
        assert((a + b).drop_last() =~= a + b.drop_last());
        let n = (b.len() - 1) as nat;
        let next = wrapped(index + a.len()) as usize;
        assert(wrapped(next + n) == wrapped(index + (a.len() + n)));
    } else {
        assert(a + b =~= a);
    }
}

/// A producer that has not yet seen the latest reads finds no more room than there is.
pub proof fn law_unseen_reads_leave_room(
    capacity: nat,
    seen_read_index: usize,
    write_index: usize,
    unseen: nat,
    len: nat,
)
    requires
        capacity <= usize::MAX,
        unseen <= distance(seen_read_index, write_index) <= capacity,
    ensures
        ({
            let read_index = wrapped(seen_read_index + unseen) as usize;
            distance(read_index, write_index) + at_most(
                len,
                (capacity - distance(seen_read_index, write_index)) as nat,
            ) <= capacity
        }),
{
}

/// A consumer that has not yet seen the latest writes takes no more samples than are queued.
pub proof fn law_unseen_writes_are_not_read(
    capacity: nat,
    read_index: usize,
    seen_write_index: usize,
    unseen: nat,
    len: nat,
)
    requires
        distance(read_index, seen_write_index) + unseen <= capacity <= usize::MAX,
    ensures
        ({
            let write_index = wrapped(seen_write_index + unseen) as usize;
            at_most(len, distance(read_index, seen_write_index)) <= distance(
                read_index,
                write_index,
            )
        }),
{
}

/// The running indices of a queue, as a producer and a consumer work with them.
#[derive(Debug, Clone, Copy, PartialEq, Eq, Structural)]
pub struct RingCursor {
    pub capacity: usize,
    pub read_index: usize,
    pub write_index: usize,
}

impl RingCursor {
    /// How many samples are queued.
    pub fn queued(&self) -> (queued: usize)
        ensures
            queued == distance(self.read_index, self.write_index),
            self.read_index + queued == self.write_index || self.read_index + queued
                == self.write_index + usize::MAX + 1,
    {
        self.write_index.wrapping_sub(self.read_index)
    }

    /// How many of `len` samples a producer may write.
    pub fn push_count(&self, len: usize) -> (count: usize)
        ensures
            distance(self.read_index, self.write_index) <= self.capacity ==> count == at_most(
                len as nat,
                (self.capacity - distance(self.read_index, self.write_index)) as nat,
            ),
            distance(self.read_index, self.write_index) > self.capacity ==> count == 0,
            count <= len,
            distance(self.read_index, self.write_index) <= self.capacity ==> distance(
                self.read_index,
                self.write_index,
            ) + count <= self.capacity && (count == len || distance(
                self.read_index,
                self.write_index,
            ) + count == self.capacity),
    {
        let queued = self.queued();
        if queued >= self.capacity {
            0
        } else if len <= self.capacity - queued {
            len
        } else {
            self.capacity - queued
        }
    }

    /// How many samples a consumer with `len` places may read.
    pub fn pop_count(&self, len: usize) -> (count: usize)
        ensures
            count == at_most(len as nat, distance(self.read_index, self.write_index)),
            count <= len,
            count <= distance(self.read_index, self.write_index),
            count == len || count == distance(self.read_index, self.write_index),
    {
        let queued = self.queued();
        if len <= queued {
            len
        } else {
            queued
        }
    }

    /// The cell of the sample `offset` places behind the newest one.
    pub fn write_cell(&self, offset: usize) -> (cell: usize)
        requires
            self.capacity > 0,
        ensures
            cell == cell_of(self.capacity as nat, self.write_index, offset as nat),
            cell < self.capacity,
    {
        self.write_index.wrapping_add(offset) % self.capacity
    }

    /// The cell of the sample `offset` places behind the oldest one.
    pub fn read_cell(&self, offset: usize) -> (cell: usize)
        requires
            self.capacity > 0,
        ensures
            cell == cell_of(self.capacity as nat, self.read_index, offset as nat),
            cell < self.capacity,
    {
        self.read_index.wrapping_add(offset) % self.capacity
    }

    /// The cursor after `count` samples were written.
    pub fn after_push(&self, count: usize) -> (next: RingCursor)
        ensures
            next == (RingCursor {
                capacity: self.capacity,
                read_index: self.read_index,
                write_index: wrapped(self.write_index + count) as usize,
            }),
    {
        RingCursor { write_index: self.write_index.wrapping_add(count), ..*self }
    }

    /// The cursor after `count` samples were read.
    pub fn after_pop(&self, count: usize) -> (next: RingCursor)
        ensures
            next == (RingCursor {
                capacity: self.capacity,
                read_index: wrapped(self.read_index + count) as usize,
                write_index: self.write_index,
            }),
    {
        RingCursor { read_index: self.read_index.wrapping_add(count), ..*self }
    }
}

/// A bounded queue of samples, first in first out.
#[derive(Debug)]
pub struct AudioRingBuffer {
    data: Vec<u32>,
    cursor: RingCursor,
}

impl View for AudioRingBuffer {
    type V = RingState;

    closed spec fn view(&self) -> RingState {
        RingState {
            cells: self.data@,
            read_index: self.cursor.read_index,
            write_index: self.cursor.write_index,
        }
    }
}

impl AudioRingBuffer {
    /// The queue is valid.
    pub closed spec fn well_formed(&self) -> bool {
        &&& self.data@.len() == self.cursor.capacity
        &&& self@.valid()
    }

    /// A well-formed queue is in a valid state.
    pub proof fn lemma_well_formed_is_valid(&self)
        requires
            self.well_formed(),
        ensures
            self@.valid(),
    {
    }

    /// An empty queue with `capacity` cells, all of them zero.
    pub fn new(capacity: usize) -> (ring: AudioRingBuffer)
        ensures
            ring.well_formed(),
            ring@ == (RingState {
                cells: Seq::new(capacity as nat, |i: int| 0u32),
                read_index: 0,
                write_index: 0,
            }),
            ring@.queue() == Seq::<u32>::empty(),
            ring@.cells.len() == capacity,
    {
        let ring = AudioRingBuffer {
            data: vec![0u32; capacity],
            cursor: RingCursor { capacity, read_index: 0, write_index: 0 },
        };
        assert(ring@.cells =~= Seq::new(capacity as nat, |i: int| 0u32));
        ring
    }

    /// Writes as many of `samples` as there is room for and returns their number.
    pub fn push_samples(&mut self, samples: &[u32]) -> (written: usize)
        requires
            old(self).well_formed(),
        ensures
            final(self).well_formed(),
            written == old(self)@.push_count(samples@.len()),
            written <= samples@.len(),
            old(self)@.queue().len() + written <= old(self)@.cells.len(),
            written == samples@.len() || old(self)@.queue().len() + written
                == old(self)@.cells.len(),
            final(self)@.queue().len() == old(self)@.queue().len() + written,
            final(self)@.cells.len() == old(self)@.cells.len(),
            final(self)@ == old(self)@.pushed(samples@),
            old(self)@.read_index + old(self)@.queue().len() + written <= usize::MAX
                ==> final(self)@.queue() == old(self)@.queue() + samples@.take(written as int),
            old(self)@.cells_distinct(old(self)@.queued() + written as nat) ==> final(self)@.queue()
                == old(self)@.queue() + samples@.take(written as int),
    {
        let ghost before = self@;
        let count = self.cursor.push_count(samples.len());
        let mut written: usize = 0;
        while written < count
            invariant
                written <= count <= samples.len(),
                count <= self.cursor.capacity,
                count == before.push_count(samples@.len()),
                self.data@.len() == self.cursor.capacity == before.capacity(),
                before.valid(),
                self.cursor.read_index == before.read_index,
                self.cursor.write_index == before.write_index,
                self.data@ == stored(
                    before.cells,
                    before.write_index,
                    samples@.take(written as int),
                ),
            decreases count - written,
        {
            let cell = self.cursor.write_cell(written);
            self.data[cell] = samples[written];
            proof {
                let next = samples@.take(written + 1);
                assert(next.drop_last() =~= samples@.take(written as int));
            }
            written += 1;
        }
        self.cursor = self.cursor.after_push(count);
        proof {
            assert(self@ =~= before.pushed(samples@));
            law_push_keeps_validity(before, samples@);
            if before.read_index + before.queue().len() + written <= usize::MAX {
                law_cells_distinct_before_wrapping(before, before.queued() + written as nat);
            }
            if before.cells_distinct(before.queued() + written as nat) {
                law_push_appends(before, samples@);
            }
        }
        written
    }

    /// Moves the oldest samples into `output`, as many as it holds, and returns their number.
    /// The rest of `output` is left as it is.
    pub fn pop_samples(&mut self, output: &mut [u32]) -> (count: usize)
        requires
            old(self).well_formed(),
        ensures
            final(self).well_formed(),
            count == old(self)@.pop_count(old(output)@.len()),
            count <= old(output)@.len(),
            count <= old(self)@.queue().len(),
            count == old(output)@.len() || count == old(self)@.queue().len(),
            final(self)@.queue().len() == old(self)@.queue().len() - count,
            final(self)@.cells.len() == old(self)@.cells.len(),
            final(output)@.len() == old(output)@.len(),
            final(self)@ == old(self)@.popped(count as nat),
            final(self)@.queue() == old(self)@.queue().skip(count as int),
            final(output)@ == old(self)@.queue().take(count as int) + old(output)@.skip(
                count as int,
            ),
    {
        let ghost before = self@;
        let ghost given = output@;
        let count = self.cursor.pop_count(output.len());
        let mut taken: usize = 0;
        while taken < count
            invariant
                taken <= count <= output@.len(),
                output@.len() == given.len(),
                count == before.pop_count(given.len()),
                self.data@.len() == self.cursor.capacity == before.capacity(),
                before.valid(),
                self@ == before,
                output@ == before.queue().take(taken as int) + given.skip(taken as int),
            decreases count - taken,
        {
            let cell = self.cursor.read_cell(taken);
            output[taken] = self.data[cell];
            taken += 1;
            assert(output@ =~= before.queue().take(taken as int) + given.skip(taken as int));
        }
        self.cursor = self.cursor.after_pop(count);
        proof {
            assert(output@.len() == given.len());
            law_pop_takes_the_oldest(before, count as nat);
        }
        count
    }

    /// Moves the oldest samples into `output`, as many as it holds, and returns their number.
    /// The rest of `output` is made silent.
    pub fn pop_or_silence(&mut self, output: &mut [u32]) -> (count: usize)
        requires
            old(self).well_formed(),
        ensures
            final(self).well_formed(),
            count == old(self)@.pop_count(old(output)@.len()),
            count <= old(output)@.len(),
            count <= old(self)@.queue().len(),
            count == old(output)@.len() || count == old(self)@.queue().len(),
            final(self)@.queue().len() == old(self)@.queue().len() - count,
            final(self)@.cells.len() == old(self)@.cells.len(),
            final(output)@.len() == old(output)@.len(),
            final(self)@ == old(self)@.popped(count as nat),
            final(self)@.queue() == old(self)@.queue().skip(count as int),
            final(output)@ == old(self)@.queue().take(count as int) + Seq::new(
                (old(output)@.len() - count) as nat,
                |i: int| 0u32,
            ),
    {
        let ghost queued = self@.queue();
        let ghost len = output@.len();
        let count = self.pop_samples(output);
        silence_rest(output, count);
        assert(output@ =~= queued.take(count as int) + Seq::new((len - count) as nat, |i: int| 0u32));
        count
    }
}

/// Makes the samples from place `filled` on silent: the bit pattern of a silent sample is zero.
pub fn silence_rest(output: &mut [u32], filled: usize)
    requires
        filled <= old(output)@.len(),
    ensures
        final(output)@ == old(output)@.take(filled as int) + Seq::new(
            (old(output)@.len() - filled) as nat,
            |i: int| 0u32,
        ),
{
    let ghost given = output@;
    let mut i: usize = filled;
    while i < output.len()
        invariant
            filled <= i <= output@.len(),
            output@.len() == given.len(),
            forall|j: int| 0 <= j < filled ==> output@[j] == given[j],
            forall|j: int| filled <= j < i ==> output@[j] == 0,
        decreases output@.len() - i,
    {
        output[i] = 0;
        i += 1;
    }
    assert(output@ =~= given.take(filled as int) + Seq::new(
        (given.len() - filled) as nat,
        |i: int| 0u32,
    ));
}

/// A push takes the smaller of the samples and the free cells: no more than either, and all of
/// one of them.
pub proof fn law_push_takes_what_fits(state: RingState, len: nat)
    requires
        state.valid(),
    ensures
        state.push_count(len) <= len,
        state.queue().len() + state.push_count(len) <= state.cells.len(),
        state.push_count(len) == len || state.queue().len() + state.push_count(len)
            == state.cells.len(),
        state.push_count(0) == 0,
{
}

/// A pop gives the smaller of the places and the queued samples: no more than either, and all of
/// one of them.
pub proof fn law_pop_gives_what_is_queued(state: RingState, len: nat)
    requires
        state.valid(),
    ensures
        state.pop_count(len) <= len,
        state.pop_count(len) <= state.queue().len(),
        state.pop_count(len) == len || state.pop_count(len) == state.queue().len(),
{
}

/// Popping into as many places as are queued, or more, empties the queue and gives everything.
pub proof fn law_enough_places_empty_the_queue(state: RingState, places: nat)
    requires
        state.valid(),
        places >= state.queue().len(),
    ensures
        state.pop_count(places) == state.queue().len(),
        state.queue().take(state.pop_count(places) as int) == state.queue(),
        state.popped(state.pop_count(places)).queue() == Seq::<u32>::empty(),
{
    law_pop_takes_the_oldest(state, state.queued());
    assert(state.queue().take(state.queue().len() as int) =~= state.queue());
    assert(state.queue().skip(state.queue().len() as int) =~= Seq::<u32>::empty());
}

/// All samples pushed into an empty queue that has cells for them come out in one pop into as
/// many places, in the order in which they went in, and leave the queue empty.
pub proof fn law_one_pop_gives_back_one_push(state: RingState, samples: Seq<u32>)
    requires
        state.valid(),
        state.queue().len() == 0,
        samples.len() <= state.cells.len(),
        state.read_index + samples.len() <= usize::MAX,
    ensures
        ({
            let after = state.pushed(samples);
            let count = after.pop_count(samples.len());
            &&& state.push_count(samples.len()) == samples.len()
            &&& count == samples.len()
            &&& after.queue().take(count as int) == samples
            &&& after.popped(count).queue() == Seq::<u32>::empty()
        }),
{
    law_cells_distinct_before_wrapping(state, samples.len());
    law_samples_come_out_in_order(state, samples);
    law_push_keeps_validity(state, samples);
    law_enough_places_empty_the_queue(state.pushed(samples), samples.len());
    assert(samples.take(samples.len() as int) =~= samples);
}

/// Two pops give what one pop into the places of both gives.
pub proof fn law_pops_give_like_the_whole(state: RingState, a: nat, b: nat)
    requires
        state.valid(),
    ensures
        ({
            let first = state.pop_count(a);
            let then = state.popped(first);
            let second = then.pop_count(b);
            &&& first + second == state.pop_count(a + b)
            &&& state.queue().take(first as int) + then.queue().take(second as int)
                == state.queue().take(state.pop_count(a + b) as int)
            &&& then.popped(second).queue() == state.popped(state.pop_count(a + b)).queue()
        }),
{
    let first = state.pop_count(a);
    law_pop_takes_the_oldest(state, first);
    let then = state.popped(first);
    let second = then.pop_count(b);
    law_pop_takes_the_oldest(then, second);
    law_pop_takes_the_oldest(state, state.pop_count(a + b));
    assert(state.queue().take(first as int) + then.queue().take(second as int)
        =~= state.queue().take((first + second) as int));
    assert(state.queue().skip(first as int).skip(second as int) =~= state.queue().skip(
        (first + second) as int,
    ));
}

/// The write index is the read index and as many places on as samples are queued, around the end
/// of the range of the indices.
pub proof fn law_indices_are_apart_by_what_is_queued(state: RingState)
    ensures
        state.read_index + state.queue().len() == state.write_index || state.read_index
            + state.queue().len() == state.write_index + usize::MAX + 1,
        state.queue().len() <= usize::MAX,
{
}

/// A sample lies in the cell of its running index, which is its index by the number of cells as
/// long as the indices have not wrapped around.
pub proof fn law_cells_follow_the_indices(capacity: nat, index: usize, offset: nat)
    requires
        capacity > 0,
        index + offset <= usize::MAX,
    ensures
        cell_of(capacity, index, offset) == (index + offset) % (capacity as int),
        0 <= cell_of(capacity, index, offset) < capacity,
{
    lemma_cell_in_range(capacity, index, offset);
}

}
