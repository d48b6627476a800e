//! A single-producer, multi-consumer ring of fixed-size records.
//!
//! The producer never waits for consumers. Each slot carries a sequence
//! stamp next to its record; readers find out from the stamps alone whether
//! the record they expect is there, not yet complete, or already overwritten.
//! A read is two-phase: `consume_start` takes a copy of the slot, and
//! `try_commit` checks that the stamp did not move in the meantime before the
//! consumer's cursor advances.
//!
//! The stamp of a slot is `s + 1` for the record with sequence number `s`
//! that was last completely written there, and `0` for a slot never written.

use vstd::prelude::*;
use crate::handler_config::{is_power_of_two, power_of_two};
use vstd::arithmetic::div_mod::{lemma_fundamental_div_mod, lemma_mod_add_multiples_vanish, lemma_mod_pos_bound, lemma_small_mod};
use crate::messages::{RawMessage, RAW_MESSAGE_SIZE};

verus! {

/// One slot: a record and the stamp that says which record it is.
#[derive(Clone, Copy, Debug)]
pub struct Slot {
    pub record: RawMessage,
    pub stamp: u64,
}

/// Why a ring could not be made or found.
#[derive(Debug, PartialEq, Eq, Structural)]
pub enum RingError {
    /// The capacity is not a power of two.
    CapacityNotPowerOfTwo,
    /// A ring of that name already exists.
    AlreadyExists,
    /// No ring of that name exists.
    NotFound,
    /// The ring of that name carries records of another size.
    TypeMismatch,
}

/// The producer's side of a ring, which owns its slots.
pub struct PubSubRing {
    name: String,
    slots: Vec<Slot>,
    /// Sequence number of the next record to be claimed.
    head: u64,
    /// A record has been claimed and its payload written, but its stamp is
    /// not stored yet.
    in_flight: bool,
    /// Every record published so far.
    history: Ghost<Seq<RawMessage>>,
}

/// A consumer's private cursor: the sequence number it expects next.
#[derive(Debug, Clone, Copy, PartialEq, Eq, Structural)]
pub struct Consumer {
    pub cursor: u64,
}

/// What a read attempt saw, copied out of the slot.
#[derive(Debug, Clone, Copy)]
pub struct ConsumeGuard {
    /// Index of the slot that was read.
    pub slot: usize,
    /// The slot's stamp when it was read.
    pub stamp: u64,
    /// The slot's record when it was read.
    pub record: RawMessage,
}

/// The outcome of `consume_start`.
#[derive(Debug, Clone, Copy)]
pub enum ConsumeStartState {
    /// The expected record is there.
    Success(ConsumeGuard),
    /// The expected record has been claimed but not finished yet.
    InFlight(ConsumeGuard),
    /// The slot already holds a newer record: the expected one is lost.
    SpedPast(ConsumeGuard),
    /// Nothing has been published at the cursor yet.
    Empty,
}

/// A commit found the slot overwritten, or the guard was not for the record
/// the consumer expects; the read must be discarded.
#[derive(Debug, PartialEq, Eq, Structural)]
pub struct CommitConflict;

/// The slot that the record with sequence number `seq` goes to.
pub open spec fn slot_of(seq: int, capacity: int) -> int {
    seq % capacity
}

/// Two sequence numbers of one slot that lie less than a capacity apart are
/// equal.
proof fn lemma_same_slot(a: int, b: int, m: int)
    requires
        m > 0,
        a >= 0,
        b >= 0,
        a % m == b % m,
        a - m < b < a + m,
    ensures
        a == b,
{
    lemma_fundamental_div_mod(a, m);
    lemma_fundamental_div_mod(b, m);
    let qa = a / m;
    let qb = b / m;
    assert(m * qa - m * qb == a - b);
    assert(qa == qb) by (nonlinear_arith)
        requires
            m * qa - m * qb == a - b,
            a - m < b < a + m,
            m > 0,
    ;
}

impl PubSubRing {
    /// Number of slots.
    pub closed spec fn capacity(&self) -> nat {
        self.slots@.len()
    }

    /// Number of records whose stamps have been stored.
    pub closed spec fn completed(&self) -> nat {
        if self.in_flight {
            (self.head - 1) as nat
        } else {
            self.head as nat
        }
    }

    /// The slot being written, while a record is in flight.
    pub closed spec fn writing_slot(&self, i: int) -> bool {
        self.in_flight && i == slot_of(self.head - 1, self.capacity() as int)
    }

    /// Every record published so far, in order.
    pub closed spec fn history(&self) -> Seq<RawMessage> {
        self.history@
    }

    pub closed spec fn name_view(&self) -> Seq<char> {
        self.name@
    }

    pub closed spec fn head_seq(&self) -> nat {
        self.head as nat
    }

    pub closed spec fn is_in_flight(&self) -> bool {
        self.in_flight
    }

    pub closed spec fn stamp_at(&self, i: int) -> u64 {
        self.slots@[i].stamp
    }

    pub closed spec fn record_at(&self, i: int) -> RawMessage {
        self.slots@[i].record
    }

    /// The invariant of a slot that is not being written: stamp 0 while no
    /// record of its class is complete; otherwise the stamp names the newest
    /// complete record of its class, and the slot holds that record.
    pub closed spec fn slot_ok(&self, i: int) -> bool {
        let st = self.slots@[i].stamp as int;
        let cap = self.capacity() as int;
        let done = self.completed() as int;
        if st == 0 {
            done <= i
        } else {
            &&& slot_of(st - 1, cap) == i
            &&& st <= done
            &&& st + cap > done
            &&& self.slots@[i].record == self.history@[st - 1]
        }
    }

    /// The ring's invariant.
    pub closed spec fn wf(&self) -> bool {
        &&& is_power_of_two(self.capacity() as int)
        &&& self.capacity() > 0
        &&& self.history@.len() == self.head
        &&& self.in_flight ==> self.head >= 1
        &&& forall|i: int| 0 <= i < self.capacity() ==> if self.writing_slot(i) {
            self.slots@[i].stamp == 0 && self.slots@[i].record == self.history@[self.head - 1]
        } else {
            self.slot_ok(i)
        }
    }

    /// Makes an empty ring of `capacity` slots; the capacity must be a power
    /// of two.
    pub fn create(name: &str, capacity: usize) -> (r: Result<PubSubRing, RingError>)
        ensures
            r is Ok <==> is_power_of_two(capacity as int),
            r is Err ==> r->Err_0 == RingError::CapacityNotPowerOfTwo,
            r is Ok ==> r->Ok_0.wf() && r->Ok_0.name_view() == name@ && r->Ok_0.capacity() == capacity
                && r->Ok_0.head_seq() == 0 && !r->Ok_0.is_in_flight() && r->Ok_0.history().len() == 0,
    {
        if !power_of_two(capacity as u64) {
            return Err(RingError::CapacityNotPowerOfTwo);
        }
        let blank = Slot { record: RawMessage::zeroed(), stamp: 0 };
        let mut slots: Vec<Slot> = Vec::new();
        let mut i: usize = 0;
        while i < capacity
            invariant
                0 <= i <= capacity,
                blank.stamp == 0,
                slots@.len() == i,
                forall|k: int| 0 <= k < i ==> #[trigger] slots@[k].stamp == 0,
            decreases capacity - i,
        {
            slots.push(blank);
            i = i + 1;
        }
        let r = PubSubRing {
            name: String::from_str(name),
            slots,
            head: 0,
            in_flight: false,
            history: Ghost(Seq::empty()),
        };
        assert(r.capacity() > 0);
        Ok(r)
    }

    /// The ring's name.
    pub fn name(&self) -> (r: &str)
        ensures
            r@ == self.name_view(),
    {
        self.name.as_str()
    }

    /// The number of slots.
    pub fn capacity_exec(&self) -> (r: usize)
        ensures
            r == self.capacity(),
    {
        self.slots.len()
    }

    /// Sequence number of the next record to be claimed.
    pub fn head(&self) -> (r: u64)
        ensures
            r == self.head_seq(),
    {
        self.head
    }

    /// First half of a publication: claims the next sequence number, marks
    /// its slot as being written and writes the record into it.
    pub fn begin_publish(&mut self, record: RawMessage)
        requires
            old(self).wf(),
            !old(self).is_in_flight(),
            old(self).head_seq() < u64::MAX,
        ensures
            final(self).wf(),
            final(self).is_in_flight(),
            final(self).head_seq() == old(self).head_seq() + 1,
            final(self).history() == old(self).history().push(record),
            final(self).capacity() == old(self).capacity(),
            final(self).name_view() == old(self).name_view(),
    {
        let cap = self.slots.len();
        let i = (self.head % (cap as u64)) as usize;
        proof {
            lemma_mod_pos_bound(self.head as int, cap as int);
        }
        self.slots.set(i, Slot { record, stamp: 0 });
        self.head = self.head + 1;
        self.in_flight = true;
        proof {
            self.history@ = self.history@.push(record);
        }
        assert(self.wf()) by {
            assert forall|k: int| 0 <= k < self.capacity() implies if self.writing_slot(k) {
                self.slots@[k].stamp == 0 && self.slots@[k].record == self.history@[self.head - 1]
            } else {
                self.slot_ok(k)
            } by {
                if k != i {
                    assert(self.slots@[k] == old(self).slots@[k]);
                    assert(!old(self).writing_slot(k));
                    assert(old(self).slot_ok(k));
                    let st = self.slots@[k].stamp as int;
                    if st != 0 {
                        assert(self.history@[st - 1] == old(self).history@[st - 1]);
                    }
                }
            }
        }
    }

    /// Second half of a publication: stores the stamp of the record in
    /// flight, which makes it visible to readers.
    pub fn finish_publish(&mut self)
        requires
            old(self).wf(),
            old(self).is_in_flight(),
        ensures
            final(self).wf(),
            !final(self).is_in_flight(),
            final(self).head_seq() == old(self).head_seq(),
            final(self).history() == old(self).history(),
            final(self).capacity() == old(self).capacity(),
            final(self).name_view() == old(self).name_view(),
    {
        let cap = self.slots.len();
        let seq = self.head - 1;
        let i = (seq % (cap as u64)) as usize;
        proof {
            lemma_mod_pos_bound(seq as int, cap as int);
        }
        let record = self.slots[i].record;
        self.slots.set(i, Slot { record, stamp: self.head });
        self.in_flight = false;
        assert(self.wf()) by {
            let c = seq as int;
            let m = cap as int;
            assert forall|k: int| 0 <= k < self.capacity() implies self.slot_ok(k) by {
                assert(i as int == c % m);
                assert(old(self).writing_slot(i as int));
                if k == i {
                    assert(self.slots@[k].stamp == c + 1);
                    assert(self.completed() == c + 1);
                    assert(self.slots@[k].record == self.history@[c]);
                } else {
                    assert(self.slots@[k] == old(self).slots@[k]);
                    assert(!old(self).writing_slot(k));
                    assert(old(self).slot_ok(k));
                    let st = self.slots@[k].stamp as int;
                    if st == 0 {
                        if c == k {
                            lemma_small_mod(c as nat, m as nat);
                        }
                    } else if st + m == c + 1 {
                        lemma_mod_add_multiples_vanish(st - 1, m);
                        assert(false);
                    }
                }
            }
        }
    }

    /// Publishes a record: it goes to slot `head mod capacity`, then the
    /// slot's stamp is stored. The oldest record of that slot, read or not,
    /// is overwritten.
    pub fn publish(&mut self, record: RawMessage)
        requires
            old(self).wf(),
            !old(self).is_in_flight(),
            old(self).head_seq() < u64::MAX,
        ensures
            final(self).wf(),
            !final(self).is_in_flight(),
            final(self).head_seq() == old(self).head_seq() + 1,
            final(self).history() == old(self).history().push(record),
            final(self).capacity() == old(self).capacity(),
            final(self).name_view() == old(self).name_view(),
    {
        self.begin_publish(record);
        self.finish_publish();
    }

    /// A consumer that sees only records published from now on.
    pub fn attach_consumer(&self) -> (r: Consumer)
        ensures
            r.cursor == self.head_seq(),
    {
        Consumer { cursor: self.head }
    }
}

impl Consumer {
    /// Looks at the slot of the record this consumer expects next.
    pub fn consume_start(&self, ring: &PubSubRing) -> (r: ConsumeStartState)
        requires
            ring.wf(),
        ensures
            ({
                let i = slot_of(self.cursor as int, ring.capacity() as int);
                let st = ring.stamp_at(i) as int;
                let c = self.cursor as int;
                match r {
                    ConsumeStartState::Success(g) => st == c + 1 && g.slot == i && g.stamp == st
                        && g.record == ring.record_at(i) && g.record == ring.history()[c],
                    ConsumeStartState::SpedPast(g) => st > c + 1 && g.slot == i && g.stamp == st
                        && g.record == ring.record_at(i),
                    ConsumeStartState::InFlight(g) => st < c + 1 && c < ring.head_seq() && g.slot == i
                        && g.stamp == st && g.record == ring.record_at(i),
                    ConsumeStartState::Empty => st < c + 1 && c >= ring.head_seq(),
                }
            }),
    {
        let cap = ring.slots.len();
        let i = (self.cursor % (cap as u64)) as usize;
        proof {
            lemma_mod_pos_bound(self.cursor as int, cap as int);
        }
        let slot = ring.slots[i];
        let g = ConsumeGuard { slot: i, stamp: slot.stamp, record: slot.record };
        if self.cursor < u64::MAX && slot.stamp == self.cursor + 1 {
            proof {
                assert(!ring.writing_slot(i as int));
                assert(ring.slot_ok(i as int));
            }
            ConsumeStartState::Success(g)
        } else if self.cursor < u64::MAX && slot.stamp > self.cursor + 1 {
            ConsumeStartState::SpedPast(g)
        } else if self.cursor < ring.head {
            ConsumeStartState::InFlight(g)
        } else {
            ConsumeStartState::Empty
        }
    }

    /// Finishes a read: succeeds, and moves the cursor one record on, when
    /// the guard was for the expected record and its slot's stamp has not
    /// moved since; otherwise the read must be discarded.
    pub fn try_commit(&mut self, ring: &PubSubRing, guard: &ConsumeGuard) -> (r: Result<(), CommitConflict>)
        ensures
            r is Ok <==> guard.slot < ring.capacity() && ring.stamp_at(guard.slot as int) == guard.stamp
                && guard.stamp == old(self).cursor + 1,
            r is Ok ==> final(self).cursor == old(self).cursor + 1,
            r is Err ==> *final(self) == *old(self),
    {
        if guard.slot < ring.slots.len() && ring.slots[guard.slot].stamp == guard.stamp && self.cursor < u64::MAX
            && guard.stamp == self.cursor + 1 {
            self.cursor = self.cursor + 1;
            Ok(())
        } else {
            Err(CommitConflict)
        }
    }

    /// Accepts the loss reported by a `SpedPast` guard: the cursor moves to
    /// the record now in the slot, and the number of records skipped is
    /// returned. A guard that reports no loss changes nothing and gives 0.
    pub fn accept_loss(&mut self, guard: &ConsumeGuard) -> (lost: u64)
        ensures
            guard.stamp > old(self).cursor + 1 ==> final(self).cursor == guard.stamp - 1
                && lost == guard.stamp - 1 - old(self).cursor,
            guard.stamp <= old(self).cursor + 1 ==> *final(self) == *old(self) && lost == 0,
    {
        if self.cursor < u64::MAX && guard.stamp > self.cursor + 1 {
            let lost = guard.stamp - 1 - self.cursor;
            self.cursor = guard.stamp - 1;
            lost
        } else {
            0
        }
    }
}

/// The slot of `c` lies at or before `c`.
proof fn lemma_slot_le(c: int, m: int)
    requires
        c >= 0,
        m > 0,
    ensures
        0 <= slot_of(c, m) <= c,
        slot_of(c, m) < m,
{
    lemma_mod_pos_bound(c, m);
    lemma_fundamental_div_mod(c, m);
    let q = c / m;
    let i = c % m;
    assert(q >= 0) by (nonlinear_arith)
        requires
            c == m * q + i,
            0 <= i < m,
            c >= 0,
    ;
    assert(i <= c) by (nonlinear_arith)
        requires
            c == m * q + i,
            q >= 0,
            m > 0,
    ;
}

/// Each of the last `capacity` records is in its slot, under its own stamp:
/// a consumer whose cursor lies among them gets `Success` with exactly that
/// record.
pub proof fn lemma_window_readable(ring: PubSubRing, cursor: int)
    requires
        ring.wf(),
        !ring.is_in_flight(),
        0 <= cursor < ring.head_seq(),
        ring.head_seq() <= cursor + ring.capacity(),
    ensures
        ring.stamp_at(slot_of(cursor, ring.capacity() as int)) == cursor + 1,
        ring.record_at(slot_of(cursor, ring.capacity() as int)) == ring.history()[cursor],
{
    let m = ring.capacity() as int;
    let i = slot_of(cursor, m);
    lemma_slot_le(cursor, m);
    assert(!ring.writing_slot(i));
    assert(ring.slot_ok(i));
    let st = ring.slots@[i].stamp as int;
    if st != 0 {
        lemma_same_slot(cursor, st - 1, m);
    }
}

/// A consumer more than `capacity` records behind the producer finds its
/// slot stamped with a newer record: `SpedPast`, never `Success`.
pub proof fn lemma_lapped_reader_sped_past(ring: PubSubRing, cursor: int)
    requires
        ring.wf(),
        !ring.is_in_flight(),
        0 <= cursor,
        cursor + ring.capacity() < ring.head_seq(),
    ensures
        ring.stamp_at(slot_of(cursor, ring.capacity() as int)) > cursor + 1,
{
    let m = ring.capacity() as int;
    let i = slot_of(cursor, m);
    lemma_slot_le(cursor, m);
    assert(!ring.writing_slot(i));
    assert(ring.slot_ok(i));
}

/// A consumer that has caught up with the producer finds nothing: `Empty`.
pub proof fn lemma_caught_up_empty(ring: PubSubRing, cursor: int)
    requires
        ring.wf(),
        !ring.is_in_flight(),
        cursor == ring.head_seq(),
    ensures
        ring.stamp_at(slot_of(cursor, ring.capacity() as int)) < cursor + 1,
{
    let m = ring.capacity() as int;
    let i = slot_of(cursor, m);
    lemma_mod_pos_bound(cursor, m);
    assert(!ring.writing_slot(i));
    assert(ring.slot_ok(i));
}

/// Round trip: after a consumer attached at `before.head_seq()`, publishing
/// `record` leaves it readable with `Success`, bit for bit as published.
pub proof fn lemma_publish_then_consume(before: PubSubRing, after: PubSubRing, record: RawMessage, cursor: int)
    requires
        before.wf(),
        after.wf(),
        !after.is_in_flight(),
        cursor == before.head_seq(),
        after.head_seq() == before.head_seq() + 1,
        after.history() == before.history().push(record),
        after.capacity() == before.capacity(),
    ensures
        after.stamp_at(slot_of(cursor, after.capacity() as int)) == cursor + 1,
        after.record_at(slot_of(cursor, after.capacity() as int)) == record,
{
    lemma_window_readable(after, cursor);
}

/// A consumer attached before `n <= capacity` records were published reads
/// each of them, in order, with `Success`, and then finds the ring `Empty`.
pub proof fn lemma_fresh_consumer_reads_all(ring: PubSubRing, attached_at: int)
    requires
        ring.wf(),
        !ring.is_in_flight(),
        0 <= attached_at <= ring.head_seq(),
        ring.head_seq() <= attached_at + ring.capacity(),
    ensures
        forall|c: int| attached_at <= c < ring.head_seq() ==>
            ring.stamp_at(slot_of(c, ring.capacity() as int)) == c + 1
            && ring.record_at(#[trigger] slot_of(c, ring.capacity() as int)) == ring.history()[c],
        ring.stamp_at(slot_of(ring.head_seq() as int, ring.capacity() as int)) < ring.head_seq() + 1,
{
    assert forall|c: int| attached_at <= c < ring.head_seq() implies
        ring.stamp_at(slot_of(c, ring.capacity() as int)) == c + 1
        && ring.record_at(#[trigger] slot_of(c, ring.capacity() as int)) == ring.history()[c] by {
        lemma_window_readable(ring, c);
    }
    lemma_caught_up_empty(ring, ring.head_seq() as int);
}

/// The rings of a process, found by name.
pub struct RingDirectory {
    rings: Vec<PubSubRing>,
}

/// The names of a sequence of rings.
pub open spec fn ring_names(rs: Seq<PubSubRing>) -> Seq<Seq<char>> {
    rs.map_values(|r: PubSubRing| r.name_view())
}

impl RingDirectory {
    pub closed spec fn names(&self) -> Seq<Seq<char>> {
        ring_names(self.rings@)
    }

    pub closed spec fn wf(&self) -> bool {
        &&& self.names().no_duplicates()
        &&& forall|k: int| 0 <= k < self.rings@.len() ==> (#[trigger] self.rings@[k]).wf()
    }

    /// An empty directory.
    pub fn new() -> (r: RingDirectory)
        ensures
            r.wf(),
            r.names() == Seq::<Seq<char>>::empty(),
    {
        let r = RingDirectory { rings: Vec::new() };
        assert(r.names() =~= Seq::<Seq<char>>::empty());
        r
    }

    fn position(&self, name: &str) -> (r: Option<usize>)
        ensures
            match r {
                None => !self.names().contains(name@),
                Some(k) => k < self.names().len() && self.names()[k as int] == name@,
            },
    {
        let mut i: usize = 0;
        while i < self.rings.len()
            invariant
                0 <= i <= self.rings.len(),
                forall|k: int| 0 <= k < i ==> self.names()[k] != name@,
            decreases self.rings.len() - i,
        {
            if crate::text::same_text(self.rings[i].name(), name) {
                return Some(i);
            }
            i = i + 1;
        }
        None
    }

    /// Creates a ring; refused when the capacity is not a power of two or a
    /// ring of that name exists.
    pub fn create(&mut self, name: &str, capacity: usize) -> (r: Result<(), RingError>)
        requires
            old(self).wf(),
        ensures
            final(self).wf(),
            old(self).names().contains(name@) ==> r == Err::<(), _>(RingError::AlreadyExists)
                && final(self).names() == old(self).names(),
            !old(self).names().contains(name@) && !is_power_of_two(capacity as int) ==> r == Err::<(), _>(
                RingError::CapacityNotPowerOfTwo,
            ) && final(self).names() == old(self).names(),
            !old(self).names().contains(name@) && is_power_of_two(capacity as int) ==> r is Ok
                && final(self).names() == old(self).names().push(name@),
    {
        if self.position(name).is_some() {
            return Err(RingError::AlreadyExists);
        }
        let ring = match PubSubRing::create(name, capacity) {
            Err(e) => {
                return Err(e);
            },
            Ok(ring) => ring,
        };
        let ghost before = self.rings@;
        self.rings.push(ring);
        proof {
            assert(self.names() =~= ring_names(before).push(name@));
        }
        Ok(())
    }

    /// The ring of this name, for a reader whose records are `record_size`
    /// bytes long.
    pub fn lookup_record(&self, name: &str, record_size: usize) -> (r: Result<&PubSubRing, RingError>)
        requires
            self.wf(),
        ensures
            !self.names().contains(name@) ==> r == Err::<&PubSubRing, _>(RingError::NotFound),
            self.names().contains(name@) && record_size != RAW_MESSAGE_SIZE ==> r == Err::<&PubSubRing, _>(
                RingError::TypeMismatch,
            ),
            self.names().contains(name@) && record_size == RAW_MESSAGE_SIZE ==> r is Ok && r->Ok_0.name_view() == name@
                && r->Ok_0.wf(),
    {
        let found = self.lookup(name);
        match found {
            Err(e) => Err(e),
            Ok(ring) => if record_size == RAW_MESSAGE_SIZE {
                Ok(ring)
            } else {
                Err(RingError::TypeMismatch)
            },
        }
    }

    /// The ring of this name.
    pub fn lookup(&self, name: &str) -> (r: Result<&PubSubRing, RingError>)
        requires
            self.wf(),
        ensures
            r is Ok <==> self.names().contains(name@),
            r is Ok ==> r->Ok_0.name_view() == name@ && r->Ok_0.wf(),
            r is Err ==> r->Err_0 == RingError::NotFound,
    {
        match self.position(name) {
            None => Err(RingError::NotFound),
            Some(k) => Ok(&self.rings[k]),
        }
    }
}

} // verus!
