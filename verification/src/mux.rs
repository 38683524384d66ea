//! Request multiplexer: correlation ids, pending table, completion routing.
//!
//! The multiplexer owns an arena of pending-request slots indexed by
//! correlation id.  `submit` occupies the lowest free slot (recycling ids
//! only after completion) and enqueues the request bytes for transmission;
//! `on_completion` resolves exactly the slot of the completed id;
//! `await_result` hands a resolved response to the caller holding that id.
//! A configured bound on the number of concurrently occupied slots keeps
//! the table from growing without limit under backpressure; under the
//! non-blocking policy `submit` fails deterministically at the bound.  On
//! connection loss every pending slot is resolved with the loss marker, so
//! no caller waits forever.

use vstd::prelude::*;
use crate::errors::ClientError;
use crate::records::OperationKind;

verus! {

/// One arena slot of the pending-request table.
pub enum Slot {
    /// Unoccupied; its index may be issued as a fresh correlation id.
    Free,
    /// A submitted request waiting for its completion.
    InFlight { kind: OperationKind, request: Vec<u8> },
    /// The caller cancelled; the eventual completion is drained silently.
    Orphaned,
    /// The response arrived and waits for the caller to collect it.
    Completed { response: Vec<u8> },
    /// The connection was lost while the request was pending.
    Lost,
}

/// The mathematical value of one slot.
#[verifier::ext_equal]
pub enum SlotView {
    Free,
    InFlight { kind: OperationKind, request: Seq<u8> },
    Orphaned,
    Completed { response: Seq<u8> },
    Lost,
}

impl View for Slot {
    type V = SlotView;

    open spec fn view(&self) -> SlotView {
        match self {
            Slot::Free => SlotView::Free,
            Slot::InFlight { kind, request } => SlotView::InFlight {
                kind: *kind,
                request: request@,
            },
            Slot::Orphaned => SlotView::Orphaned,
            Slot::Completed { response } => SlotView::Completed { response: response@ },
            Slot::Lost => SlotView::Lost,
        }
    }
}

/// The mathematical value of the multiplexer: the in-flight bound, the
/// slot table, and the queue of frames awaiting transmission.
#[verifier::ext_equal]
pub struct MultiplexerView {
    pub max_in_flight: int,
    pub slots: Seq<SlotView>,
    pub outbox: Seq<(int, Seq<u8>)>,
}

/// The request multiplexer.
pub struct Multiplexer {
    pub max_in_flight: usize,
    pub slots: Vec<Slot>,
    pub outbox: Vec<(usize, Vec<u8>)>,
}

impl View for Multiplexer {
    type V = MultiplexerView;

    open spec fn view(&self) -> MultiplexerView {
        MultiplexerView {
            max_in_flight: self.max_in_flight as int,
            slots: Seq::new(self.slots@.len(), |i: int| self.slots@[i]@),
            outbox: Seq::new(
                self.outbox@.len(),
                |i: int| (self.outbox@[i].0 as int, self.outbox@[i].1@),
            ),
        }
    }
}

/// How many slots of the table are occupied.
pub open spec fn count_occupied(s: Seq<SlotView>) -> nat
    decreases s.len(),
{
    if s.len() == 0 {
        0
    } else {
        (if s.first() is Free {
            0nat
        } else {
            1nat
        }) + count_occupied(s.drop_first())
    }
}

/// The lowest free slot index, or `-1` when every slot is occupied.
pub open spec fn first_free(s: Seq<SlotView>) -> int
    decreases s.len(),
{
    if s.len() == 0 {
        -1
    } else if s[0] is Free {
        0
    } else if first_free(s.drop_first()) == -1 {
        -1
    } else {
        first_free(s.drop_first()) + 1
    }
}

/// The occupied count never exceeds the table size, and reaches it exactly
/// when no slot is free.
pub proof fn lemma_count_occupied_bounds(s: Seq<SlotView>)
    ensures
        -1 <= first_free(s) < s.len(),
        count_occupied(s) <= s.len(),
        first_free(s) == -1 ==> count_occupied(s) == s.len(),
        first_free(s) >= 0 ==> count_occupied(s) < s.len(),
    decreases s.len(),
{
    if s.len() > 0 {
        lemma_count_occupied_bounds(s.drop_first());
        assert(s.first() == s[0]);
        if !(s[0] is Free) {
            assert(count_occupied(s) == 1 + count_occupied(s.drop_first()));
            if first_free(s) == -1 {
                assert(first_free(s.drop_first()) == -1);
            }
        }
    }
}

/// A scan that finds a free slot at `m` with none before it pins
/// `first_free`.
pub proof fn lemma_first_free_of_scan(s: Seq<SlotView>, m: int)
    requires
        0 <= m <= s.len(),
        forall|i: int| 0 <= i < m ==> !(s[i] is Free),
        m < s.len() ==> s[m] is Free,
    ensures
        first_free(s) == if m == s.len() {
            -1
        } else {
            m
        },
    decreases m,
{
    if s.len() == 0 {
    } else if m == 0 {
    } else {
        lemma_first_free_of_scan(s.drop_first(), m - 1);
    }
}

/// Replacing one slot changes the occupied count by the difference of the
/// two slots' occupancy.
pub proof fn lemma_count_occupied_update(s: Seq<SlotView>, i: int, x: SlotView)
    requires
        0 <= i < s.len(),
    ensures
        count_occupied(s.update(i, x)) == count_occupied(s) - (
        if s[i] is Free {
            0int
        } else {
            1int
        }) + (
        if x is Free {
            0int
        } else {
            1int
        }),
    decreases s.len(),
{
    if i == 0 {
        assert(s.update(0, x).drop_first() =~= s.drop_first());
    } else {
        lemma_count_occupied_update(s.drop_first(), i - 1, x);
        assert(s.update(i, x).drop_first() =~= s.drop_first().update(i - 1, x));
    }
}

/// Appending one slot adds its occupancy to the occupied count.
pub proof fn lemma_count_occupied_push(s: Seq<SlotView>, x: SlotView)
    ensures
        count_occupied(s.push(x)) == count_occupied(s) + (
        if x is Free {
            0int
        } else {
            1int
        }),
    decreases s.len(),
{
    if s.len() == 0 {
        assert(s.push(x).drop_first() =~= Seq::<SlotView>::empty());
        assert(count_occupied(Seq::<SlotView>::empty()) == 0);
    } else {
        lemma_count_occupied_push(s.drop_first(), x);
        assert(s.push(x).drop_first() =~= s.drop_first().push(x));
        assert(s.push(x).first() == s.first());
    }
}

/// True of every reachable multiplexer: the table never outgrows the
/// configured in-flight bound.
pub open spec fn mux_wf(m: MultiplexerView) -> bool {
    m.slots.len() <= m.max_in_flight
}

/// True when a submission would be accepted.
pub open spec fn spec_can_submit(m: MultiplexerView) -> bool {
    count_occupied(m.slots) < m.max_in_flight
}

/// The correlation id a submission would be assigned: the lowest free slot
/// index, or a fresh index at the end of the table.
pub open spec fn spec_submit_id(m: MultiplexerView) -> int {
    if first_free(m.slots) >= 0 {
        first_free(m.slots)
    } else {
        m.slots.len() as int
    }
}

/// The multiplexer after an accepted submission.
pub open spec fn spec_submit(m: MultiplexerView, kind: OperationKind, request: Seq<u8>)
    -> MultiplexerView {
    let id = spec_submit_id(m);
    let occupied = SlotView::InFlight { kind, request };
    MultiplexerView {
        slots: if id < m.slots.len() {
            m.slots.update(id, occupied)
        } else {
            m.slots.push(occupied)
        },
        outbox: m.outbox.push((id, request)),
        ..m
    }
}

/// The multiplexer after a completion frame for `id` arrives.
pub open spec fn spec_on_completion(m: MultiplexerView, id: int, response: Seq<u8>)
    -> MultiplexerView {
    if 0 <= id < m.slots.len() {
        if m.slots[id] is InFlight {
            MultiplexerView { slots: m.slots.update(id, SlotView::Completed { response }), ..m }
        } else if m.slots[id] is Orphaned {
            MultiplexerView { slots: m.slots.update(id, SlotView::Free), ..m }
        } else {
            m
        }
    } else {
        m
    }
}

/// The multiplexer after the caller holding `id` collects its resolution.
pub open spec fn spec_await_result(m: MultiplexerView, id: int) -> MultiplexerView {
    if 0 <= id < m.slots.len() && (m.slots[id] is Completed || m.slots[id] is Lost) {
        MultiplexerView { slots: m.slots.update(id, SlotView::Free), ..m }
    } else {
        m
    }
}

/// The multiplexer after the session leaves `Connected`: every in-flight
/// slot is resolved with the loss marker, every orphaned slot is drained.
pub open spec fn spec_connection_lost(m: MultiplexerView) -> MultiplexerView {
    MultiplexerView {
        slots: Seq::new(
            m.slots.len(),
            |i: int|
                if m.slots[i] is InFlight {
                    SlotView::Lost
                } else if m.slots[i] is Orphaned {
                    SlotView::Free
                } else {
                    m.slots[i]
                },
        ),
        ..m
    }
}

/// What `await_result` hands the caller holding a correlation id.
#[derive(Debug, PartialEq, Eq)]
pub enum AwaitStatus {
    /// The response has not arrived; the caller stays suspended.
    NotReady,
    /// The response bytes, delivered exactly once.
    Ready(Vec<u8>),
    /// The connection was lost while the request was pending.
    Lost,
}

/// Copies a byte buffer.
fn copy_bytes(b: &Vec<u8>) -> (r: Vec<u8>)
    ensures
        r@ == b@,
{
    let mut r: Vec<u8> = Vec::new();
    let mut i: usize = 0;
    while i < b.len()
        invariant
            i <= b@.len(),
            r@ == b@.subrange(0, i as int),
        decreases b@.len() - i,
    {
        r.push(b[i]);
        proof {
            assert(r@ =~= b@.subrange(0, i + 1));
        }
        i = i + 1;
    }
    proof {
        assert(b@.subrange(0, b@.len() as int) =~= b@);
    }
    r
}

/// True when the slot is free.
fn slot_is_free(s: &Slot) -> (r: bool)
    ensures
        r == (s@ is Free),
{
    match s {
        Slot::Free => true,
        _ => false,
    }
}

impl Multiplexer {
    /// An empty multiplexer with the given in-flight bound.
    pub fn new(max_in_flight: usize) -> (m: Multiplexer)
        ensures
            m@.max_in_flight == max_in_flight as int,
            m@.slots =~= Seq::<SlotView>::empty(),
            m@.outbox =~= Seq::<(int, Seq<u8>)>::empty(),
            mux_wf(m@),
    {
        Multiplexer { max_in_flight, slots: Vec::new(), outbox: Vec::new() }
    }

    /// How many correlation ids are currently occupied.
    pub fn in_flight_count(&self) -> (n: usize)
        ensures
            n == count_occupied(self@.slots),
    {
        let mut n: usize = 0;
        let mut i: usize = 0;
        proof {
            assert(self@.slots.subrange(0, 0) =~= Seq::<SlotView>::empty());
        }
        while i < self.slots.len()
            invariant
                i <= self.slots@.len(),
                self@.slots.len() == self.slots@.len(),
                n == count_occupied(self@.slots.subrange(0, i as int)),
                n <= i,
            decreases self.slots@.len() - i,
        {
            proof {
                assert(self@.slots.subrange(0, i + 1) =~= self@.slots.subrange(0, i as int).push(
                    self@.slots[i as int],
                ));
                lemma_count_occupied_push(self@.slots.subrange(0, i as int), self@.slots[i as int]);
            }
            if !slot_is_free(&self.slots[i]) {
                n = n + 1;
            }
            i = i + 1;
        }
        proof {
            assert(self@.slots.subrange(0, self@.slots.len() as int) =~= self@.slots);
        }
        n
    }

    /// Registers a pending request, assigns it a correlation id unique
    /// among the occupied ids, and enqueues the bytes for transmission.
    ///
    /// Below the in-flight bound a submission is always accepted at once —
    /// it never blocks; at the bound it fails deterministically with
    /// `TooManyInFlight` and changes nothing.
    pub fn submit(&mut self, kind: OperationKind, request: Vec<u8>) -> (r: Result<
        usize,
        ClientError,
    >)
        requires
            mux_wf(old(self)@),
        ensures
            mux_wf(final(self)@),
            r is Ok <==> spec_can_submit(old(self)@),
            r matches Ok(id) ==> {
                &&& id as int == spec_submit_id(old(self)@)
                &&& final(self)@ =~= spec_submit(old(self)@, kind, request@)
                &&& 0 <= id as int && (id as int) < final(self)@.slots.len()
                &&& final(self)@.slots[id as int] == (SlotView::InFlight {
                    kind,
                    request: request@,
                })
                &&& (id as int) < old(self)@.slots.len() ==> old(self)@.slots[id as int] is Free
                &&& forall|j: int|
                    0 <= j < old(self)@.slots.len() && j != id as int ==> final(self)@.slots[j] == old(self)@.slots[j]
                &&& final(self)@.outbox =~= old(self)@.outbox.push((id as int, request@))
            },
            r is Err ==> r == Err::<usize, ClientError>(ClientError::TooManyInFlight) && *final(self) == *old(self),
    {
        let n = self.slots.len();
        // Scan for the lowest free slot.
        let mut i: usize = 0;
        while i < n
            invariant
                i <= n,
                n == self.slots@.len(),
                forall|j: int| 0 <= j < i ==> !(self@.slots[j] is Free),
            ensures
                i <= n,
                n == self.slots@.len(),
                forall|j: int| 0 <= j < i ==> !(self@.slots[j] is Free),
                i < n ==> self@.slots[i as int] is Free,
                self == old(self),
            decreases n - i,
        {
            if slot_is_free(&self.slots[i]) {
                break ;
            }
            i = i + 1;
        }
        proof {
            lemma_first_free_of_scan(self@.slots, i as int);
            lemma_count_occupied_bounds(self@.slots);
        }
        if i == n {
            // No id to recycle: grow the table if the bound allows.
            if n >= self.max_in_flight {
                return Err(ClientError::TooManyInFlight);
            }
            let request_copy = copy_bytes(&request);
            self.slots.push(Slot::InFlight { kind, request: request_copy });
            self.outbox.push((n, request));
            proof {
                lemma_count_occupied_push(
                    old(self)@.slots,
                    SlotView::InFlight { kind, request: request@ },
                );
                assert(final(self)@.slots =~= old(self)@.slots.push(
                    SlotView::InFlight { kind, request: request@ },
                ));
                assert(final(self)@.outbox =~= old(self)@.outbox.push((n as int, request@)));
                assert(final(self)@ =~= spec_submit(old(self)@, kind, request@));
            }
            Ok(n)
        } else {
            let request_copy = copy_bytes(&request);
            self.slots[i] = Slot::InFlight { kind, request: request_copy };
            self.outbox.push((i, request));
            proof {
                lemma_count_occupied_update(
                    old(self)@.slots,
                    i as int,
                    SlotView::InFlight { kind, request: request@ },
                );
                assert(final(self)@.slots =~= old(self)@.slots.update(
                    i as int,
                    SlotView::InFlight { kind, request: request@ },
                ));
                assert(final(self)@.outbox =~= old(self)@.outbox.push((i as int, request@)));
                assert(final(self)@ =~= spec_submit(old(self)@, kind, request@));
            }
            Ok(i)
        }
    }

    /// Hands the next enqueued frame (correlation id and bytes) to the
    /// transport, transferring ownership of the buffer.
    pub fn take_outbound(&mut self) -> (r: Option<(usize, Vec<u8>)>)
        ensures
            r is None <==> old(self)@.outbox.len() == 0,
            r is None ==> *final(self) == *old(self),
            r matches Some(f) ==> {
                &&& old(self)@.outbox.len() > 0
                &&& f.0 as int == old(self)@.outbox[0].0
                &&& f.1@ == old(self)@.outbox[0].1
                &&& final(self)@.outbox =~= old(self)@.outbox.drop_first()
                &&& final(self)@.slots =~= old(self)@.slots
                &&& final(self)@.max_in_flight == old(self)@.max_in_flight
            },
    {
        if self.outbox.len() == 0 {
            return None;
        }
        let f = self.outbox.remove(0);
        proof {
            assert(final(self)@.outbox =~= old(self)@.outbox.drop_first());
            assert(final(self)@.slots =~= old(self)@.slots);
        }
        Some(f)
    }

    /// Routes one completion frame to the slot of its correlation id.
    ///
    /// An in-flight slot is resolved exactly once with the response; an
    /// orphaned slot is drained and its id freed; any other id is a
    /// protocol violation, reported as `UnexpectedCompletion` and
    /// otherwise harmless.
    pub fn on_completion(&mut self, id: usize, response: Vec<u8>) -> (r: Result<(), ClientError>)
        ensures
            final(self)@ =~= spec_on_completion(old(self)@, id as int, response@),
            r is Ok <==> ((id as int) < old(self)@.slots.len() && (old(self)@.slots[id as int]
                is InFlight || old(self)@.slots[id as int] is Orphaned)),
            r is Err ==> r == Err::<(), ClientError>(ClientError::UnexpectedCompletion) && *final(self) == *old(self),
            forall|j: int|
                0 <= j < old(self)@.slots.len() && j != id as int ==> final(self)@.slots[j] == old(self)@.slots[j],
    {
        if id >= self.slots.len() {
            return Err(ClientError::UnexpectedCompletion);
        }
        let resolve = match &self.slots[id] {
            Slot::InFlight { .. } => true,
            _ => false,
        };
        if resolve {
            self.slots[id] = Slot::Completed { response };
            proof {
                assert(final(self)@.slots =~= old(self)@.slots.update(
                    id as int,
                    SlotView::Completed { response: response@ },
                ));
                assert(final(self)@ =~= spec_on_completion(old(self)@, id as int, response@));
            }
            return Ok(());
        }
        let drain = match &self.slots[id] {
            Slot::Orphaned => true,
            _ => false,
        };
        if drain {
            self.slots[id] = Slot::Free;
            proof {
                assert(final(self)@.slots =~= old(self)@.slots.update(id as int, SlotView::Free));
                assert(final(self)@ =~= spec_on_completion(old(self)@, id as int, response@));
            }
            return Ok(());
        }
        Err(ClientError::UnexpectedCompletion)
    }

    /// Collects the resolution of the request holding `id`.
    ///
    /// While the request is in flight the caller stays suspended
    /// (`NotReady`, nothing changes); a completed request delivers its
    /// response exactly once and frees the id; a lost request reports the
    /// connection loss and frees the id.
    pub fn await_result(&mut self, id: usize) -> (r: AwaitStatus)
        requires
            (id as int) < old(self)@.slots.len(),
            old(self)@.slots[id as int] is InFlight || old(self)@.slots[id as int] is Completed
                || old(self)@.slots[id as int] is Lost,
        ensures
            final(self)@ =~= spec_await_result(old(self)@, id as int),
            old(self)@.slots[id as int] is InFlight ==> r is NotReady && *final(self) == *old(self),
            old(self)@.slots[id as int] matches SlotView::Completed { response } ==> (r matches
                AwaitStatus::Ready(b) && b@ == response),
            old(self)@.slots[id as int] is Lost ==> r is Lost,
            forall|j: int|
                0 <= j < old(self)@.slots.len() && j != id as int ==> final(self)@.slots[j] == old(self)@.slots[j],
    {
        let pending = match &self.slots[id] {
            Slot::InFlight { .. } => true,
            _ => false,
        };
        if pending {
            return AwaitStatus::NotReady;
        }
        let lost = match &self.slots[id] {
            Slot::Lost => true,
            _ => false,
        };
        if lost {
            self.slots[id] = Slot::Free;
            proof {
                assert(final(self)@.slots =~= old(self)@.slots.update(id as int, SlotView::Free));
            }
            return AwaitStatus::Lost;
        }
        // The slot holds the completed response: deliver it and free the id.
        let mut slot = Slot::Free;
        core::mem::swap(&mut slot, &mut self.slots[id]);
        proof {
            assert(final(self)@.slots =~= old(self)@.slots.update(id as int, SlotView::Free));
        }
        match slot {
            Slot::Completed { response } => AwaitStatus::Ready(response),
            _ => AwaitStatus::NotReady,
        }
    }

    /// Abandons interest in `id` before its completion: the slot is marked
    /// orphaned, so the eventual completion is drained rather than
    /// reported as a protocol violation.
    pub fn cancel(&mut self, id: usize)
        requires
            (id as int) < old(self)@.slots.len(),
            old(self)@.slots[id as int] is InFlight,
        ensures
            final(self)@.slots =~= old(self)@.slots.update(id as int, SlotView::Orphaned),
            final(self)@.outbox == old(self)@.outbox,
            final(self)@.max_in_flight == old(self)@.max_in_flight,
    {
        self.slots[id] = Slot::Orphaned;
        proof {
            assert(final(self)@.slots =~= old(self)@.slots.update(id as int, SlotView::Orphaned));
        }
    }

    /// Resolves every pending slot with the loss marker after the session
    /// leaves `Connected`: no caller is left waiting forever.
    pub fn connection_lost(&mut self)
        ensures
            final(self)@ =~= spec_connection_lost(old(self)@),
            forall|j: int|
                0 <= j < old(self)@.slots.len() && old(self)@.slots[j] is InFlight ==> final(self)@.slots[j] is Lost,
    {
        let n = self.slots.len();
        let mut i: usize = 0;
        while i < n
            invariant
                i <= n,
                n == self.slots@.len(),
                n == old(self)@.slots.len(),
                self@.max_in_flight == old(self)@.max_in_flight,
                self@.outbox =~= old(self)@.outbox,
                forall|j: int|
                    0 <= j < i ==> self@.slots[j] == spec_connection_lost(old(self)@).slots[j],
                forall|j: int| i <= j < n ==> self@.slots[j] == old(self)@.slots[j],
            decreases n - i,
        {
            let make_lost = match &self.slots[i] {
                Slot::InFlight { .. } => true,
                _ => false,
            };
            let make_free = match &self.slots[i] {
                Slot::Orphaned => true,
                _ => false,
            };
            let ghost pre = self@;
            if make_lost {
                self.slots[i] = Slot::Lost;
            } else if make_free {
                self.slots[i] = Slot::Free;
            }
            proof {
                assert(pre.slots[i as int] == old(self)@.slots[i as int]);
                if make_lost {
                    assert(self@.slots =~= pre.slots.update(i as int, SlotView::Lost));
                } else if make_free {
                    assert(self@.slots =~= pre.slots.update(i as int, SlotView::Free));
                } else {
                    assert(self@.slots =~= pre.slots);
                }
                assert(self@.slots[i as int] == spec_connection_lost(old(self)@).slots[i as int]);
            }
            i = i + 1;
        }
        proof {
            assert(final(self)@ =~= spec_connection_lost(old(self)@));
        }
    }
}

/// Isolation law: delivering a completion for one correlation id never
/// changes any other slot of the table.
pub proof fn lemma_completion_isolated(m: MultiplexerView, id: int, other: int, response: Seq<u8>)
    requires
        id != other,
        0 <= other < m.slots.len(),
    ensures
        spec_on_completion(m, id, response).slots.len() == m.slots.len(),
        spec_on_completion(m, id, response).slots[other] == m.slots[other],
{
}

/// No-cross-resolution law: when two distinct in-flight correlation ids
/// are completed with two responses, in either order, each id's slot holds
/// exactly the response delivered for it — no interleaving of submissions
/// and completions can resolve two callers with each other's response.
pub proof fn lemma_no_cross_resolution(
    m: MultiplexerView,
    id1: int,
    id2: int,
    r1: Seq<u8>,
    r2: Seq<u8>,
)
    requires
        id1 != id2,
        0 <= id1 < m.slots.len(),
        0 <= id2 < m.slots.len(),
        m.slots[id1] is InFlight,
        m.slots[id2] is InFlight,
    ensures
        ({
            let done = spec_on_completion(spec_on_completion(m, id1, r1), id2, r2);
            &&& done.slots[id1] == (SlotView::Completed { response: r1 })
            &&& done.slots[id2] == (SlotView::Completed { response: r2 })
        }),
{
}

/// Liveness of resolution on connection loss: every in-flight id is marked
/// lost, and collecting it afterwards reports the loss at once.
pub proof fn lemma_connection_lost_resolves_all(m: MultiplexerView, id: int)
    requires
        0 <= id < m.slots.len(),
        m.slots[id] is InFlight,
    ensures
        spec_connection_lost(m).slots[id] is Lost,
{
}

} // verus!
