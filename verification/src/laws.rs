//! The library's cross-function guarantees, stated over the mathematical
//! models that the executable contracts use and proved once and for all.

use vstd::prelude::*;
use crate::connection::{
    compatible, outcome_of, step, ConnView, EventView, Outcome, IO_CHUNK, REQUEST_CAPACITY,
};
use crate::detector::ends_with_terminator;
use crate::response::response_bytes;
use crate::scheduler::{keeps, run_all};

verus! {

/// The bytes of a sequence of chunks, in order.
pub open spec fn concat_chunks(chunks: Seq<Seq<u8>>) -> Seq<u8>
    decreases chunks.len(),
{
    if chunks.len() == 0 {
        Seq::empty()
    } else {
        concat_chunks(chunks.drop_last()) + chunks.last()
    }
}

/// The events of a connection whose reads return these chunks.
pub open spec fn read_events(chunks: Seq<Seq<u8>>) -> Seq<EventView> {
    Seq::new(chunks.len(), |i: int| EventView::DataRead { data: chunks[i] })
}

/// The events of a connection whose writes accept these counts.
pub open spec fn write_events(counts: Seq<int>) -> Seq<EventView> {
    Seq::new(counts.len(), |i: int| EventView::BytesWritten { count: counts[i] })
}

/// The sum of a sequence of counts.
pub open spec fn sum(counts: Seq<int>) -> int
    decreases counts.len(),
{
    if counts.len() == 0 {
        0
    } else {
        sum(counts.drop_last()) + counts.last()
    }
}

/// A connection's state after receiving a sequence of events, one
/// `advance` call each.
pub open spec fn run_conn(c: ConnView, evs: Seq<EventView>) -> ConnView
    decreases evs.len(),
{
    if evs.len() == 0 {
        c
    } else {
        step(run_conn(c, evs.drop_last()), evs.last())
    }
}

/// Every `advance` call in the run is legal: each event is one that the
/// state reached by then can receive.
pub open spec fn run_compatible(c: ConnView, evs: Seq<EventView>) -> bool
    decreases evs.len(),
{
    if evs.len() == 0 {
        true
    } else {
        run_compatible(c, evs.drop_last()) && compatible(run_conn(c, evs.drop_last()), evs.last())
    }
}

/// Every `advance` call in the run reports Pending: the connection survives
/// every scheduler iteration along the way.
pub open spec fn run_pending(c: ConnView, evs: Seq<EventView>) -> bool
    decreases evs.len(),
{
    if evs.len() == 0 {
        true
    } else {
        run_pending(c, evs.drop_last()) && outcome_of(run_conn(c, evs.drop_last()), evs.last())
            == Outcome::Pending
    }
}

/// Would-block idempotence: on a connection whose socket is not ready,
/// `advance` leaves the whole state unchanged and reports Pending.
pub proof fn lemma_would_block_idempotent(c: ConnView)
    ensures
        step(c, EventView::WouldBlock) == c,
        outcome_of(c, EventView::WouldBlock) == Outcome::Pending,
{
}

/// Graceful early disconnect: a connection whose peer closes while it is
/// still Reading — however few bytes arrived — is Finished, never starts a
/// response, and one iteration removes it from the live collection.
pub proof fn lemma_early_disconnect(data: Seq<u8>)
    ensures
        outcome_of((ConnView::Reading { data }), EventView::Closed) == Outcome::Finished,
        step((ConnView::Reading { data }), EventView::Closed) == (ConnView::Reading { data }),
        !keeps((ConnView::Reading { data }), EventView::Closed),
        run_all(seq![(ConnView::Reading { data })], seq![EventView::Closed]) == Seq::<
            ConnView,
        >::empty(),
{
    reveal_with_fuel(run_all, 2);
    assert(run_all(seq![(ConnView::Reading { data })], seq![EventView::Closed]) =~= Seq::<
        ConnView,
    >::empty());
}

proof fn lemma_run_conn_append(c: ConnView, a: Seq<EventView>, b: Seq<EventView>)
    ensures
        run_conn(c, a + b) == run_conn(run_conn(c, a), b),
        run_compatible(c, a + b) == (run_compatible(c, a) && run_compatible(run_conn(c, a), b)),
        run_pending(c, a + b) == (run_pending(c, a) && run_pending(run_conn(c, a), b)),
    decreases b.len(),
{
    if b.len() == 0 {
        assert(a + b =~= a);
    } else {
        lemma_run_conn_append(c, a, b.drop_last());
        assert((a + b).drop_last() =~= a + b.drop_last());
        assert((a + b).last() == b.last());
    }
}

proof fn lemma_concat_prefix_len(chunks: Seq<Seq<u8>>, k: int)
    requires
        0 <= k <= chunks.len(),
    ensures
        concat_chunks(chunks.take(k)).len() <= concat_chunks(chunks).len(),
    decreases chunks.len() - k,
{
    if k == chunks.len() {
        assert(chunks.take(k) =~= chunks);
    } else {
        lemma_concat_prefix_len(chunks, k + 1);
        assert(chunks.take(k + 1).drop_last() =~= chunks.take(k));
        assert(concat_chunks(chunks.take(k + 1)) == concat_chunks(chunks.take(k)) + chunks.take(
            k + 1,
        ).last());
    }
}

proof fn lemma_reading_accumulates(chunks: Seq<Seq<u8>>)
    requires
        forall|i: int| 0 <= i < chunks.len() ==> 1 <= (#[trigger] chunks[i]).len() <= IO_CHUNK,
        concat_chunks(chunks).len() < REQUEST_CAPACITY,
        forall|i: int|
            1 <= i <= chunks.len() ==> !ends_with_terminator(
                concat_chunks(#[trigger] chunks.take(i)),
            ),
    ensures
        run_conn((ConnView::Reading { data: Seq::<u8>::empty() }), read_events(chunks)) == (
        ConnView::Reading { data: concat_chunks(chunks) }),
        run_compatible((ConnView::Reading { data: Seq::<u8>::empty() }), read_events(chunks)),
        run_pending((ConnView::Reading { data: Seq::<u8>::empty() }), read_events(chunks)),
    decreases chunks.len(),
{
    if chunks.len() == 0 {
        assert(concat_chunks(chunks) =~= Seq::<u8>::empty());
    } else {
        let front = chunks.drop_last();
        assert(front =~= chunks.take(chunks.len() - 1));
        lemma_concat_prefix_len(chunks, chunks.len() - 1);
        assert forall|i: int|
            1 <= i <= front.len() implies !ends_with_terminator(
            concat_chunks(#[trigger] front.take(i)),
        ) by {
            assert(front.take(i) =~= chunks.take(i));
        }
        lemma_reading_accumulates(front);
        assert(read_events(chunks).drop_last() =~= read_events(front));
        assert(read_events(chunks).last() == (EventView::DataRead { data: chunks.last() }));
        assert(chunks.take(chunks.len() as int) =~= chunks);
        assert(concat_chunks(front) + chunks.last() == concat_chunks(chunks));
    }
}

proof fn lemma_writing_accumulates(w: int, counts: Seq<int>)
    requires
        0 <= w,
        w + sum(counts) < response_bytes().len(),
        forall|i: int| 0 <= i < counts.len() ==> 1 <= #[trigger] counts[i] <= IO_CHUNK,
    ensures
        run_conn((ConnView::Writing { written: w }), write_events(counts)) == (ConnView::Writing {
            written: w + sum(counts),
        }),
        run_compatible((ConnView::Writing { written: w }), write_events(counts)),
        run_pending((ConnView::Writing { written: w }), write_events(counts)),
    decreases counts.len(),
{
    if counts.len() > 0 {
        let front = counts.drop_last();
        assert(front =~= counts.take(counts.len() - 1));
        assert(counts.last() >= 1);
        lemma_writing_accumulates(w, front);
        assert(write_events(counts).drop_last() =~= write_events(front));
        assert(write_events(counts).last() == (EventView::BytesWritten { count: counts.last() }));
    }
}

/// Phase progression, reading: a connection that receives a well-formed
/// request — any byte sequence ending in the terminator, delivered in
/// chunks of one to `IO_CHUNK` bytes, none of whose proper prefixes already
/// ends in it — can receive every one of those chunks, stays live through
/// all of them, leaves Reading exactly when the last chunk arrives, and is
/// then Writing with nothing written yet.
pub proof fn lemma_request_completes(chunks: Seq<Seq<u8>>)
    requires
        chunks.len() >= 1,
        forall|i: int| 0 <= i < chunks.len() ==> 1 <= (#[trigger] chunks[i]).len() <= IO_CHUNK,
        concat_chunks(chunks).len() <= REQUEST_CAPACITY,
        forall|i: int|
            1 <= i < chunks.len() ==> !ends_with_terminator(
                concat_chunks(#[trigger] chunks.take(i)),
            ),
        ends_with_terminator(concat_chunks(chunks)),
    ensures
        run_conn((ConnView::Reading { data: Seq::<u8>::empty() }), read_events(chunks)) == (
        ConnView::Writing { written: 0 }),
        run_compatible((ConnView::Reading { data: Seq::<u8>::empty() }), read_events(chunks)),
        run_pending((ConnView::Reading { data: Seq::<u8>::empty() }), read_events(chunks)),
{
    let front = chunks.drop_last();
    assert(front =~= chunks.take(chunks.len() - 1));
    assert(concat_chunks(front) + chunks.last() == concat_chunks(chunks));
    assert(chunks.last().len() >= 1);
    assert forall|i: int|
        1 <= i <= front.len() implies !ends_with_terminator(
        concat_chunks(#[trigger] front.take(i)),
    ) by {
        assert(front.take(i) =~= chunks.take(i));
    }
    lemma_reading_accumulates(front);
    assert(read_events(chunks).drop_last() =~= read_events(front));
    assert(read_events(chunks).last() == (EventView::DataRead { data: chunks.last() }));
}

/// Phase progression, writing: once the whole canned response has been
/// accepted by the transport, in write portions of one to `IO_CHUNK` bytes,
/// the connection has stayed live throughout and is Flushing.
pub proof fn lemma_response_completes(counts: Seq<int>)
    requires
        counts.len() >= 1,
        forall|i: int| 0 <= i < counts.len() ==> 1 <= #[trigger] counts[i] <= IO_CHUNK,
        sum(counts) == response_bytes().len(),
    ensures
        run_conn((ConnView::Writing { written: 0 }), write_events(counts)) == ConnView::Flushing,
        run_compatible((ConnView::Writing { written: 0 }), write_events(counts)),
        run_pending((ConnView::Writing { written: 0 }), write_events(counts)),
{
    let front = counts.drop_last();
    assert(front =~= counts.take(counts.len() - 1));
    assert(counts.last() >= 1);
    lemma_writing_accumulates(0, front);
    assert(write_events(counts).drop_last() =~= write_events(front));
    assert(write_events(counts).last() == (EventView::BytesWritten { count: counts.last() }));
}

/// Phase progression, end to end: a fresh connection that receives a
/// well-formed request in arbitrary small chunks and then has the whole
/// canned response accepted in write portions of any size one to `IO_CHUNK`
/// moves Reading → Writing → Flushing, with every event along the way one
/// its state could receive and every outcome Pending — so the scheduler
/// keeps it live through all of those iterations. The flush then reports
/// Finished, and that one iteration removes the connection from the live
/// collection: it is removed exactly once.
pub proof fn lemma_phase_progression(chunks: Seq<Seq<u8>>, counts: Seq<int>)
    requires
        chunks.len() >= 1,
        forall|i: int| 0 <= i < chunks.len() ==> 1 <= (#[trigger] chunks[i]).len() <= IO_CHUNK,
        concat_chunks(chunks).len() <= REQUEST_CAPACITY,
        forall|i: int|
            1 <= i < chunks.len() ==> !ends_with_terminator(
                concat_chunks(#[trigger] chunks.take(i)),
            ),
        ends_with_terminator(concat_chunks(chunks)),
        counts.len() >= 1,
        forall|i: int| 0 <= i < counts.len() ==> 1 <= #[trigger] counts[i] <= IO_CHUNK,
        sum(counts) == response_bytes().len(),
    ensures
        run_conn((ConnView::Reading { data: Seq::<u8>::empty() }), read_events(chunks)) == (
        ConnView::Writing { written: 0 }),
        run_conn(
            (ConnView::Reading { data: Seq::<u8>::empty() }),
            read_events(chunks) + write_events(counts),
        ) == ConnView::Flushing,
        run_compatible(
            (ConnView::Reading { data: Seq::<u8>::empty() }),
            read_events(chunks) + write_events(counts),
        ),
        run_pending(
            (ConnView::Reading { data: Seq::<u8>::empty() }),
            read_events(chunks) + write_events(counts),
        ),
        compatible(ConnView::Flushing, EventView::Flushed),
        outcome_of(ConnView::Flushing, EventView::Flushed) == Outcome::Finished,
        run_all(seq![ConnView::Flushing], seq![EventView::Flushed]) == Seq::<ConnView>::empty(),
{
    lemma_request_completes(chunks);
    lemma_response_completes(counts);
    lemma_run_conn_append(
        (ConnView::Reading { data: Seq::<u8>::empty() }),
        read_events(chunks),
        write_events(counts),
    );
    reveal_with_fuel(run_all, 2);
    assert(run_all(seq![ConnView::Flushing], seq![EventView::Flushed]) =~= Seq::<
        ConnView,
    >::empty());
}

} // verus!

