//! The event-loop scheduler: owns the live connection collection, advances
//! every live connection once per iteration by its own I/O event, and
//! removes finished or failed connections in descending index order, so that
//! removing a later index never shifts an earlier, still-pending removal.

use vstd::prelude::*;
use crate::connection::{
    compatible, conn_wf, outcome_of, step, action_of, Action, Connection, ConnView, EventView,
    IoEvent, Outcome,
};

verus! {

/// The connection stays in the live collection after this event.
pub open spec fn keeps(c: ConnView, ev: EventView) -> bool {
    outcome_of(c, ev) == Outcome::Pending
}

/// The models of a sequence of events.
pub open spec fn event_views(evs: Seq<IoEvent>) -> Seq<EventView> {
    Seq::new(evs.len(), |i: int| evs[i]@)
}

/// The live collection after one whole iteration: every connection is
/// stepped by its own event, in order, and exactly the non-pending ones
/// disappear.
pub open spec fn run_all(cs: Seq<ConnView>, evs: Seq<EventView>) -> Seq<ConnView>
    decreases cs.len(),
{
    if cs.len() == 0 {
        Seq::empty()
    } else {
        let rest = run_all(cs.drop_first(), evs.drop_first());
        if keeps(cs[0], evs[0]) {
            seq![step(cs[0], evs[0])] + rest
        } else {
            rest
        }
    }
}

/// The elements of `s` whose mask entry is true, in order.
pub open spec fn filter_by<T>(s: Seq<T>, m: Seq<bool>) -> Seq<T>
    decreases s.len(),
{
    if s.len() == 0 {
        Seq::empty()
    } else {
        let rest = filter_by(s.drop_first(), m.drop_first());
        if m[0] {
            seq![s[0]] + rest
        } else {
            rest
        }
    }
}

/// How many mask entries are true.
pub open spec fn count_true(m: Seq<bool>) -> int
    decreases m.len(),
{
    if m.len() == 0 {
        0
    } else {
        (if m[0] {
            1int
        } else {
            0int
        }) + count_true(m.drop_first())
    }
}

/// Every connection stepped by its own event, in order, completed or not.
pub open spec fn stepped_views(cs: Seq<ConnView>, evs: Seq<EventView>) -> Seq<ConnView> {
    Seq::new(cs.len(), |i: int| step(cs[i], evs[i]))
}

/// Which connections stay live after their event.
pub open spec fn keep_mask(cs: Seq<ConnView>, evs: Seq<EventView>) -> Seq<bool> {
    Seq::new(cs.len(), |i: int| keeps(cs[i], evs[i]))
}

proof fn lemma_filter_by_all_true<T>(s: Seq<T>, m: Seq<bool>)
    requires
        m.len() == s.len(),
        forall|p: int| 0 <= p < m.len() ==> m[p],
    ensures
        filter_by(s, m) == s,
    decreases s.len(),
{
    if s.len() == 0 {
        assert(filter_by(s, m) =~= s);
    } else {
        lemma_filter_by_all_true(s.drop_first(), m.drop_first());
        assert(filter_by(s, m) =~= s);
    }
}

proof fn lemma_remove_from_filtered<T>(s: Seq<T>, m: Seq<bool>, idx: int)
    requires
        m.len() == s.len(),
        0 <= idx < s.len(),
        forall|p: int| 0 <= p <= idx ==> m[p],
    ensures
        filter_by(s, m).len() > idx,
        filter_by(s, m).remove(idx) == filter_by(s, m.update(idx, false)),
    decreases idx,
{
    let rest = filter_by(s.drop_first(), m.drop_first());
    assert(filter_by(s, m) == seq![s[0]] + rest);
    if idx == 0 {
        assert(m.update(0, false).drop_first() =~= m.drop_first());
        assert(filter_by(s, m.update(0, false)) == rest);
        assert(filter_by(s, m).remove(0) =~= rest);
    } else {
        let s1 = s.drop_first();
        let m1 = m.drop_first();
        lemma_remove_from_filtered(s1, m1, idx - 1);
        assert(m.update(idx, false).drop_first() =~= m1.update(idx - 1, false));
        assert(m.update(idx, false)[0]);
        assert(filter_by(s, m.update(idx, false)) == seq![s[0]] + filter_by(
            s1,
            m1.update(idx - 1, false),
        ));
        assert((seq![s[0]] + rest).remove(idx) =~= seq![s[0]] + rest.remove(idx - 1));
    }
}

proof fn lemma_run_all_is_filter(cs: Seq<ConnView>, evs: Seq<EventView>)
    requires
        evs.len() == cs.len(),
    ensures
        run_all(cs, evs) == filter_by(stepped_views(cs, evs), keep_mask(cs, evs)),
    decreases cs.len(),
{
    if cs.len() == 0 {
        assert(run_all(cs, evs) =~= filter_by(stepped_views(cs, evs), keep_mask(cs, evs)));
    } else {
        lemma_run_all_is_filter(cs.drop_first(), evs.drop_first());
        assert(stepped_views(cs, evs).drop_first() =~= stepped_views(
            cs.drop_first(),
            evs.drop_first(),
        ));
        assert(keep_mask(cs, evs).drop_first() =~= keep_mask(cs.drop_first(), evs.drop_first()));
        assert(stepped_views(cs, evs)[0] == step(cs[0], evs[0]));
        assert(keep_mask(cs, evs)[0] == keeps(cs[0], evs[0]));
        assert(run_all(cs, evs) == filter_by(stepped_views(cs, evs), keep_mask(cs, evs)));
    }
}

proof fn lemma_filter_by_len<T>(s: Seq<T>, m: Seq<bool>)
    requires
        m.len() == s.len(),
    ensures
        filter_by(s, m).len() == count_true(m),
    decreases s.len(),
{
    if s.len() > 0 {
        lemma_filter_by_len(s.drop_first(), m.drop_first());
    }
}

proof fn lemma_count_true_bounds(m: Seq<bool>)
    ensures
        0 <= count_true(m) <= m.len(),
    decreases m.len(),
{
    if m.len() > 0 {
        lemma_count_true_bounds(m.drop_first());
    }
}

proof fn lemma_filter_by_position<T>(s: Seq<T>, m: Seq<bool>, j: int)
    requires
        m.len() == s.len(),
        0 <= j < s.len(),
        m[j],
    ensures
        count_true(m.take(j)) < filter_by(s, m).len(),
        filter_by(s, m)[count_true(m.take(j))] == s[j],
    decreases j,
{
    let rest = filter_by(s.drop_first(), m.drop_first());
    if j == 0 {
        assert(m.take(0) =~= Seq::<bool>::empty());
        assert(filter_by(s, m) == seq![s[0]] + rest);
    } else {
        lemma_filter_by_position(s.drop_first(), m.drop_first(), j - 1);
        lemma_count_true_bounds(m.drop_first().take(j - 1));
        assert(m.take(j).drop_first() =~= m.drop_first().take(j - 1));
        assert(m.take(j)[0] == m[0]);
        let pos_rest = count_true(m.drop_first().take(j - 1));
        assert(count_true(m.take(j)) == (if m[0] {
            1int
        } else {
            0int
        }) + pos_rest);
        if m[0] {
            assert(filter_by(s, m) == seq![s[0]] + rest);
            assert(filter_by(s, m)[1 + pos_rest] == rest[pos_rest]);
        } else {
            assert(filter_by(s, m) == rest);
        }
    }
}

/// Fairness of one iteration: every live connection is advanced by exactly
/// its own event, none is skipped, and the survivors keep their relative
/// order — a connection `i` whose outcome is Pending stands afterwards at
/// the index given by the number of pending connections before it, while
/// every finished or failed connection is gone (the lengths match exactly).
pub proof fn lemma_iteration_fairness(cs: Seq<ConnView>, evs: Seq<EventView>)
    requires
        evs.len() == cs.len(),
    ensures
        run_all(cs, evs).len() == count_true(keep_mask(cs, evs)),
        forall|i: int|
            0 <= i < cs.len() && keeps(#[trigger] cs[i], evs[i]) ==> {
                &&& count_true(keep_mask(cs, evs).take(i)) < run_all(cs, evs).len()
                &&& run_all(cs, evs)[count_true(keep_mask(cs, evs).take(i))] == step(
                    cs[i],
                    evs[i],
                )
            },
{
    lemma_run_all_is_filter(cs, evs);
    lemma_filter_by_len(stepped_views(cs, evs), keep_mask(cs, evs));
    assert forall|i: int|
        0 <= i < cs.len() && keeps(#[trigger] cs[i], evs[i]) implies {
        &&& count_true(keep_mask(cs, evs).take(i)) < run_all(cs, evs).len()
        &&& run_all(cs, evs)[count_true(keep_mask(cs, evs).take(i))] == step(cs[i], evs[i])
    } by {
        lemma_filter_by_position(stepped_views(cs, evs), keep_mask(cs, evs), i);
    }
}

/// Every connection that survives an iteration is well formed, and the
/// collection never grows.
pub proof fn lemma_run_all_wf(cs: Seq<ConnView>, evs: Seq<EventView>)
    requires
        evs.len() == cs.len(),
        forall|i: int| 0 <= i < cs.len() ==> conn_wf(#[trigger] cs[i]),
        forall|i: int| 0 <= i < cs.len() ==> compatible(#[trigger] cs[i], evs[i]),
    ensures
        forall|j: int|
            0 <= j < run_all(cs, evs).len() ==> conn_wf(#[trigger] run_all(cs, evs)[j]),
        run_all(cs, evs).len() <= cs.len(),
    decreases cs.len(),
{
    if cs.len() > 0 {
        lemma_run_all_wf(cs.drop_first(), evs.drop_first());
        crate::connection::lemma_step_wf(cs[0], evs[0]);
        let rest = run_all(cs.drop_first(), evs.drop_first());
        assert forall|j: int| 0 <= j < run_all(cs, evs).len() implies conn_wf(
            #[trigger] run_all(cs, evs)[j],
        ) by {
            if keeps(cs[0], evs[0]) {
                if j == 0 {
                    assert(run_all(cs, evs)[0] == step(cs[0], evs[0]));
                } else {
                    assert(run_all(cs, evs)[j] == rest[j - 1]);
                }
            } else {
                assert(run_all(cs, evs)[j] == rest[j]);
            }
        }
    }
}

/// The event-loop scheduler, owning the live connection collection.
pub struct Scheduler {
    connections: Vec<Connection>,
}

impl View for Scheduler {
    type V = Seq<ConnView>;

    closed spec fn view(&self) -> Seq<ConnView> {
        Seq::new(self.connections@.len(), |i: int| self.connections@[i]@)
    }
}

impl Scheduler {
    /// Every live connection is well formed.
    pub open spec fn wf(&self) -> bool {
        forall|i: int| 0 <= i < self@.len() ==> conn_wf(#[trigger] self@[i])
    }

    /// A scheduler with no live connections.
    pub fn new() -> (s: Scheduler)
        ensures
            s@ == Seq::<ConnView>::empty(),
            s.wf(),
    {
        let s = Scheduler { connections: Vec::new() };
        proof {
            assert(s@ =~= Seq::<ConnView>::empty());
        }
        s
    }

    /// How many connections are live.
    pub fn num_connections(&self) -> (n: usize)
        ensures
            n == self@.len(),
    {
        self.connections.len()
    }

    /// Append a fresh connection (phase Reading, empty buffer), as after a
    /// successful accept.
    pub fn add_connection(&mut self)
        requires
            old(self).wf(),
        ensures
            final(self)@ == old(self)@.push(ConnView::Reading { data: Seq::<u8>::empty() }),
            final(self).wf(),
    {
        self.connections.push(Connection::new());
        proof {
            assert(final(self)@ =~= old(self)@.push(
                ConnView::Reading { data: Seq::<u8>::empty() },
            ));
        }
    }

    /// The live connection at index `i`.
    pub fn connection(&self, i: usize) -> (c: &Connection)
        requires
            i < self@.len(),
        ensures
            c@ == self@[i as int],
    {
        &self.connections[i]
    }

    /// The I/O the event loop should attempt next for connection `i`.
    pub fn next_action(&self, i: usize) -> (a: Action)
        requires
            self.wf(),
            i < self@.len(),
        ensures
            a == action_of(self@[i as int]),
    {
        self.connections[i].next_action()
    }

    /// Whether connection `i` can receive the given event.
    pub fn accepts_event(&self, i: usize, ev: &IoEvent) -> (r: bool)
        requires
            i < self@.len(),
        ensures
            r == compatible(self@[i as int], ev@),
    {
        self.connections[i].accepts(ev)
    }

    /// One whole event-loop iteration over the live collection: advance
    /// every connection, in collection order, by its own event; then remove
    /// every finished or failed connection, in descending index order.
    /// Returns the outcome of each connection, indexed as before removal.
    pub fn advance_all(&mut self, events: Vec<IoEvent>) -> (outcomes: Vec<Outcome>)
        requires
            old(self).wf(),
            events@.len() == old(self)@.len(),
            forall|i: int|
                0 <= i < events@.len() ==> compatible(#[trigger] old(self)@[i], events@[i]@),
        ensures
            final(self).wf(),
            outcomes@.len() == old(self)@.len(),
            forall|i: int|
                0 <= i < outcomes@.len() ==> #[trigger] outcomes@[i] == outcome_of(
                    old(self)@[i],
                    events@[i]@,
                ),
            final(self)@ == run_all(old(self)@, event_views(events@)),
    {
        let ghost cs0 = self@;
        let ghost evs0 = event_views(events@);
        let n = self.connections.len();
        proof {
            assert(cs0.len() == n);
        }
        let mut remaining = events;
        let mut outcomes: Vec<Outcome> = Vec::new();
        let mut completed: Vec<usize> = Vec::new();
        let mut i: usize = 0;
        while i < n
            invariant
                n == cs0.len(),
                n == evs0.len(),
                i <= n,
                self.connections@.len() == n,
                remaining@.len() == n - i,
                forall|j: int|
                    0 <= j < remaining@.len() ==> (#[trigger] remaining@[j])@ == evs0[i + j],
                forall|j: int|
                    0 <= j < i ==> (#[trigger] self.connections@[j])@ == step(cs0[j], evs0[j]),
                forall|j: int| 0 <= j < i ==> conn_wf((#[trigger] self.connections@[j])@),
                forall|j: int| i <= j < n ==> (#[trigger] self.connections@[j])@ == cs0[j],
                forall|j: int| 0 <= j < n ==> conn_wf(#[trigger] cs0[j]),
                forall|j: int| 0 <= j < n ==> compatible(#[trigger] cs0[j], evs0[j]),
                outcomes@.len() == i,
                forall|j: int|
                    0 <= j < i ==> #[trigger] outcomes@[j] == outcome_of(cs0[j], evs0[j]),
                forall|k: int| 0 <= k < completed@.len() ==> #[trigger] completed@[k] < i,
                forall|k1: int, k2: int|
                    #![trigger completed@[k1], completed@[k2]]
                    0 <= k1 < k2 < completed@.len() ==> completed@[k1] < completed@[k2],
                forall|j: int|
                    0 <= j < i ==> (completed@.contains(j as usize) <==> !keeps(
                        #[trigger] cs0[j],
                        evs0[j],
                    )),
            decreases n - i,
        {
            let ev = remaining.remove(0);
            let ghost pre = self.connections@;
            let mut c = self.connections.remove(i);
            let o = c.advance(ev);
            self.connections.insert(i, c);
            proof {
                assert(self.connections@ =~= pre.update(i as int, self.connections@[i as int]));
            }
            outcomes.push(o);
            let is_pending = match o {
                Outcome::Pending => true,
                _ => false,
            };
            if !is_pending {
                let ghost comp_pre = completed@;
                completed.push(i);
                proof {
                    assert forall|j: int|
                        0 <= j < i + 1 implies (completed@.contains(j as usize) <==> !keeps(
                        #[trigger] cs0[j],
                        evs0[j],
                    )) by {
                        if j < i {
                            assert(completed@.contains(j as usize) <==> comp_pre.contains(
                                j as usize,
                            )) by {
                                if comp_pre.contains(j as usize) {
                                    let k = choose|k: int|
                                        0 <= k < comp_pre.len() && comp_pre[k] == j as usize;
                                    assert(completed@[k] == j as usize);
                                }
                                if completed@.contains(j as usize) {
                                    let k = choose|k: int|
                                        0 <= k < completed@.len() && completed@[k] == j as usize;
                                    if k < comp_pre.len() {
                                        assert(comp_pre[k] == j as usize);
                                    }
                                }
                            }
                        } else {
                            assert(completed@[completed@.len() - 1] == i as usize);
                        }
                    }
                }
            } else {
                proof {
                    assert forall|j: int|
                        0 <= j < i + 1 implies (completed@.contains(j as usize) <==> !keeps(
                        #[trigger] cs0[j],
                        evs0[j],
                    )) by {
                        if j == i {
                            if completed@.contains(j as usize) {
                                let k = choose|k: int|
                                    0 <= k < completed@.len() && completed@[k] == j as usize;
                                assert(completed@[k] < i);
                            }
                        }
                    }
                }
            }
            i = i + 1;
        }
        let ghost stepped = stepped_views(cs0, evs0);
        let ghost kmask = keep_mask(cs0, evs0);
        let ghost comp_all = completed@;
        let ghost mut mask: Seq<bool> = Seq::new(n as nat, |j: int| true);
        proof {
            assert(self@ =~= stepped);
            lemma_filter_by_all_true(stepped, mask);
            assert(comp_all.skip(comp_all.len() as int) =~= Seq::<usize>::empty());
        }
        while completed.len() > 0
            invariant
                n == cs0.len(),
                n == evs0.len(),
                stepped == stepped_views(cs0, evs0),
                stepped.len() == n,
                mask.len() == n,
                completed@.len() <= comp_all.len(),
                completed@ == comp_all.take(completed@.len() as int),
                forall|k: int| 0 <= k < comp_all.len() ==> #[trigger] comp_all[k] < n,
                forall|k1: int, k2: int|
                    #![trigger comp_all[k1], comp_all[k2]]
                    0 <= k1 < k2 < comp_all.len() ==> comp_all[k1] < comp_all[k2],
                forall|j: int|
                    0 <= j < n ==> (comp_all.contains(j as usize) <==> !keeps(
                        #[trigger] cs0[j],
                        evs0[j],
                    )),
                forall|p: int|
                    0 <= p < n ==> ((#[trigger] mask[p] == false) <==> comp_all.skip(
                        completed@.len() as int,
                    ).contains(p as usize)),
                self@ == filter_by(stepped, mask),
            decreases completed@.len(),
        {
            let ghost comp_len = completed@.len() as int;
            let idx = match completed.pop() {
                Some(v) => v,
                None => 0,
            };
            proof {
                assert(completed@ =~= comp_all.take(comp_len - 1));
                assert(idx == comp_all[comp_len - 1]);
                assert forall|p: int| 0 <= p <= idx implies mask[p] by {
                    if !mask[p] {
                        let k = choose|k: int|
                            0 <= k < comp_all.skip(comp_len).len() && comp_all.skip(comp_len)[k]
                                == p as usize;
                        assert(comp_all[comp_len + k] == p as usize);
                        assert(comp_all[comp_len - 1] < comp_all[comp_len + k]);
                    }
                };
                lemma_remove_from_filtered(stepped, mask, idx as int);
            }
            let ghost pre = self.connections@;
            self.connections.remove(idx);
            proof {
                assert(self@ =~= filter_by(stepped, mask).remove(idx as int));
                mask = mask.update(idx as int, false);
                assert forall|p: int|
                    0 <= p < n implies ((#[trigger] mask[p] == false) <==> comp_all.skip(
                    completed@.len() as int,
                ).contains(p as usize)) by {
                    let tail = comp_all.skip(comp_len - 1);
                    if p == idx {
                        assert(tail[0] == idx);
                        assert(tail.contains(p as usize));
                    } else {
                        if comp_all.skip(comp_len).contains(p as usize) {
                            let k = choose|k: int|
                                0 <= k < comp_all.skip(comp_len).len() && comp_all.skip(comp_len)[k]
                                    == p as usize;
                            assert(tail[k + 1] == p as usize);
                            assert(tail.contains(p as usize));
                        }
                        if tail.contains(p as usize) {
                            let k = choose|k: int|
                                0 <= k < tail.len() && tail[k] == p as usize;
                            if k == 0 {
                                assert(tail[0] == idx);
                            } else {
                                assert(comp_all.skip(comp_len)[k - 1] == p as usize);
                                assert(comp_all.skip(comp_len).contains(p as usize));
                            }
                        }
                    }
                }
            }
        }
        proof {
            assert(completed@ =~= Seq::<usize>::empty());
            assert(comp_all.skip(0) =~= comp_all);
            assert(mask =~= kmask) by {
                assert forall|p: int| 0 <= p < n implies mask[p] == kmask[p] by {
                    assert(mask[p] == false <==> comp_all.contains(p as usize));
                }
            };
            lemma_run_all_is_filter(cs0, evs0);
            lemma_run_all_wf(cs0, evs0);
            assert forall|j: int|
                0 <= j < self@.len() implies conn_wf(#[trigger] self@[j]) by {
                assert(self@[j] == run_all(cs0, evs0)[j]);
            }
        }
        outcomes
    }
}

} // verus!
