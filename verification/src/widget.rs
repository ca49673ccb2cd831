//! The widget capability and the scheduler that multiplexes many
//! independently timed widgets onto one thread.
//!
//! A widget is polled through [`Widget::update`]; each poll either yields a
//! refresh delay with an optional new block, or signals permanent
//! completion.  The scheduler keeps, per widget, at most one pending event
//! in a queue keyed by due time, a slot in the current snapshot once the
//! widget has produced its first block, and the snapshot itself: the
//! ordered blocks of all slotted widgets.  Blocking between events is the
//! caller's: the scheduler exposes the earliest due time and a single-event
//! step, and never sleeps itself.

use vstd::prelude::*;

use crate::protocol::{Block, BlockView, I3Protocol, blocks_view};

verus! {

/// The result of one successful poll: when to poll again (in milliseconds)
/// and, optionally, a new block.  A poll with no block means: reschedule
/// me, but what I last rendered — if anything — stays as it is.
pub struct WidgetUpdate {
    /// Milliseconds until the widget should be polled again.
    pub refresh_interval: u64,
    /// The new block, or `None` to leave the rendered content unchanged.
    pub data: Option<Block>,
}

/// A dynamic data source on the bar.
///
/// Returning `None` signals permanent completion: the scheduler will never
/// poll this widget again.  `update` must return promptly; slow work
/// belongs on the implementation's own execution context, with `update`
/// reading the latest cached value.
pub trait Widget {
    /// What the widget itself maintains between polls; `true` unless the
    /// widget declares obligations of its own.
    open spec fn inv(&self) -> bool {
        true
    }

    /// Polls the widget once.
    fn update(&mut self) -> (r: Option<WidgetUpdate>)
        requires
            old(self).inv(),
        ensures
            final(self).inv(),
    ;
}

/// A widget wrapping another and rewriting the blocks it produces, so that
/// presentation changes compose without touching the data source.
pub struct WidgetDecorator<T: Widget, F: Fn(Block) -> Block> {
    inner: T,
    proc: F,
}

impl<T: Widget, F: Fn(Block) -> Block> WidgetDecorator<T, F> {
    /// The wrapped widget.
    pub closed spec fn inner(&self) -> T {
        self.inner
    }

    /// The stored mutation function.
    pub closed spec fn proc(&self) -> F {
        self.proc
    }

    /// What decoration does to one poll outcome of the wrapped widget:
    /// permanent completion and block-less outcomes pass through
    /// unchanged, a produced block is rewritten by the stored function,
    /// and the refresh delay is never touched.
    pub fn apply(&self, inner_result: Option<WidgetUpdate>) -> (r: Option<WidgetUpdate>)
        requires
            forall|b: Block| call_requires(self.proc(), (b,)),
        ensures
            inner_result is None ==> r is None,
            (inner_result matches Some(u) ==> r matches Some(d) && d.refresh_interval
                == u.refresh_interval && (u.data is None ==> d.data is None) && (
            u.data matches Some(b) ==> d.data matches Some(b2) && call_ensures(
                self.proc(),
                (b,),
                b2,
            ))),
    {
        proof {
            assert(self.proc() == self.proc);
        }
        match inner_result {
            Some(u) => {
                let WidgetUpdate { refresh_interval, data } = u;
                let data = match data {
                    Some(b) => Some((self.proc)(b)),
                    None => None,
                };
                Some(WidgetUpdate { refresh_interval, data })
            },
            None => None,
        }
    }
}

/// Anything that is a widget can be decorated.
pub trait Decoratable: Widget + Sized {
    /// Wraps this widget so that every block it produces is passed through
    /// `proc` before it reaches the scheduler.
    fn decorate_with<F: Fn(Block) -> Block>(self, proc: F) -> (r: WidgetDecorator<Self, F>)
        requires
            self.inv(),
            forall|b: Block| call_requires(proc, (b,)),
        ensures
            r.inner() == self,
            r.proc() == proc,
            r.inv(),
    {
        WidgetDecorator { inner: self, proc }
    }
}

impl<T: Widget + Sized> Decoratable for T {
}

impl<T: Widget, F: Fn(Block) -> Block> Widget for WidgetDecorator<T, F> {
    closed spec fn inv(&self) -> bool {
        self.inner.inv() && forall|b: Block| call_requires(self.proc, (b,))
    }

    fn update(&mut self) -> (r: Option<WidgetUpdate>) {
        let inner_result = self.inner.update();
        self.apply(inner_result)
    }
}

/// One pending poll: the widget's index and when it is due, in
/// milliseconds.
struct RefreshEvent {
    due: u64,
    widget: usize,
}

/// Whether some event in `q` belongs to widget `i`.
spec fn q_has(q: Seq<RefreshEvent>, i: int) -> bool {
    exists|k: int| 0 <= k < q.len() && q[k].widget == i
}

/// The due time of widget `i`'s event; meaningful when the widget has
/// exactly one event in `q`.
spec fn q_due(q: Seq<RefreshEvent>, i: int) -> u64 {
    q[choose|k: int| 0 <= k < q.len() && q[k].widget == i].due
}

/// At most one event per widget.
spec fn q_unique(q: Seq<RefreshEvent>) -> bool {
    forall|k: int, l: int|
        0 <= k < q.len() && 0 <= l < q.len() && k != l ==> q[k].widget != q[l].widget
}

/// With unique widgets, any event of widget `i` carries `q_due(q, i)`.
proof fn lemma_q_due_at(q: Seq<RefreshEvent>, k: int)
    requires
        q_unique(q),
        0 <= k < q.len(),
    ensures
        q_has(q, q[k].widget as int),
        q_due(q, q[k].widget as int) == q[k].due,
{
    let i = q[k].widget as int;
    assert(q_has(q, i));
    let k0 = choose|k0: int| 0 <= k0 < q.len() && q[k0].widget == i;
    assert(k0 == k);
}

/// Removing one event touches no other widget's presence or due time.
proof fn lemma_q_remove(q: Seq<RefreshEvent>, k: int)
    requires
        q_unique(q),
        0 <= k < q.len(),
    ensures
        q_unique(q.remove(k)),
        !q_has(q.remove(k), q[k].widget as int),
        forall|i: int| i != q[k].widget ==> q_has(q.remove(k), i) == q_has(q, i),
        forall|i: int|
            i != q[k].widget && q_has(q, i) ==> q_due(q.remove(k), i) == q_due(q, i),
{
    let qr = q.remove(k);
    assert forall|i: int| i != q[k].widget implies q_has(qr, i) == q_has(q, i) by {
        if q_has(q, i) {
            let w = choose|w: int| 0 <= w < q.len() && q[w].widget == i;
            if w < k {
                assert(qr[w].widget == i);
            } else {
                assert(qr[w - 1].widget == i);
            }
        }
        if q_has(qr, i) {
            let w = choose|w: int| 0 <= w < qr.len() && qr[w].widget == i;
            if w < k {
                assert(q[w].widget == i);
            } else {
                assert(q[w + 1].widget == i);
            }
        }
    }
    assert forall|i: int| i != q[k].widget && q_has(q, i) implies q_due(qr, i) == q_due(
        q,
        i,
    ) by {
        let w = choose|w: int| 0 <= w < q.len() && q[w].widget == i;
        lemma_q_due_at(q, w);
        let w2 = choose|w2: int| 0 <= w2 < qr.len() && qr[w2].widget == i;
        if w2 < k {
            lemma_q_due_at(q, w2);
        } else {
            lemma_q_due_at(q, w2 + 1);
        }
    }
    assert forall|i: int| !(#[trigger] qr[i].widget == q[k].widget) || !(0 <= i < qr.len())
        by {
        if 0 <= i < qr.len() {
            if i < k {
                assert(qr[i] == q[i]);
            } else {
                assert(qr[i] == q[i + 1]);
            }
        }
    }
}

/// Adding an event for a widget with none touches no other widget.
proof fn lemma_q_push(q: Seq<RefreshEvent>, e: RefreshEvent)
    requires
        q_unique(q),
        !q_has(q, e.widget as int),
    ensures
        q_unique(q.push(e)),
        q_has(q.push(e), e.widget as int),
        q_due(q.push(e), e.widget as int) == e.due,
        forall|i: int| i != e.widget ==> q_has(q.push(e), i) == q_has(q, i),
        forall|i: int| i != e.widget && q_has(q, i) ==> q_due(q.push(e), i) == q_due(q, i),
{
    let qp = q.push(e);
    assert(qp[q.len() as int] == e);
    assert forall|k: int, l: int|
        0 <= k < qp.len() && 0 <= l < qp.len() && k != l implies qp[k].widget != qp[l].widget by {
        if k < q.len() && l < q.len() {
            assert(qp[k] == q[k] && qp[l] == q[l]);
        } else if k < q.len() {
            assert(qp[k] == q[k] && qp[l] == e);
            assert(q_has(q, e.widget as int) == false);
            assert(qp[k].widget != e.widget);
        } else {
            assert(qp[k] == e && qp[l] == q[l]);
            assert(qp[l].widget != e.widget);
        }
    }
    lemma_q_due_at(qp, q.len() as int);
    assert forall|i: int| i != e.widget implies q_has(qp, i) == q_has(q, i) by {
        if q_has(q, i) {
            let w = choose|w: int| 0 <= w < q.len() && q[w].widget == i;
            assert(qp[w].widget == i);
        }
        if q_has(qp, i) {
            let w = choose|w: int| 0 <= w < qp.len() && qp[w].widget == i;
            assert(w < q.len());
            assert(q[w].widget == i);
        }
    }
    assert forall|i: int| i != e.widget && q_has(q, i) implies q_due(qp, i) == q_due(q, i) by {
        let w = choose|w: int| 0 <= w < q.len() && q[w].widget == i;
        lemma_q_due_at(q, w);
        assert(qp[w].widget == i);
        lemma_q_due_at(qp, w);
    }
}

/// How many widgets hold a snapshot slot.
pub open spec fn count_some(m: Seq<Option<usize>>) -> nat
    decreases m.len(),
{
    if m.len() == 0 {
        0
    } else {
        count_some(m.drop_last()) + (if m.last() is Some {
            1nat
        } else {
            0nat
        })
    }
}

/// Giving a slot to a widget without one raises the slot count by one.
proof fn lemma_count_some_update(m: Seq<Option<usize>>, i: int, s: usize)
    requires
        0 <= i < m.len(),
        m[i] is None,
    ensures
        count_some(m.update(i, Some(s))) == count_some(m) + 1,
    decreases m.len(),
{
    let mu = m.update(i, Some(s));
    if i == m.len() - 1 {
        assert(mu.drop_last() =~= m.drop_last());
        assert(mu.last() == Some(s));
    } else {
        lemma_count_some_update(m.drop_last(), i, s);
        assert(mu.drop_last() =~= m.drop_last().update(i, Some(s)));
        assert(mu.last() == m.last());
    }
}

/// Addition that stops at the largest representable time.
pub open spec fn sat_add(a: u64, b: u64) -> u64 {
    if a + b > u64::MAX {
        u64::MAX
    } else {
        (a + b) as u64
    }
}

/// Computes [`sat_add`].
fn sat_add_u64(a: u64, b: u64) -> (r: u64)
    ensures
        r == sat_add(a, b),
{
    if a <= u64::MAX - b {
        a + b
    } else {
        u64::MAX
    }
}

/// What one scheduling step did, and to which widget.
#[derive(Debug, Clone, Copy, PartialEq, Eq, Structural)]
pub enum PollStep {
    /// No event was pending; the loop is over.
    Idle,
    /// The widget signalled permanent completion and was dropped from
    /// scheduling; nothing was emitted.
    Dropped(usize),
    /// The widget produced a new block; the snapshot changed and was
    /// emitted.
    Updated(usize),
    /// The widget produced no block; the unchanged snapshot was emitted
    /// anyway, as a liveness signal.
    Unchanged(usize),
}

/// The bar: an ordered, append-only collection of widgets, the mapping
/// from widget to snapshot slot, the pending events, and the current
/// snapshot.
pub struct WidgetCollection<W: Widget> {
    widgets: Vec<W>,
    idx_map: Vec<Option<usize>>,
    event_queue: Vec<RefreshEvent>,
    result_buffer: Vec<Block>,
}

impl<W: Widget> WidgetCollection<W> {
    /// How many widgets are registered.
    pub closed spec fn num_widgets(&self) -> nat {
        self.widgets@.len()
    }

    /// How many widgets have been through their first poll.
    pub closed spec fn num_primed(&self) -> nat {
        self.idx_map@.len()
    }

    /// The snapshot slot of widget `i`, if it has produced a block.
    pub closed spec fn slot_of(&self, i: int) -> Option<usize> {
        self.idx_map@[i]
    }

    /// The current snapshot: the blocks of all slotted widgets, in slot
    /// order.
    pub closed spec fn snapshot(&self) -> Seq<BlockView> {
        blocks_view(self.result_buffer@)
    }

    /// When widget `i` is due to be polled again, if it is still
    /// scheduled.
    pub closed spec fn due_of(&self, i: int) -> Option<u64> {
        if q_has(self.event_queue@, i) {
            Some(q_due(self.event_queue@, i))
        } else {
            None
        }
    }

    /// Whether any poll is still pending.
    pub closed spec fn has_events(&self) -> bool {
        self.event_queue@.len() > 0
    }

    /// The widgets as they stand.
    pub closed spec fn widgets_view(&self) -> Seq<W> {
        self.widgets@
    }

    /// Well-formedness: every widget keeps its own invariant; slots are
    /// distinct, in range, and exactly as many as the snapshot holds
    /// blocks; every pending event belongs to a primed widget, at most one
    /// per widget.
    pub closed spec fn wf(&self) -> bool {
        &&& forall|i: int|
            0 <= i < self.widgets@.len() ==> (#[trigger] self.widgets@[i]).inv()
        &&& self.idx_map@.len() <= self.widgets@.len()
        &&& forall|k: int|
            0 <= k < self.event_queue@.len() ==> (#[trigger] self.event_queue@[k]).widget
                < self.idx_map@.len()
        &&& q_unique(self.event_queue@)
        &&& forall|i: int|
            0 <= i < self.idx_map@.len() && (#[trigger] self.idx_map@[i]) is Some
                ==> self.idx_map@[i].unwrap() < self.result_buffer@.len()
        &&& forall|i: int, j: int|
            0 <= i < self.idx_map@.len() && 0 <= j < self.idx_map@.len() && i != j
                && self.idx_map@[i] is Some && self.idx_map@[j] is Some
                ==> self.idx_map@[i].unwrap() != self.idx_map@[j].unwrap()
        &&& self.result_buffer@.len() == count_some(self.idx_map@)
    }

    /// Creates an empty collection.
    pub fn new() -> (r: Self)
        ensures
            r.wf(),
            r.num_widgets() == 0,
            r.num_primed() == 0,
            r.snapshot() =~= Seq::<BlockView>::empty(),
            !r.has_events(),
    {
        let r = WidgetCollection {
            widgets: Vec::new(),
            event_queue: Vec::new(),
            result_buffer: Vec::new(),
            idx_map: Vec::new(),
        };
        proof {
            assert(r.snapshot() =~= Seq::<BlockView>::empty());
        }
        r
    }

    /// Appends a widget.  Valid only before the run loop starts: widgets
    /// registered later never take part in priming.
    pub fn push(&mut self, widget: W)
        requires
            widget.inv(),
            old(self).wf(),
            old(self).num_primed() == 0,
        ensures
            final(self).wf(),
            final(self).num_primed() == 0,
            final(self).num_widgets() == old(self).num_widgets() + 1,
            final(self).widgets_view() == old(self).widgets_view().push(widget),
            final(self).snapshot() == old(self).snapshot(),
            !final(self).has_events(),
    {
        proof {
            if self.event_queue@.len() > 0 {
                assert(self.event_queue@[0].widget < 0);
            }
        }
        self.widgets.push(widget);
    }

    /// Applies the outcome of the next unprimed widget's first poll:
    /// completion leaves it without slot or event; an outcome schedules the
    /// next poll, and its block, if any, takes the next snapshot slot.
    fn record_first_poll(&mut self, outcome: Option<WidgetUpdate>, now: u64)
        requires
            old(self).wf(),
            old(self).idx_map@.len() < old(self).widgets@.len(),
        ensures
            final(self).wf(),
            final(self).widgets@ == old(self).widgets@,
            final(self).idx_map@.len() == old(self).idx_map@.len() + 1,
            outcome is None ==> final(self).idx_map@ == old(self).idx_map@.push(None)
                && final(self).event_queue@ == old(self).event_queue@ && final(self).result_buffer@ == old(self).result_buffer@,
            (outcome matches Some(u) ==> final(self).event_queue@ == old(self).event_queue@.push(
                RefreshEvent {
                    due: sat_add(now, u.refresh_interval),
                    widget: old(self).idx_map@.len() as usize,
                },
            )),
            (outcome matches Some(u) ==> (u.data is None ==> final(self).idx_map@ == old(self).idx_map@.push(None) && final(self).result_buffer@ == old(self).result_buffer@)),
            (outcome matches Some(u) ==> (u.data matches Some(b) ==> final(self).idx_map@ == old(self).idx_map@.push(Some(old(self).result_buffer@.len() as usize)) && final(self).result_buffer@ == old(self).result_buffer@.push(b))),
    {
        let i = self.idx_map.len();
        match outcome {
            None => {
                self.idx_map.push(None);
                proof {
                    assert(self.idx_map@.drop_last() =~= old(self).idx_map@);
                }
            },
            Some(u) => {
                let due = sat_add_u64(now, u.refresh_interval);
                match u.data {
                    Some(b) => {
                        let s = self.result_buffer.len();
                        self.result_buffer.push(b);
                        self.idx_map.push(Some(s));
                        proof {
                            assert(self.idx_map@.drop_last() =~= old(self).idx_map@);
                        }
                    },
                    None => {
                        self.idx_map.push(None);
                        proof {
                            assert(self.idx_map@.drop_last() =~= old(self).idx_map@);
                        }
                    },
                }
                proof {
                    assert(!q_has(self.event_queue@, i as int));
                    lemma_q_push(self.event_queue@, RefreshEvent { due, widget: i });
                }
                self.event_queue.push(RefreshEvent { due, widget: i });
            },
        }
    }

    /// Polls every registered widget once, in registration order.  The
    /// snapshot afterwards holds exactly one block per widget whose first
    /// poll produced one, in registration order.
    pub fn prime(&mut self, now: u64)
        requires
            old(self).wf(),
            old(self).num_primed() == 0,
        ensures
            final(self).wf(),
            final(self).num_widgets() == old(self).num_widgets(),
            final(self).num_primed() == final(self).num_widgets(),
            final(self).snapshot().len() == final(self).slot_count(),
            old(self).num_widgets() == 0 ==> !final(self).has_events(),
            forall|i: int, j: int|
                0 <= i < j < final(self).num_primed() && (#[trigger] final(self).slot_of(i))
                    is Some && (#[trigger] final(self).slot_of(j)) is Some ==> final(self).slot_of(
                    i,
                ).unwrap() < final(self).slot_of(j).unwrap(),
    {
        let n = self.widgets.len();
        proof {
            // with nothing primed, well-formedness leaves no room for an event
            if self.event_queue@.len() > 0 {
                assert(self.event_queue@[0].widget < 0);
            }
        }
        let mut idx: usize = 0;
        while idx < n
            invariant
                self.wf(),
                self.widgets@.len() == n,
                idx <= n,
                self.idx_map@.len() == idx,
                n == 0 ==> self.event_queue@.len() == 0,
                forall|i: int, j: int|
                    0 <= i < j < idx && (#[trigger] self.idx_map@[i]) is Some
                        && (#[trigger] self.idx_map@[j]) is Some ==> self.idx_map@[i].unwrap()
                        < self.idx_map@[j].unwrap(),
            decreases n - idx,
        {
            let ghost pre = *self;
            let r = self.widgets[idx].update();
            proof {
                assert forall|i: int| 0 <= i < self.widgets@.len() implies (
                #[trigger] self.widgets@[i]).inv() by {
                    if i != idx {
                        assert(self.widgets@[i] == pre.widgets@[i]);
                    }
                }
            }
            let ghost mid = *self;
            self.record_first_poll(r, now);
            proof {
                assert(mid.result_buffer.len() == mid.result_buffer@.len());
                assert forall|i: int, j: int|
                    0 <= i < j < idx + 1 && (#[trigger] self.idx_map@[i]) is Some && (
                    #[trigger] self.idx_map@[j]) is Some implies self.idx_map@[i].unwrap()
                    < self.idx_map@[j].unwrap() by {
                    assert(self.idx_map@[i] == mid.idx_map@[i]);
                    if j < idx {
                        assert(self.idx_map@[j] == mid.idx_map@[j]);
                    }
                }
            }
            idx = idx + 1;
        }
    }

    /// How many widgets hold a snapshot slot.
    pub closed spec fn slot_count(&self) -> nat {
        count_some(self.idx_map@)
    }

    /// The position of a pending event with the earliest due time.
    fn earliest_position(&self) -> (best: usize)
        requires
            self.event_queue@.len() > 0,
        ensures
            best < self.event_queue@.len(),
            forall|j: int|
                0 <= j < self.event_queue@.len() ==> self.event_queue@[best as int].due <= (
                #[trigger] self.event_queue@[j]).due,
    {
        let n = self.event_queue.len();
        let mut best: usize = 0;
        let mut k: usize = 1;
        while k < n
            invariant
                n == self.event_queue@.len(),
                1 <= k <= n,
                best < k,
                forall|j: int|
                    0 <= j < k ==> self.event_queue@[best as int].due <= (#[trigger]
                    self.event_queue@[j]).due,
            decreases n - k,
        {
            if self.event_queue[k].due < self.event_queue[best].due {
                best = k;
            }
            k = k + 1;
        }
        best
    }

    /// Removes and returns a pending event with the earliest due time, if
    /// any; on a tie any earliest event may come out.
    fn pop_earliest(&mut self) -> (r: Option<RefreshEvent>)
        requires
            old(self).wf(),
        ensures
            final(self).wf(),
            final(self).widgets@ == old(self).widgets@,
            final(self).idx_map@ == old(self).idx_map@,
            final(self).result_buffer@ == old(self).result_buffer@,
            r is None ==> *final(self) == *old(self) && old(self).event_queue@.len() == 0,
            (r matches Some(e) ==> {
                &&& e.widget < old(self).idx_map@.len()
                &&& q_has(old(self).event_queue@, e.widget as int)
                &&& q_due(old(self).event_queue@, e.widget as int) == e.due
                &&& forall|k: int|
                    0 <= k < old(self).event_queue@.len() ==> e.due <= (#[trigger] old(self).event_queue@[k]).due
                &&& !q_has(final(self).event_queue@, e.widget as int)
                &&& forall|i: int|
                    i != e.widget ==> q_has(final(self).event_queue@, i) == q_has(
                        old(self).event_queue@,
                        i,
                    )
                &&& forall|i: int|
                    i != e.widget && q_has(old(self).event_queue@, i) ==> q_due(
                        final(self).event_queue@,
                        i,
                    ) == q_due(old(self).event_queue@, i)
            }),
    {
        if self.event_queue.len() == 0 {
            return None;
        }
        let best = self.earliest_position();
        proof {
            lemma_q_due_at(self.event_queue@, best as int);
            lemma_q_remove(self.event_queue@, best as int);
        }
        let e = self.event_queue.remove(best);
        Some(e)
    }

    /// Applies the outcome of a scheduled widget's poll: the next poll is
    /// scheduled, and a new block overwrites the widget's slot — a widget
    /// without one acquires the slot at the end of the snapshot.
    fn record_poll(&mut self, i: usize, u: WidgetUpdate, now: u64)
        requires
            old(self).wf(),
            i < old(self).idx_map@.len(),
            !q_has(old(self).event_queue@, i as int),
        ensures
            final(self).wf(),
            final(self).widgets@ == old(self).widgets@,
            final(self).idx_map@.len() == old(self).idx_map@.len(),
            final(self).event_queue@ == old(self).event_queue@.push(
                RefreshEvent { due: sat_add(now, u.refresh_interval), widget: i },
            ),
            u.data is None ==> final(self).result_buffer@ == old(self).result_buffer@ && final(self).idx_map@ == old(self).idx_map@,
            (u.data matches Some(b) ==> (old(self).idx_map@[i as int] matches Some(s) ==> final(self).result_buffer@ == old(self).result_buffer@.update(s as int, b) && final(self).idx_map@ == old(self).idx_map@)),
            (u.data matches Some(b) ==> (old(self).idx_map@[i as int] is None ==> final(self).result_buffer@ == old(self).result_buffer@.push(b) && final(self).idx_map@ == old(self).idx_map@.update(i as int, Some(old(self).result_buffer@.len() as usize)))),
    {
        let due = sat_add_u64(now, u.refresh_interval);
        match u.data {
            Some(b) => {
                match self.idx_map[i] {
                    Some(s) => {
                        self.result_buffer.set(s, b);
                    },
                    None => {
                        let s = self.result_buffer.len();
                        self.result_buffer.push(b);
                        self.idx_map.set(i, Some(s));
                        proof {
                            lemma_count_some_update(old(self).idx_map@, i as int, s);
                        }
                    },
                }
            },
            None => {},
        }
        proof {
            assert(!q_has(self.event_queue@, i as int));
            lemma_q_push(self.event_queue@, RefreshEvent { due, widget: i });
        }
        self.event_queue.push(RefreshEvent { due, widget: i });
    }

    /// The earliest pending due time, or `None` when every widget has
    /// permanently completed.
    pub fn next_due(&self) -> (r: Option<u64>)
        requires
            self.wf(),
        ensures
            r is None <==> !self.has_events(),
            (r matches Some(d) ==> {
                &&& exists|i: int| #[trigger] self.due_of(i) == Some(d)
                &&& forall|i: int| (#[trigger] self.due_of(i)) is Some ==> d <= self.due_of(i).unwrap()
            }),
    {
        if self.event_queue.len() == 0 {
            return None;
        }
        let best = self.earliest_position();
        let d = self.event_queue[best].due;
        proof {
            lemma_q_due_at(self.event_queue@, best as int);
            let bw = self.event_queue@[best as int].widget as int;
            assert(self.due_of(bw) == Some(d));
            assert forall|i: int| (#[trigger] self.due_of(i)) is Some implies d <= self.due_of(i).unwrap() by {
                let w = choose|w: int|
                    0 <= w < self.event_queue@.len() && self.event_queue@[w].widget == i;
                lemma_q_due_at(self.event_queue@, w);
            }
        }
        Some(d)
    }

    /// Runs one step of the event loop: removes the earliest pending
    /// event, polls its widget, applies the outcome, and — unless the
    /// widget completed — emits the full current snapshot.
    pub fn poll_due(&mut self, proto: &mut I3Protocol, now: u64) -> (r: PollStep)
        requires
            old(self).wf(),
            old(self).num_primed() == old(self).num_widgets(),
            old(proto).wf(),
            !old(proto).is_closed(),
        ensures
            final(self).wf(),
            final(proto).wf(),
            !final(proto).is_closed(),
            final(proto).header() == old(proto).header(),
            final(self).num_widgets() == old(self).num_widgets(),
            final(self).num_primed() == old(self).num_primed(),
            r == PollStep::Idle ==> *final(self) == *old(self) && *final(proto) == *old(proto)
                && !old(self).has_events(),
            r != PollStep::Idle ==> old(self).has_events(),
            (r matches PollStep::Dropped(i) ==> {
                &&& i < old(self).num_widgets()
                &&& old(self).due_of(i as int) is Some
                &&& forall|j: int| (#[trigger] old(self).due_of(j)) is Some ==> old(self).due_of(i as int).unwrap() <= old(self).due_of(j).unwrap()
                &&& final(self).due_of(i as int) is None
                &&& forall|j: int|
                    j != i ==> #[trigger] final(self).due_of(j) == old(self).due_of(j)
                &&& final(self).snapshot() == old(self).snapshot()
                &&& forall|j: int| #[trigger] final(self).slot_of(j) == old(self).slot_of(j)
                &&& *final(proto) == *old(proto)
            }),
            (r matches PollStep::Updated(i) ==> {
                &&& i < old(self).num_widgets()
                &&& old(self).due_of(i as int) is Some
                &&& forall|j: int| (#[trigger] old(self).due_of(j)) is Some ==> old(self).due_of(i as int).unwrap() <= old(self).due_of(j).unwrap()
                &&& final(self).due_of(i as int) is Some
                &&& final(self).due_of(i as int).unwrap() >= now
                &&& forall|j: int|
                    j != i ==> #[trigger] final(self).due_of(j) == old(self).due_of(j)
                &&& forall|j: int|
                    0 <= j < old(self).num_primed() && j != i ==> #[trigger] final(self).slot_of(j)
                        == old(self).slot_of(j)
                &&& (old(self).slot_of(i as int) matches Some(s) ==> final(self).slot_of(i as int)
                    == Some(s) && exists|b: BlockView|
                    final(self).snapshot() == old(self).snapshot().update(s as int, b))
                &&& (old(self).slot_of(i as int) is None ==> final(self).slot_of(i as int) == Some(
                    old(self).snapshot().len() as usize,
                ) && exists|b: BlockView|
                    final(self).snapshot() == old(self).snapshot().push(b))
                &&& final(proto).snapshots() == old(proto).snapshots().push(
                    final(self).snapshot(),
                )
            }),
            (r matches PollStep::Unchanged(i) ==> {
                &&& i < old(self).num_widgets()
                &&& old(self).due_of(i as int) is Some
                &&& forall|j: int| (#[trigger] old(self).due_of(j)) is Some ==> old(self).due_of(i as int).unwrap() <= old(self).due_of(j).unwrap()
                &&& final(self).due_of(i as int) is Some
                &&& final(self).due_of(i as int).unwrap() >= now
                &&& forall|j: int|
                    j != i ==> #[trigger] final(self).due_of(j) == old(self).due_of(j)
                &&& forall|j: int| #[trigger] final(self).slot_of(j) == old(self).slot_of(j)
                &&& final(self).snapshot() == old(self).snapshot()
                &&& final(proto).snapshots() == old(proto).snapshots().push(
                    old(self).snapshot(),
                )
            }),
    {
        let popped = self.pop_earliest();
        match popped {
            None => PollStep::Idle,
            Some(e) => {
                let i = e.widget;
                let ghost mid = *self;
                let outcome = self.widgets[i].update();
                proof {
                    assert forall|j: int| 0 <= j < self.widgets@.len() implies (
                    #[trigger] self.widgets@[j]).inv() by {
                        if j != i {
                            assert(self.widgets@[j] == mid.widgets@[j]);
                        }
                    }
                }
                match outcome {
                    None => {
                        proof {
                            assert(self.due_of(i as int) is None);
                        }
                        PollStep::Dropped(i)
                    },
                    Some(u) => {
                        let ghost gu = u;
                        let had_data = u.data.is_some();
                        self.record_poll(i, u, now);
                        proto.refresh(&self.result_buffer);
                        proof {
                            lemma_q_push(
                                mid.event_queue@,
                                RefreshEvent { due: sat_add(now, gu.refresh_interval), widget: i },
                            );
                            assert(self.due_of(i as int) == Some(
                                sat_add(now, gu.refresh_interval),
                            ));
                            assert(sat_add(now, gu.refresh_interval) >= now);
                            assert(mid.result_buffer.len() == mid.result_buffer@.len());
                            assert(mid.result_buffer@ == old(self).result_buffer@);
                            assert(mid.snapshot() == old(self).snapshot());
                            assert(mid.snapshot().len() == mid.result_buffer@.len());
                            if gu.data is Some && mid.idx_map@[i as int] is Some {
                                let s = mid.idx_map@[i as int].unwrap();
                                let b = gu.data.unwrap();
                                assert(self.snapshot() =~= old(self).snapshot().update(
                                    s as int,
                                    b@,
                                ));
                                assert(self.slot_of(i as int) == Some(s));
                            }
                            if gu.data is Some && mid.idx_map@[i as int] is None {
                                let b = gu.data.unwrap();
                                assert(self.snapshot() =~= old(self).snapshot().push(b@));
                                assert(self.slot_of(i as int) == Some(
                                    old(self).snapshot().len() as usize,
                                ));
                            }
                            if gu.data is None {
                                assert(self.snapshot() == old(self).snapshot());
                            }
                        }
                        if had_data {
                            PollStep::Updated(i)
                        } else {
                            PollStep::Unchanged(i)
                        }
                    },
                }
            },
        }
    }
}

} // verus!
