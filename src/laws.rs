//! Properties of the barrier that span several transitions.

use vstd::prelude::*;

use crate::barrier::{
    collect_post, enter_post, exit_post, take_post, Arrival, BarrierView, ExitAction, Slot,
    WriteGroup,
};
use crate::writer::Writer;

verus! {

/// On an idle barrier an arrival leads a group of itself alone. When its
/// leader releases that group with a result set, the barrier is idle again,
/// no other leader is woken, and the owner collects its writer exactly as the
/// leader left it. Repeated, each of a run of non-overlapping calls elects its
/// own leader and reads its own result.
pub proof fn lemma_solo_round<P, O>(
    s0: BarrierView<P, O>,
    w: Writer<P, O>,
    s1: BarrierView<P, O>,
    h: usize,
    a: Arrival<P, O>,
    g: WriteGroup<P, O>,
    s2: BarrierView<P, O>,
    x: Result<ExitAction, WriteGroup<P, O>>,
    s3: BarrierView<P, O>,
    c: Option<Writer<P, O>>,
)
    requires
        s0.wf(),
        s0.idle(),
        enter_post(s0, w, s1, h, a),
        g.wf(),
        g.spec_handles() == seq![h],
        g.complete(),
        exit_post(s1, g, s2, x),
        collect_post(s2, h, s3, c),
    ensures
        a is Lead,
        a->Lead_0.spec_handles() == seq![h],
        a->Lead_0.spec_writers() == seq![w],
        x is Ok,
        !x->Ok_0.wake_leader,
        s2.idle(),
        s3.idle(),
        c == Some(g.spec_writers()[0]),
        c->Some_0.spec_output() is Some,
{
    assert(g.spec_handles()[0] == h);
    assert(g.spec_writers()[0].spec_output() is Some);
}

/// While a group executes and none is forming, the first arrival is elected
/// leader of the next group (the parity turns) and the second follows it on
/// the new parity; the forming group holds both in arrival order. Until the
/// executing group is released, the elected leader cannot take its group and
/// the follower has nothing to collect.
pub proof fn lemma_next_leader_elected<P, O>(
    s0: BarrierView<P, O>,
    wb: Writer<P, O>,
    s1: BarrierView<P, O>,
    hb: usize,
    ab: Arrival<P, O>,
    wc: Writer<P, O>,
    s2: BarrierView<P, O>,
    hc: usize,
    ac: Arrival<P, O>,
    s3: BarrierView<P, O>,
    rb: Option<WriteGroup<P, O>>,
    s4: BarrierView<P, O>,
    rc: Option<Writer<P, O>>,
)
    requires
        s0.wf(),
        s1.wf(),
        s2.wf(),
        s0.executing(),
        s0.forming.len() == 0,
        enter_post(s0, wb, s1, hb, ab),
        enter_post(s1, wc, s2, hc, ac),
        take_post(s2, hb, s3, rb),
        collect_post(s2, hc, s4, rc),
    ensures
        ab is AwaitHandoff,
        s1.parity != s0.parity,
        ac == Arrival::<P, O>::Follow(s1.parity),
        s2.parity == s1.parity,
        s2.forming == seq![hb, hc],
        s2.slots[hb as int] == Slot::Queued(wb),
        s2.slots[hc as int] == Slot::Queued(wc),
        s2.executing(),
        s2.current == s0.current,
        rb is None,
        rc is None,
{
    assert(s2.forming =~= seq![hb, hc]);
    assert(s1.forming[0] == hb);
    assert(s2.forming[1] == hc);
    assert(s2.forming[0] == hb);
}

/// When the executing group is released while the next group has formed of
/// an elected leader and one follower, the leader is woken (the followers of
/// the released group are woken on the other parity), and the elected
/// leader takes a group of exactly itself and its follower, in arrival
/// order. The follower still has nothing to collect.
pub proof fn lemma_handoff<P, O>(
    s2: BarrierView<P, O>,
    hb: usize,
    hc: usize,
    wb: Writer<P, O>,
    wc: Writer<P, O>,
    ga: WriteGroup<P, O>,
    s3: BarrierView<P, O>,
    xa: Result<ExitAction, WriteGroup<P, O>>,
    s4: BarrierView<P, O>,
    rb: Option<WriteGroup<P, O>>,
    s5: BarrierView<P, O>,
    rc: Option<Writer<P, O>>,
)
    requires
        s2.wf(),
        s2.executing(),
        s2.forming == seq![hb, hc],
        s2.slots[hb as int] == Slot::Queued(wb),
        s2.slots[hc as int] == Slot::Queued(wc),
        ga.wf(),
        ga.spec_handles() == s2.current,
        exit_post(s2, ga, s3, xa),
        take_post(s3, hb, s4, rb),
        collect_post(s4, hc, s5, rc),
    ensures
        xa is Ok,
        xa->Ok_0.wake_leader,
        xa->Ok_0.wake_followers != s2.parity,
        rb is Some,
        rb->Some_0.spec_handles() == seq![hb, hc],
        rb->Some_0.spec_writers() == seq![wb, wc],
        s4.executing(),
        s4.current == seq![hb, hc],
        rc is None,
{
    let g = rb->Some_0;
    assert(s2.forming[0] == hb && s2.forming[1] == hc);
    assert(!ga.spec_handles().contains(hb)) by {
        if ga.spec_handles().contains(hb) {
            let j = choose|j: int| 0 <= j < ga.spec_handles().len() && #[trigger] ga.spec_handles()[j] == hb;
            assert(s2.slots[s2.current[j] as int] is Lent);
        }
    }
    assert(!ga.spec_handles().contains(hc)) by {
        if ga.spec_handles().contains(hc) {
            let j = choose|j: int| 0 <= j < ga.spec_handles().len() && #[trigger] ga.spec_handles()[j] == hc;
            assert(s2.slots[s2.current[j] as int] is Lent);
        }
    }
    assert(s3.slots[hb as int] == Slot::Queued(wb));
    assert(s3.slots[hc as int] == Slot::Queued(wc));
    assert(g.spec_writers()[0] == wb);
    assert(g.spec_writers()[1] == wc);
    assert(g.spec_writers() =~= seq![wb, wc]);
    assert(s3.forming.contains(hc));
    assert(s4.slots[hc as int] is Lent);
}

/// Releasing the executing group with a result for every member leaves each
/// member's writer, exactly as the leader left it, for its owner to collect.
pub proof fn lemma_release_delivers<P, O>(
    s0: BarrierView<P, O>,
    g: WriteGroup<P, O>,
    s1: BarrierView<P, O>,
    x: Result<ExitAction, WriteGroup<P, O>>,
    i: int,
    s2: BarrierView<P, O>,
    c: Option<Writer<P, O>>,
)
    requires
        s0.wf(),
        s0.executing(),
        g.wf(),
        g.spec_handles() == s0.current,
        g.complete(),
        exit_post(s0, g, s1, x),
        0 <= i < g.spec_handles().len(),
        collect_post(s1, g.spec_handles()[i], s2, c),
    ensures
        x is Ok,
        c == Some(g.spec_writers()[i]),
        c->Some_0.spec_output() is Some,
{
    assert(s0.current[i] < s0.slots.len());
    assert(g.spec_writers()[i].spec_output() is Some);
}

/// A writer is handed back once: a second collect of its handle finds nothing.
pub proof fn lemma_collect_once<P, O>(
    s0: BarrierView<P, O>,
    h: usize,
    s1: BarrierView<P, O>,
    c1: Option<Writer<P, O>>,
    s2: BarrierView<P, O>,
    c2: Option<Writer<P, O>>,
)
    requires
        s0.wf(),
        collect_post(s0, h, s1, c1),
        collect_post(s1, h, s2, c2),
    ensures
        c2 is None,
        s2 == s1,
{
}

/// While the barrier is busy, each arrival is appended at the end of the
/// forming group; the group that its leader takes lists the writers in that
/// order.
pub proof fn lemma_arrival_order<P, O>(
    s0: BarrierView<P, O>,
    w: Writer<P, O>,
    s1: BarrierView<P, O>,
    h: usize,
    a: Arrival<P, O>,
)
    requires
        s0.wf(),
        s0.busy,
        enter_post(s0, w, s1, h, a),
    ensures
        s1.forming == s0.forming.push(h),
        s1.slots[h as int] == Slot::Queued(w),
{
    if s0.forming.len() == 0 {
        assert(seq![h] =~= s0.forming.push(h));
    }
}

/// Releasing the executing group always succeeds, whether or not every
/// member has a result, and nobody is left waiting on the barrier's
/// decisions: either no group has formed and the barrier is idle, or the
/// leader elected for the forming group is woken and its `take_group`
/// succeeds at once.
pub proof fn lemma_release_progress<P, O>(
    s0: BarrierView<P, O>,
    g: WriteGroup<P, O>,
    s1: BarrierView<P, O>,
    x: Result<ExitAction, WriteGroup<P, O>>,
    s2: BarrierView<P, O>,
    r: Option<WriteGroup<P, O>>,
)
    requires
        s0.wf(),
        s0.executing(),
        g.wf(),
        g.spec_handles() == s0.current,
        exit_post(s0, g, s1, x),
        s1.forming.len() > 0 ==> take_post(s1, s1.forming[0], s2, r),
    ensures
        x is Ok,
        s0.forming.len() == 0 ==> s1.idle() && !x->Ok_0.wake_leader,
        s0.forming.len() > 0 ==> x->Ok_0.wake_leader && r is Some && s2.executing()
            && s2.current == s0.forming,
{
}

/// A follower waits on the parity of the group that it joined. The release
/// of the group executing before it wakes the other parity; the release of
/// its own group wakes its parity, even when a further leader has been
/// elected meanwhile and the barrier's parity has turned.
pub proof fn lemma_follower_parity<P, O>(
    s0: BarrierView<P, O>,
    w: Writer<P, O>,
    s1: BarrierView<P, O>,
    h: usize,
    a: Arrival<P, O>,
    g0: WriteGroup<P, O>,
    s2: BarrierView<P, O>,
    x0: Result<ExitAction, WriteGroup<P, O>>,
    s3: BarrierView<P, O>,
    r: Option<WriteGroup<P, O>>,
    wn: Writer<P, O>,
    s4: BarrierView<P, O>,
    hn: usize,
    an: Arrival<P, O>,
    g1: WriteGroup<P, O>,
    s5: BarrierView<P, O>,
    x1: Result<ExitAction, WriteGroup<P, O>>,
)
    requires
        s0.wf(),
        s0.forming.len() > 0,
        enter_post(s0, w, s1, h, a),
        s1.wf(),
        s1.executing(),
        g0.wf(),
        g0.spec_handles() == s1.current,
        exit_post(s1, g0, s2, x0),
        s2.wf(),
        take_post(s2, s2.forming[0], s3, r),
        s3.wf(),
        enter_post(s3, wn, s4, hn, an),
        s4.wf(),
        g1.wf(),
        g1.spec_handles() == s4.current,
        exit_post(s4, g1, s5, x1),
    ensures
        a == Arrival::<P, O>::Follow(s0.parity),
        x0 is Ok,
        x0->Ok_0.wake_followers != s0.parity,
        r is Some,
        r->Some_0.spec_handles().contains(h),
        x1 is Ok,
        x1->Ok_0.wake_followers == s0.parity,
{
    let n = s0.forming.len() as int;
    assert(s1.forming[n] == h);
    assert(s3.current[n] == h);
    assert(r->Some_0.spec_handles()[n] == h);
}

/// A group that its leader abandons part-way still releases the barrier: a
/// member left without a result collects its writer without one (never a
/// made-up result), and once the barrier is idle again the next arrival
/// leads a group of its own.
pub proof fn lemma_abandoned_group<P, O>(
    s0: BarrierView<P, O>,
    g: WriteGroup<P, O>,
    s1: BarrierView<P, O>,
    x: Result<ExitAction, WriteGroup<P, O>>,
    i: int,
    s2: BarrierView<P, O>,
    c: Option<Writer<P, O>>,
    w: Writer<P, O>,
    s3: BarrierView<P, O>,
    h: usize,
    a: Arrival<P, O>,
)
    requires
        s0.wf(),
        s0.executing(),
        s0.forming.len() == 0,
        g.wf(),
        g.spec_handles() == s0.current,
        0 <= i < g.spec_handles().len(),
        g.spec_writers()[i].spec_output() is None,
        exit_post(s0, g, s1, x),
        collect_post(s1, g.spec_handles()[i], s2, c),
        enter_post(s2, w, s3, h, a),
    ensures
        x is Ok,
        s1.idle(),
        c is Some,
        c->Some_0.spec_output() is None,
        a is Lead,
{
    assert(s0.current[i] < s0.slots.len());
}

} // verus!
