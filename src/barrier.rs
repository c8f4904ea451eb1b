use vstd::prelude::*;

use crate::writer::Writer;

verus! {

/// What a node slot of the barrier holds. A handle is the index of a slot.
pub enum Slot<P, O> {
    /// Unused; the next arrival may take it.
    Free,
    /// Appended to the group that is forming, not yet handed to its leader.
    Queued(Writer<P, O>),
    /// Out with the leader of the executing group.
    Lent,
    /// Processed by its leader; waits for its owner to collect it.
    Done(Writer<P, O>),
}

impl<P, O> Slot<P, O> {
    pub fn is_free(&self) -> (r: bool)
        ensures
            r == self is Free,
    {
        match self {
            Slot::Free => true,
            _ => false,
        }
    }

    pub fn is_done(&self) -> (r: bool)
        ensures
            r == self is Done,
    {
        match self {
            Slot::Done(_) => true,
            _ => false,
        }
    }
}

/// The members of one group, in arrival order, held by its leader.
pub struct WriteGroup<P, O> {
    handles: Vec<usize>,
    writers: Vec<Writer<P, O>>,
}

impl<P, O> WriteGroup<P, O> {
    /// One writer per handle.
    pub open spec fn wf(&self) -> bool {
        self.spec_handles().len() == self.spec_writers().len()
    }

    /// The members' handles, in arrival order.
    pub closed spec fn spec_handles(&self) -> Seq<usize> {
        self.handles@
    }

    /// The members' writers, in the order of `spec_handles`.
    pub closed spec fn spec_writers(&self) -> Seq<Writer<P, O>> {
        self.writers@
    }

    /// Every member has a result.
    pub open spec fn complete(&self) -> bool {
        forall|i: int|
            0 <= i < self.spec_writers().len() ==> (#[trigger] self.spec_writers()[i]).spec_output() is Some
    }

    /// Number of members.
    pub fn len(&self) -> (r: usize)
        requires
            self.wf(),
        ensures
            r == self.spec_writers().len(),
            r == self.spec_handles().len(),
    {
        self.writers.len()
    }

    /// Handle of the member at position `i`.
    pub fn handle(&self, i: usize) -> (r: usize)
        requires
            i < self.spec_handles().len(),
        ensures
            r == self.spec_handles()[i as int],
    {
        self.handles[i]
    }

    /// The writer at position `i`.
    pub fn writer(&self, i: usize) -> (r: &Writer<P, O>)
        requires
            i < self.spec_writers().len(),
        ensures
            *r == self.spec_writers()[i as int],
    {
        &self.writers[i]
    }

    /// Leaves `output` as the result of the member at position `i`.
    pub fn set_output(&mut self, i: usize, output: O)
        requires
            i < old(self).spec_writers().len(),
        ensures
            final(self).spec_handles() == old(self).spec_handles(),
            final(self).spec_writers().len() == old(self).spec_writers().len(),
            final(self).spec_writers()[i as int].spec_output() == Some(output),
            final(self).spec_writers()[i as int].spec_payload() == old(self).spec_writers()[i as int].spec_payload(),
            final(self).spec_writers()[i as int].spec_sync() == old(self).spec_writers()[i as int].spec_sync(),
            forall|j: int|
                0 <= j < old(self).spec_writers().len() && j != i ==> final(self).spec_writers()[j]
                    == old(self).spec_writers()[j],
    {
        self.writers[i].set_output(output);
    }

    /// The members' writers, in arrival order, for the leader to set each
    /// result. The handles stay as they are: a writer swapped or replaced
    /// here is the one that goes back to that handle on release.
    pub fn iter_mut(&mut self) -> (r: &mut [Writer<P, O>])
        ensures
            r@ == old(self).spec_writers(),
            final(self).spec_writers() == final(r)@,
            final(self).spec_handles() == old(self).spec_handles(),
    {
        self.writers.as_mut_slice()
    }

    /// Whether any member asks for its write to be made durable.
    pub fn needs_sync(&self) -> (r: bool)
        ensures
            r == exists|i: int| 0 <= i < self.spec_writers().len() && (#[trigger] self.spec_writers()[i]).spec_sync(),
    {
        let n = self.writers.len();
        let mut i: usize = 0;
        while i < n
            invariant
                n == self.spec_writers().len(),
                i <= n,
                forall|j: int| 0 <= j < i ==> !(#[trigger] self.spec_writers()[j]).spec_sync(),
            decreases n - i,
        {
            if self.writers[i].is_sync() {
                return true;
            }
            i = i + 1;
        }
        false
    }

    /// Whether every member has a result.
    pub fn is_complete(&self) -> (r: bool)
        ensures
            r == self.complete(),
    {
        let n = self.writers.len();
        let mut i: usize = 0;
        while i < n
            invariant
                n == self.spec_writers().len(),
                i <= n,
                forall|j: int| 0 <= j < i ==> (#[trigger] self.spec_writers()[j]).spec_output() is Some,
            decreases n - i,
        {
            if !self.writers[i].has_output() {
                return false;
            }
            i = i + 1;
        }
        true
    }
}


/// The wake-ups that a finished group asks of its caller.
#[derive(Clone, Copy, Debug, PartialEq, Eq, Structural)]
pub struct ExitAction {
    /// Wake the leader elected for the next group.
    pub wake_leader: bool,
    /// Wake every follower waiting on this parity.
    pub wake_followers: usize,
}

/// What an arriving writer is to do next.
pub enum Arrival<P, O> {
    /// The caller leads a group of its own, which starts at once.
    Lead(WriteGroup<P, O>),
    /// The caller leads the next group: it waits for the hand-off, then
    /// takes the group with `take_group`.
    AwaitHandoff,
    /// The caller follows: it waits on the given parity, then collects its
    /// writer with `collect`.
    Follow(usize),
}

/// The barrier's state as a mathematical value.
pub struct BarrierView<P, O> {
    /// Node slots, indexed by handle.
    pub slots: Seq<Slot<P, O>>,
    /// Handles of the group that is forming, in arrival order; the first is
    /// its elected leader.
    pub forming: Seq<usize>,
    /// Handles of the group that is executing.
    pub current: Seq<usize>,
    /// A group is executing, or has finished and handed over to the next one.
    pub busy: bool,
    /// The executing group has finished and the forming group's leader may
    /// take its group.
    pub handed_off: bool,
    /// Parity of the latest elected group; its followers wait on it.
    pub parity: usize,
    /// Parity that the followers of the executing group waited on.
    pub current_parity: usize,
}

/// No handle occurs twice.
pub open spec fn distinct(s: Seq<usize>) -> bool {
    forall|i: int, j: int| 0 <= i < j < s.len() ==> s[i] != s[j]
}

/// `h` is the lowest free slot, or the length when none is free.
pub open spec fn first_free<P, O>(slots: Seq<Slot<P, O>>, h: int) -> bool {
    &&& 0 <= h <= slots.len()
    &&& h < slots.len() ==> slots[h] is Free
    &&& forall|j: int| 0 <= j < h ==> !(#[trigger] slots[j] is Free)
}

/// `slots` with `s` stored at `h`, growing by one when `h` is the length.
pub open spec fn place<P, O>(slots: Seq<Slot<P, O>>, h: int, s: Slot<P, O>) -> Seq<Slot<P, O>> {
    if h < slots.len() {
        slots.update(h, s)
    } else {
        slots.push(s)
    }
}

/// `slots` with every slot of `hs` marked as lent out.
pub open spec fn lend<P, O>(slots: Seq<Slot<P, O>>, hs: Seq<usize>) -> Seq<Slot<P, O>> {
    Seq::new(slots.len(), |k: int| if hs.contains(k as usize) { Slot::Lent } else { slots[k] })
}

impl<P, O> BarrierView<P, O> {
    pub open spec fn wf(self) -> bool {
        &&& self.parity < 2
        &&& self.current_parity < 2
        &&& self.executing() ==> (self.forming.len() == 0 <==> self.parity == self.current_parity)
        &&& self.handed_off ==> self.busy && self.forming.len() > 0 && self.current.len() == 0
        &&& !self.busy ==> self.forming.len() == 0 && self.current.len() == 0
        &&& distinct(self.forming)
        &&& distinct(self.current)
        &&& forall|i: int|
            0 <= i < self.forming.len() ==> #[trigger] self.forming[i] < self.slots.len()
                && self.slots[self.forming[i] as int] is Queued
        &&& forall|i: int|
            0 <= i < self.current.len() ==> #[trigger] self.current[i] < self.slots.len()
                && self.slots[self.current[i] as int] is Lent
    }

    /// No group is executing or forming: the next arrival leads at once.
    pub open spec fn idle(self) -> bool {
        !self.busy
    }

    /// The group of `current` is out with its leader.
    pub open spec fn executing(self) -> bool {
        self.busy && !self.handed_off
    }
}

/// `enter` of `w` on `pre` gives `post`, handle `h` and arrival `a`.
pub open spec fn enter_post<P, O>(
    pre: BarrierView<P, O>,
    w: Writer<P, O>,
    post: BarrierView<P, O>,
    h: usize,
    a: Arrival<P, O>,
) -> bool {
    &&& first_free(pre.slots, h as int)
    &&& if !pre.busy {
        &&& a is Lead
        &&& a->Lead_0.spec_handles() == seq![h]
        &&& a->Lead_0.spec_writers() == seq![w]
        &&& post == BarrierView {
            slots: place(pre.slots, h as int, Slot::Lent),
            current: seq![h],
            busy: true,
            current_parity: pre.parity,
            ..pre
        }
    } else if pre.forming.len() == 0 {
        &&& a is AwaitHandoff
        &&& post == BarrierView {
            slots: place(pre.slots, h as int, Slot::Queued(w)),
            forming: seq![h],
            parity: (1 - pre.parity) as usize,
            ..pre
        }
    } else {
        &&& a == Arrival::<P, O>::Follow(pre.parity)
        &&& post == BarrierView {
            slots: place(pre.slots, h as int, Slot::Queued(w)),
            forming: pre.forming.push(h),
            ..pre
        }
    }
}

/// `take_group` for handle `h` on `pre` gives `post` and `r`.
pub open spec fn take_post<P, O>(
    pre: BarrierView<P, O>,
    h: usize,
    post: BarrierView<P, O>,
    r: Option<WriteGroup<P, O>>,
) -> bool {
    if pre.handed_off && pre.forming.len() > 0 && pre.forming[0] == h {
        &&& r is Some
        &&& r->Some_0.spec_handles() == pre.forming
        &&& r->Some_0.spec_writers().len() == pre.forming.len()
        &&& forall|i: int|
            0 <= i < pre.forming.len() ==> pre.slots[#[trigger] pre.forming[i] as int] == Slot::Queued(
                r->Some_0.spec_writers()[i],
            )
        &&& post == BarrierView {
            slots: lend(pre.slots, pre.forming),
            forming: Seq::empty(),
            current: pre.forming,
            handed_off: false,
            current_parity: pre.parity,
            ..pre
        }
    } else {
        &&& r is None
        &&& post == pre
    }
}

/// `leader_exit` of `g` on `pre` gives `post` and `r`.
pub open spec fn exit_post<P, O>(
    pre: BarrierView<P, O>,
    g: WriteGroup<P, O>,
    post: BarrierView<P, O>,
    r: Result<ExitAction, WriteGroup<P, O>>,
) -> bool {
    if pre.executing() && g.wf() && g.spec_handles() == pre.current {
        &&& r is Ok
        &&& post.slots.len() == pre.slots.len()
        &&& forall|i: int|
            0 <= i < g.spec_handles().len() ==> post.slots[#[trigger] g.spec_handles()[i] as int]
                == Slot::Done(g.spec_writers()[i])
        &&& forall|k: int|
            0 <= k < pre.slots.len() && !g.spec_handles().contains(k as usize) ==> #[trigger] post.slots[k]
                == pre.slots[k]
        &&& post.forming == pre.forming
        &&& post.current == Seq::<usize>::empty()
        &&& post.parity == pre.parity
        &&& post.current_parity == pre.current_parity
        &&& r->Ok_0.wake_followers == pre.current_parity
        &&& if pre.forming.len() > 0 {
            &&& post.busy && post.handed_off
            &&& r->Ok_0 == ExitAction { wake_leader: true, wake_followers: (1 - pre.parity) as usize }
        } else {
            &&& !post.busy && !post.handed_off
            &&& r->Ok_0 == ExitAction { wake_leader: false, wake_followers: pre.parity }
        }
    } else {
        &&& r == Err::<ExitAction, WriteGroup<P, O>>(g)
        &&& post == pre
    }
}

/// `collect` of handle `h` on `pre` gives `post` and `r`.
pub open spec fn collect_post<P, O>(
    pre: BarrierView<P, O>,
    h: usize,
    post: BarrierView<P, O>,
    r: Option<Writer<P, O>>,
) -> bool {
    if h < pre.slots.len() && pre.slots[h as int] is Done {
        &&& r == Some(pre.slots[h as int]->Done_0)
        &&& post == BarrierView { slots: pre.slots.update(h as int, Slot::Free), ..pre }
    } else {
        &&& r is None
        &&& post == pre
    }
}

/// The coordinator of one log stream: the queue of pending writers, the
/// election of the next leader and the parity of its followers.
pub struct BarrierState<P, O> {
    slots: Vec<Slot<P, O>>,
    forming: Vec<usize>,
    current: Vec<usize>,
    busy: bool,
    handed_off: bool,
    parity: usize,
    current_parity: Ghost<usize>,
}

impl<P, O> View for BarrierState<P, O> {
    type V = BarrierView<P, O>;

    closed spec fn view(&self) -> BarrierView<P, O> {
        BarrierView {
            slots: self.slots@,
            forming: self.forming@,
            current: self.current@,
            busy: self.busy,
            handed_off: self.handed_off,
            parity: self.parity,
            current_parity: self.current_parity@,
        }
    }
}


impl<P, O> Default for BarrierState<P, O> {
    fn default() -> (r: Self)
        ensures
            r@.wf(),
            r@.idle(),
            r@.slots.len() == 0,
            r@.forming.len() == 0,
            r@.current.len() == 0,
            !r@.handed_off,
            r@.parity == 0,
    {
        Self::new()
    }
}

/// Whether two handle lists are equal.
fn same_handles(a: &Vec<usize>, b: &Vec<usize>) -> (r: bool)
    ensures
        r == (a@ == b@),
{
    if a.len() != b.len() {
        return false;
    }
    let n = a.len();
    let mut i: usize = 0;
    while i < n
        invariant
            n == a@.len(),
            n == b@.len(),
            i <= n,
            forall|j: int| 0 <= j < i ==> a@[j] == b@[j],
        decreases n - i,
    {
        if a[i] != b[i] {
            return false;
        }
        i = i + 1;
    }
    assert(a@ =~= b@);
    true
}

impl<P, O> BarrierState<P, O> {
    /// An idle barrier with no slots.
    pub fn new() -> (r: Self)
        ensures
            r@.wf(),
            r@.idle(),
            r@.slots.len() == 0,
            r@.forming.len() == 0,
            r@.current.len() == 0,
            !r@.handed_off,
            r@.parity == 0,
    {
        BarrierState {
            slots: Vec::new(),
            forming: Vec::new(),
            current: Vec::new(),
            busy: false,
            handed_off: false,
            parity: 0,
            current_parity: Ghost(0),
        }
    }

    /// Whether no group is executing or forming.
    pub fn is_idle(&self) -> (r: bool)
        ensures
            r == self@.idle(),
    {
        !self.busy
    }

    /// Whether a group is out with its leader.
    pub fn is_executing(&self) -> (r: bool)
        ensures
            r == self@.executing(),
    {
        self.busy && !self.handed_off
    }

    fn first_free(&self) -> (h: usize)
        ensures
            first_free(self@.slots, h as int),
    {
        let n = self.slots.len();
        let mut i: usize = 0;
        while i < n
            invariant
                n == self.slots@.len(),
                i <= n,
                forall|j: int| 0 <= j < i ==> !(#[trigger] self.slots@[j] is Free),
            decreases n - i,
        {
            if self.slots[i].is_free() {
                return i;
            }
            i = i + 1;
        }
        n
    }

    fn place(&mut self, h: usize, s: Slot<P, O>)
        requires
            h <= old(self).slots@.len(),
        ensures
            final(self)@ == (BarrierView { slots: place(old(self)@.slots, h as int, s), ..old(self)@ }),
    {
        if h < self.slots.len() {
            self.slots.set(h, s);
        } else {
            self.slots.push(s);
        }
    }

    /// A writer arrives. On an idle barrier it leads a group of its own at
    /// once. Otherwise it joins the group that is forming: as its leader when
    /// it is the first to join (the parity turns), else as a follower.
    pub fn enter(&mut self, writer: Writer<P, O>) -> (r: (usize, Arrival<P, O>))
        requires
            old(self)@.wf(),
        ensures
            final(self)@.wf(),
            enter_post(old(self)@, writer, final(self)@, r.0, r.1),
    {
        let ghost pre = self@;
        let h = self.first_free();
        proof {
            assert forall|i: int| 0 <= i < pre.forming.len() implies #[trigger] pre.forming[i] != h by {
                if h < pre.slots.len() {
                    assert(pre.slots[pre.forming[i] as int] is Queued);
                }
            }
            assert forall|i: int| 0 <= i < pre.current.len() implies #[trigger] pre.current[i] != h by {
                if h < pre.slots.len() {
                    assert(pre.slots[pre.current[i] as int] is Lent);
                }
            }
        }
        if !self.busy {
            self.place(h, Slot::Lent);
            self.busy = true;
            self.current_parity = Ghost(self.parity);
            let mut cur: Vec<usize> = Vec::new();
            cur.push(h);
            self.current = cur;
            let mut handles: Vec<usize> = Vec::new();
            handles.push(h);
            let mut writers: Vec<Writer<P, O>> = Vec::new();
            writers.push(writer);
            let g = WriteGroup { handles, writers };
            assert(g.spec_handles() =~= seq![h]);
            assert(g.spec_writers() =~= seq![writer]);
            assert(self@.current =~= seq![h]);
            (h, Arrival::Lead(g))
        } else if self.forming.len() == 0 {
            self.place(h, Slot::Queued(writer));
            self.forming.push(h);
            self.parity = 1 - self.parity;
            assert(self@.forming =~= seq![h]);
            (h, Arrival::AwaitHandoff)
        } else {
            self.place(h, Slot::Queued(writer));
            self.forming.push(h);
            (h, Arrival::Follow(self.parity))
        }
    }

    /// The leader elected for the forming group, with handle `h`, takes its
    /// group once the executing group has handed over: every writer that
    /// joined up to this moment, in arrival order. Before the hand-off, or
    /// for any other handle, nothing changes.
    pub fn take_group(&mut self, h: usize) -> (r: Option<WriteGroup<P, O>>)
        requires
            old(self)@.wf(),
        ensures
            final(self)@.wf(),
            take_post(old(self)@, h, final(self)@, r),
            r matches Some(g) ==> g.wf(),
    {
        if !self.handed_off || self.forming.len() == 0 || self.forming[0] != h {
            return None;
        }
        let ghost pre = self@;
        let n = self.forming.len();
        let mut handles: Vec<usize> = Vec::new();
        let mut cur: Vec<usize> = Vec::new();
        let mut writers: Vec<Writer<P, O>> = Vec::new();
        let mut i: usize = 0;
        while i < n
            invariant
                pre.wf(),
                n == pre.forming.len(),
                self.forming@ == pre.forming,
                self.current@ == pre.current,
                self.busy == pre.busy,
                self.handed_off == pre.handed_off,
                self.parity == pre.parity,
                self.current_parity@ == pre.current_parity,
                i <= n,
                handles@ == pre.forming.subrange(0, i as int),
                cur@ == pre.forming.subrange(0, i as int),
                writers@.len() == i,
                self.slots@.len() == pre.slots.len(),
                forall|j: int|
                    0 <= j < i ==> pre.slots[#[trigger] pre.forming[j] as int] == Slot::Queued(
                        writers@[j],
                    ),
                forall|j: int| 0 <= j < i ==> self.slots@[#[trigger] pre.forming[j] as int] is Lent,
                forall|k: int|
                    0 <= k < pre.slots.len() && !pre.forming.subrange(0, i as int).contains(k as usize)
                        ==> #[trigger] self.slots@[k] == pre.slots[k],
            decreases n - i,
        {
            let k = self.forming[i];
            assert(!pre.forming.subrange(0, i as int).contains(k)) by {
                if pre.forming.subrange(0, i as int).contains(k) {
                    let j = choose|j: int| 0 <= j < i && #[trigger] pre.forming.subrange(0, i as int)[j] == k;
                    assert(pre.forming[j] == pre.forming[i as int]);
                }
            }
            let mut s = Slot::Lent;
            std::mem::swap(&mut self.slots[k], &mut s);
            match s {
                Slot::Queued(w) => {
                    writers.push(w);
                },
                _ => {},
            }
            handles.push(k);
            cur.push(k);
            i = i + 1;
            proof {
                assert(pre.forming.subrange(0, i as int) =~= pre.forming.subrange(0, i - 1).push(k));
                assert forall|k2: int|
                    0 <= k2 < pre.slots.len() && !pre.forming.subrange(0, i as int).contains(
                        k2 as usize,
                    ) implies #[trigger] self.slots@[k2] == pre.slots[k2] by {
                    assert(pre.forming.subrange(0, i as int)[i - 1] == k);
                    if pre.forming.subrange(0, i - 1).contains(k2 as usize) {
                        let j = choose|j: int|
                            0 <= j < i - 1 && #[trigger] pre.forming.subrange(0, i - 1)[j] == k2 as usize;
                        assert(pre.forming.subrange(0, i as int)[j] == k2 as usize);
                    }
                }
            }
        }
        self.forming.clear();
        self.handed_off = false;
        self.current = cur;
        self.current_parity = Ghost(self.parity);
        let g = WriteGroup { handles, writers };
        let m = self.slots.len();
        proof {
            assert(m == pre.slots.len());
            assert(pre.forming.subrange(0, n as int) =~= pre.forming);
            assert forall|k: int| 0 <= k < pre.slots.len() implies self.slots@[k] == lend(
                pre.slots,
                pre.forming,
            )[k] by {
                if pre.forming.contains(k as usize) {
                    let j = choose|j: int| 0 <= j < n && #[trigger] pre.forming[j] == k as usize;
                    assert(self.slots@[pre.forming[j] as int] is Lent);
                }
            }
            assert(self@.slots =~= lend(pre.slots, pre.forming));
            assert(self@.forming =~= Seq::empty());
        }
        Some(g)
    }

    /// The leader of the executing group releases it. Each writer goes back
    /// to its slot as the leader left it, ready to collect; a member left
    /// without a result (its leader stopped before reaching it) is collected
    /// without one, so its owner fails instead of waiting. If a leader has
    /// been elected for the next group, it is handed over to (and the
    /// barrier stays busy); otherwise the barrier becomes idle. The returned
    /// action names the condition variables to wake. A group that is not the
    /// executing one comes back unchanged.
    pub fn leader_exit(&mut self, group: WriteGroup<P, O>) -> (r: Result<ExitAction, WriteGroup<P, O>>)
        requires
            old(self)@.wf(),
        ensures
            final(self)@.wf(),
            exit_post(old(self)@, group, final(self)@, r),
    {
        if !self.busy || self.handed_off || group.handles.len() != group.writers.len()
            || !same_handles(&group.handles, &self.current) {
            return Err(group);
        }
        let ghost pre = self@;
        let ghost ws0 = group.writers@;
        let WriteGroup { handles, mut writers } = group;
        let n = writers.len();
        let mut i: usize = n;
        while i > 0
            invariant
                pre.wf(),
                pre.executing(),
                i <= n,
                n == ws0.len(),
                n == pre.current.len(),
                handles@ == pre.current,
                writers@ == ws0.subrange(0, i as int),
                self.forming@ == pre.forming,
                self.current@ == pre.current,
                self.busy == pre.busy,
                self.handed_off == pre.handed_off,
                self.parity == pre.parity,
                self.current_parity@ == pre.current_parity,
                self.slots@.len() == pre.slots.len(),
                forall|j: int| i <= j < n ==> self.slots@[#[trigger] handles@[j] as int] == Slot::Done(ws0[j]),
                forall|k: int|
                    0 <= k < pre.slots.len() && !handles@.subrange(i as int, n as int).contains(k as usize)
                        ==> #[trigger] self.slots@[k] == pre.slots[k],
            decreases i,
        {
            i = i - 1;
            let w = writers.pop().unwrap();
            let k = handles[i];
            self.slots.set(k, Slot::Done(w));
            proof {
                assert(ws0.subrange(0, i + 1)[i as int] == w);
                assert(writers@ =~= ws0.subrange(0, i as int));
                assert(handles@.subrange(i as int, n as int) =~= seq![k] + handles@.subrange(i + 1, n as int));
                assert forall|j: int| i <= j < n implies self.slots@[#[trigger] handles@[j] as int] == Slot::Done(ws0[j]) by {
                    if j > i {
                        assert(handles@[j] != handles@[i as int]);
                    }
                }
                assert forall|k2: int|
                    0 <= k2 < pre.slots.len() && !handles@.subrange(i as int, n as int).contains(k2 as usize)
                        implies #[trigger] self.slots@[k2] == pre.slots[k2] by {
                    assert(handles@.subrange(i as int, n as int)[0] == k);
                    if handles@.subrange(i + 1, n as int).contains(k2 as usize) {
                        let j = choose|j: int|
                            0 <= j < n - i - 1 && #[trigger] handles@.subrange(i + 1, n as int)[j] == k2 as usize;
                        assert(handles@.subrange(i as int, n as int)[j + 1] == k2 as usize);
                    }
                }
            }
        }
        self.current = Vec::new();
        let m = self.slots.len();
        proof {
            assert(m == pre.slots.len());
            assert(handles@.subrange(0, n as int) =~= handles@);
            assert(self@.current =~= Seq::<usize>::empty());
            assert forall|i2: int| 0 <= i2 < pre.forming.len() implies #[trigger] self@.slots[pre.forming[i2] as int] is Queued by {
                let f = pre.forming[i2];
                if handles@.contains(f) {
                    let j = choose|j: int| 0 <= j < n && #[trigger] handles@[j] == f;
                    assert(pre.slots[pre.current[j] as int] is Lent);
                }
            }
        }
        if self.forming.len() > 0 {
            self.handed_off = true;
            Ok(ExitAction { wake_leader: true, wake_followers: 1 - self.parity })
        } else {
            self.busy = false;
            Ok(ExitAction { wake_leader: false, wake_followers: self.parity })
        }
    }

    /// The owner of handle `h` takes back its writer once the writer's group
    /// has been released; the slot becomes free. Before that, or a second
    /// time, nothing is handed out and nothing changes.
    pub fn collect(&mut self, h: usize) -> (r: Option<Writer<P, O>>)
        requires
            old(self)@.wf(),
        ensures
            final(self)@.wf(),
            collect_post(old(self)@, h, final(self)@, r),
    {
        if h >= self.slots.len() || !self.slots[h].is_done() {
            return None;
        }
        let ghost pre = self@;
        let mut s = Slot::Free;
        std::mem::swap(&mut self.slots[h], &mut s);
        proof {
            assert(self@.slots =~= pre.slots.update(h as int, Slot::Free));
            assert forall|i: int| 0 <= i < pre.forming.len() implies #[trigger] pre.forming[i] != h by {
                assert(pre.slots[pre.forming[i] as int] is Queued);
            }
            assert forall|i: int| 0 <= i < pre.current.len() implies #[trigger] pre.current[i] != h by {
                assert(pre.slots[pre.current[i] as int] is Lent);
            }
        }
        match s {
            Slot::Done(w) => Some(w),
            _ => None,
        }
    }
}

} // verus!
