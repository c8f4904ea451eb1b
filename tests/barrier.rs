use raft_engine::{Arrival, BarrierState, ExitAction, WriteGroup, Writer};

fn lead<P, O>(a: Arrival<P, O>) -> WriteGroup<P, O> {
    match a {
        Arrival::Lead(g) => g,
        _ => panic!("expected to lead"),
    }
}

fn is_await<P, O>(a: &Arrival<P, O>) -> bool {
    matches!(a, Arrival::AwaitHandoff)
}

fn follow_parity<P, O>(a: &Arrival<P, O>) -> Option<usize> {
    match a {
        Arrival::Follow(p) => Some(*p),
        _ => None,
    }
}

fn fill<P, O: Clone>(g: &mut WriteGroup<P, O>, o: O) {
    for i in 0..g.len() {
        g.set_output(i, o.clone());
    }
}

#[test]
fn test_sequential_groups() {
    let mut barrier: BarrierState<(), u32> = Default::default();
    let mut leaders = 0;
    let mut processed_writers = 0;

    for _ in 0..4 {
        let writer = Writer::new((), false);
        let (h, arrival) = barrier.enter(writer);
        if let Arrival::Lead(mut wg) = arrival {
            leaders += 1;
            for writer in wg.iter_mut().iter_mut() {
                writer.set_output(7);
                processed_writers += 1;
            }
            assert!(barrier.leader_exit(wg).is_ok());
        }
        let writer = barrier.collect(h).unwrap();
        assert_eq!(writer.finish(), 7);
    }

    assert_eq!(processed_writers, 4);
    assert_eq!(leaders, 4);
    assert!(barrier.is_idle());
}

#[test]
fn sequential_results_are_each_callers_own() {
    let mut barrier: BarrierState<u32, u32> = BarrierState::new();
    for k in 0..5u32 {
        let (h, a) = barrier.enter(Writer::new(k, false));
        let mut g = lead(a);
        assert_eq!(g.len(), 1);
        assert_eq!(g.handle(0), h);
        let p = *g.writer(0).get_payload();
        g.set_output(0, p * 10);
        let act = barrier.leader_exit(g).ok().unwrap();
        assert_eq!(act, ExitAction { wake_leader: false, wake_followers: 0 });
        assert!(barrier.is_idle());
        assert_eq!(barrier.collect(h).unwrap().finish(), k * 10);
    }
}

#[test]
fn scenario_handoff_to_elected_leader() {
    let mut barrier: BarrierState<&str, u32> = BarrierState::new();

    // W0 enters an idle barrier and leads at once.
    let (h0, a0) = barrier.enter(Writer::new("w0", false));
    let mut g0 = lead(a0);
    assert!(barrier.is_executing());

    // W1 and W2 arrive while W0's group is open.
    let (h1, a1) = barrier.enter(Writer::new("w1", true));
    assert!(is_await(&a1));
    let (h2, a2) = barrier.enter(Writer::new("w2", false));
    assert_eq!(follow_parity(&a2), Some(1));

    // Nothing resolves before W0 releases.
    assert!(barrier.take_group(h1).is_none());
    assert!(barrier.collect(h2).is_none());

    g0.set_output(0, 100);
    let act = barrier.leader_exit(g0).ok().unwrap();
    assert_eq!(act, ExitAction { wake_leader: true, wake_followers: 0 });
    assert_eq!(barrier.collect(h0).unwrap().finish(), 100);

    // Only the elected leader may take the group.
    assert!(barrier.take_group(h2).is_none());
    let mut g1 = barrier.take_group(h1).unwrap();
    assert_eq!(g1.len(), 2);
    assert_eq!(g1.handle(0), h1);
    assert_eq!(g1.handle(1), h2);
    assert_eq!(*g1.writer(0).get_payload(), "w1");
    assert_eq!(*g1.writer(1).get_payload(), "w2");
    assert!(g1.needs_sync());

    // W2's result is not there until W1 releases.
    assert!(barrier.collect(h2).is_none());
    g1.set_output(0, 1);
    g1.set_output(1, 2);
    let act = barrier.leader_exit(g1).ok().unwrap();
    assert_eq!(act, ExitAction { wake_leader: false, wake_followers: 1 });
    assert!(barrier.is_idle());
    assert_eq!(barrier.collect(h2).unwrap().finish(), 2);
    assert_eq!(barrier.collect(h1).unwrap().finish(), 1);
}

#[test]
fn second_collect_finds_nothing() {
    let mut barrier: BarrierState<(), u32> = BarrierState::new();
    let (h, a) = barrier.enter(Writer::new((), false));
    let mut g = lead(a);
    fill(&mut g, 3);
    assert!(barrier.leader_exit(g).is_ok());
    assert!(barrier.collect(h).is_some());
    assert!(barrier.collect(h).is_none());
    assert!(barrier.collect(h + 100).is_none());
}

#[test]
fn incomplete_group_is_released() {
    let mut barrier: BarrierState<(), u32> = BarrierState::new();
    let (h, a) = barrier.enter(Writer::new((), false));
    let g = lead(a);
    assert!(!g.is_complete());
    let act = barrier.leader_exit(g).ok().unwrap();
    assert_eq!(act, ExitAction { wake_leader: false, wake_followers: 0 });
    assert!(barrier.is_idle());
    let w = barrier.collect(h).unwrap();
    assert!(!w.has_output());
    assert_eq!(w.try_finish(), None);
    // The barrier is usable again.
    let (_, a) = barrier.enter(Writer::new((), false));
    assert!(matches!(a, Arrival::Lead(_)));
}

#[test]
fn abandoned_group_hands_over_and_fails_its_members() {
    let mut barrier: BarrierState<u32, u32> = BarrierState::new();
    let (_, a) = barrier.enter(Writer::new(0, false));
    let mut ga = lead(a);
    let (hb, _) = barrier.enter(Writer::new(1, false));
    let (hc, _) = barrier.enter(Writer::new(2, false));
    fill(&mut ga, 0);
    assert!(barrier.leader_exit(ga).is_ok());
    let mut gb = barrier.take_group(hb).unwrap();
    let (hd, ad) = barrier.enter(Writer::new(3, false));
    assert!(is_await(&ad));
    // B sets its own result, then stops before reaching C.
    gb.set_output(0, 11);
    let act = barrier.leader_exit(gb).ok().unwrap();
    assert_eq!(act, ExitAction { wake_leader: true, wake_followers: 1 });
    assert_eq!(barrier.collect(hb).unwrap().try_finish(), Some(11));
    assert_eq!(barrier.collect(hc).unwrap().try_finish(), None);
    // The next group goes on as usual.
    let mut gd = barrier.take_group(hd).unwrap();
    fill(&mut gd, 4);
    assert!(barrier.leader_exit(gd).is_ok());
    assert!(barrier.is_idle());
    assert_eq!(barrier.collect(hd).unwrap().finish(), 4);
}

#[test]
fn group_after_multi_member_group_is_exactly_next_arrivals() {
    let mut barrier: BarrierState<u32, u32> = BarrierState::new();
    let (_, a) = barrier.enter(Writer::new(0, false));
    let mut ga = lead(a);
    let (h1, _) = barrier.enter(Writer::new(1, false));
    let (_, _) = barrier.enter(Writer::new(2, false));
    fill(&mut ga, 0);
    assert!(barrier.leader_exit(ga).is_ok());
    let mut g1 = barrier.take_group(h1).unwrap();
    // A's successor group has two members; B and C arrive while it runs.
    let (hb, _) = barrier.enter(Writer::new(10, false));
    let (hc, _) = barrier.enter(Writer::new(20, false));
    fill(&mut g1, 1);
    assert!(barrier.leader_exit(g1).is_ok());
    let gb = barrier.take_group(hb).unwrap();
    assert_eq!(gb.len(), 2);
    assert_eq!(gb.handle(0), hb);
    assert_eq!(gb.handle(1), hc);
    assert_eq!(*gb.writer(0).get_payload(), 10);
    assert_eq!(*gb.writer(1).get_payload(), 20);
}

#[test]
fn parity_alternates_between_generations() {
    let mut barrier: BarrierState<u32, u32> = BarrierState::new();
    let (ha, a) = barrier.enter(Writer::new(0, false));
    let mut ga = lead(a);

    let (hb, ab) = barrier.enter(Writer::new(1, false));
    assert!(is_await(&ab));
    let (hc, ac) = barrier.enter(Writer::new(2, false));
    assert_eq!(follow_parity(&ac), Some(1));

    fill(&mut ga, 0);
    let act = barrier.leader_exit(ga).ok().unwrap();
    assert_eq!(act, ExitAction { wake_leader: true, wake_followers: 0 });
    let mut gb = barrier.take_group(hb).unwrap();

    // A new group forms behind B's: its followers wait on the other parity.
    let (hd, ad) = barrier.enter(Writer::new(3, false));
    assert!(is_await(&ad));
    let (he, ae) = barrier.enter(Writer::new(4, false));
    assert_eq!(follow_parity(&ae), Some(0));

    fill(&mut gb, 5);
    let act = barrier.leader_exit(gb).ok().unwrap();
    assert_eq!(act, ExitAction { wake_leader: true, wake_followers: 1 });
    assert_eq!(barrier.collect(hc).unwrap().finish(), 5);

    let mut gd = barrier.take_group(hd).unwrap();
    assert_eq!(gd.len(), 2);
    assert_eq!(gd.handle(1), he);
    fill(&mut gd, 6);
    let act = barrier.leader_exit(gd).ok().unwrap();
    assert_eq!(act, ExitAction { wake_leader: false, wake_followers: 0 });
    assert_eq!(barrier.collect(he).unwrap().finish(), 6);
    assert_eq!(barrier.collect(ha).unwrap().finish(), 0);
}

#[test]
fn late_arrival_joins_group_before_it_is_taken() {
    let mut barrier: BarrierState<u32, u32> = BarrierState::new();
    let (_, a) = barrier.enter(Writer::new(0, false));
    let mut ga = lead(a);
    let (hb, _) = barrier.enter(Writer::new(1, false));
    fill(&mut ga, 0);
    assert!(barrier.leader_exit(ga).is_ok());
    // Handed off but not yet taken: a new arrival still follows B.
    let (hc, ac) = barrier.enter(Writer::new(2, false));
    assert_eq!(follow_parity(&ac), Some(1));
    let gb = barrier.take_group(hb).unwrap();
    assert_eq!(gb.len(), 2);
    assert_eq!(gb.handle(1), hc);
}

#[test]
fn slots_are_reused_after_collect() {
    let mut barrier: BarrierState<(), u32> = BarrierState::new();
    let (h0, a) = barrier.enter(Writer::new((), false));
    let mut g = lead(a);
    fill(&mut g, 1);
    assert!(barrier.leader_exit(g).is_ok());
    barrier.collect(h0).unwrap();
    let (h1, _) = barrier.enter(Writer::new((), false));
    assert_eq!(h1, h0);
}

#[test]
fn group_from_elsewhere_is_refused() {
    let mut one: BarrierState<(), u32> = BarrierState::new();
    let mut two: BarrierState<(), u32> = BarrierState::new();
    let (_, a) = one.enter(Writer::new((), false));
    let mut g = lead(a);
    fill(&mut g, 1);
    assert!(two.leader_exit(g).is_err());
    assert!(two.is_idle());
}

#[test]
fn needs_sync_only_when_a_member_asks() {
    let mut barrier: BarrierState<(), u32> = BarrierState::new();
    let (_, a) = barrier.enter(Writer::new((), false));
    let g = lead(a);
    assert!(!g.needs_sync());
}

#[test]
fn iter_mut_reaches_every_member_in_order() {
    let mut barrier: BarrierState<u32, u32> = BarrierState::new();
    let (_, a) = barrier.enter(Writer::new(0, false));
    let mut ga = lead(a);
    let (hb, _) = barrier.enter(Writer::new(1, false));
    let (hc, _) = barrier.enter(Writer::new(2, true));
    let (hd, _) = barrier.enter(Writer::new(3, false));
    fill(&mut ga, 0);
    assert!(barrier.leader_exit(ga).is_ok());
    let mut gb = barrier.take_group(hb).unwrap();
    let mut seen = vec![];
    for w in gb.iter_mut().iter_mut() {
        seen.push(*w.get_payload());
        let p = *w.get_payload();
        w.set_output(p + 40);
    }
    assert_eq!(seen, vec![1, 2, 3]);
    assert!(gb.is_complete());
    assert!(barrier.leader_exit(gb).is_ok());
    assert_eq!(barrier.collect(hd).unwrap().finish(), 43);
    assert_eq!(barrier.collect(hc).unwrap().finish(), 42);
    assert_eq!(barrier.collect(hb).unwrap().finish(), 41);
}
