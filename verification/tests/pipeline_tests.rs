use nix_cache_upload_daemon::control::{ControlAction, ControlLoop, Event};
use nix_cache_upload_daemon::gate::AdmissionGate;
use nix_cache_upload_daemon::guard::{CompletionGuard, GuardPoll};
use nix_cache_upload_daemon::pipeline::Pipeline;
use nix_cache_upload_daemon::pipeline::WorkOrder;
use nix_cache_upload_daemon::run;

fn s(x: &str) -> String {
    x.to_string()
}

#[test]
fn mock() {
    let num_signers: usize = 10;
    let num_uploaders: usize = 2;

    let mut events: Vec<Event> = Vec::new();
    let mut outcomes: Vec<Option<Vec<String>>> = Vec::new();
    for ix in 0..10usize {
        let item = format!("input ix {ix}");
        events.push(Event::Arrived(item.clone()));
        outcomes.push(Some(vec![item]));
    }
    events.push(Event::ProducerDone);
    events.push(Event::ChannelClosed);

    let p = run(num_signers, num_uploaders, events, outcomes);

    assert_eq!(p.signs.len(), 10);
    assert_eq!(p.uploads.len(), 10);
    for ix in 0..10usize {
        let item = format!("input ix {ix}");
        assert_eq!(p.signs[ix], item);
        assert_eq!(p.uploads[ix], vec![item]);
    }
    assert!(p.is_drained());
}

#[test]
fn five_items_capacity_one() {
    let mut events: Vec<Event> = Vec::new();
    let mut outcomes: Vec<Option<Vec<String>>> = Vec::new();
    let names = ["one", "two", "three", "four", "five"];
    for name in names {
        events.push(Event::Arrived(s(name)));
        outcomes.push(Some(vec![s(name)]));
    }
    events.push(Event::ChannelClosed);

    let p = run(1, 1, events, outcomes);

    assert_eq!(p.signs.len(), 5);
    assert_eq!(p.uploads.len(), 5);
    for (ix, name) in names.iter().enumerate() {
        assert_eq!(p.signs[ix], s(name));
        assert_eq!(p.uploads[ix], vec![s(name)]);
    }
    assert!(p.is_drained());
    assert_eq!(p.sign_gate.outstanding, 0);
    assert_eq!(p.upload_gate.outstanding, 0);
}

#[test]
fn stop_before_any_item() {
    let events = vec![Event::StopResolved];
    let outcomes: Vec<Option<Vec<String>>> = Vec::new();

    let p = run(4, 64, events, outcomes);

    assert_eq!(p.tasks.len(), 0);
    assert!(p.signs.is_empty());
    assert!(p.uploads.is_empty());
    assert!(p.is_drained());
}

#[test]
fn skipped_second_item() {
    let events = vec![
        Event::Arrived(s("first")),
        Event::Arrived(s("second")),
        Event::Arrived(s("third")),
        Event::ChannelClosed,
    ];
    let outcomes = vec![Some(vec![s("first")]), None, Some(vec![s("third")])];

    let p = run(2, 2, events, outcomes);

    assert_eq!(p.signs, vec![s("first"), s("second"), s("third")]);
    assert_eq!(p.uploads, vec![vec![s("first")], vec![s("third")]]);
    assert!(p.is_drained());
}

#[test]
fn closure_without_stop() {
    let events = vec![
        Event::Arrived(s("a")),
        Event::Arrived(s("b")),
        Event::ProducerDone,
        Event::ChannelClosed,
    ];
    let outcomes = vec![Some(vec![s("a")]), None];

    let p = run(3, 3, events, outcomes);

    assert_eq!(p.signs, vec![s("a"), s("b")]);
    assert_eq!(p.uploads, vec![vec![s("a")]]);
    assert!(p.is_drained());
    assert_eq!(p.sign_gate.outstanding, 0);
    assert_eq!(p.upload_gate.outstanding, 0);
}

#[test]
fn stop_discards_queued_items() {
    let events = vec![
        Event::Arrived(s("kept")),
        Event::StopResolved,
        Event::Arrived(s("ignored")),
    ];
    let outcomes = vec![Some(vec![s("kept")])];

    let p = run(1, 1, events, outcomes);

    assert_eq!(p.signs, vec![s("kept")]);
    assert_eq!(p.uploads, vec![vec![s("kept")]]);
    assert_eq!(p.tasks.len(), 1);
    assert!(p.is_drained());
}

#[test]
fn producer_done_keeps_admitting() {
    let events = vec![
        Event::ProducerDone,
        Event::Arrived(s("late")),
        Event::ChannelClosed,
    ];
    let outcomes = vec![None];

    let p = run(1, 1, events, outcomes);

    assert_eq!(p.signs, vec![s("late")]);
    assert!(p.uploads.is_empty());
    assert!(p.is_drained());
}

#[test]
fn repeated_producer_completion_is_harmless() {
    let events = vec![
        Event::ProducerDone,
        Event::ProducerDone,
        Event::Arrived(s("x")),
        Event::ChannelClosed,
    ];
    let outcomes = vec![None];

    let p = run(1, 1, events, outcomes);

    assert_eq!(p.signs, vec![s("x")]);
    assert!(p.uploads.is_empty());
    assert!(p.is_drained());
}

#[test]
fn concurrency_never_exceeds_capacity() {
    let mut p = Pipeline::new(2, 1);
    p.spawn(WorkOrder { item: s("a"), sign_result: Some(vec![s("a")]) });
    p.spawn(WorkOrder { item: s("b"), sign_result: Some(vec![s("b")]) });
    p.spawn(WorkOrder { item: s("c"), sign_result: Some(vec![s("c")]) });

    // Two tasks take the two sign permits; the third must wait.
    assert!(p.step_task(0));
    assert!(p.step_task(1));
    assert_eq!(p.sign_gate.outstanding, 2);
    assert!(!p.step_task(2));
    assert_eq!(p.sign_gate.outstanding, 2);

    // The first sign completes; its permit frees the third task.
    assert!(p.step_task(0));
    assert_eq!(p.signs, vec![s("a")]);
    assert_eq!(p.sign_gate.outstanding, 1);
    assert!(p.step_task(2));
    assert_eq!(p.sign_gate.outstanding, 2);

    // The single upload permit serializes the uploads.
    assert!(p.step_task(0));
    assert_eq!(p.upload_gate.outstanding, 1);
    assert!(p.step_task(1));
    assert!(!p.step_task(1));
    assert_eq!(p.upload_gate.outstanding, 1);

    assert!(p.step_task(0));
    assert_eq!(p.uploads, vec![vec![s("a")]]);
    assert_eq!(p.upload_gate.outstanding, 0);

    assert!(p.step_task(1));
    assert!(p.step_task(2));
    assert_eq!(p.signs, vec![s("a"), s("b"), s("c")]);
    assert!(p.step_task(1));
    assert!(p.step_task(2));
    assert!(p.step_task(2));
    assert_eq!(p.uploads, vec![vec![s("a")], vec![s("b")], vec![s("c")]]);
    assert!(p.is_drained());
    assert_eq!(p.sign_gate.outstanding, 0);
    assert_eq!(p.upload_gate.outstanding, 0);
}

#[test]
fn guard_reports_ready_exactly_once() {
    let mut g = CompletionGuard::new();
    assert!(matches!(g.poll(false), GuardPoll::Pending));
    assert!(matches!(g.poll(true), GuardPoll::Ready));
    assert!(matches!(g.poll(true), GuardPoll::Pending));
    assert!(matches!(g.poll(false), GuardPoll::Pending));
}

#[test]
fn gate_bounds_permits() {
    let mut g = AdmissionGate::new(2);
    assert!(g.try_acquire());
    assert!(g.try_acquire());
    assert!(!g.try_acquire());
    assert_eq!(g.outstanding, 2);
    g.release();
    assert!(g.try_acquire());
    assert_eq!(g.outstanding, 2);
}

#[test]
fn control_loop_decisions() {
    let mut cl = ControlLoop::new();
    match cl.step(Event::Arrived(s("x"))) {
        ControlAction::Admit(item) => assert_eq!(item, s("x")),
        _ => panic!("an arrived item must be admitted"),
    }
    match cl.step(Event::ProducerDone) {
        ControlAction::Noted => {}
        _ => panic!("producer completion must not end the loop"),
    }
    match cl.step(Event::ChannelClosed) {
        ControlAction::Exit => {}
        _ => panic!("queue closure must end the loop"),
    }
}

#[test]
fn stop_signal_ends_loop() {
    let mut cl = ControlLoop::new();
    match cl.step(Event::StopResolved) {
        ControlAction::Exit => {}
        _ => panic!("the stop signal must end the loop"),
    }
}
