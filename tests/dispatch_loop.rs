use job_worker::dispatch::{decide, Action, Dispatcher, PacingConfig};
use job_worker::gate::DedupGate;
use job_worker::source::{JobPoller, BATCH_SIZE, ID_HIGH, ID_LOW};
use std::sync::Arc;

fn dispatched_ids(actions: &[Action]) -> Vec<u32> {
    actions
        .iter()
        .filter_map(|a| match a {
            Action::Dispatch { id, .. } => Some(*id),
            _ => None,
        })
        .collect()
}

#[test]
fn repeated_id_dispatched_once_in_order() {
    let poller = JobPoller::from_jobs(vec![5, 7, 5, 9]);
    let mut d = Dispatcher::new(poller, PacingConfig::standard());
    let actions = d.run_for(4);
    assert_eq!(
        actions,
        vec![
            Action::Dispatch { id: 5, pauses: 4, pause_ms: 500 },
            Action::Dispatch { id: 7, pauses: 4, pause_ms: 500 },
            Action::Skip { id: 5 },
            Action::Dispatch { id: 9, pauses: 4, pause_ms: 500 },
        ]
    );
    assert_eq!(dispatched_ids(&actions), vec![5, 7, 9]);
}

#[test]
fn exhausted_source_backs_off_forever() {
    let poller = JobPoller::from_jobs(vec![]);
    let mut d = Dispatcher::new(poller, PacingConfig::standard());
    let actions = d.run_for(50);
    assert_eq!(actions.len(), 50);
    for a in &actions {
        assert_eq!(*a, Action::Backoff { ms: 5000 });
    }
    assert!(dispatched_ids(&actions).is_empty());
}

#[test]
fn exhaustion_after_batch_is_permanent() {
    let mut poller = JobPoller::from_jobs(vec![3]);
    assert_eq!(poller.poll_for_jobs(), Some(3));
    for _ in 0..10 {
        assert_eq!(poller.poll_for_jobs(), None);
    }
    let mut d = Dispatcher::new(JobPoller::from_jobs(vec![3]), PacingConfig::standard());
    assert_eq!(d.step(), Action::Dispatch { id: 3, pauses: 4, pause_ms: 500 });
    for _ in 0..10 {
        assert_eq!(d.step(), Action::Backoff { ms: 5000 });
    }
}

#[test]
fn duplicates_never_dispatched_twice() {
    let jobs = vec![1, 1, 2, 3, 2, 1, 4, 4, 4, 3];
    let mut d = Dispatcher::new(JobPoller::from_jobs(jobs), PacingConfig::standard());
    let actions = d.run_for(15);
    assert_eq!(dispatched_ids(&actions), vec![1, 2, 3, 4]);
    assert_eq!(actions[1], Action::Skip { id: 1 });
    assert_eq!(actions[10], Action::Backoff { ms: 5000 });
}

#[test]
fn skip_carries_no_delay_and_uses_config() {
    let cfg = PacingConfig { pauses: 2, pause_ms: 30, idle_ms: 70 };
    let mut gate = DedupGate::new();
    assert_eq!(
        decide(&mut gate, Some(8), &cfg),
        Action::Dispatch { id: 8, pauses: 2, pause_ms: 30 }
    );
    assert_eq!(decide(&mut gate, Some(8), &cfg), Action::Skip { id: 8 });
    assert_eq!(decide(&mut gate, None, &cfg), Action::Backoff { ms: 70 });
    assert!(gate.contains(8));
    assert!(!gate.contains(9));
}

#[test]
fn gate_admits_once() {
    let mut gate = DedupGate::new();
    assert!(!gate.contains(42));
    assert!(gate.try_admit(42));
    assert!(!gate.try_admit(42));
    assert!(gate.try_admit(43));
    assert!(gate.contains(42));
}

#[test]
fn racing_admissions_one_wins() {
    let rt = tokio::runtime::Builder::new_multi_thread()
        .worker_threads(2)
        .build()
        .unwrap();
    for _ in 0..20 {
        let gate = Arc::new(tokio::sync::Mutex::new(DedupGate::new()));
        let g1 = gate.clone();
        let g2 = gate.clone();
        let h1 = rt.spawn(async move { g1.lock().await.try_admit(42) });
        let h2 = rt.spawn(async move { g2.lock().await.try_admit(42) });
        let r1 = rt.block_on(h1).unwrap();
        let r2 = rt.block_on(h2).unwrap();
        assert!(r1 ^ r2);
    }
}

#[test]
fn random_batch_in_range() {
    let mut poller = JobPoller::new();
    let mut n = 0;
    while let Some(id) = poller.poll_for_jobs() {
        assert!(ID_LOW <= id && id < ID_HIGH);
        n += 1;
    }
    assert_eq!(n, BATCH_SIZE);
    assert_eq!(poller.poll_for_jobs(), None);
}

#[test]
fn standard_pacing_values() {
    let cfg = PacingConfig::standard();
    assert_eq!(cfg, PacingConfig { pauses: 4, pause_ms: 500, idle_ms: 5000 });
}

#[test]
fn offloaded_body_does_not_hold_next_poll() {
    let rt = tokio::runtime::Builder::new_multi_thread()
        .worker_threads(1)
        .build()
        .unwrap();
    let mut d = Dispatcher::new(JobPoller::from_jobs(vec![11, 12]), PacingConfig::standard());
    let (release, wait) = std::sync::mpsc::channel::<()>();
    let first = d.step();
    assert_eq!(first, Action::Dispatch { id: 11, pauses: 4, pause_ms: 500 });
    let body = rt.spawn_blocking(move || {
        wait.recv().unwrap();
        11u32
    });
    // The body is still blocked: polling goes on regardless.
    assert_eq!(d.step(), Action::Dispatch { id: 12, pauses: 4, pause_ms: 500 });
    assert!(!body.is_finished());
    release.send(()).unwrap();
    assert_eq!(rt.block_on(body).unwrap(), 11);
}
