use std::cell::Cell;
use std::rc::Rc;

use web_server::Closed;
use web_server::Phase;
use web_server::Scheduler;
use web_server::Take;

/// Runs idle workers in turn, `0, 1, ..`, until every one has exited,
/// running each job it is handed. Returns, per worker, how many jobs it ran.
fn drain<F: FnOnce()>(s: &mut Scheduler<F>) -> Vec<usize> {
    let n = s.worker_count();
    let mut ran = vec![0usize; n];
    while !s.is_shut_down() {
        for w in 0..n {
            if s.phase(w) != Phase::Idle {
                continue;
            }
            match s.take(w) {
                Take::Run(job) => {
                    job();
                    ran[w] += 1;
                    s.finish(w);
                }
                Take::Wait => {}
                Take::Exit => {}
            }
        }
    }
    ran
}

fn counter_job(c: &Rc<Cell<usize>>) -> Box<dyn FnOnce()> {
    let c = Rc::clone(c);
    Box::new(move || c.set(c.get() + 1))
}

#[test]
fn new_pool_has_every_worker_idle() {
    for size in [1usize, 2, 4, 16] {
        let s: Scheduler<u32> = Scheduler::new(size);
        assert_eq!(s.worker_count(), size);
        for w in 0..size {
            assert_eq!(s.phase(w), Phase::Idle);
        }
        assert!(s.is_accepting());
        assert_eq!(s.pending_len(), 0);
        assert!(!s.is_shut_down());
    }
}

#[test]
fn every_job_runs_exactly_once() {
    let count = Rc::new(Cell::new(0usize));
    let mut s: Scheduler<Box<dyn FnOnce()>> = Scheduler::new(4);
    for _ in 0..50 {
        assert!(s.submit(counter_job(&count)).is_ok());
    }
    s.close();
    let ran = drain(&mut s);
    assert_eq!(count.get(), 50);
    assert_eq!(ran.iter().sum::<usize>(), 50);
}

#[test]
fn interleaved_callers_lose_no_job() {
    let count = Rc::new(Cell::new(0usize));
    let mut s: Scheduler<Box<dyn FnOnce()>> = Scheduler::new(4);
    // Eight callers with a hundred jobs each, their submissions interleaved
    // one job at a time, while workers take jobs in between.
    for round in 0..100 {
        for _caller in 0..8 {
            assert!(s.submit(counter_job(&count)).is_ok());
        }
        let w = round % 4;
        if let Take::Run(job) = s.take(w) {
            job();
            s.finish(w);
        }
    }
    s.close();
    drain(&mut s);
    assert_eq!(count.get(), 800);
}

#[test]
fn shutdown_drains_backlog() {
    let count = Rc::new(Cell::new(0usize));
    let mut s: Scheduler<Box<dyn FnOnce()>> = Scheduler::new(4);
    for i in 0..20 {
        if i % 5 == 0 {
            let c = Rc::clone(&count);
            let job: Box<dyn FnOnce()> = Box::new(move || {
                let start = std::time::Instant::now();
                while start.elapsed() < std::time::Duration::from_millis(5) {}
                c.set(c.get() + 1);
            });
            assert!(s.submit(job).is_ok());
        } else {
            assert!(s.submit(counter_job(&count)).is_ok());
        }
    }
    s.close();
    assert_eq!(s.pending_len(), 20);
    // A closed pool still hands out its backlog before telling workers to exit.
    match s.take(0) {
        Take::Run(job) => {
            job();
            s.finish(0);
        }
        _ => panic!("queued job withheld after close"),
    }
    drain(&mut s);
    assert_eq!(count.get(), 20);
    assert_eq!(s.pending_len(), 0);
    assert!(s.is_shut_down());
}

#[test]
fn jobs_delivered_in_submission_order() {
    let mut s: Scheduler<char> = Scheduler::new(2);
    assert!(s.submit('A').is_ok());
    assert!(s.submit('B').is_ok());
    match s.take(1) {
        Take::Run(j) => assert_eq!(j, 'A'),
        _ => panic!("expected a job"),
    }
    match s.take(0) {
        Take::Run(j) => assert_eq!(j, 'B'),
        _ => panic!("expected a job"),
    }
    assert_eq!(s.phase(0), Phase::Busy);
    assert_eq!(s.phase(1), Phase::Busy);
    assert_eq!(s.pending_len(), 0);
}

#[test]
fn all_workers_exit_after_shutdown() {
    let mut s: Scheduler<u32> = Scheduler::new(3);
    assert!(s.submit(7).is_ok());
    s.close();
    assert!(matches!(s.take(2), Take::Run(7)));
    assert!(matches!(s.take(0), Take::Exit));
    assert!(matches!(s.take(1), Take::Exit));
    assert!(!s.is_shut_down());
    s.finish(2);
    assert!(matches!(s.take(2), Take::Exit));
    assert!(s.is_shut_down());
    for w in 0..3 {
        assert_eq!(s.phase(w), Phase::Exited);
    }
}

#[test]
fn single_worker_serializes_jobs() {
    let mut s: Scheduler<u32> = Scheduler::new(1);
    assert!(s.submit(1).is_ok());
    assert!(matches!(s.take(0), Take::Run(1)));
    // The second job is queued while the only worker is busy with the first.
    assert!(s.submit(2).is_ok());
    assert_eq!(s.phase(0), Phase::Busy);
    assert_eq!(s.pending_len(), 1);
    s.finish(0);
    assert!(matches!(s.take(0), Take::Run(2)));
    assert_eq!(s.pending_len(), 0);
}

#[test]
fn idle_worker_waits_on_empty_open_queue() {
    let mut s: Scheduler<u32> = Scheduler::new(2);
    assert!(matches!(s.take(0), Take::Wait));
    assert_eq!(s.phase(0), Phase::Idle);
}

#[test]
fn submit_after_close_returns_job() {
    let mut s: Scheduler<u32> = Scheduler::new(2);
    s.close();
    assert!(!s.is_accepting());
    match s.submit(42) {
        Err(Closed(j)) => assert_eq!(j, 42),
        Ok(()) => panic!("closed pool accepted a job"),
    }
    assert_eq!(s.pending_len(), 0);
}
