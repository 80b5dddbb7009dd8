use filetests::timers;
use filetests::{
    add_to_current, default_workers, fault_message, job_result, take_current, worker_count,
    JobOutcome, Pass,
    Poll, Reply, Scheduler, Timing, NUM_PASSES,
};

fn take(s: &mut Scheduler, worker: usize) -> (usize, String, usize) {
    match s.next_job(worker) {
        Poll::Run(req, Reply::Starting { jobid, thread_num }) => {
            assert_eq!(jobid, req.jobid);
            (jobid, req.path, thread_num)
        }
        _ => panic!("expected a job"),
    }
}

fn done(r: Reply) -> (usize, Result<(), String>) {
    match r {
        Reply::Done { jobid, result } => (jobid, result),
        _ => panic!("expected a Done reply"),
    }
}

#[test]
fn two_workers_one_fault() {
    let mut s = Scheduler::new(2);
    s.put(1, String::from("a.test"));
    s.put(2, String::from("b.test"));
    assert_eq!(take(&mut s, 0), (1, String::from("a.test"), 0));
    assert_eq!(take(&mut s, 1), (2, String::from("b.test"), 1));
    assert_eq!(done(s.finish_job(0, JobOutcome::Finished(Ok(())))), (1, Ok(())));
    let faulted = JobOutcome::Faulted(Some(String::from("bad input")));
    assert_eq!(
        done(s.finish_job(1, faulted)),
        (2, Err(String::from("panicked in worker #1: bad input")))
    );
    s.shutdown();
    assert!(matches!(s.next_job(0), Poll::Exit));
    assert!(matches!(s.next_job(1), Poll::Exit));
}

#[test]
fn joined_timing_holds_only_exercised_passes() {
    // Worker 0 runs "a.test" to the end; worker 1 faults in the middle of "b.test".
    let mut w0 = Timing::new();
    let file = timers::process_file(&mut w0, 0);
    let parse = timers::parse_text(&mut w0, 10);
    w0.end_pass(parse, 30);
    w0.end_pass(file, 50);
    let mut w1 = Timing::new();
    let _file = timers::process_file(&mut w1, 0);
    let _verify = timers::verify_ir(&mut w1, 5);
    w1.end_all(25);

    let mut caller = Timing::new();
    add_to_current(&mut caller, &take_current(&mut w0));
    add_to_current(&mut caller, &take_current(&mut w1));
    let t = take_current(&mut caller);
    assert_eq!(t.get(Pass::process_file).total, 75);
    assert_eq!(t.get(Pass::process_file).child, 40);
    assert_eq!(t.get(Pass::parse_text).total, 20);
    assert_eq!(t.get(Pass::verify_ir).total, 20);
    let exercised = [Pass::process_file, Pass::parse_text, Pass::verify_ir];
    let mut nonzero = 0;
    for i in 0..NUM_PASSES {
        if !filetests::description_of(i).is_empty() && t.render().contains(filetests::description_of(i)) {
            nonzero += 1;
        }
    }
    assert_eq!(nonzero, exercised.len());
}

#[test]
fn worker_goes_on_after_a_fault() {
    let mut s = Scheduler::new(1);
    s.put(7, String::from("x.test"));
    s.put(8, String::from("y.test"));
    take(&mut s, 0);
    assert_eq!(
        done(s.finish_job(0, JobOutcome::Faulted(None))),
        (7, Err(String::from("panicked in worker #0")))
    );
    assert!(s.is_idle(0));
    assert_eq!(take(&mut s, 0), (8, String::from("y.test"), 0));
    assert_eq!(
        done(s.finish_job(0, JobOutcome::Finished(Err(String::from("mismatch"))))),
        (8, Err(String::from("mismatch")))
    );
}

#[test]
fn no_submission_after_shutdown() {
    let mut s = Scheduler::new(1);
    assert!(s.is_accepting());
    s.put(3, String::from("c.test"));
    s.shutdown();
    assert!(!s.is_accepting());
    assert_eq!(take(&mut s, 0), (3, String::from("c.test"), 0));
    done(s.finish_job(0, JobOutcome::Finished(Ok(()))));
    assert!(matches!(s.next_job(0), Poll::Exit));
}

#[test]
fn queued_jobs_drain_after_shutdown_in_order() {
    let mut s = Scheduler::new(3);
    for id in 0..5 {
        s.put(id, format!("t{}.test", id));
    }
    s.shutdown();
    let mut starts = Vec::new();
    let mut dones = Vec::new();
    loop {
        let mut progressed = false;
        for w in 0..3 {
            if let Poll::Run(req, Reply::Starting { jobid, thread_num }) = s.next_job(w) {
                assert_eq!(thread_num, w);
                assert_eq!(req.path, format!("t{}.test", jobid));
                starts.push(jobid);
                progressed = true;
            }
        }
        for w in 0..3 {
            if !s.is_idle(w) {
                dones.push(done(s.finish_job(w, JobOutcome::Finished(Ok(())))).0);
            }
        }
        if !progressed {
            break;
        }
    }
    assert_eq!(starts, vec![0, 1, 2, 3, 4]);
    assert_eq!(dones.len(), 5);
    let mut sorted = dones.clone();
    sorted.sort();
    assert_eq!(sorted, vec![0, 1, 2, 3, 4]);
}

#[test]
fn idle_worker_waits_while_accepting() {
    let mut s = Scheduler::new(2);
    assert!(matches!(s.next_job(1), Poll::Wait));
    assert_eq!(s.workers(), 2);
}

#[test]
fn fault_messages() {
    assert_eq!(fault_message(12, None), "panicked in worker #12");
    assert_eq!(fault_message(0, Some(String::from("oops"))), "panicked in worker #0: oops");
    assert_eq!(job_result(4, JobOutcome::Finished(Ok(()))), Ok(()));
    assert_eq!(
        job_result(4, JobOutcome::Faulted(Some(String::from("boom")))),
        Err(String::from("panicked in worker #4: boom"))
    );
}

#[test]
fn default_pool_has_workers() {
    assert!(default_workers() >= 1);
    let s = Scheduler::with_default_workers();
    assert_eq!(s.workers(), default_workers());
    assert!(s.is_idle(0));
}

#[test]
fn worker_count_is_one_per_cpu() {
    assert_eq!(worker_count(0), 1);
    assert_eq!(worker_count(1), 1);
    assert_eq!(worker_count(8), 8);
}
