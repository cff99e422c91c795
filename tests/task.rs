use futures::future::Aborted;

use utils::task::{CompletionCell, JoinError, Slot, TaskOutcome};
use utils::time::Instant;
use utils::timer::{TimerKey, TimerWheel};

#[test]
fn completed_task_yields_value_once() {
    let mut cell: CompletionCell<u32, &str> = CompletionCell::new();
    assert!(!cell.is_finished());
    assert_eq!(cell.poll("first"), None);
    assert_eq!(cell.settle(Ok(7)), Some("first"));
    assert!(cell.is_finished());
    assert_eq!(cell.poll("second"), Some(Ok(7)));
    assert_eq!(cell.poll("third"), None);
    assert_eq!(cell.poll("fourth"), None);
    assert!(cell.is_finished());
}

#[test]
fn result_published_before_first_poll_is_seen() {
    let mut cell: CompletionCell<&str, u8> = CompletionCell::new();
    assert_eq!(cell.publish(TaskOutcome::Completed("done")), None);
    assert_eq!(cell.poll(1), Some(Ok("done")));
}

#[test]
fn observed_abort_yields_aborted() {
    let mut cell: CompletionCell<u32, u8> = CompletionCell::new();
    assert_eq!(cell.poll(1), None);
    assert_eq!(cell.settle(Err(Aborted)), Some(1));
    assert!(cell.is_finished());
    assert_eq!(cell.poll(2), Some(Err(JoinError::Aborted)));
    assert!(cell.is_finished());
}

#[test]
fn teardown_without_poll_yields_aborted() {
    let mut cell: CompletionCell<u32, u8> = CompletionCell::new();
    assert_eq!(cell.teardown(), None);
    assert!(cell.is_finished());
    assert_eq!(cell.poll(1), Some(Err(JoinError::Aborted)));
}

#[test]
fn teardown_wakes_a_waiting_handle() {
    let mut cell: CompletionCell<u32, u8> = CompletionCell::new();
    assert_eq!(cell.poll(9), None);
    assert_eq!(cell.teardown(), Some(9));
    assert_eq!(cell.poll(10), Some(Err(JoinError::Aborted)));
}

#[test]
fn teardown_after_completion_keeps_the_value() {
    let mut cell: CompletionCell<u32, u8> = CompletionCell::new();
    cell.settle(Ok(5));
    assert_eq!(cell.teardown(), None);
    assert_eq!(cell.poll(1), Some(Ok(5)));
    assert_eq!(cell.teardown(), None);
    assert_eq!(cell.poll(1), None);
}

#[test]
fn is_finished_stays_true() {
    let mut cell: CompletionCell<u32, u8> = CompletionCell::new();
    cell.publish(TaskOutcome::Panicked);
    assert!(cell.is_finished());
    assert_eq!(cell.take(), Some(TaskOutcome::Panicked));
    assert!(cell.is_finished());
    assert_eq!(cell.take(), None);
    cell.register_waker(3);
    assert!(cell.is_finished());
    assert_eq!(cell.poll(4), None);
    cell.teardown();
    assert!(cell.is_finished());
}

#[test]
fn register_waker_keeps_only_the_latest() {
    let mut cell: CompletionCell<u32, u8> = CompletionCell::new();
    cell.register_waker(1);
    cell.register_waker(2);
    assert_eq!(cell.publish(TaskOutcome::Completed(0)), Some(2));
}

#[test]
fn outcomes_map_to_results() {
    assert_eq!(TaskOutcome::Completed(4u8).into_result(), Ok(4));
    assert_eq!(TaskOutcome::<u8>::Aborted.into_result(), Err(JoinError::Aborted));
    assert_eq!(TaskOutcome::<u8>::Panicked.into_result(), Err(JoinError::Panicked));
    assert_eq!(TaskOutcome::from_run(Ok::<u8, Aborted>(1)), TaskOutcome::Completed(1));
    assert_eq!(TaskOutcome::<u8>::from_run(Err(Aborted)), TaskOutcome::Aborted);
}

#[test]
fn join_error_from_cancelled() {
    assert_eq!(JoinError::from_cancelled(true), JoinError::Aborted);
    assert_eq!(JoinError::from_cancelled(false), JoinError::Panicked);
}

#[test]
fn slot_starts_empty() {
    let cell: CompletionCell<u8, u8> = CompletionCell::new();
    assert!(!cell.is_finished());
    assert_eq!(Slot::<u8>::Empty, Slot::Empty);
}

/// A cooperative run of three tasks on one thread, driven by a timer wheel:
/// `a` sleeps 100 ms in a loop, `b` sleeps 100 ms and returns, `c` sleeps
/// 500 ms and returns.
struct Sim {
    wheel: TimerWheel,
    now: u64,
    timers: Vec<(TimerKey, usize)>,
    cells: Vec<CompletionCell<String, usize>>,
    aborted: Vec<bool>,
}

const MS: u64 = 1_000_000;

impl Sim {
    fn sleep(&mut self, task: usize, ms: u64) {
        let k = self.wheel.schedule(Instant::from_nanos(self.now + ms * MS));
        self.timers.push((k, task));
    }

    /// Runs the task woken by a timer to its next suspension point.
    fn resume(&mut self, task: usize) {
        if self.aborted[task] {
            self.cells[task].settle(Err(futures::future::Aborted));
            return;
        }
        match task {
            0 => self.sleep(0, 100),
            _ => {
                self.cells[task].settle(Ok("Hello, World".to_string()));
            }
        }
    }

    /// Advances the clock to the next deadline and resumes what is due.
    fn step(&mut self) {
        let next = self.wheel.next_deadline().expect("a timer is pending");
        self.now = next.as_nanos();
        for k in self.wheel.fire_due(next) {
            let pos = self.timers.iter().position(|(t, _)| *t == k).unwrap();
            let (_, task) = self.timers.remove(pos);
            self.resume(task);
        }
    }
}

#[test]
fn three_tasks_with_sleeps_and_abort() {
    let mut sim = Sim {
        wheel: TimerWheel::new(),
        now: 0,
        timers: Vec::new(),
        cells: vec![CompletionCell::new(), CompletionCell::new(), CompletionCell::new()],
        aborted: vec![false, false, false],
    };
    sim.sleep(0, 100);
    sim.sleep(1, 100);
    sim.sleep(2, 500);

    let c = loop {
        if let Some(r) = sim.cells[2].poll(2) {
            break r;
        }
        sim.step();
    };
    assert_eq!(c, Ok("Hello, World".to_string()));
    assert_eq!(sim.now, 500 * MS);

    assert!(sim.cells[1].is_finished());
    assert!(!sim.cells[0].is_finished());

    sim.aborted[0] = true;
    assert_eq!(sim.cells[1].poll(1), Some(Ok("Hello, World".to_string())));

    sim.step();
    assert!(sim.cells[0].is_finished());
    assert_eq!(sim.cells[0].poll(0), Some(Err(JoinError::Aborted)));
}
