use std::cell::{Cell, RefCell};

use vzglyd_sidecar::poll::{poll_loop, sleep, PollAction, PollEvent, PollState};
use vzglyd_sidecar::Error;

#[derive(Debug, Clone, PartialEq, Eq)]
enum Action {
    Push((Vec<u8>, i32)),
    Sleep(u32),
}

struct MockRuntime {
    actions: RefCell<Vec<Action>>,
    statuses: RefCell<Vec<i32>>,
}

impl MockRuntime {
    fn new() -> Self {
        Self::refusing(vec![])
    }

    fn refusing(statuses: Vec<i32>) -> Self {
        Self { actions: RefCell::new(Vec::new()), statuses: RefCell::new(statuses) }
    }

    fn push(&self, data: &[u8]) -> i32 {
        let status = self.statuses.borrow_mut().pop().unwrap_or(0);
        self.actions.borrow_mut().push(Action::Push((data.to_vec(), status)));
        status
    }

    fn sleep(&self, secs: u32) {
        self.actions.borrow_mut().push(Action::Sleep(secs));
    }
}

fn drive_iteration<F>(runtime: &MockRuntime, state: &mut PollState, fetch: &mut F)
where
    F: FnMut() -> Result<Vec<u8>, Error>,
{
    assert!(matches!(state.action(), PollAction::Fetch));
    let fetched = fetch();
    state.drive_once(PollEvent::Fetched(fetched));
    loop {
        let event = match state.action() {
            PollAction::Fetch => return,
            PollAction::Push(payload) => PollEvent::Pushed(runtime.push(payload)),
            PollAction::Sleep(secs) => {
                runtime.sleep(secs);
                PollEvent::Slept
            }
        };
        state.drive_once(event);
    }
}

#[test]
fn fetches_even_when_prefetch_is_hidden() {
    let runtime = MockRuntime::new();
    let fetch_calls = Cell::new(0);
    let mut state = PollState::new(5, 5);
    let mut fetch = || {
        fetch_calls.set(fetch_calls.get() + 1);
        Ok(b"payload".to_vec())
    };

    drive_iteration(&runtime, &mut state, &mut fetch);

    assert_eq!(fetch_calls.get(), 1);
    assert_eq!(
        runtime.actions.into_inner(),
        vec![Action::Push((b"payload".to_vec(), 0)), Action::Sleep(5)]
    );
    assert_eq!(state.backoff(), 5);
}

#[test]
fn successful_fetch_pushes_payload_and_resets_backoff() {
    let runtime = MockRuntime::new();
    let mut state = PollState::new(5, 30);
    let mut fetch = || Ok(b"payload".to_vec());

    drive_iteration(&runtime, &mut state, &mut fetch);

    assert_eq!(
        runtime.actions.into_inner(),
        vec![Action::Push((b"payload".to_vec(), 0)), Action::Sleep(5)]
    );
    assert_eq!(state.backoff(), 5);
}

#[test]
fn failed_fetch_uses_exponential_backoff_capped_at_sixty_seconds() {
    let runtime = MockRuntime::new();
    let mut state = PollState::new(5, 40);
    let mut fetch = || Err(Error::Io("boom".to_string()));

    drive_iteration(&runtime, &mut state, &mut fetch);
    drive_iteration(&runtime, &mut state, &mut fetch);

    assert_eq!(
        runtime.actions.into_inner(),
        vec![Action::Sleep(40), Action::Sleep(60)]
    );
    assert_eq!(state.backoff(), 60);
}

#[test]
fn refused_pushes_are_repeated_after_a_second() {
    let runtime = MockRuntime::refusing(vec![0, -7]);
    let mut state = PollState::new(9, 20);
    drive_iteration(&runtime, &mut state, &mut || Ok(b"p".to_vec()));
    assert_eq!(
        runtime.actions.into_inner(),
        vec![
            Action::Push((b"p".to_vec(), -7)),
            Action::Sleep(1),
            Action::Push((b"p".to_vec(), 0)),
            Action::Sleep(9),
        ]
    );
    assert_eq!(state.backoff(), 9);
}

#[test]
fn a_payload_is_given_up_after_three_refusals() {
    let runtime = MockRuntime::refusing(vec![1, 1, 1, 1]);
    let mut state = PollState::new(9, 20);
    drive_iteration(&runtime, &mut state, &mut || Ok(b"p".to_vec()));
    let refused = Action::Push((b"p".to_vec(), 1));
    assert_eq!(
        runtime.actions.into_inner(),
        vec![
            refused.clone(),
            Action::Sleep(1),
            refused.clone(),
            Action::Sleep(1),
            refused,
            Action::Sleep(1),
            Action::Sleep(9),
        ]
    );
    assert_eq!(state.backoff(), 9);
}

#[test]
fn failures_double_the_backoff_of_the_interval() {
    let slept = |interval: u32, failures: usize| {
        let runtime = MockRuntime::new();
        let mut state = poll_loop(interval);
        for _ in 0..failures {
            drive_iteration(&runtime, &mut state, &mut || Err(Error::Timeout));
        }
        runtime.actions.into_inner()
    };
    let sleeps_of = |secs: &[u32]| secs.iter().map(|s| Action::Sleep(*s)).collect::<Vec<_>>();
    assert_eq!(slept(7, 6), sleeps_of(&[7, 14, 28, 56, 60, 60]));
    assert_eq!(slept(0, 3), sleeps_of(&[1, 2, 4]));
    assert_eq!(slept(30, 3), sleeps_of(&[30, 60, 60]));
    assert_eq!(slept(300, 3), sleeps_of(&[60, 60, 60]));
    assert_eq!(slept(u32::MAX, 2), sleeps_of(&[60, 60]));
}

#[test]
fn events_that_answer_nothing_change_nothing() {
    let mut state = PollState::new(3, 4);
    state.drive_once(PollEvent::Slept);
    state.drive_once(PollEvent::Pushed(0));
    assert!(matches!(state.action(), PollAction::Fetch));
    assert_eq!(state.backoff(), 4);
}

#[test]
fn sleeps_are_announced_and_can_be_skipped() {
    let done = |secs: u32, skip: i32| {
        let calls = RefCell::new(vec![]);
        sleep(
            secs,
            |millis| {
                calls.borrow_mut().push(("announce", millis));
                skip
            },
            |secs| calls.borrow_mut().push(("sleep", i64::from(secs))),
        );
        calls.into_inner()
    };
    assert_eq!(done(0, 0), vec![("announce", 0), ("sleep", 0)]);
    assert_eq!(
        done(u32::MAX, 0),
        vec![("announce", 4_294_967_295_000), ("sleep", 4_294_967_295)]
    );
    assert_eq!(done(5, 1), vec![("announce", 5000)]);
    assert_eq!(done(5, -1), vec![("announce", 5000)]);
}
