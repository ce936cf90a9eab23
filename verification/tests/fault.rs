use aifw_regex::fault::{panic_handler, Halt, RunState};

#[test]
fn a_fault_ends_the_run() {
    assert_eq!(panic_handler(RunState::Running, false), (RunState::Faulted, Halt::Spin));
    assert_eq!(panic_handler(RunState::Running, true), (RunState::Faulted, Halt::Trap));
}

#[test]
fn the_faulted_state_is_never_left() {
    let (state, _) = panic_handler(RunState::Running, false);
    let (state, halt) = panic_handler(state, false);
    assert_eq!(state, RunState::Faulted);
    assert_eq!(halt, Halt::Spin);
    let (state, halt) = panic_handler(state, true);
    assert_eq!(state, RunState::Faulted);
    assert_eq!(halt, Halt::Trap);
}
