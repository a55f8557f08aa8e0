use regulator::action::{Append, FlagAction};
use regulator::{Exclusion, Regulator, RegulatorError};

fn appenders() -> Vec<Append> {
    vec![Append { value: 0 }, Append { value: 1 }, Append { value: 2 }]
}

#[test]
fn single_action_runs() {
    let funcs = vec![FlagAction::Clear, FlagAction::Raise];
    let reg: Regulator<bool, u8, FlagAction> = Regulator::new(funcs, Vec::new(), 0b01u8);
    let mut flag = true;
    let r = reg.regulate(&mut flag);
    assert_eq!(r, Ok(()));
    assert_eq!(flag, false);
}

#[test]
fn conflict_blocks_all_actions() {
    let funcs = vec![FlagAction::Clear, FlagAction::Raise];
    let table = vec![(0b01u8, Exclusion::Single(0b10u8))];
    let reg: Regulator<bool, u8, FlagAction> = Regulator::new(funcs, table, 0b11u8);
    let mut flag = true;
    let r = reg.regulate(&mut flag);
    assert_eq!(r, Err(RegulatorError::ConflictDetected));
    assert_eq!(flag, true);
}

#[test]
fn dispatch_runs_in_descending_bit_order() {
    let reg: Regulator<Vec<u8>, u8, Append> = Regulator::new(appenders(), Vec::new(), 0b101u8);
    let mut log: Vec<u8> = Vec::new();
    let r = reg.regulate(&mut log);
    assert_eq!(r, Ok(()));
    assert_eq!(log, vec![2, 0]);
}

#[test]
fn dispatch_runs_every_set_bit() {
    let reg: Regulator<Vec<u8>, u8, Append> = Regulator::new(appenders(), Vec::new(), 0b111u8);
    let mut log: Vec<u8> = Vec::new();
    let r = reg.regulate(&mut log);
    assert_eq!(r, Ok(()));
    assert_eq!(log, vec![2, 1, 0]);
}

#[test]
fn zero_selector_invokes_nothing() {
    let table = vec![
        (0b01u8, Exclusion::Single(0b10u8)),
        (0b10u8, Exclusion::Many(vec![0b01u8, 0b100u8])),
    ];
    let reg: Regulator<Vec<u8>, u8, Append> = Regulator::new(appenders(), table, 0u8);
    let mut log: Vec<u8> = Vec::new();
    let r = reg.regulate(&mut log);
    assert_eq!(r, Ok(()));
    assert!(log.is_empty());
}

#[test]
fn zero_selector_succeeds_without_actions() {
    let reg: Regulator<Vec<u8>, u8, Append> = Regulator::new(Vec::new(), Vec::new(), 0u8);
    let mut log: Vec<u8> = Vec::new();
    let r = reg.regulate(&mut log);
    assert_eq!(r, Ok(()));
    assert!(log.is_empty());
}

#[test]
fn many_targets_are_combined_by_or() {
    let table = vec![(0b001u8, Exclusion::Many(vec![0b010u8, 0b100u8]))];
    let reg: Regulator<Vec<u8>, u8, Append> = Regulator::new(appenders(), table, 0b010u8);
    let mut log: Vec<u8> = Vec::new();
    let r = reg.regulate(&mut log);
    assert_eq!(r, Err(RegulatorError::ConflictDetected));
    assert!(log.is_empty());
}

#[test]
fn unrelated_table_does_not_block_dispatch() {
    let table = vec![(0b001u8, Exclusion::Single(0b010u8))];
    let reg: Regulator<Vec<u8>, u8, Append> = Regulator::new(appenders(), table, 0b100u8);
    let mut log: Vec<u8> = Vec::new();
    let r = reg.regulate(&mut log);
    assert_eq!(r, Ok(()));
    assert_eq!(log, vec![2]);
}

#[test]
fn selector_beyond_action_list_is_reported() {
    let funcs = vec![Append { value: 0 }];
    let reg: Regulator<Vec<u8>, u8, Append> = Regulator::new(funcs, Vec::new(), 0b100u8);
    let mut log: Vec<u8> = Vec::new();
    let r = reg.regulate(&mut log);
    assert_eq!(r, Err(RegulatorError::SelectorOutOfBounds));
    assert!(log.is_empty());
}

#[test]
fn conflict_is_checked_before_bounds() {
    let funcs = vec![Append { value: 0 }];
    let table = vec![(0b100u8, Exclusion::Single(0u8))];
    let reg: Regulator<Vec<u8>, u8, Append> = Regulator::new(funcs, table, 0b100u8);
    let mut log: Vec<u8> = Vec::new();
    let r = reg.regulate(&mut log);
    assert_eq!(r, Err(RegulatorError::ConflictDetected));
    assert!(log.is_empty());
}

#[test]
fn regulate_replays_identically() {
    let reg: Regulator<Vec<u8>, u8, Append> = Regulator::new(appenders(), Vec::new(), 0b110u8);
    let mut first: Vec<u8> = Vec::new();
    let mut second: Vec<u8> = Vec::new();
    let r1 = reg.regulate(&mut first);
    let r2 = reg.regulate(&mut second);
    assert_eq!(r1, Ok(()));
    assert_eq!(r2, Ok(()));
    assert_eq!(first, vec![2, 1]);
    assert_eq!(first, second);
}

#[test]
fn of_actions_has_no_conflicts() {
    let reg: Regulator<bool, u8, FlagAction> =
        Regulator::of_actions(0b10u8, vec![FlagAction::Clear, FlagAction::Raise]);
    let mut flag = false;
    let r = reg.regulate(&mut flag);
    assert_eq!(r, Ok(()));
    assert_eq!(flag, true);
}

#[test]
fn error_messages() {
    assert_eq!(RegulatorError::ConflictDetected.message(), "conflict detected");
    assert_eq!(
        RegulatorError::SelectorOutOfBounds.message(),
        "selector out of bounds"
    );
}
