use scopehal_fx_bridge::fx3_programmer;
use scopehal_fx_bridge::fx3lafw::{
    discovery_start, discovery_step, DiscoveryAction, DiscoveryEvent, DiscoveryState, Error,
};

/// Drives the machine through a sequence of events, returning every
/// emitted action and the final state.
fn run(events: Vec<DiscoveryEvent>) -> (Vec<DiscoveryAction>, DiscoveryState) {
    let (mut state, first) = discovery_start();
    let mut actions = vec![first];
    for event in events {
        let (next, action) = discovery_step(state, event);
        actions.push(action);
        state = next;
    }
    (actions, state)
}

#[test]
fn programmed_device_skips_programming() {
    // The resident firmware already identifies itself: bring-up performs
    // zero programming transfers.
    let (actions, state) = run(vec![
        DiscoveryEvent::Enumerated { found: true, product_matches: true },
        DiscoveryEvent::Opened { ok: true },
        DiscoveryEvent::VersionRead { bytes_read: 2 },
    ]);
    assert_eq!(state, DiscoveryState::VersionChecked);
    assert!(!actions.contains(&DiscoveryAction::Program));
    assert_eq!(
        actions,
        vec![
            DiscoveryAction::Enumerate,
            DiscoveryAction::Open,
            DiscoveryAction::QueryVersion,
            DiscoveryAction::Stop,
        ]
    );
}

#[test]
fn discovery_twice_programs_only_once() {
    // First run: unprogrammed device gets the firmware.
    let (first_actions, first_state) = run(vec![
        DiscoveryEvent::Enumerated { found: true, product_matches: false },
        DiscoveryEvent::Opened { ok: true },
        DiscoveryEvent::Programmed { result: Ok(()) },
        DiscoveryEvent::ResetDone { ok: true },
        DiscoveryEvent::Enumerated { found: true, product_matches: true },
        DiscoveryEvent::Opened { ok: true },
        DiscoveryEvent::VersionRead { bytes_read: 2 },
    ]);
    assert_eq!(first_state, DiscoveryState::VersionChecked);
    assert_eq!(
        first_actions.iter().filter(|a| **a == DiscoveryAction::Program).count(),
        1
    );

    // Second run: the firmware now identifies itself, so no programming.
    let (second_actions, second_state) = run(vec![
        DiscoveryEvent::Enumerated { found: true, product_matches: true },
        DiscoveryEvent::Opened { ok: true },
        DiscoveryEvent::VersionRead { bytes_read: 2 },
    ]);
    assert_eq!(second_state, DiscoveryState::VersionChecked);
    assert!(!second_actions.contains(&DiscoveryAction::Program));
}

#[test]
fn no_device_is_terminal() {
    let (actions, state) = run(vec![DiscoveryEvent::Enumerated {
        found: false,
        product_matches: false,
    }]);
    assert_eq!(state, DiscoveryState::Failed(Error::NoFx3Device));
    assert_eq!(actions.last(), Some(&DiscoveryAction::Stop));
}

#[test]
fn device_lost_after_programming_is_terminal() {
    let (_, state) = run(vec![
        DiscoveryEvent::Enumerated { found: true, product_matches: false },
        DiscoveryEvent::Opened { ok: true },
        DiscoveryEvent::Programmed { result: Ok(()) },
        DiscoveryEvent::ResetDone { ok: true },
        DiscoveryEvent::Enumerated { found: false, product_matches: false },
    ]);
    assert_eq!(state, DiscoveryState::Failed(Error::NoFx3Device));
}

#[test]
fn programming_failure_is_terminal() {
    let (_, state) = run(vec![
        DiscoveryEvent::Enumerated { found: true, product_matches: false },
        DiscoveryEvent::Opened { ok: true },
        DiscoveryEvent::Programmed {
            result: Err(fx3_programmer::Error::InvalidChecksum),
        },
    ]);
    assert_eq!(
        state,
        DiscoveryState::Failed(Error::Fx3ProgrammerError(
            fx3_programmer::Error::InvalidChecksum
        ))
    );
}

#[test]
fn open_failure_is_terminal() {
    let (_, state) = run(vec![
        DiscoveryEvent::Enumerated { found: true, product_matches: true },
        DiscoveryEvent::Opened { ok: false },
    ]);
    assert_eq!(state, DiscoveryState::Failed(Error::IoError));
}

#[test]
fn short_version_read_is_invalid_response() {
    let (_, state) = run(vec![
        DiscoveryEvent::Enumerated { found: true, product_matches: true },
        DiscoveryEvent::Opened { ok: true },
        DiscoveryEvent::VersionRead { bytes_read: 1 },
    ]);
    assert_eq!(state, DiscoveryState::Failed(Error::InvalidResponse));
}

#[test]
fn reset_failure_is_terminal() {
    let (_, state) = run(vec![
        DiscoveryEvent::Enumerated { found: true, product_matches: false },
        DiscoveryEvent::Opened { ok: true },
        DiscoveryEvent::Programmed { result: Ok(()) },
        DiscoveryEvent::ResetDone { ok: false },
    ]);
    assert_eq!(state, DiscoveryState::Failed(Error::IoError));
}

#[test]
fn transport_error_kind_is_distinct() {
    assert_ne!(Error::UsbTransferError, Error::IoError);
    assert_ne!(Error::UsbTransferError, Error::InvalidResponse);
}
