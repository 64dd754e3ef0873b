use sshpass_rs::signals::{
    signal_actions, ChildSignal, PendingSignals, SignalAction, CTRL_C_BYTE, CTRL_Z_BYTE,
};

fn none() -> PendingSignals {
    PendingSignals {
        sigint: false,
        sigtstp: false,
        sigterm: false,
        sighup: false,
        sigwinch: false,
        sigchld: false,
    }
}

#[test]
fn test_signal_byte_constants() {
    assert_eq!(CTRL_C_BYTE, 0x03);
    assert_eq!(CTRL_Z_BYTE, 0x1a);
}

#[test]
fn no_pending_signals_no_actions() {
    assert!(signal_actions(none()).is_empty());
    let mut only_child = none();
    only_child.sigchld = true;
    assert!(signal_actions(only_child).is_empty());
}

#[test]
fn all_signals_in_order() {
    let all = PendingSignals {
        sigint: true,
        sigtstp: true,
        sigterm: true,
        sighup: true,
        sigwinch: true,
        sigchld: true,
    };
    assert_eq!(
        signal_actions(all),
        vec![
            SignalAction::WriteToPty(0x03),
            SignalAction::WriteToPty(0x1a),
            SignalAction::SignalChild(ChildSignal::Terminate),
            SignalAction::SignalChild(ChildSignal::HangUp),
            SignalAction::PropagateWindowSize,
        ]
    );
}

#[test]
fn window_change_propagates_size() {
    let mut p = none();
    p.sigwinch = true;
    assert_eq!(signal_actions(p), vec![SignalAction::PropagateWindowSize]);
}

#[test]
fn each_signal_has_its_own_action() {
    let mut p = none();
    p.sighup = true;
    assert_eq!(signal_actions(p), vec![SignalAction::SignalChild(ChildSignal::HangUp)]);
    let mut p = none();
    p.sigtstp = true;
    assert_eq!(signal_actions(p), vec![SignalAction::WriteToPty(CTRL_Z_BYTE)]);
}
