use vstd::prelude::*;

verus! {

/// The byte sent to the PTY when an interrupt (Ctrl+C) arrives.
pub const CTRL_C_BYTE: u8 = 0x03;

/// The byte sent to the PTY when a terminal stop (Ctrl+Z) arrives.
pub const CTRL_Z_BYTE: u8 = 0x1a;

/// The signals that arrived since they were last handled.
#[derive(Debug, Clone, Copy, PartialEq, Eq, Structural)]
pub struct PendingSignals {
    pub sigint: bool,
    pub sigtstp: bool,
    pub sigterm: bool,
    pub sighup: bool,
    pub sigwinch: bool,
    pub sigchld: bool,
}

/// A signal passed on to the child.
#[derive(Debug, Clone, Copy, PartialEq, Eq, Structural)]
pub enum ChildSignal {
    Terminate,
    HangUp,
}

/// What handling a signal does.
#[derive(Debug, Clone, Copy, PartialEq, Eq, Structural)]
pub enum SignalAction {
    /// Write this byte to the PTY.
    WriteToPty(u8),
    /// Send this signal to the child.
    SignalChild(ChildSignal),
    /// Copy the terminal's size to the PTY.
    PropagateWindowSize,
}

/// `a` when `on`, nothing otherwise.
pub open spec fn action_if(on: bool, a: SignalAction) -> Seq<SignalAction> {
    if on {
        seq![a]
    } else {
        Seq::empty()
    }
}

/// The actions for the pending signals, in order: Ctrl+C and Ctrl+Z bytes
/// to the PTY, termination and hang-up passed to the child, then the window
/// size; a child's exit needs no action (it only wakes the loop).
pub open spec fn actions_for(p: PendingSignals) -> Seq<SignalAction> {
    action_if(p.sigint, SignalAction::WriteToPty(CTRL_C_BYTE)) + action_if(
        p.sigtstp,
        SignalAction::WriteToPty(CTRL_Z_BYTE),
    ) + action_if(p.sigterm, SignalAction::SignalChild(ChildSignal::Terminate)) + action_if(
        p.sighup,
        SignalAction::SignalChild(ChildSignal::HangUp),
    ) + action_if(p.sigwinch, SignalAction::PropagateWindowSize)
}

/// The actions for the pending signals, in the order they are carried out.
pub fn signal_actions(p: PendingSignals) -> (r: Vec<SignalAction>)
    ensures
        r@ == actions_for(p),
{
    let mut r: Vec<SignalAction> = Vec::new();
    if p.sigint {
        r.push(SignalAction::WriteToPty(CTRL_C_BYTE));
    }
    if p.sigtstp {
        r.push(SignalAction::WriteToPty(CTRL_Z_BYTE));
    }
    if p.sigterm {
        r.push(SignalAction::SignalChild(ChildSignal::Terminate));
    }
    if p.sighup {
        r.push(SignalAction::SignalChild(ChildSignal::HangUp));
    }
    if p.sigwinch {
        r.push(SignalAction::PropagateWindowSize);
    }
    proof {
        assert(r@ =~= actions_for(p));
    }
    r
}

} // verus!
