//! Downlink call state machine of the base station's call control.
//!
//! The machine decides; the caller performs what it decides: each handler returns the
//! actions to take (PDUs to send, the circuit to signal, a message to log).
use vstd::prelude::*;
use std::collections::VecDeque;

verus! {

/// States of a downlink call. A call comes from a local MS that opens it with U-SETUP,
/// or from a remote, networked call coming in from the call router.
#[derive(Debug, Clone, Copy, PartialEq, Eq, Structural)]
pub enum DlCallState {
    /// Call is created but setup messages have not yet been sent
    Init,
    /// Call is active; traffic is sent downlink, uplink, or both
    CallActive,
    /// Call still exists but transmission has ceased
    TxCeased,
    /// Call has been disconnected or released
    Disconnected,
}

/// Downlink call control PDUs.
#[derive(Debug, Clone, PartialEq, Eq, Structural)]
pub enum DlCallPdu {
    /// Response to U-SETUP: the call is proceeding and the called party has been alerted.
    DAlert,
    /// Response to U-SETUP: acknowledgement of the call set-up request.
    DCallProceeding,
    /// Response to U-CALL RESTORE: the call has been restored after a temporary break.
    DCallRestore,
    /// Response to U-SETUP: order to the calling MS to through-connect.
    DConnect,
    /// Response to U-CONNECT: order to the called MS to through-connect.
    DConnectAck,
    /// Disconnect request from the infrastructure; U-RELEASE expected.
    DDisconnect,
    /// General information to the MS.
    DInfo,
    /// The connection has been released.
    DRelease,
    /// Call set-up to the called MS; U-ALERT or U-CONNECT expected.
    DSetup,
    /// Response to U-TX CEASED: a transmission has ceased.
    DTxCeased,
    /// The interruption of the call has ceased.
    DTxContinue,
    /// Response to U-TX DEMAND: permission to transmit granted, rejected or queued.
    DTxGranted,
    /// A permission to transmit has been withdrawn.
    DTxInterrupt,
    /// The call is being interrupted.
    DTxWait,
}

/// Uplink PDUs that can come in during a downlink call.
#[derive(Debug, Clone, Copy, PartialEq, Eq, Structural)]
pub enum UlCallPdu {
    /// Response to D-SETUP: the called user has been alerted.
    UAlert,
    /// Request to restore a call after a temporary break; D-CALL RESTORE expected.
    UCallRestore,
    /// Response to D-SETUP: the called MS is ready for through-connection.
    UConnect,
    /// Request to disconnect a call; D-DISCONNECT or D-RELEASE expected.
    UDisconnect,
    /// General information from the MS.
    UInfo,
    /// Response to D-DISCONNECT: acknowledgement of the disconnection.
    URelease,
    /// Call set-up request; D-CALL PROCEEDING, D-ALERT or D-CONNECT expected.
    USetup,
    /// A transmission has ceased; D-TX CEASED, D-TX GRANTED or D-TX WAIT expected.
    UTxCeased,
    /// A transmission is requested; D-TX GRANTED expected.
    UTxDemand,
}

/// Events from the remote side of a networked call.
#[derive(Debug, Clone, Copy, PartialEq, Eq, Structural)]
pub enum RemoteEvent {
    NewCall,
    CallActive,
    TxCeased,
}

/// What the call control decided to do with an uplink PDU.
#[derive(Debug, Clone, Copy, PartialEq, Eq, Structural)]
pub enum PduDisposition {
    /// The PDU is not valid in this state or for this kind of call: it is logged and dropped.
    Discarded,
    /// The PDU is valid but its handling is not implemented yet: it is logged.
    NotImplemented,
    /// A U-SETUP was handed to the set-up handler, which did not accept it.
    SetupNotAccepted,
    /// A U-SETUP was accepted by the set-up handler and the call became active.
    SetupAccepted,
}

/// An action decided by the downlink call state machine.
#[derive(Debug, Clone, Copy, PartialEq, Eq, Structural)]
pub enum CallAction {
    /// Send D-SETUP to the given SSI.
    SendDSetup(u32),
    /// Signal the UMAC to allocate a downlink circuit.
    SignalUmacDlCircuit,
    /// Send D-CALL PROCEEDING to the given ISSI.
    SendDCallProceeding(u32),
    /// Send D-TX CEASED.
    SendDTxCeased,
    /// Send D-TX CONTINUE.
    SendDTxContinue,
    /// The event is not handled in this state: it is logged.
    Unhandled,
}

/// A downlink call.
#[derive(Debug)]
pub struct Call {
    state: DlCallState,
    is_group: bool,
    is_acked: bool,
    current_caller_issi: u32,
    current_caller_is_local: bool,
    callee_ssi: u32,
    callee_is_local: bool,
    req_to_transmit_queue: VecDeque<u32>,
}

/// What happens to uplink PDU `pdu` in state `state`, for a call whose caller and callee
/// are local or remote, that is a group call or not, acknowledged or not.
pub open spec fn pdu_disposition(
    state: DlCallState,
    pdu: UlCallPdu,
    caller_local: bool,
    group: bool,
    acked: bool,
) -> PduDisposition {
    match state {
        DlCallState::Init => if pdu == UlCallPdu::USetup {
            PduDisposition::SetupNotAccepted
        } else {
            PduDisposition::Discarded
        },
        DlCallState::CallActive => match pdu {
            UlCallPdu::USetup | UlCallPdu::URelease => PduDisposition::Discarded,
            UlCallPdu::UInfo => if group && acked {
                PduDisposition::NotImplemented
            } else {
                PduDisposition::Discarded
            },
            UlCallPdu::UTxCeased => if caller_local {
                PduDisposition::NotImplemented
            } else {
                PduDisposition::Discarded
            },
            UlCallPdu::UAlert => if !group && acked {
                PduDisposition::NotImplemented
            } else {
                PduDisposition::Discarded
            },
            UlCallPdu::UConnect => if group {
                PduDisposition::Discarded
            } else {
                PduDisposition::NotImplemented
            },
            UlCallPdu::UTxDemand | UlCallPdu::UDisconnect | UlCallPdu::UCallRestore => PduDisposition::NotImplemented,
        },
        DlCallState::TxCeased => match pdu {
            UlCallPdu::UTxDemand | UlCallPdu::UDisconnect | UlCallPdu::UCallRestore => PduDisposition::NotImplemented,
            _ => PduDisposition::Discarded,
        },
        DlCallState::Disconnected => PduDisposition::Discarded,
    }
}

/// Next state and actions for remote event `event` in state `state`.
pub open spec fn remote_transition(state: DlCallState, event: RemoteEvent, caller_issi: u32, callee_ssi: u32) -> (
    DlCallState,
    Seq<CallAction>,
) {
    match (state, event) {
        (DlCallState::Init, RemoteEvent::NewCall) => (
            DlCallState::CallActive,
            seq![CallAction::SendDSetup(callee_ssi), CallAction::SignalUmacDlCircuit],
        ),
        (DlCallState::CallActive, RemoteEvent::CallActive) => (
            DlCallState::CallActive,
            seq![CallAction::SendDCallProceeding(caller_issi)],
        ),
        (DlCallState::CallActive, RemoteEvent::TxCeased) => (DlCallState::TxCeased, seq![CallAction::SendDTxCeased]),
        (DlCallState::TxCeased, RemoteEvent::CallActive) => (
            DlCallState::CallActive,
            seq![CallAction::SendDTxContinue],
        ),
        _ => (state, seq![CallAction::Unhandled]),
    }
}

impl Call {
    /// State of the call.
    pub closed spec fn state_of(&self) -> DlCallState {
        self.state
    }

    /// ISSI of the current caller.
    pub closed spec fn caller_issi(&self) -> u32 {
        self.current_caller_issi
    }

    /// Whether the current caller is local.
    pub closed spec fn caller_local(&self) -> bool {
        self.current_caller_is_local
    }

    /// SSI of the callee.
    pub closed spec fn callee(&self) -> u32 {
        self.callee_ssi
    }

    /// Whether the callee is local.
    pub closed spec fn callee_local(&self) -> bool {
        self.callee_is_local
    }

    /// Whether this is a group call.
    pub closed spec fn group(&self) -> bool {
        self.is_group
    }

    /// Whether this is an acknowledged call.
    pub closed spec fn acked(&self) -> bool {
        self.is_acked
    }

    /// Pending requests to transmit, oldest first.
    pub closed spec fn tx_queue(&self) -> Seq<u32> {
        self.req_to_transmit_queue@
    }

    /// Everything but the state is as in `other`.
    pub open spec fn same_call(&self, other: &Call) -> bool {
        &&& self.caller_issi() == other.caller_issi()
        &&& self.caller_local() == other.caller_local()
        &&& self.callee() == other.callee()
        &&& self.callee_local() == other.callee_local()
        &&& self.group() == other.group()
        &&& self.acked() == other.acked()
        &&& self.tx_queue() == other.tx_queue()
    }

    /// A new call in state `Init` with an empty queue of transmit requests.
    pub fn new(
        current_caller_issi: u32,
        current_caller_is_local: bool,
        callee_ssi: u32,
        callee_is_local: bool,
        is_group: bool,
        is_acked: bool,
    ) -> (r: Self)
        ensures
            r.state_of() == DlCallState::Init,
            r.caller_issi() == current_caller_issi,
            r.caller_local() == current_caller_is_local,
            r.callee() == callee_ssi,
            r.callee_local() == callee_is_local,
            r.group() == is_group,
            r.acked() == is_acked,
            r.tx_queue() == Seq::<u32>::empty(),
    {
        Self {
            state: DlCallState::Init,
            current_caller_issi,
            current_caller_is_local,
            callee_ssi,
            callee_is_local,
            is_group,
            is_acked,
            req_to_transmit_queue: VecDeque::new(),
        }
    }

    /// A discarded PDU: the decision to log and drop it.
    fn discard(&self, pdu: UlCallPdu) -> (r: PduDisposition)
        ensures
            r == PduDisposition::Discarded,
    {
        PduDisposition::Discarded
    }

    /// Handle an uplink PDU: returns what was done with it. A U-SETUP in state `Init` is
    /// handed to the set-up handler, and the call becomes active only if it accepts it.
    pub fn handle_pdu(&mut self, pdu: UlCallPdu) -> (r: PduDisposition)
        ensures
            r == pdu_disposition(old(self).state_of(), pdu, old(self).caller_local(), old(self).group(), old(self).acked()),
            final(self).state_of() == old(self).state_of(),
            final(self).same_call(old(self)),
    {
        match self.state {
            DlCallState::Init => {
                match pdu {
                    UlCallPdu::USetup => {
                        if self.handle_u_setup(pdu) {
                            self.state = DlCallState::CallActive;
                            PduDisposition::SetupAccepted
                        } else {
                            PduDisposition::SetupNotAccepted
                        }
                    },
                    _ => self.discard(pdu),
                }
            },
            DlCallState::CallActive => {
                match (pdu, self.current_caller_is_local, self.callee_is_local, self.is_group, self.is_acked) {
                    (UlCallPdu::USetup, _, _, _, _)
                    | (UlCallPdu::URelease, _, _, _, _)
                    | (UlCallPdu::UInfo, _, _, false, _)
                    | (UlCallPdu::UInfo, _, _, _, false)
                    | (UlCallPdu::UTxCeased, false, _, _, _)
                    | (UlCallPdu::UAlert, _, _, true, _)
                    | (UlCallPdu::UAlert, _, _, _, false)
                    | (UlCallPdu::UConnect, _, _, true, _) => self.discard(pdu),
                    (UlCallPdu::UTxCeased, true, _, _, _) => PduDisposition::NotImplemented,
                    (UlCallPdu::UTxDemand, _, _, _, _) => PduDisposition::NotImplemented,
                    (UlCallPdu::UConnect, _, _, false, _) => PduDisposition::NotImplemented,
                    (UlCallPdu::UDisconnect, _, _, _, _) => PduDisposition::NotImplemented,
                    (UlCallPdu::UInfo, _, _, true, true) => PduDisposition::NotImplemented,
                    (UlCallPdu::UAlert, _, _, false, true) => PduDisposition::NotImplemented,
                    (UlCallPdu::UCallRestore, _, _, _, _) => PduDisposition::NotImplemented,
                }
            },
            DlCallState::TxCeased => {
                match pdu {
                    UlCallPdu::USetup
                    | UlCallPdu::URelease
                    | UlCallPdu::UTxCeased
                    | UlCallPdu::UConnect
                    | UlCallPdu::UInfo
                    | UlCallPdu::UAlert => PduDisposition::Discarded,
                    UlCallPdu::UTxDemand => PduDisposition::NotImplemented,
                    UlCallPdu::UDisconnect => PduDisposition::NotImplemented,
                    UlCallPdu::UCallRestore => PduDisposition::NotImplemented,
                }
            },
            DlCallState::Disconnected => self.discard(pdu),
        }
    }

    /// Handle an event from the remote side: moves to the next state and returns the
    /// actions to perform, in order. A new remote call must have a local callee and a
    /// remote caller.
    pub fn handle_remote_event(&mut self, event: RemoteEvent) -> (r: Vec<CallAction>)
        requires
            old(self).state_of() == DlCallState::Init && event == RemoteEvent::NewCall ==> old(self).callee_local()
                && !old(self).caller_local(),
        ensures
            (final(self).state_of(), r@) == remote_transition(
                old(self).state_of(),
                event,
                old(self).caller_issi(),
                old(self).callee(),
            ),
            final(self).same_call(old(self)),
    {
        let mut actions: Vec<CallAction> = Vec::new();
        match (self.state, event) {
            (DlCallState::Init, RemoteEvent::NewCall) => {
                actions.push(self.send_d_setup(self.callee_ssi));
                actions.push(self.signal_umac_dl_circuit());
                self.state = DlCallState::CallActive;
            },
            (DlCallState::CallActive, RemoteEvent::CallActive) => {
                actions.push(self.send_d_call_proceeding(self.current_caller_issi));
            },
            (DlCallState::CallActive, RemoteEvent::TxCeased) => {
                actions.push(self.send_d_tx_ceased());
                self.state = DlCallState::TxCeased;
            },
            (DlCallState::TxCeased, RemoteEvent::CallActive) => {
                actions.push(self.send_d_tx_continue());
                self.state = DlCallState::CallActive;
            },
            (_, _) => {
                actions.push(CallAction::Unhandled);
            },
        }
        assert(actions@ =~= remote_transition(old(self).state_of(), event, old(self).caller_issi(), old(self).callee()).1);
        actions
    }

    /// The set-up handler: it does not accept a U-SETUP yet.
    fn handle_u_setup(&mut self, _pdu: UlCallPdu) -> (r: bool)
        ensures
            r == false,
            *final(self) == *old(self),
    {
        false
    }

    fn send_d_setup(&self, ssi: u32) -> (r: CallAction)
        ensures
            r == CallAction::SendDSetup(ssi),
    {
        CallAction::SendDSetup(ssi)
    }

    fn send_d_call_proceeding(&self, issi: u32) -> (r: CallAction)
        ensures
            r == CallAction::SendDCallProceeding(issi),
    {
        CallAction::SendDCallProceeding(issi)
    }

    fn send_d_tx_ceased(&self) -> (r: CallAction)
        ensures
            r == CallAction::SendDTxCeased,
    {
        CallAction::SendDTxCeased
    }

    fn send_d_tx_continue(&self) -> (r: CallAction)
        ensures
            r == CallAction::SendDTxContinue,
    {
        CallAction::SendDTxContinue
    }

    fn signal_umac_dl_circuit(&self) -> (r: CallAction)
        ensures
            r == CallAction::SignalUmacDlCircuit,
    {
        CallAction::SignalUmacDlCircuit
    }
}

/// A disconnected call discards every uplink PDU, and a call not yet set up every
/// uplink PDU but U-SETUP.
pub proof fn lemma_uplink_discarded_outside_call(state: DlCallState, pdu: UlCallPdu, caller_local: bool, group: bool, acked: bool)
    ensures
        state == DlCallState::Disconnected ==> pdu_disposition(state, pdu, caller_local, group, acked)
            == PduDisposition::Discarded,
        state == DlCallState::Init && pdu != UlCallPdu::USetup ==> pdu_disposition(state, pdu, caller_local, group, acked)
            == PduDisposition::Discarded,
{
}

/// Transmission ceasing and the call becoming active again brings an active call back
/// to the active state, with D-TX CEASED then D-TX CONTINUE sent.
pub proof fn lemma_tx_ceased_then_active(caller_issi: u32, callee_ssi: u32)
    ensures
        ({
            let (s1, a1) = remote_transition(DlCallState::CallActive, RemoteEvent::TxCeased, caller_issi, callee_ssi);
            let (s2, a2) = remote_transition(s1, RemoteEvent::CallActive, caller_issi, callee_ssi);
            &&& s1 == DlCallState::TxCeased
            &&& s2 == DlCallState::CallActive
            &&& a1 == seq![CallAction::SendDTxCeased]
            &&& a2 == seq![CallAction::SendDTxContinue]
        }),
{
}

/// A disconnected call stays disconnected whatever the remote side sends.
pub proof fn lemma_disconnected_is_final(event: RemoteEvent, caller_issi: u32, callee_ssi: u32)
    ensures
        remote_transition(DlCallState::Disconnected, event, caller_issi, callee_ssi).0 == DlCallState::Disconnected,
{
}

} // verus!
