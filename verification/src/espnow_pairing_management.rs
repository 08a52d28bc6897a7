//! The pairing of two chips, as management clients see it.

use vstd::prelude::*;

use crate::bytes::part;
use crate::espnow_pairing::{
    repeated, EspNowPairing, EspNowPairingError, EspNowPairingTransaction, EspNowRole,
    PairingView, TransactionView,
};
use crate::management::ManagementCommand;

verus! {

/// What a client asks for.
#[derive(Clone, Copy, Debug, PartialEq, Eq)]
pub enum EspNowPairingCommand {
    GetEspNowInfo,
    BeginEspNowPairing { peer_address: [u8; 6], channel: u8 },
    WriteEspNowKey { offset: u8, length: u8, bytes: [u8; 14] },
    CommitEspNowPairing,
    ForgetEspNowPeer,
    Other(ManagementCommand),
}

/// How a request ended.
#[derive(Clone, Copy, Debug, PartialEq, Eq, Structural)]
pub enum EspNowPairingResult {
    Success,
    InvalidPairing,
    Unavailable,
}

/// What a client learns of the pairing. The key is not in it.
#[derive(Clone, Copy, Debug, PartialEq, Eq)]
pub struct ManagementEspNowInfo {
    pub paired: bool,
    pub role: EspNowRole,
    pub channel: u8,
    pub local_address: [u8; 6],
    pub peer_address: [u8; 6],
}

/// What a client is told.
#[derive(Clone, Copy, Debug, PartialEq, Eq)]
pub enum EspNowPairingPayload {
    Empty,
    EspNowInfo(ManagementEspNowInfo),
}

/// What is to be done with the pairing that is kept.
#[derive(Clone, Copy, Debug, PartialEq, Eq)]
pub enum EspNowPairingAction {
    Nothing,
    Persist(EspNowPairing),
    Clear,
}

/// What came of a request.
#[derive(Clone, Copy, Debug, PartialEq, Eq)]
pub struct EspNowPairingOutcome {
    pub result: EspNowPairingResult,
    pub payload: EspNowPairingPayload,
    pub action: EspNowPairingAction,
}

/// Handles requests.
pub struct EspNowPairingService {
    role: EspNowRole,
    current: Option<EspNowPairing>,
    transaction: EspNowPairingTransaction,
}

/// The pairing, and the one that is being told.
pub struct ServiceView {
    pub role: EspNowRole,
    pub current: Option<PairingView>,
    pub transaction: TransactionView,
}

impl View for EspNowPairingService {
    type V = ServiceView;

    closed spec fn view(&self) -> ServiceView {
        ServiceView {
            role: self.role,
            current: match self.current {
                Some(pairing) => Some(pairing@),
                None => None,
            },
            transaction: self.transaction@,
        }
    }
}

impl ServiceView {
    /// The next pairing's generation.
    pub open spec fn next_generation(self) -> u32 {
        match self.current {
            Some(pairing) => pairing.generation.wrapping_add(1),
            None => 1,
        }
    }

    /// Whether this is what a client learns.
    pub open spec fn is_info(self, info: ManagementEspNowInfo, local_address: Seq<u8>) -> bool {
        &&& info.paired == (self.current is Some)
        &&& info.role == self.role
        &&& info.local_address@ == local_address
        &&& info.channel == match self.current {
            Some(pairing) => pairing.channel,
            None => 0,
        }
        &&& info.peer_address@ == match self.current {
            Some(pairing) => pairing.peer_address,
            None => repeated(0, 6),
        }
    }
}

/// How a request ended that something went wrong with, or nothing.
pub open spec fn ended(error: Option<EspNowPairingError>) -> EspNowPairingResult {
    match error {
        Some(_) => EspNowPairingResult::InvalidPairing,
        None => EspNowPairingResult::Success,
    }
}

/// Whether nothing but a result came of a request.
pub open spec fn is_bare(outcome: EspNowPairingOutcome, result: EspNowPairingResult) -> bool {
    &&& outcome.result == result
    &&& outcome.payload == EspNowPairingPayload::Empty
    &&& outcome.action == EspNowPairingAction::Nothing
}

/// Whether this came of a request.
pub open spec fn is_outcome(
    before: ServiceView,
    command: EspNowPairingCommand,
    local_address: Seq<u8>,
    after: ServiceView,
    outcome: EspNowPairingOutcome,
) -> bool {
    match command {
        EspNowPairingCommand::GetEspNowInfo => {
            &&& after == before
            &&& outcome.result == EspNowPairingResult::Success
            &&& outcome.action == EspNowPairingAction::Nothing
            &&& match outcome.payload {
                EspNowPairingPayload::EspNowInfo(info) => before.is_info(info, local_address),
                EspNowPairingPayload::Empty => false,
            }
        },
        EspNowPairingCommand::BeginEspNowPairing { peer_address, channel } => {
            let error = TransactionView::begin_error(peer_address@, channel);
            &&& is_bare(outcome, ended(error))
            &&& after == (ServiceView {
                transaction: if error is None {
                    before.transaction.begun(peer_address@, channel)
                } else {
                    before.transaction
                },
                ..before
            })
        },
        EspNowPairingCommand::WriteEspNowKey { offset, length, bytes } => if length <= 14 {
            let chunk = bytes@.take(length as int);
            let error = before.transaction.chunk_error(offset, chunk);
            &&& is_bare(outcome, ended(error))
            &&& after == (ServiceView {
                transaction: if error is None {
                    before.transaction.with_chunk(offset, chunk)
                } else {
                    before.transaction
                },
                ..before
            })
        } else {
            is_bare(outcome, EspNowPairingResult::Unavailable) && after == before
        },
        EspNowPairingCommand::CommitEspNowPairing => {
            match before.transaction.commit_error() {
                Some(_) => is_bare(outcome, EspNowPairingResult::InvalidPairing) && after
                    == before,
                None => {
                    &&& outcome.result == EspNowPairingResult::Success
                    &&& outcome.payload == EspNowPairingPayload::Empty
                    &&& match outcome.action {
                        EspNowPairingAction::Persist(pairing) => pairing@
                            == before.transaction.pairing(before.next_generation()),
                        _ => false,
                    }
                    &&& after == (ServiceView {
                        transaction: before.transaction.cancelled(),
                        ..before
                    })
                },
            }
        },
        EspNowPairingCommand::ForgetEspNowPeer => {
            &&& after == before
            &&& outcome.result == EspNowPairingResult::Success
            &&& outcome.payload == EspNowPairingPayload::Empty
            &&& outcome.action == EspNowPairingAction::Clear
        },
        EspNowPairingCommand::Other(_) => is_bare(outcome, EspNowPairingResult::Unavailable)
            && after == before,
    }
}

impl EspNowPairingService {
    /// A service for a chip, with the pairing that it has.
    pub fn new(role: EspNowRole, current: Option<EspNowPairing>) -> (r: Self)
        ensures
            r@ == (ServiceView {
                role,
                current: match current {
                    Some(pairing) => Some(pairing@),
                    None => None,
                },
                transaction: TransactionView::idle(role),
            }),
    {
        Self { role, current, transaction: EspNowPairingTransaction::new(role) }
    }

    /// Handles a request. A pairing that was told in full is to be kept first,
    /// and becomes the current one only by `persisted`.
    pub fn handle(&mut self, command: EspNowPairingCommand, local_address: [u8; 6]) -> (r:
        EspNowPairingOutcome)
        ensures
            is_outcome(old(self)@, command, local_address@, final(self)@, r),
    {
        match command {
            EspNowPairingCommand::GetEspNowInfo => {
                let info = match self.current {
                    Some(pairing) => ManagementEspNowInfo {
                        paired: true,
                        role: self.role,
                        channel: pairing.channel,
                        local_address,
                        peer_address: pairing.peer_address,
                    },
                    None => {
                        let peer_address = [0u8; 6];
                        assert(peer_address@ =~= repeated(0, 6));
                        ManagementEspNowInfo {
                            paired: false,
                            role: self.role,
                            channel: 0,
                            local_address,
                            peer_address,
                        }
                    },
                };
                EspNowPairingOutcome {
                    result: EspNowPairingResult::Success,
                    payload: EspNowPairingPayload::EspNowInfo(info),
                    action: EspNowPairingAction::Nothing,
                }
            },
            EspNowPairingCommand::BeginEspNowPairing { peer_address, channel } => bare(
                map_pairing_result(self.transaction.begin(peer_address, channel)),
            ),
            EspNowPairingCommand::WriteEspNowKey { offset, length, bytes } => {
                if length <= 14 {
                    let chunk = part(bytes.as_slice(), 0, length as usize);
                    assert(chunk@ =~= bytes@.take(length as int));
                    bare(map_pairing_result(self.transaction.write_key_chunk(offset, chunk)))
                } else {
                    bare(EspNowPairingResult::Unavailable)
                }
            },
            EspNowPairingCommand::CommitEspNowPairing => {
                let generation: u32 = match self.current {
                    Some(pairing) => pairing.generation.wrapping_add(1),
                    None => 1,
                };
                match self.transaction.commit(generation) {
                    Ok(pairing) => EspNowPairingOutcome {
                        result: EspNowPairingResult::Success,
                        payload: EspNowPairingPayload::Empty,
                        action: EspNowPairingAction::Persist(pairing),
                    },
                    Err(_) => bare(EspNowPairingResult::InvalidPairing),
                }
            },
            EspNowPairingCommand::ForgetEspNowPeer => EspNowPairingOutcome {
                result: EspNowPairingResult::Success,
                payload: EspNowPairingPayload::Empty,
                action: EspNowPairingAction::Clear,
            },
            EspNowPairingCommand::Other(_) => bare(EspNowPairingResult::Unavailable),
        }
    }

    /// A pairing was kept, and is the current one.
    pub fn persisted(&mut self, pairing: EspNowPairing)
        ensures
            final(self)@ == (ServiceView { current: Some(pairing@), ..old(self)@ }),
    {
        self.current = Some(pairing);
    }

    /// The pairing was forgotten, and what was being told with it.
    pub fn cleared(&mut self)
        ensures
            final(self)@ == (ServiceView {
                current: None,
                transaction: old(self)@.transaction.cancelled(),
                ..old(self)@
            }),
    {
        self.current = None;
        self.transaction.cancel();
    }
}

fn bare(result: EspNowPairingResult) -> (r: EspNowPairingOutcome)
    ensures
        is_bare(r, result),
{
    EspNowPairingOutcome {
        result,
        payload: EspNowPairingPayload::Empty,
        action: EspNowPairingAction::Nothing,
    }
}

fn map_pairing_result(result: Result<(), EspNowPairingError>) -> (r: EspNowPairingResult)
    ensures
        r == match result {
            Ok(_) => EspNowPairingResult::Success,
            Err(_) => EspNowPairingResult::InvalidPairing,
        },
{
    match result {
        Ok(_) => EspNowPairingResult::Success,
        Err(_) => EspNowPairingResult::InvalidPairing,
    }
}

/// No request changes the current pairing: that is left to those who keep it.
pub proof fn law_requests_leave_the_pairing(
    before: ServiceView,
    command: EspNowPairingCommand,
    local_address: Seq<u8>,
    after: ServiceView,
    outcome: EspNowPairingOutcome,
)
    requires
        is_outcome(before, command, local_address, after, outcome),
    ensures
        after.current == before.current,
        after.role == before.role,
{
}

/// A pairing is to be kept only once all of its key was told.
pub proof fn law_only_complete_pairings_are_kept(
    before: ServiceView,
    command: EspNowPairingCommand,
    local_address: Seq<u8>,
    after: ServiceView,
    outcome: EspNowPairingOutcome,
)
    requires
        is_outcome(before, command, local_address, after, outcome),
        outcome.action is Persist,
    ensures
        before.transaction.active,
        before.transaction.is_complete(),
        before.transaction.pairing(before.next_generation()).error() is None,
{
}

} // verus!
