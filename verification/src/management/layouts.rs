//! Where a client finds each field of requests and responses.

use vstd::prelude::*;

use super::{
    request_packet, response_bytes, ManagementCommand, ManagementHostStatus,
    ManagementOutputTarget, ManagementResponse, ManagementResponsePayload, ManagementResult,
    ManagementUsbPresentationKind,
};
use crate::bytes::{lemma_le16, lemma_le32};
use crate::ids::HostId;
use crate::layouts::{number2, number4, signed4, stands_at};
use crate::output_target::OutputTargetAvailability;
use crate::settings::{SettingId, SettingTarget};

verus! {

/// Whether two bytes say what a setting is for.
pub open spec fn says_setting_target(bytes: Seq<u8>, at: int, target: SettingTarget) -> bool {
    match target {
        SettingTarget::Global => bytes[at] == 0 && bytes[at + 1] == 0,
        SettingTarget::Host(host_id) => bytes[at] == 1 && bytes[at + 1] == host_id.0,
    }
}

/// Whether two bytes say where input goes.
pub open spec fn says_output_target(
    bytes: Seq<u8>,
    at: int,
    target: Option<ManagementOutputTarget>,
) -> bool {
    match target {
        Some(ManagementOutputTarget::Wired) => bytes[at] == 0 && bytes[at + 1] == 0,
        Some(ManagementOutputTarget::Ble(host_id)) => bytes[at] == 1 && bytes[at + 1] == host_id.0,
        None => bytes[at] == 0xff && bytes[at + 1] == 0,
    }
}

/// The number of a setting.
pub open spec fn setting_number(id: SettingId) -> int {
    match id {
        SettingId::AutoReconnect => 1,
        SettingId::MouseSensitivityPercent => 2,
    }
}

/// A request has the version, its number, the command's number, how many bytes of
/// arguments there are, and the arguments.
pub proof fn law_request_head(request_id: u8, opcode: u8, arguments: Seq<u8>)
    requires
        arguments.len() <= 16,
    ensures
        ({
            let b = request_packet(request_id, opcode, arguments);
            &&& b.len() == 20
            &&& b[0] == 1
            &&& b[1] == request_id
            &&& b[2] == opcode
            &&& b[3] == arguments.len()
            &&& stands_at(b, 4, arguments)
        }),
{
}

/// Each command has its number, and its arguments stand in their places.
pub proof fn law_command_layout(command: ManagementCommand)
    ensures
        ({
            let a = command.arguments();
            let op = command.opcode();
            match command {
                ManagementCommand::GetStatus => op == 1 && a.len() == 0,
                ManagementCommand::SelectHost(host_id) => op == 2 && a == seq![host_id.0],
                ManagementCommand::StartPairing(host_id) => op == 3 && a == seq![host_id.0],
                ManagementCommand::ForgetHost(host_id) => op == 4 && a == seq![host_id.0],
                ManagementCommand::GetHostInfo(host_id) => op == 5 && a == seq![host_id.0],
                ManagementCommand::SetHostName { host_id, name } => op == 6 && a.len() == 2
                    + name.buffer().len() && a[0] == host_id.0 && a[1] == name.length()
                    && stands_at(a, 2, name.buffer()),
                ManagementCommand::CancelPairing => op == 7 && a.len() == 0,
                ManagementCommand::GetUsbDevice { index, name_offset } => op == 8 && a == seq![
                    index,
                    name_offset,
                ],
                ManagementCommand::GetDiagnostics => op == 9 && a.len() == 0,
                ManagementCommand::GetHistory { index } => op == 10 && a == seq![index],
                ManagementCommand::GetSchema => op == 11 && a.len() == 0,
                ManagementCommand::GetSetting { id, target } => op == 12 && a.len() == 4
                    && number2(a, 0) == setting_number(id) && says_setting_target(a, 2, target),
                ManagementCommand::SetSetting { id, target, value } => op == 13 && a.len() == 8
                    && number2(a, 0) == setting_number(id) && says_setting_target(a, 2, target)
                    && signed4(a, 4) == value,
                ManagementCommand::GetHostTiming(host_id) => op == 14 && a == seq![host_id.0],
                ManagementCommand::SelectOutputTarget(target) => op == 15 && a.len() == 2
                    && says_output_target(a, 0, Some(target)),
                ManagementCommand::GetOutputTargetStatus => op == 16 && a.len() == 0,
            }
        }),
{
    broadcast use lemma_le16, lemma_le32;

}

/// The number of a host, or zero for none.
pub open spec fn host_number(host_id: Option<HostId>) -> int {
    match host_id {
        Some(host_id) => host_id.0 as int,
        None => 0,
    }
}

/// One bit each for known, connected, encrypted and bonded.
pub open spec fn status_bits(s: ManagementHostStatus) -> int {
    (if s.known {
        1int
    } else {
        0
    }) + (if s.connected {
        2int
    } else {
        0
    }) + (if s.encrypted {
        4int
    } else {
        0
    }) + (if s.bonded {
        8int
    } else {
        0
    })
}

/// One where something holds, or else zero.
pub open spec fn one_where(condition: bool) -> int {
    if condition {
        1
    } else {
        0
    }
}

/// A response has the version, the number of its request, how that ended, and what
/// kind of payload comes.
pub proof fn law_response_head(r: ManagementResponse)
    ensures
        response_bytes(r).len() >= 5,
        response_bytes(r)[0] == 1,
        response_bytes(r)[1] == r.request_id,
        response_bytes(r)[2] == (match r.result {
            ManagementResult::Success => 0int,
            ManagementResult::InvalidHost => 1,
            ManagementResult::HostNotFound => 2,
            ManagementResult::HostAlreadyBonded => 3,
            ManagementResult::InternalError => 4,
            ManagementResult::InvalidName => 5,
            ManagementResult::InvalidSetting => 6,
            ManagementResult::NotFound => 7,
            ManagementResult::Unavailable => 8,
        }),
        response_bytes(r)[3] == (match r.payload {
            ManagementResponsePayload::Empty => 0int,
            ManagementResponsePayload::Status(_) => 1,
            ManagementResponsePayload::HostInfo(_) => 2,
            ManagementResponsePayload::UsbDevice(_) => 3,
            ManagementResponsePayload::Diagnostics(_) => 4,
            ManagementResponsePayload::History(_) => 5,
            ManagementResponsePayload::Schema(_) => 6,
            ManagementResponsePayload::Setting(_) => 7,
            ManagementResponsePayload::HostTiming(_) => 8,
            ManagementResponsePayload::OutputTargetStatus(_) => 9,
        }),
{
}

proof fn lemma_body(r: ManagementResponse, i: int)
    requires
        0 <= i < r.payload.body().len(),
    ensures
        response_bytes(r)[5 + i] == r.payload.body()[i],
{
}

/// What the payload of a response says stands in its places, behind the head.
pub proof fn law_payload_layout(payload: ManagementResponsePayload)
    ensures
        ({
            let b = payload.body();
            match payload {
                ManagementResponsePayload::Empty => b.len() == 0,
                ManagementResponsePayload::Status(s) => {
                    &&& b.len() == 10
                    &&& b[0] == host_number(s.active_host)
                    &&& b[1] == host_number(s.pairing_host)
                    &&& b[2] == s.host_count
                    &&& b[3] == s.usb.device_count
                    &&& b[4] == s.usb.interface_count
                    &&& b[5] == s.usb.keyboard_count
                    &&& b[6] == status_bits(s.hosts@[0])
                    &&& b[7] == status_bits(s.hosts@[1])
                    &&& b[8] == status_bits(s.hosts@[2])
                    &&& b[9] == status_bits(s.hosts@[3])
                },
                ManagementResponsePayload::HostInfo(i) => {
                    &&& b[0] == i.host_id.0
                    &&& b[1] == status_bits(i.status) + 16 * (i.name_source % 4)
                    &&& b[2] == i.name.length()
                    &&& stands_at(b, 3, i.name.buffer())
                },
                ManagementResponsePayload::UsbDevice(d) => {
                    &&& b[0] == d.index
                    &&& b[1] == d.device_id
                    &&& b[2] == d.flags
                    &&& number2(b, 3) == d.vendor_id
                    &&& number2(b, 5) == d.product_id
                    &&& b[7] == d.name_len
                    &&& b[8] == d.name_offset
                    &&& b[9] == d.name_chunk_len
                    &&& stands_at(b, 10, d.name_chunk@)
                },
                ManagementResponsePayload::Diagnostics(d) => {
                    &&& number4(b, 0) == d.uptime_seconds
                    &&& b[4] == d.reset_reason
                    &&& number2(b, 5) == d.brownout_count
                    &&& number2(b, 7) == d.ble_disconnect_count
                    &&& number2(b, 9) == d.ble_notify_failure_count
                    &&& number2(b, 11) == d.usb_error_count
                    &&& b[13] == d.flash_write_count
                    &&& b[14] == d.flash_failure_count
                },
                ManagementResponsePayload::History(e) => {
                    &&& b[0] == e.kind
                    &&& number2(b, 1) == e.sequence
                    &&& number4(b, 3) == e.timestamp_seconds
                    &&& b[7] == e.subject
                    &&& b[8] == e.detail
                    &&& number2(b, 9) == e.vendor_id
                    &&& number2(b, 11) == e.product_id
                },
                ManagementResponsePayload::Schema(c) => {
                    &&& number2(b, 0) == c.version
                    &&& b[2] == c.setting_count
                    &&& b[3] == c.history_capacity
                    &&& b[4] == c.usb_capacity
                    &&& number4(b, 5) == c.hash
                    &&& b[9] == c.firmware_major
                    &&& b[10] == c.firmware_minor
                    &&& b[11] == c.firmware_patch
                },
                ManagementResponsePayload::Setting(t) => {
                    &&& number2(b, 0) == setting_number(t.id)
                    &&& says_setting_target(b, 2, t.target)
                    &&& signed4(b, 4) == t.value
                },
                ManagementResponsePayload::HostTiming(t) => {
                    &&& b[0] == t.host_id.0
                    &&& number4(b, 1) == t.last_connected_seconds
                    &&& number4(b, 5) == t.last_disconnected_seconds
                    &&& b[9] == t.last_disconnect_reason
                },
                ManagementResponsePayload::OutputTargetStatus(o) => {
                    &&& says_output_target(b, 0, Some(o.selected))
                    &&& says_output_target(b, 2, o.active)
                    &&& b[4] == (match o.availability {
                        OutputTargetAvailability::Ready => 0int,
                        OutputTargetAvailability::ConnectedNotReady => 1,
                        OutputTargetAvailability::Unavailable => 2,
                    })
                    &&& b[5] == one_where(o.wired_ready)
                    &&& b[6] == o.ready_ble_mask
                    &&& b[7] == (match o.effective_presentation {
                        ManagementUsbPresentationKind::Fallback => 0int,
                        ManagementUsbPresentationKind::Mirror => 1,
                    })
                    &&& b[8] == one_where(o.mirror_configured)
                    &&& number4(b, 9) == o.operation_id
                },
            }
        }),
{
    broadcast use lemma_le16, lemma_le32;

}

/// The payload of a response comes behind its head.
pub proof fn law_payload_comes_last(r: ManagementResponse)
    ensures
        stands_at(response_bytes(r), 5, r.payload.body()),
{
    let b = r.payload.body();
    assert forall|i: int| 0 <= i < b.len() implies #[trigger] response_bytes(r)[5 + i] == b[i] by {
        lemma_body(r, i);
    }
}

} // verus!
