//! The management protocol: requests and responses of one packet each.

pub mod frame;
pub mod layouts;

use vstd::prelude::*;
use vstd::string::StringSliceAdditionalSpecFns;

use crate::bytes::{
    bits32, from_bits32, get16, get32, le16, le32, lemma_u16_in, lemma_u32_in, padded, part,
    signed32, to_bits32, to_le16, to_le32, u16_at, u32_at, write_at,
};
use crate::ids::HostId;
use crate::output_target::{OutputTarget, OutputTargetAvailability, UsbPresentation};
use crate::settings::{SettingId, SettingTarget};

verus! {

pub const MANAGEMENT_PROTOCOL_VERSION: u8 = 1;

pub const MANAGEMENT_REQUEST_LEN: usize = 20;

pub const MANAGEMENT_RESPONSE_LEN: usize = 20;

pub const MANAGEMENT_HOST_NAME_LEN: usize = 12;

pub const MANAGEMENT_USB_NAME_CHUNK_LEN: usize = 5;

pub const MANAGEMENT_SERVICE_UUID: &'static str = "7f510000-1b15-4f0d-9f4b-5b6d4f3a0001";

pub const MANAGEMENT_REQUEST_UUID: &'static str = "7f510001-1b15-4f0d-9f4b-5b6d4f3a0001";

pub const MANAGEMENT_RESPONSE_UUID: &'static str = "7f510002-1b15-4f0d-9f4b-5b6d4f3a0001";

pub const OP_GET_STATUS: u8 = 0x01;

pub const OP_SELECT_HOST: u8 = 0x02;

pub const OP_START_PAIRING: u8 = 0x03;

pub const OP_FORGET_HOST: u8 = 0x04;

pub const OP_GET_HOST_INFO: u8 = 0x05;

pub const OP_SET_HOST_NAME: u8 = 0x06;

pub const OP_CANCEL_PAIRING: u8 = 0x07;

pub const OP_GET_USB_DEVICE: u8 = 0x08;

pub const OP_GET_DIAGNOSTICS: u8 = 0x09;

pub const OP_GET_HISTORY: u8 = 0x0a;

pub const OP_GET_SCHEMA: u8 = 0x0b;

pub const OP_GET_SETTING: u8 = 0x0c;

pub const OP_SET_SETTING: u8 = 0x0d;

pub const OP_GET_HOST_TIMING: u8 = 0x0e;

pub const OP_SELECT_OUTPUT_TARGET: u8 = 0x0f;

pub const OP_GET_OUTPUT_TARGET_STATUS: u8 = 0x10;

pub const PAYLOAD_NONE: u8 = 0;

pub const PAYLOAD_STATUS: u8 = 1;

pub const PAYLOAD_HOST_INFO: u8 = 2;

pub const PAYLOAD_USB_DEVICE: u8 = 3;

pub const PAYLOAD_DIAGNOSTICS: u8 = 4;

pub const PAYLOAD_HISTORY: u8 = 5;

pub const PAYLOAD_SCHEMA: u8 = 6;

pub const PAYLOAD_SETTING: u8 = 7;

pub const PAYLOAD_HOST_TIMING: u8 = 8;

pub const PAYLOAD_OUTPUT_TARGET_STATUS: u8 = 9;

pub const STATUS_PAYLOAD_LEN: u8 = 10;

pub const HOST_INFO_PAYLOAD_LEN: u8 = 15;

pub const USB_DEVICE_PAYLOAD_LEN: u8 = 15;

pub const DIAGNOSTICS_PAYLOAD_LEN: u8 = 15;

pub const HISTORY_PAYLOAD_LEN: u8 = 15;

pub const SCHEMA_PAYLOAD_LEN: u8 = 8;

pub const SETTING_PAYLOAD_LEN: u8 = 8;

pub const HOST_TIMING_PAYLOAD_LEN: u8 = 10;

pub const OUTPUT_TARGET_STATUS_PAYLOAD_LEN: u8 = 14;

/// Why a packet was refused.
#[derive(Clone, Copy, Debug, PartialEq, Eq, Structural)]
pub enum ManagementProtocolError {
    InvalidLength,
    UnsupportedVersion,
    UnknownCommand,
    InvalidArgument,
}

/// What a client wants.
#[derive(Clone, Copy, Debug, PartialEq, Eq)]
pub struct ManagementRequest {
    pub request_id: u8,
    pub command: ManagementCommand,
}

/// What a client can want.
#[derive(Clone, Copy, Debug, PartialEq, Eq)]
pub enum ManagementCommand {
    GetStatus,
    SelectHost(HostId),
    StartPairing(HostId),
    ForgetHost(HostId),
    GetHostInfo(HostId),
    SetHostName { host_id: HostId, name: ManagementHostName },
    CancelPairing,
    GetUsbDevice { index: u8, name_offset: u8 },
    GetDiagnostics,
    GetHostTiming(HostId),
    GetHistory { index: u8 },
    GetSchema,
    GetSetting { id: SettingId, target: SettingTarget },
    SetSetting { id: SettingId, target: SettingTarget, value: i32 },
    SelectOutputTarget(ManagementOutputTarget),
    GetOutputTargetStatus,
}

/// Where input goes, as the protocol says it.
#[derive(Clone, Copy, Debug, PartialEq, Eq, Structural)]
pub enum ManagementOutputTarget {
    Wired,
    Ble(HostId),
}

impl ManagementOutputTarget {
    /// The two bytes of a target.
    pub open spec fn wire(self) -> (u8, u8) {
        match self {
            ManagementOutputTarget::Wired => (0, 0),
            ManagementOutputTarget::Ble(host_id) => (1, host_id.0),
        }
    }

    /// The target that two bytes are.
    pub open spec fn parse(kind: u8, id: u8) -> Option<ManagementOutputTarget> {
        if kind == 0 && id == 0 {
            Some(ManagementOutputTarget::Wired)
        } else if kind == 1 && 1 <= id <= 4 {
            Some(ManagementOutputTarget::Ble(HostId(id)))
        } else {
            None
        }
    }

    fn encode(self) -> (r: (u8, u8))
        ensures
            r == self.wire(),
    {
        match self {
            Self::Wired => (0, 0),
            Self::Ble(host_id) => (1, host_id.0),
        }
    }

    fn decode(kind: u8, id: u8) -> (r: Result<Self, ManagementProtocolError>)
        ensures
            ManagementOutputTarget::parse(kind, id) is Some ==> r == Ok::<
                Self,
                ManagementProtocolError,
            >(ManagementOutputTarget::parse(kind, id)->0),
            ManagementOutputTarget::parse(kind, id) is None ==> r == Err::<
                Self,
                ManagementProtocolError,
            >(ManagementProtocolError::InvalidArgument),
    {
        if kind == 0 && id == 0 {
            Ok(Self::Wired)
        } else if kind == 1 && 1 <= id && id <= 4 {
            Ok(Self::Ble(HostId(id)))
        } else {
            Err(ManagementProtocolError::InvalidArgument)
        }
    }

    /// The target itself.
    pub fn to_output_target(self) -> (r: OutputTarget)
        ensures
            r == match self {
                ManagementOutputTarget::Wired => OutputTarget::Wired,
                ManagementOutputTarget::Ble(host_id) => OutputTarget::Ble(host_id),
            },
    {
        match self {
            Self::Wired => OutputTarget::Wired,
            Self::Ble(host_id) => OutputTarget::Ble(host_id),
        }
    }
}

impl From<OutputTarget> for ManagementOutputTarget {
    fn from(value: OutputTarget) -> (r: Self) {
        match value {
            OutputTarget::Wired => Self::Wired,
            OutputTarget::Ble(host_id) => Self::Ble(host_id),
        }
    }
}

impl vstd::std_specs::convert::FromSpecImpl<OutputTarget> for ManagementOutputTarget {
    open spec fn obeys_from_spec() -> bool {
        true
    }

    open spec fn from_spec(value: OutputTarget) -> Self {
        match value {
            OutputTarget::Wired => ManagementOutputTarget::Wired,
            OutputTarget::Ble(host_id) => ManagementOutputTarget::Ble(host_id),
        }
    }
}

/// Where a response goes.
#[derive(Clone, Copy, Debug, PartialEq, Eq, Structural)]
pub enum ManagementDestination {
    Wired,
    Ble(HostId),
}

/// What a client is answered.
#[derive(Clone, Copy, Debug, PartialEq, Eq)]
pub struct ManagementResponse {
    pub request_id: u8,
    pub result: ManagementResult,
    pub payload: ManagementResponsePayload,
}

/// What an answer carries.
#[derive(Clone, Copy, Debug, PartialEq, Eq)]
pub enum ManagementResponsePayload {
    Empty,
    Status(ManagementStatus),
    HostInfo(ManagementHostInfo),
    UsbDevice(ManagementUsbDevice),
    Diagnostics(ManagementDiagnostics),
    History(ManagementHistoryEvent),
    Schema(ManagementSchema),
    Setting(ManagementSetting),
    HostTiming(ManagementHostTiming),
    OutputTargetStatus(ManagementOutputTargetStatus),
}

/// How a request ended.
#[derive(Clone, Copy, Debug, PartialEq, Eq, Structural)]
pub enum ManagementResult {
    Success,
    InvalidHost,
    HostNotFound,
    HostAlreadyBonded,
    InternalError,
    InvalidName,
    InvalidSetting,
    NotFound,
    Unavailable,
}

impl ManagementResult {
    /// The byte that stands for the result.
    pub open spec fn byte(self) -> u8 {
        match self {
            ManagementResult::Success => 0,
            ManagementResult::InvalidHost => 1,
            ManagementResult::HostNotFound => 2,
            ManagementResult::HostAlreadyBonded => 3,
            ManagementResult::InternalError => 4,
            ManagementResult::InvalidName => 5,
            ManagementResult::InvalidSetting => 6,
            ManagementResult::NotFound => 7,
            ManagementResult::Unavailable => 8,
        }
    }

    /// Whether a byte stands for a result.
    pub open spec fn is_byte(value: u8) -> bool {
        value <= 8
    }

    fn to_byte(self) -> (r: u8)
        ensures
            r == self.byte(),
    {
        match self {
            Self::Success => 0,
            Self::InvalidHost => 1,
            Self::HostNotFound => 2,
            Self::HostAlreadyBonded => 3,
            Self::InternalError => 4,
            Self::InvalidName => 5,
            Self::InvalidSetting => 6,
            Self::NotFound => 7,
            Self::Unavailable => 8,
        }
    }

    fn from_byte(value: u8) -> (r: Result<Self, ManagementProtocolError>)
        ensures
            r is Ok <==> ManagementResult::is_byte(value),
            r is Ok ==> r->Ok_0.byte() == value,
            r is Err ==> r->Err_0 == ManagementProtocolError::InvalidArgument,
    {
        match value {
            0 => Ok(Self::Success),
            1 => Ok(Self::InvalidHost),
            2 => Ok(Self::HostNotFound),
            3 => Ok(Self::HostAlreadyBonded),
            4 => Ok(Self::InternalError),
            5 => Ok(Self::InvalidName),
            6 => Ok(Self::InvalidSetting),
            7 => Ok(Self::NotFound),
            8 => Ok(Self::Unavailable),
            _ => Err(ManagementProtocolError::InvalidArgument),
        }
    }
}

/// The state of the bridge.
#[derive(Clone, Copy, Debug, PartialEq, Eq)]
pub struct ManagementStatus {
    pub active_host: Option<HostId>,
    pub pairing_host: Option<HostId>,
    pub host_count: u8,
    pub usb: ManagementUsbStatus,
    pub hosts: [ManagementHostStatus; 4],
}

impl ManagementStatus {
    /// Nothing known but the number of hosts.
    pub fn empty(host_count: u8) -> (r: Self)
        ensures
            r.active_host is None,
            r.pairing_host is None,
            r.host_count == host_count,
            r.usb == ManagementUsbStatus::zero(),
            forall|i: int| 0 <= i < 4 ==> r.hosts@[i] == ManagementHostStatus::unknown(),
    {
        Self {
            active_host: None,
            pairing_host: None,
            host_count,
            usb: ManagementUsbStatus::empty(),
            hosts: [ManagementHostStatus::empty(); 4],
        }
    }
}

/// The state of the output targets.
#[derive(Clone, Copy, Debug, PartialEq, Eq, Structural)]
pub struct ManagementOutputTargetStatus {
    pub selected: ManagementOutputTarget,
    pub active: Option<ManagementOutputTarget>,
    pub availability: OutputTargetAvailability,
    pub wired_ready: bool,
    pub ready_ble_mask: u8,
    pub effective_presentation: ManagementUsbPresentationKind,
    pub mirror_configured: bool,
    pub operation_id: u32,
}

/// How the device presents itself.
#[derive(Clone, Copy, Debug, PartialEq, Eq, Structural)]
pub enum ManagementUsbPresentationKind {
    Fallback,
    Mirror,
}

impl ManagementUsbPresentationKind {
    /// The byte that stands for the presentation.
    pub open spec fn byte(self) -> u8 {
        match self {
            ManagementUsbPresentationKind::Fallback => 0,
            ManagementUsbPresentationKind::Mirror => 1,
        }
    }

    fn to_byte(self) -> (r: u8)
        ensures
            r == self.byte(),
    {
        match self {
            Self::Fallback => 0,
            Self::Mirror => 1,
        }
    }

    fn from_byte(value: u8) -> (r: Result<Self, ManagementProtocolError>)
        ensures
            r is Ok <==> value <= 1,
            r is Ok ==> r->Ok_0.byte() == value,
            r is Err ==> r->Err_0 == ManagementProtocolError::InvalidArgument,
    {
        match value {
            0 => Ok(Self::Fallback),
            1 => Ok(Self::Mirror),
            _ => Err(ManagementProtocolError::InvalidArgument),
        }
    }
}

impl From<UsbPresentation> for ManagementUsbPresentationKind {
    fn from(value: UsbPresentation) -> (r: Self) {
        match value {
            UsbPresentation::Fallback => Self::Fallback,
            UsbPresentation::Mirror(_) => Self::Mirror,
        }
    }
}

impl vstd::std_specs::convert::FromSpecImpl<UsbPresentation> for ManagementUsbPresentationKind {
    open spec fn obeys_from_spec() -> bool {
        true
    }

    open spec fn from_spec(value: UsbPresentation) -> Self {
        match value {
            UsbPresentation::Fallback => ManagementUsbPresentationKind::Fallback,
            UsbPresentation::Mirror(_) => ManagementUsbPresentationKind::Mirror,
        }
    }
}

/// How much is attached.
#[derive(Clone, Copy, Debug, PartialEq, Eq, Structural)]
pub struct ManagementUsbStatus {
    pub device_count: u8,
    pub interface_count: u8,
    pub keyboard_count: u8,
}

impl ManagementUsbStatus {
    /// Nothing attached.
    pub open spec fn zero() -> ManagementUsbStatus {
        ManagementUsbStatus { device_count: 0, interface_count: 0, keyboard_count: 0 }
    }

    /// Nothing attached.
    pub fn empty() -> (r: Self)
        ensures
            r == ManagementUsbStatus::zero(),
    {
        Self { device_count: 0, interface_count: 0, keyboard_count: 0 }
    }
}

/// One attached device.
#[derive(Clone, Copy, Debug, PartialEq, Eq)]
pub struct ManagementUsbDevice {
    pub index: u8,
    pub device_id: u8,
    /// bit 0 connected, bit 1 keyboard, bit 2 mouse, bit 3 consumer control.
    pub flags: u8,
    pub vendor_id: u16,
    pub product_id: u16,
    pub name_len: u8,
    pub name_offset: u8,
    pub name_chunk_len: u8,
    pub name_chunk: [u8; MANAGEMENT_USB_NAME_CHUNK_LEN],
}

impl ManagementUsbDevice {
    /// The part of the name.
    pub fn name_chunk(&self) -> (r: &[u8])
        requires
            self.name_chunk_len <= MANAGEMENT_USB_NAME_CHUNK_LEN,
        ensures
            r@ == self.name_chunk@.take(self.name_chunk_len as int),
    {
        let r = part(&self.name_chunk, 0, self.name_chunk_len as usize);
        assert(r@ =~= self.name_chunk@.take(self.name_chunk_len as int));
        r
    }
}

/// Counters of what went wrong.
#[derive(Clone, Copy, Debug, PartialEq, Eq, Structural)]
pub struct ManagementDiagnostics {
    pub uptime_seconds: u32,
    pub reset_reason: u8,
    pub brownout_count: u16,
    pub ble_disconnect_count: u16,
    pub ble_notify_failure_count: u16,
    pub usb_error_count: u16,
    pub flash_write_count: u8,
    pub flash_failure_count: u8,
}

impl ManagementDiagnostics {
    /// Nothing yet.
    pub open spec fn zero() -> ManagementDiagnostics {
        ManagementDiagnostics {
            uptime_seconds: 0,
            reset_reason: 0,
            brownout_count: 0,
            ble_disconnect_count: 0,
            ble_notify_failure_count: 0,
            usb_error_count: 0,
            flash_write_count: 0,
            flash_failure_count: 0,
        }
    }
}

impl Default for ManagementDiagnostics {
    fn default() -> (r: Self)
        ensures
            r == ManagementDiagnostics::zero(),
    {
        Self {
            uptime_seconds: 0,
            reset_reason: 0,
            brownout_count: 0,
            ble_disconnect_count: 0,
            ble_notify_failure_count: 0,
            usb_error_count: 0,
            flash_write_count: 0,
            flash_failure_count: 0,
        }
    }
}

/// Something that happened.
#[derive(Clone, Copy, Debug, PartialEq, Eq, Structural)]
pub struct ManagementHistoryEvent {
    pub kind: u8,
    pub sequence: u16,
    pub timestamp_seconds: u32,
    pub subject: u8,
    pub detail: u8,
    pub vendor_id: u16,
    pub product_id: u16,
}

/// What a client needs to know of the settings and limits.
#[derive(Clone, Copy, Debug, PartialEq, Eq, Structural)]
pub struct ManagementSchema {
    pub version: u16,
    pub setting_count: u8,
    pub history_capacity: u8,
    pub usb_capacity: u8,
    pub hash: u32,
    pub firmware_major: u8,
    pub firmware_minor: u8,
    pub firmware_patch: u8,
}

/// The value of a setting.
#[derive(Clone, Copy, Debug, PartialEq, Eq, Structural)]
pub struct ManagementSetting {
    pub id: SettingId,
    pub target: SettingTarget,
    pub value: i32,
}

/// What is known of a host.
#[derive(Clone, Copy, Debug, PartialEq, Eq)]
pub struct ManagementHostInfo {
    pub host_id: HostId,
    pub status: ManagementHostStatus,
    pub name: ManagementHostName,
    /// 0 unknown, 1 automatically discovered, 2 manually overridden.
    pub name_source: u8,
}

/// When a host came and went.
#[derive(Clone, Copy, Debug, PartialEq, Eq, Structural)]
pub struct ManagementHostTiming {
    pub host_id: HostId,
    pub last_connected_seconds: u32,
    pub last_disconnected_seconds: u32,
    pub last_disconnect_reason: u8,
}

/// A short name in printable ASCII.
#[derive(Clone, Copy, Debug, PartialEq, Eq)]
pub struct ManagementHostName {
    pub(crate) len: u8,
    pub(crate) bytes: [u8; MANAGEMENT_HOST_NAME_LEN],
}

/// Whether a byte is a space or a visible ASCII character.
pub open spec fn printable(byte: u8) -> bool {
    0x20 <= byte <= 0x7e
}

/// Whether all of the first `n` bytes are printable.
pub open spec fn all_printable(bytes: Seq<u8>, n: int) -> bool {
    forall|i: int| 0 <= i < n ==> printable(#[trigger] bytes[i])
}

fn is_printable(bytes: &[u8], n: usize) -> (r: bool)
    requires
        n <= bytes@.len(),
    ensures
        r == all_printable(bytes@, n as int),
{
    let mut i: usize = 0;
    while i < n
        invariant
            i <= n <= bytes@.len(),
            all_printable(bytes@, i as int),
        decreases n - i,
    {
        if bytes[i] < 0x20 || bytes[i] > 0x7e {
            assert(!printable(bytes@[i as int]));
            return false;
        }
        i += 1;
    }
    true
}

impl ManagementHostName {
    /// How many bytes the name has.
    pub open(crate) spec fn length(self) -> u8 {
        self.len
    }

    /// The name's buffer, which the wire carries whole.
    pub open(crate) spec fn buffer(self) -> Seq<u8> {
        self.bytes@
    }

    /// The length is within the buffer, and the name is printable.
    pub open(crate) spec fn wf(self) -> bool {
        &&& self.len <= MANAGEMENT_HOST_NAME_LEN
        &&& all_printable(self.bytes@, self.len as int)
    }

    /// A name is known by its length and its buffer.
    pub proof fn lemma_same(a: ManagementHostName, b: ManagementHostName)
        requires
            a.length() == b.length(),
            a.buffer() == b.buffer(),
        ensures
            a == b,
    {
        assert(a.bytes =~= b.bytes);
    }

    /// No name.
    pub fn empty() -> (r: Self)
        ensures
            r.wf(),
            r.length() == 0,
            r.buffer() == crate::bytes::zeros(12),
    {
        let r = Self { len: 0, bytes: [0; MANAGEMENT_HOST_NAME_LEN] };
        assert(r.buffer() =~= crate::bytes::zeros(12));
        r
    }

    /// A name that is not too long and printable.
    pub fn from_ascii(name: &str) -> (r: Result<Self, ManagementProtocolError>)
        ensures
            ({
                let bytes = name.spec_bytes();
                let fine = bytes.len() <= MANAGEMENT_HOST_NAME_LEN && all_printable(
                    bytes,
                    bytes.len() as int,
                );
                &&& fine ==> r is Ok && r->Ok_0.wf() && r->Ok_0.length() == bytes.len()
                    && r->Ok_0.buffer() == padded(bytes, 12)
                &&& !fine ==> r is Err && r->Err_0 == ManagementProtocolError::InvalidArgument
            }),
    {
        let source = name.as_bytes();
        let n: usize = source.len();
        if n > MANAGEMENT_HOST_NAME_LEN || !is_printable(source, n) {
            return Err(ManagementProtocolError::InvalidArgument);
        }
        let mut bytes = [0u8; MANAGEMENT_HOST_NAME_LEN];
        write_at(&mut bytes, 0, source);
        assert(bytes@ =~= padded(source@, 12));
        assert forall|i: int| 0 <= i < n implies printable(#[trigger] bytes@[i]) by {
            assert(bytes@[i] == source@[i]);
        }
        Ok(Self { len: n as u8, bytes })
    }

    fn from_parts(len: u8, bytes: [u8; MANAGEMENT_HOST_NAME_LEN]) -> (r: Result<
        Self,
        ManagementProtocolError,
    >)
        ensures
            len <= MANAGEMENT_HOST_NAME_LEN && all_printable(bytes@, len as int) ==> r is Ok
                && r->Ok_0.length() == len && r->Ok_0.buffer() == bytes@ && r->Ok_0.wf(),
            !(len <= MANAGEMENT_HOST_NAME_LEN && all_printable(bytes@, len as int)) ==> r is Err
                && r->Err_0 == ManagementProtocolError::InvalidArgument,
    {
        if len as usize > MANAGEMENT_HOST_NAME_LEN || !is_printable(&bytes, len as usize) {
            return Err(ManagementProtocolError::InvalidArgument);
        }
        Ok(Self { len, bytes })
    }

    /// The name's bytes.
    pub fn as_bytes(&self) -> (r: &[u8])
        requires
            self.wf(),
        ensures
            r@ == self.buffer().take(self.length() as int),
    {
        let r = part(&self.bytes, 0, self.len as usize);
        assert(r@ =~= self.buffer().take(self.len as int));
        r
    }
}

/// What is known of the link to a host.
#[derive(Clone, Copy, Debug, PartialEq, Eq, Structural)]
pub struct ManagementHostStatus {
    pub known: bool,
    pub connected: bool,
    pub encrypted: bool,
    pub bonded: bool,
}

/// The weight of a flag, if it is on.
pub open spec fn weight(on: bool, bit: int) -> int {
    if on {
        bit
    } else {
        0
    }
}

impl ManagementHostStatus {
    /// Nothing known.
    pub open spec fn unknown() -> ManagementHostStatus {
        ManagementHostStatus { known: false, connected: false, encrypted: false, bonded: false }
    }

    /// The flags as a byte.
    pub open spec fn byte(self) -> u8 {
        (weight(self.known, 1) + weight(self.connected, 2) + weight(self.encrypted, 4) + weight(
            self.bonded,
            8,
        )) as u8
    }

    /// The flags of a byte, whose other bits are ignored.
    pub open spec fn of_byte(bits: u8) -> ManagementHostStatus {
        ManagementHostStatus {
            known: bits % 2 == 1,
            connected: (bits / 2) % 2 == 1,
            encrypted: (bits / 4) % 2 == 1,
            bonded: (bits / 8) % 2 == 1,
        }
    }

    /// Nothing known.
    pub fn empty() -> (r: Self)
        ensures
            r == ManagementHostStatus::unknown(),
    {
        Self { known: false, connected: false, encrypted: false, bonded: false }
    }

    /// The flags as a byte.
    pub fn bits(self) -> (r: u8)
        ensures
            r == self.byte(),
            r < 16,
    {
        let mut bits: u8 = 0;
        if self.known {
            bits += 1;
        }
        if self.connected {
            bits += 2;
        }
        if self.encrypted {
            bits += 4;
        }
        if self.bonded {
            bits += 8;
        }
        bits
    }

    /// The flags of a byte, whose other bits are ignored.
    pub fn from_bits(bits: u8) -> (r: Self)
        ensures
            r == ManagementHostStatus::of_byte(bits),
    {
        Self {
            known: bits % 2 == 1,
            connected: (bits / 2) % 2 == 1,
            encrypted: (bits / 4) % 2 == 1,
            bonded: (bits / 8) % 2 == 1,
        }
    }
}

/// The byte of an optional host: zero stands for none.
pub open spec fn host_byte(host_id: Option<HostId>) -> u8 {
    match host_id {
        Some(host_id) => host_id.0,
        None => 0,
    }
}

/// The optional host of a byte.
pub open spec fn byte_host(value: u8) -> Option<HostId> {
    if value == 0 {
        None
    } else {
        Some(HostId(value))
    }
}

fn option_host_id(host_id: Option<HostId>) -> (r: u8)
    ensures
        r == host_byte(host_id),
{
    match host_id {
        Some(host_id) => host_id.0,
        None => 0,
    }
}

fn decode_optional_host(value: u8) -> (r: Option<HostId>)
    ensures
        r == byte_host(value),
{
    if value == 0 {
        None
    } else {
        Some(HostId(value))
    }
}

/// The two bytes of a setting's target.
pub open spec fn target_wire(target: SettingTarget) -> (u8, u8) {
    match target {
        SettingTarget::Global => (0, 0),
        SettingTarget::Host(host) => (1, host.0),
    }
}

/// The setting's target that two bytes are.
pub open spec fn target_parse(scope: u8, target: u8) -> Option<SettingTarget> {
    if scope == 0 && target == 0 {
        Some(SettingTarget::Global)
    } else if scope == 1 && 1 <= target <= 4 {
        Some(SettingTarget::Host(HostId(target)))
    } else {
        None
    }
}

fn encode_setting_target(target: SettingTarget) -> (r: (u8, u8))
    ensures
        r == target_wire(target),
{
    match target {
        SettingTarget::Global => (0, 0),
        SettingTarget::Host(host) => (1, host.0),
    }
}

fn decode_setting_target(scope: u8, target: u8) -> (r: Result<
    SettingTarget,
    ManagementProtocolError,
>)
    ensures
        target_parse(scope, target) is Some ==> r == Ok::<SettingTarget, ManagementProtocolError>(
            target_parse(scope, target)->0,
        ),
        target_parse(scope, target) is None ==> r == Err::<SettingTarget, ManagementProtocolError>(
            ManagementProtocolError::InvalidArgument,
        ),
{
    if scope == 0 && target == 0 {
        Ok(SettingTarget::Global)
    } else if scope == 1 && 1 <= target && target <= 4 {
        Ok(SettingTarget::Host(HostId(target)))
    } else {
        Err(ManagementProtocolError::InvalidArgument)
    }
}

/// The byte that stands for an availability.
pub open spec fn availability_wire(value: OutputTargetAvailability) -> u8 {
    match value {
        OutputTargetAvailability::Ready => 0,
        OutputTargetAvailability::ConnectedNotReady => 1,
        OutputTargetAvailability::Unavailable => 2,
    }
}

fn availability_byte(value: OutputTargetAvailability) -> (r: u8)
    ensures
        r == availability_wire(value),
{
    match value {
        OutputTargetAvailability::Ready => 0,
        OutputTargetAvailability::ConnectedNotReady => 1,
        OutputTargetAvailability::Unavailable => 2,
    }
}

fn availability_from_byte(value: u8) -> (r: Result<
    OutputTargetAvailability,
    ManagementProtocolError,
>)
    ensures
        r is Ok <==> value <= 2,
        r is Ok ==> availability_wire(r->Ok_0) == value,
        r is Err ==> r->Err_0 == ManagementProtocolError::InvalidArgument,
{
    match value {
        0 => Ok(OutputTargetAvailability::Ready),
        1 => Ok(OutputTargetAvailability::ConnectedNotReady),
        2 => Ok(OutputTargetAvailability::Unavailable),
        _ => Err(ManagementProtocolError::InvalidArgument),
    }
}

/// The byte that stands for a truth value.
pub open spec fn bool_wire(value: bool) -> u8 {
    if value {
        1
    } else {
        0
    }
}

fn bool_byte(value: bool) -> (r: u8)
    ensures
        r == bool_wire(value),
{
    if value {
        1
    } else {
        0
    }
}

fn decode_bool(value: u8) -> (r: Result<bool, ManagementProtocolError>)
    ensures
        r is Ok <==> value <= 1,
        r is Ok ==> bool_wire(r->Ok_0) == value,
        r is Err ==> r->Err_0 == ManagementProtocolError::InvalidArgument,
{
    match value {
        0 => Ok(false),
        1 => Ok(true),
        _ => Err(ManagementProtocolError::InvalidArgument),
    }
}

impl ManagementCommand {
    /// The byte that stands for the command.
    pub open spec fn opcode(self) -> u8 {
        match self {
            ManagementCommand::GetStatus => OP_GET_STATUS,
            ManagementCommand::SelectHost(_) => OP_SELECT_HOST,
            ManagementCommand::StartPairing(_) => OP_START_PAIRING,
            ManagementCommand::ForgetHost(_) => OP_FORGET_HOST,
            ManagementCommand::GetHostInfo(_) => OP_GET_HOST_INFO,
            ManagementCommand::SetHostName { .. } => OP_SET_HOST_NAME,
            ManagementCommand::CancelPairing => OP_CANCEL_PAIRING,
            ManagementCommand::GetUsbDevice { .. } => OP_GET_USB_DEVICE,
            ManagementCommand::GetDiagnostics => OP_GET_DIAGNOSTICS,
            ManagementCommand::GetHostTiming(_) => OP_GET_HOST_TIMING,
            ManagementCommand::GetHistory { .. } => OP_GET_HISTORY,
            ManagementCommand::GetSchema => OP_GET_SCHEMA,
            ManagementCommand::GetSetting { .. } => OP_GET_SETTING,
            ManagementCommand::SetSetting { .. } => OP_SET_SETTING,
            ManagementCommand::SelectOutputTarget(_) => OP_SELECT_OUTPUT_TARGET,
            ManagementCommand::GetOutputTargetStatus => OP_GET_OUTPUT_TARGET_STATUS,
        }
    }

    /// The bytes of the command's arguments.
    pub open spec fn arguments(self) -> Seq<u8> {
        match self {
            ManagementCommand::SelectHost(host_id) => seq![host_id.0],
            ManagementCommand::StartPairing(host_id) => seq![host_id.0],
            ManagementCommand::ForgetHost(host_id) => seq![host_id.0],
            ManagementCommand::GetHostInfo(host_id) => seq![host_id.0],
            ManagementCommand::GetHostTiming(host_id) => seq![host_id.0],
            ManagementCommand::SetHostName { host_id, name } => seq![host_id.0, name.length()]
                + name.buffer(),
            ManagementCommand::GetUsbDevice { index, name_offset } => seq![index, name_offset],
            ManagementCommand::GetHistory { index } => seq![index],
            ManagementCommand::GetSetting { id, target } => le16(id.number()) + seq![
                target_wire(target).0,
                target_wire(target).1,
            ],
            ManagementCommand::SetSetting { id, target, value } => le16(id.number()) + seq![
                target_wire(target).0,
                target_wire(target).1,
            ] + le32(bits32(value)),
            ManagementCommand::SelectOutputTarget(target) => seq![target.wire().0, target.wire().1],
            _ => seq![],
        }
    }

    /// Whether the wire can carry the command: hosts in targets are 1 to 4,
    /// and a name is printable.
    pub open spec fn valid(self) -> bool {
        match self {
            ManagementCommand::SetHostName { name, .. } => name.wf(),
            ManagementCommand::GetSetting { target, .. } => target_parse(
                target_wire(target).0,
                target_wire(target).1,
            ) == Some(target),
            ManagementCommand::SetSetting { target, .. } => target_parse(
                target_wire(target).0,
                target_wire(target).1,
            ) == Some(target),
            ManagementCommand::SelectOutputTarget(target) => ManagementOutputTarget::parse(
                target.wire().0,
                target.wire().1,
            ) == Some(target),
            _ => true,
        }
    }
}

/// The bytes of a request packet.
pub open spec fn request_packet(request_id: u8, opcode: u8, arguments: Seq<u8>) -> Seq<u8> {
    padded(
        seq![MANAGEMENT_PROTOCOL_VERSION, request_id, opcode, arguments.len() as u8] + arguments,
        MANAGEMENT_REQUEST_LEN as nat,
    )
}

/// Whether arguments are right for a command, where there is such a command.
pub open spec fn arguments_error(opcode: u8, a: Seq<u8>) -> Option<ManagementProtocolError> {
    let fine = if opcode == OP_GET_STATUS || opcode == OP_CANCEL_PAIRING || opcode
        == OP_GET_DIAGNOSTICS || opcode == OP_GET_SCHEMA || opcode == OP_GET_OUTPUT_TARGET_STATUS {
        a.len() == 0
    } else if opcode == OP_SELECT_HOST || opcode == OP_START_PAIRING || opcode == OP_FORGET_HOST
        || opcode == OP_GET_HOST_INFO || opcode == OP_GET_HOST_TIMING || opcode == OP_GET_HISTORY {
        a.len() == 1
    } else if opcode == OP_GET_USB_DEVICE {
        a.len() == 2
    } else if opcode == OP_SELECT_OUTPUT_TARGET {
        a.len() == 2 && ManagementOutputTarget::parse(a[0], a[1]) is Some
    } else if opcode == OP_GET_SETTING {
        a.len() == 4 && SettingId::of_number(u16_at(a, 0)) is Some && target_parse(a[2], a[3])
            is Some
    } else if opcode == OP_SET_SETTING {
        a.len() == 8 && SettingId::of_number(u16_at(a, 0)) is Some && target_parse(a[2], a[3])
            is Some
    } else if opcode == OP_SET_HOST_NAME {
        a.len() == 14 && a[1] <= MANAGEMENT_HOST_NAME_LEN && all_printable(a.skip(2), a[1] as int)
    } else {
        false
    };
    if fine {
        None
    } else if 1 <= opcode <= OP_GET_OUTPUT_TARGET_STATUS {
        Some(ManagementProtocolError::InvalidArgument)
    } else {
        Some(ManagementProtocolError::UnknownCommand)
    }
}

/// Why bytes are no request, where they are none.
pub open spec fn request_error(bytes: Seq<u8>) -> Option<ManagementProtocolError> {
    if bytes.len() != MANAGEMENT_REQUEST_LEN {
        Some(ManagementProtocolError::InvalidLength)
    } else if bytes[0] != MANAGEMENT_PROTOCOL_VERSION {
        Some(ManagementProtocolError::UnsupportedVersion)
    } else if bytes[3] > 16 {
        Some(ManagementProtocolError::InvalidLength)
    } else {
        arguments_error(bytes[2], bytes.subrange(4, 4 + bytes[3]))
    }
}

/// Whether bytes that are a request are this one.
pub open spec fn request_says(bytes: Seq<u8>, request: ManagementRequest) -> bool {
    &&& request.request_id == bytes[1]
    &&& request.command.opcode() == bytes[2]
    &&& request.command.arguments() == bytes.subrange(4, 4 + bytes[3])
}

fn build_request(request_id: u8, opcode: u8, arguments: &[u8]) -> (r: [u8; MANAGEMENT_REQUEST_LEN])
    requires
        arguments@.len() <= 16,
    ensures
        r@ == request_packet(request_id, opcode, arguments@),
{
    let mut bytes = [0u8; MANAGEMENT_REQUEST_LEN];
    let head: [u8; 4] = [MANAGEMENT_PROTOCOL_VERSION, request_id, opcode, arguments.len() as u8];
    write_at(&mut bytes, 0, &head);
    write_at(&mut bytes, 4, arguments);
    assert(bytes@ =~= request_packet(request_id, opcode, arguments@));
    bytes
}

fn build_host_request(request_id: u8, opcode: u8, host_id: HostId) -> (r:
    [u8; MANAGEMENT_REQUEST_LEN])
    ensures
        r@ == request_packet(request_id, opcode, seq![host_id.0]),
{
    let arguments: [u8; 1] = [host_id.0];
    assert(arguments@ =~= seq![host_id.0]);
    build_request(request_id, opcode, &arguments)
}

impl ManagementRequest {
    /// The request that `bytes` are.
    pub fn decode(bytes: &[u8]) -> (r: Result<Self, ManagementProtocolError>)
        ensures
            request_error(bytes@) is Some ==> r is Err && r->Err_0 == request_error(bytes@)->0,
            request_error(bytes@) is None ==> r is Ok && request_says(bytes@, r->Ok_0)
                && r->Ok_0.command.valid(),
    {
        if bytes.len() != MANAGEMENT_REQUEST_LEN {
            return Err(ManagementProtocolError::InvalidLength);
        }
        if bytes[0] != MANAGEMENT_PROTOCOL_VERSION {
            return Err(ManagementProtocolError::UnsupportedVersion);
        }
        let payload_len: usize = bytes[3] as usize;
        if payload_len > MANAGEMENT_REQUEST_LEN - 4 {
            return Err(ManagementProtocolError::InvalidLength);
        }
        let payload = part(bytes, 4, 4 + payload_len);
        match decode_command(bytes[2], payload) {
            Ok(command) => Ok(Self { request_id: bytes[1], command }),
            Err(error) => Err(error),
        }
    }

    /// The request's bytes.
    pub fn encode(self) -> (r: [u8; MANAGEMENT_REQUEST_LEN])
        ensures
            r@ == request_packet(
                self.request_id,
                self.command.opcode(),
                self.command.arguments(),
            ),
    {
        let id: u8 = self.request_id;
        let none: [u8; 0] = [];
        assert(none@ =~= seq![]);
        match self.command {
            ManagementCommand::GetStatus => build_request(id, OP_GET_STATUS, &none),
            ManagementCommand::SelectHost(host_id) => build_host_request(
                id,
                OP_SELECT_HOST,
                host_id,
            ),
            ManagementCommand::StartPairing(host_id) => build_host_request(
                id,
                OP_START_PAIRING,
                host_id,
            ),
            ManagementCommand::ForgetHost(host_id) => build_host_request(
                id,
                OP_FORGET_HOST,
                host_id,
            ),
            ManagementCommand::GetHostInfo(host_id) => build_host_request(
                id,
                OP_GET_HOST_INFO,
                host_id,
            ),
            ManagementCommand::CancelPairing => build_request(id, OP_CANCEL_PAIRING, &none),
            ManagementCommand::GetUsbDevice { index, name_offset } => {
                let a: [u8; 2] = [index, name_offset];
                assert(a@ =~= self.command.arguments());
                build_request(id, OP_GET_USB_DEVICE, &a)
            },
            ManagementCommand::GetDiagnostics => build_request(id, OP_GET_DIAGNOSTICS, &none),
            ManagementCommand::GetHostTiming(host_id) => build_host_request(
                id,
                OP_GET_HOST_TIMING,
                host_id,
            ),
            ManagementCommand::SelectOutputTarget(target) => {
                let (kind, target_id) = target.encode();
                let a: [u8; 2] = [kind, target_id];
                assert(a@ =~= self.command.arguments());
                build_request(id, OP_SELECT_OUTPUT_TARGET, &a)
            },
            ManagementCommand::GetOutputTargetStatus => build_request(
                id,
                OP_GET_OUTPUT_TARGET_STATUS,
                &none,
            ),
            ManagementCommand::GetHistory { index } => {
                let a: [u8; 1] = [index];
                assert(a@ =~= self.command.arguments());
                build_request(id, OP_GET_HISTORY, &a)
            },
            ManagementCommand::GetSchema => build_request(id, OP_GET_SCHEMA, &none),
            ManagementCommand::GetSetting { id: setting, target } => {
                let s = to_le16(setting.to_u16());
                let (scope, host) = encode_setting_target(target);
                let a: [u8; 4] = [s[0], s[1], scope, host];
                assert(a@ =~= self.command.arguments());
                build_request(id, OP_GET_SETTING, &a)
            },
            ManagementCommand::SetSetting { id: setting, target, value } => {
                let s = to_le16(setting.to_u16());
                let (scope, host) = encode_setting_target(target);
                let v = to_le32(to_bits32(value));
                let a: [u8; 8] = [s[0], s[1], scope, host, v[0], v[1], v[2], v[3]];
                assert(a@ =~= self.command.arguments());
                build_request(id, OP_SET_SETTING, &a)
            },
            ManagementCommand::SetHostName { host_id, name } => {
                let mut a: [u8; 14] = [0; 14];
                a[0] = host_id.0;
                a[1] = name.len;
                write_at(&mut a, 2, &name.bytes);
                assert(a@ =~= self.command.arguments());
                build_request(id, OP_SET_HOST_NAME, &a)
            },
        }
    }
}

fn one_host(payload: &[u8]) -> (r: Result<HostId, ManagementProtocolError>)
    ensures
        payload@.len() == 1 ==> r is Ok && payload@ == seq![r->Ok_0.0],
        payload@.len() != 1 ==> r is Err && r->Err_0 == ManagementProtocolError::InvalidArgument,
{
    if payload.len() != 1 {
        return Err(ManagementProtocolError::InvalidArgument);
    }
    assert(payload@ =~= seq![payload@[0]]);
    Ok(HostId(payload[0]))
}

fn decode_command(opcode: u8, payload: &[u8]) -> (r: Result<
    ManagementCommand,
    ManagementProtocolError,
>)
    ensures
        arguments_error(opcode, payload@) is Some ==> r is Err && r->Err_0 == arguments_error(
            opcode,
            payload@,
        )->0,
        arguments_error(opcode, payload@) is None ==> r is Ok && r->Ok_0.opcode() == opcode
            && r->Ok_0.arguments() == payload@ && r->Ok_0.valid(),
{
    let n: usize = payload.len();
    if opcode == OP_GET_STATUS || opcode == OP_CANCEL_PAIRING || opcode == OP_GET_DIAGNOSTICS
        || opcode == OP_GET_SCHEMA || opcode == OP_GET_OUTPUT_TARGET_STATUS {
        if n != 0 {
            return Err(ManagementProtocolError::InvalidArgument);
        }
        assert(payload@ =~= seq![]);
        if opcode == OP_GET_STATUS {
            return Ok(ManagementCommand::GetStatus);
        }
        if opcode == OP_CANCEL_PAIRING {
            return Ok(ManagementCommand::CancelPairing);
        }
        if opcode == OP_GET_DIAGNOSTICS {
            return Ok(ManagementCommand::GetDiagnostics);
        }
        if opcode == OP_GET_SCHEMA {
            return Ok(ManagementCommand::GetSchema);
        }
        return Ok(ManagementCommand::GetOutputTargetStatus);
    }
    if opcode == OP_SELECT_HOST || opcode == OP_START_PAIRING || opcode == OP_FORGET_HOST || opcode
        == OP_GET_HOST_INFO || opcode == OP_GET_HOST_TIMING || opcode == OP_GET_HISTORY {
        let host_id = match one_host(payload) {
            Ok(host_id) => host_id,
            Err(error) => {
                return Err(error);
            },
        };
        if opcode == OP_SELECT_HOST {
            return Ok(ManagementCommand::SelectHost(host_id));
        }
        if opcode == OP_START_PAIRING {
            return Ok(ManagementCommand::StartPairing(host_id));
        }
        if opcode == OP_FORGET_HOST {
            return Ok(ManagementCommand::ForgetHost(host_id));
        }
        if opcode == OP_GET_HOST_INFO {
            return Ok(ManagementCommand::GetHostInfo(host_id));
        }
        if opcode == OP_GET_HOST_TIMING {
            return Ok(ManagementCommand::GetHostTiming(host_id));
        }
        return Ok(ManagementCommand::GetHistory { index: host_id.0 });
    }
    if opcode == OP_GET_USB_DEVICE {
        if n != 2 {
            return Err(ManagementProtocolError::InvalidArgument);
        }
        assert(payload@ =~= seq![payload@[0], payload@[1]]);
        return Ok(
            ManagementCommand::GetUsbDevice { index: payload[0], name_offset: payload[1] },
        );
    }
    if opcode == OP_SELECT_OUTPUT_TARGET {
        if n != 2 {
            return Err(ManagementProtocolError::InvalidArgument);
        }
        assert(payload@ =~= seq![payload@[0], payload@[1]]);
        return match ManagementOutputTarget::decode(payload[0], payload[1]) {
            Ok(target) => Ok(ManagementCommand::SelectOutputTarget(target)),
            Err(error) => Err(error),
        };
    }
    if opcode == OP_GET_SETTING || opcode == OP_SET_SETTING {
        return decode_setting_command(opcode, payload);
    }
    if opcode == OP_SET_HOST_NAME {
        if n != 2 + MANAGEMENT_HOST_NAME_LEN {
            return Err(ManagementProtocolError::InvalidArgument);
        }
        let mut bytes = [0u8; MANAGEMENT_HOST_NAME_LEN];
        write_at(&mut bytes, 0, part(payload, 2, 14));
        assert(bytes@ =~= payload@.skip(2));
        let name = match ManagementHostName::from_parts(payload[1], bytes) {
            Ok(name) => name,
            Err(error) => {
                return Err(error);
            },
        };
        assert(payload@ =~= seq![payload@[0], payload@[1]] + bytes@);
        return Ok(ManagementCommand::SetHostName { host_id: HostId(payload[0]), name });
    }
    Err(ManagementProtocolError::UnknownCommand)
}

fn decode_setting_command(opcode: u8, payload: &[u8]) -> (r: Result<
    ManagementCommand,
    ManagementProtocolError,
>)
    requires
        opcode == OP_GET_SETTING || opcode == OP_SET_SETTING,
    ensures
        arguments_error(opcode, payload@) is Some ==> r is Err && r->Err_0 == arguments_error(
            opcode,
            payload@,
        )->0,
        arguments_error(opcode, payload@) is None ==> r is Ok && r->Ok_0.opcode() == opcode
            && r->Ok_0.arguments() == payload@ && r->Ok_0.valid(),
{
    let n: usize = payload.len();
    if (opcode == OP_GET_SETTING && n != 4) || (opcode == OP_SET_SETTING && n != 8) {
        return Err(ManagementProtocolError::InvalidArgument);
    }
    let id = match SettingId::from_u16(get16(payload, 0)) {
        Some(id) => id,
        None => {
            return Err(ManagementProtocolError::InvalidArgument);
        },
    };
    let target = match decode_setting_target(payload[2], payload[3]) {
        Ok(target) => target,
        Err(error) => {
            return Err(error);
        },
    };
    proof {
        crate::bytes::lemma_join16(payload@[0], payload@[1]);
    }
    if opcode == OP_GET_SETTING {
        let command = ManagementCommand::GetSetting { id, target };
        assert(command.arguments() =~= payload@);
        return Ok(command);
    }
    let value: i32 = from_bits32(get32(payload, 4));
    proof {
        crate::bytes::lemma_join32(payload@[4], payload@[5], payload@[6], payload@[7]);
    }
    let command = ManagementCommand::SetSetting { id, target, value };
    assert(command.arguments() =~= payload@);
    Ok(command)
}

proof fn lemma_same_arguments(a: ManagementCommand, b: ManagementCommand)
    requires
        a.opcode() == b.opcode(),
        a.arguments() == b.arguments(),
        a.valid(),
        b.valid(),
    ensures
        a == b,
{
    let x = a.arguments();
    match a {
        ManagementCommand::SelectHost(host_id) => {
            assert(x[0] == host_id.0);
        },
        ManagementCommand::StartPairing(host_id) => {
            assert(x[0] == host_id.0);
        },
        ManagementCommand::ForgetHost(host_id) => {
            assert(x[0] == host_id.0);
        },
        ManagementCommand::GetHostInfo(host_id) => {
            assert(x[0] == host_id.0);
        },
        ManagementCommand::GetHostTiming(host_id) => {
            assert(x[0] == host_id.0);
        },
        ManagementCommand::GetHistory { index } => {
            assert(x[0] == index);
        },
        ManagementCommand::GetUsbDevice { index, name_offset } => {
            assert(x[0] == index && x[1] == name_offset);
        },
        ManagementCommand::SelectOutputTarget(target) => {
            assert(x[0] == target.wire().0 && x[1] == target.wire().1);
            assert(b.arguments()[0] == x[0] && b.arguments()[1] == x[1]);
        },
        ManagementCommand::SetHostName { host_id, name } => {
            if let ManagementCommand::SetHostName { host_id: other_id, name: other } = b {
                let y = b.arguments();
                assert(x[0] == host_id.0 && x[1] == name.length());
                assert(y[0] == other_id.0 && y[1] == other.length());
                assert(x.skip(2) =~= name.buffer());
                assert(y.skip(2) =~= other.buffer());
                ManagementHostName::lemma_same(name, other);
            }
        },
        ManagementCommand::GetSetting { id, target } => {
            assert(x[0] == le16(id.number())[0]);
            assert(x[2] == target_wire(target).0 && x[3] == target_wire(target).1);
            if let ManagementCommand::GetSetting { id: other_id, target: other } = b {
                let y = b.arguments();
                assert(y[0] == le16(other_id.number())[0]);
                assert(y[2] == target_wire(other).0 && y[3] == target_wire(other).1);
            }
        },
        ManagementCommand::SetSetting { id, target, value } => {
            assert(x[0] == le16(id.number())[0]);
            assert(x[2] == target_wire(target).0 && x[3] == target_wire(target).1);
            assert(x.subrange(4, 8) =~= le32(bits32(value)));
            lemma_u32_in(x, 4, bits32(value));
            if let ManagementCommand::SetSetting { id: other_id, target: other, value: v } = b {
                let y = b.arguments();
                assert(y[0] == le16(other_id.number())[0]);
                assert(y[2] == target_wire(other).0 && y[3] == target_wire(other).1);
                assert(y.subrange(4, 8) =~= le32(bits32(v)));
                lemma_u32_in(y, 4, bits32(v));
                assert(signed32(bits32(v)) == v && signed32(bits32(value)) == value);
            }
        },
        _ => {},
    }
}

proof fn lemma_valid_arguments(c: ManagementCommand)
    requires
        c.valid(),
    ensures
        arguments_error(c.opcode(), c.arguments()) is None,
        c.arguments().len() <= 16,
{
    let a = c.arguments();
    match c {
        ManagementCommand::SetHostName { host_id, name } => {
            assert(a.skip(2) =~= name.buffer());
        },
        ManagementCommand::GetSetting { id, target } => {
            assert(a.subrange(0, 2) =~= le16(id.number()));
            lemma_u16_in(a, 0, id.number());
        },
        ManagementCommand::SetSetting { id, target, value } => {
            assert(a.subrange(0, 2) =~= le16(id.number()));
            lemma_u16_in(a, 0, id.number());
        },
        _ => {},
    }
}

/// A request is read back as it was written, and as no other.
pub proof fn law_request_round_trip(request: ManagementRequest, other: ManagementRequest)
    requires
        request.command.valid(),
    ensures
        ({
            let bytes = request_packet(
                request.request_id,
                request.command.opcode(),
                request.command.arguments(),
            );
            &&& bytes.len() == MANAGEMENT_REQUEST_LEN
            &&& request_error(bytes) is None
            &&& request_says(bytes, request)
            &&& request_says(bytes, other) && other.command.valid() ==> other == request
        }),
{
    let a = request.command.arguments();
    let bytes = request_packet(request.request_id, request.command.opcode(), a);
    lemma_valid_arguments(request.command);
    assert(bytes.subrange(4, 4 + a.len() as int) =~= a);
    assert(bytes[3] == a.len());
    if request_says(bytes, other) && other.command.valid() {
        lemma_same_arguments(other.command, request.command);
    }
}

impl ManagementResponsePayload {
    /// The byte that stands for the payload.
    pub open spec fn kind(self) -> u8 {
        match self {
            ManagementResponsePayload::Empty => PAYLOAD_NONE,
            ManagementResponsePayload::Status(_) => PAYLOAD_STATUS,
            ManagementResponsePayload::HostInfo(_) => PAYLOAD_HOST_INFO,
            ManagementResponsePayload::UsbDevice(_) => PAYLOAD_USB_DEVICE,
            ManagementResponsePayload::Diagnostics(_) => PAYLOAD_DIAGNOSTICS,
            ManagementResponsePayload::History(_) => PAYLOAD_HISTORY,
            ManagementResponsePayload::Schema(_) => PAYLOAD_SCHEMA,
            ManagementResponsePayload::Setting(_) => PAYLOAD_SETTING,
            ManagementResponsePayload::HostTiming(_) => PAYLOAD_HOST_TIMING,
            ManagementResponsePayload::OutputTargetStatus(_) => PAYLOAD_OUTPUT_TARGET_STATUS,
        }
    }

    /// The length that the packet announces.
    pub open spec fn announced(self) -> u8 {
        match self {
            ManagementResponsePayload::Empty => 0,
            ManagementResponsePayload::Status(_) => STATUS_PAYLOAD_LEN,
            ManagementResponsePayload::HostInfo(_) => HOST_INFO_PAYLOAD_LEN,
            ManagementResponsePayload::UsbDevice(_) => USB_DEVICE_PAYLOAD_LEN,
            ManagementResponsePayload::Diagnostics(_) => DIAGNOSTICS_PAYLOAD_LEN,
            ManagementResponsePayload::History(_) => HISTORY_PAYLOAD_LEN,
            ManagementResponsePayload::Schema(_) => SCHEMA_PAYLOAD_LEN,
            ManagementResponsePayload::Setting(_) => SETTING_PAYLOAD_LEN,
            ManagementResponsePayload::HostTiming(_) => HOST_TIMING_PAYLOAD_LEN,
            ManagementResponsePayload::OutputTargetStatus(_) => OUTPUT_TARGET_STATUS_PAYLOAD_LEN,
        }
    }

    /// The bytes of the payload.
    pub open spec fn body(self) -> Seq<u8> {
        match self {
            ManagementResponsePayload::Empty => seq![],
            ManagementResponsePayload::Status(s) => seq![
                host_byte(s.active_host),
                host_byte(s.pairing_host),
                s.host_count,
                s.usb.device_count,
                s.usb.interface_count,
                s.usb.keyboard_count,
                s.hosts@[0].byte(),
                s.hosts@[1].byte(),
                s.hosts@[2].byte(),
                s.hosts@[3].byte(),
            ],
            ManagementResponsePayload::HostInfo(i) => seq![
                i.host_id.0,
                (i.status.byte() + (i.name_source % 4) * 16) as u8,
                i.name.length(),
            ] + i.name.buffer(),
            ManagementResponsePayload::UsbDevice(d) => seq![d.index, d.device_id, d.flags] + le16(
                d.vendor_id,
            ) + le16(d.product_id) + seq![d.name_len, d.name_offset, d.name_chunk_len]
                + d.name_chunk@,
            ManagementResponsePayload::Diagnostics(d) => le32(d.uptime_seconds) + seq![
                d.reset_reason,
            ] + le16(d.brownout_count) + le16(d.ble_disconnect_count) + le16(
                d.ble_notify_failure_count,
            ) + le16(d.usb_error_count) + seq![d.flash_write_count, d.flash_failure_count],
            ManagementResponsePayload::History(e) => seq![e.kind] + le16(e.sequence) + le32(
                e.timestamp_seconds,
            ) + seq![e.subject, e.detail] + le16(e.vendor_id) + le16(e.product_id),
            ManagementResponsePayload::Schema(c) => le16(c.version) + seq![
                c.setting_count,
                c.history_capacity,
                c.usb_capacity,
            ] + le32(c.hash) + seq![c.firmware_major, c.firmware_minor, c.firmware_patch],
            ManagementResponsePayload::Setting(t) => le16(t.id.number()) + seq![
                target_wire(t.target).0,
                target_wire(t.target).1,
            ] + le32(bits32(t.value)),
            ManagementResponsePayload::HostTiming(t) => seq![t.host_id.0] + le32(
                t.last_connected_seconds,
            ) + le32(t.last_disconnected_seconds) + seq![t.last_disconnect_reason],
            ManagementResponsePayload::OutputTargetStatus(o) => seq![
                o.selected.wire().0,
                o.selected.wire().1,
                active_wire(o.active).0,
                active_wire(o.active).1,
                availability_wire(o.availability),
                bool_wire(o.wired_ready),
                o.ready_ble_mask,
                o.effective_presentation.byte(),
                bool_wire(o.mirror_configured),
            ] + le32(o.operation_id),
        }
    }

    /// Whether the wire can carry all of the payload.
    pub open spec fn valid(self) -> bool {
        match self {
            ManagementResponsePayload::Status(s) => s.host_count <= 4 && byte_host(
                host_byte(s.active_host),
            ) == s.active_host && byte_host(host_byte(s.pairing_host)) == s.pairing_host,
            ManagementResponsePayload::HostInfo(i) => i.name.wf() && i.name_source <= 3,
            ManagementResponsePayload::UsbDevice(d) => d.name_chunk_len <= 5 && (d.name_offset
                + d.name_chunk_len <= d.name_len || d.name_len == 255),
            ManagementResponsePayload::Setting(t) => target_parse(
                target_wire(t.target).0,
                target_wire(t.target).1,
            ) == Some(t.target),
            ManagementResponsePayload::OutputTargetStatus(o) => ManagementOutputTarget::parse(
                o.selected.wire().0,
                o.selected.wire().1,
            ) == Some(o.selected) && (o.active matches Some(active)
                ==> ManagementOutputTarget::parse(active.wire().0, active.wire().1) == Some(
                active,
            )) && o.ready_ble_mask < 16,
            _ => true,
        }
    }
}

/// The two bytes of the active target, where there may be none.
pub open spec fn active_wire(active: Option<ManagementOutputTarget>) -> (u8, u8) {
    match active {
        Some(target) => target.wire(),
        None => (0xff, 0),
    }
}

/// The bytes of a response packet.
pub open spec fn response_packet(
    request_id: u8,
    result: u8,
    kind: u8,
    announced: u8,
    body: Seq<u8>,
) -> Seq<u8> {
    padded(
        seq![MANAGEMENT_PROTOCOL_VERSION, request_id, result, kind, announced] + body,
        MANAGEMENT_RESPONSE_LEN as nat,
    )
}

/// The bytes of a response.
pub open spec fn response_bytes(response: ManagementResponse) -> Seq<u8> {
    response_packet(
        response.request_id,
        response.result.byte(),
        response.payload.kind(),
        response.payload.announced(),
        response.payload.body(),
    )
}

/// Why bytes are no response, where they are none.
pub open spec fn response_error(bytes: Seq<u8>) -> Option<ManagementProtocolError> {
    if bytes.len() != MANAGEMENT_RESPONSE_LEN {
        Some(ManagementProtocolError::InvalidLength)
    } else if bytes[0] != MANAGEMENT_PROTOCOL_VERSION {
        Some(ManagementProtocolError::UnsupportedVersion)
    } else {
        let kind = bytes[3];
        let len = bytes[4];
        let fine = ManagementResult::is_byte(bytes[2]) && (if kind == PAYLOAD_NONE {
            len == 0
        } else if kind == PAYLOAD_STATUS {
            len == STATUS_PAYLOAD_LEN && bytes[7] <= 4
        } else if kind == PAYLOAD_HOST_INFO {
            len == HOST_INFO_PAYLOAD_LEN && bytes[7] <= MANAGEMENT_HOST_NAME_LEN && all_printable(
                bytes.skip(8),
                bytes[7] as int,
            )
        } else if kind == PAYLOAD_USB_DEVICE {
            len == USB_DEVICE_PAYLOAD_LEN && bytes[14] <= 5 && (bytes[13] + bytes[14] <= bytes[12]
                || bytes[12] == 255)
        } else if kind == PAYLOAD_DIAGNOSTICS {
            len == DIAGNOSTICS_PAYLOAD_LEN
        } else if kind == PAYLOAD_HISTORY {
            len == HISTORY_PAYLOAD_LEN
        } else if kind == PAYLOAD_SCHEMA {
            len == SCHEMA_PAYLOAD_LEN
        } else if kind == PAYLOAD_SETTING {
            len == SETTING_PAYLOAD_LEN && SettingId::of_number(u16_at(bytes, 5)) is Some
                && target_parse(bytes[7], bytes[8]) is Some
        } else if kind == PAYLOAD_HOST_TIMING {
            len == HOST_TIMING_PAYLOAD_LEN
        } else if kind == PAYLOAD_OUTPUT_TARGET_STATUS {
            len == OUTPUT_TARGET_STATUS_PAYLOAD_LEN && ManagementOutputTarget::parse(
                bytes[5],
                bytes[6],
            ) is Some && (if bytes[7] == 0xff {
                bytes[8] == 0
            } else {
                ManagementOutputTarget::parse(bytes[7], bytes[8]) is Some
            }) && bytes[9] <= 2 && bytes[10] <= 1 && bytes[12] <= 1 && bytes[13] <= 1
        } else {
            false
        });
        if fine {
            None
        } else {
            Some(ManagementProtocolError::InvalidArgument)
        }
    }
}

/// Whether the payload of a response packet is this one.
pub open spec fn payload_says(bytes: Seq<u8>, payload: ManagementResponsePayload) -> bool {
    match payload {
        ManagementResponsePayload::Empty => true,
        ManagementResponsePayload::Status(s) => {
            &&& s.active_host == byte_host(bytes[5])
            &&& s.pairing_host == byte_host(bytes[6])
            &&& s.host_count == bytes[7]
            &&& s.usb == (ManagementUsbStatus {
                device_count: bytes[8],
                interface_count: bytes[9],
                keyboard_count: bytes[10],
            })
            &&& forall|i: int|
                0 <= i < 4 ==> #[trigger] s.hosts@[i] == ManagementHostStatus::of_byte(
                    bytes[11 + i],
                )
        },
        ManagementResponsePayload::HostInfo(i) => {
            &&& i.host_id == HostId(bytes[5])
            &&& i.status == ManagementHostStatus::of_byte(bytes[6])
            &&& i.name_source == (bytes[6] / 16) % 4
            &&& i.name.length() == bytes[7]
            &&& i.name.buffer() == bytes.skip(8)
        },
        ManagementResponsePayload::UsbDevice(d) => {
            &&& d.index == bytes[5]
            &&& d.device_id == bytes[6]
            &&& d.flags == bytes[7]
            &&& d.vendor_id == u16_at(bytes, 8)
            &&& d.product_id == u16_at(bytes, 10)
            &&& d.name_len == bytes[12]
            &&& d.name_offset == bytes[13]
            &&& d.name_chunk_len == bytes[14]
            &&& d.name_chunk@ == bytes.skip(15)
        },
        ManagementResponsePayload::Diagnostics(d) => d == (ManagementDiagnostics {
            uptime_seconds: u32_at(bytes, 5),
            reset_reason: bytes[9],
            brownout_count: u16_at(bytes, 10),
            ble_disconnect_count: u16_at(bytes, 12),
            ble_notify_failure_count: u16_at(bytes, 14),
            usb_error_count: u16_at(bytes, 16),
            flash_write_count: bytes[18],
            flash_failure_count: bytes[19],
        }),
        ManagementResponsePayload::History(e) => e == (ManagementHistoryEvent {
            kind: bytes[5],
            sequence: u16_at(bytes, 6),
            timestamp_seconds: u32_at(bytes, 8),
            subject: bytes[12],
            detail: bytes[13],
            vendor_id: u16_at(bytes, 14),
            product_id: u16_at(bytes, 16),
        }),
        ManagementResponsePayload::Schema(c) => c == (ManagementSchema {
            version: u16_at(bytes, 5),
            setting_count: bytes[7],
            history_capacity: bytes[8],
            usb_capacity: bytes[9],
            hash: u32_at(bytes, 10),
            firmware_major: bytes[14],
            firmware_minor: bytes[15],
            firmware_patch: bytes[16],
        }),
        ManagementResponsePayload::Setting(t) => {
            &&& Some(t.id) == SettingId::of_number(u16_at(bytes, 5))
            &&& Some(t.target) == target_parse(bytes[7], bytes[8])
            &&& t.value == signed32(u32_at(bytes, 9))
        },
        ManagementResponsePayload::HostTiming(t) => t == (ManagementHostTiming {
            host_id: HostId(bytes[5]),
            last_connected_seconds: u32_at(bytes, 6),
            last_disconnected_seconds: u32_at(bytes, 10),
            last_disconnect_reason: bytes[14],
        }),
        ManagementResponsePayload::OutputTargetStatus(o) => {
            &&& Some(o.selected) == ManagementOutputTarget::parse(bytes[5], bytes[6])
            &&& o.active == (if bytes[7] == 0xff {
                None
            } else {
                ManagementOutputTarget::parse(bytes[7], bytes[8])
            })
            &&& availability_wire(o.availability) == bytes[9]
            &&& bool_wire(o.wired_ready) == bytes[10]
            &&& o.ready_ble_mask == bytes[11] % 16
            &&& o.effective_presentation.byte() == bytes[12]
            &&& bool_wire(o.mirror_configured) == bytes[13]
            &&& o.operation_id == u32_at(bytes, 14)
        },
    }
}

/// Whether bytes that are a response are this one.
pub open spec fn response_says(bytes: Seq<u8>, response: ManagementResponse) -> bool {
    &&& response.request_id == bytes[1]
    &&& response.result.byte() == bytes[2]
    &&& response.payload.kind() == bytes[3]
    &&& payload_says(bytes, response.payload)
}

fn build_response(head: [u8; 5], body: &[u8]) -> (r: [u8; MANAGEMENT_RESPONSE_LEN])
    requires
        body@.len() <= 15,
        head@[0] == MANAGEMENT_PROTOCOL_VERSION,
    ensures
        r@ == response_packet(head@[1], head@[2], head@[3], head@[4], body@),
{
    let mut bytes = [0u8; MANAGEMENT_RESPONSE_LEN];
    write_at(&mut bytes, 0, &head);
    write_at(&mut bytes, 5, body);
    assert(bytes@ =~= response_packet(head@[1], head@[2], head@[3], head@[4], body@));
    bytes
}

fn status_body(s: ManagementStatus) -> (r: [u8; 10])
    ensures
        r@ == (ManagementResponsePayload::Status(s)).body(),
{
    let r = [
        option_host_id(s.active_host),
        option_host_id(s.pairing_host),
        s.host_count,
        s.usb.device_count,
        s.usb.interface_count,
        s.usb.keyboard_count,
        s.hosts[0].bits(),
        s.hosts[1].bits(),
        s.hosts[2].bits(),
        s.hosts[3].bits(),
    ];
    assert(r@ =~= (ManagementResponsePayload::Status(s)).body());
    r
}

fn host_info_body(i: ManagementHostInfo) -> (r: [u8; 15])
    ensures
        r@ == (ManagementResponsePayload::HostInfo(i)).body(),
{
    let mut r: [u8; 15] = [0; 15];
    r[0] = i.host_id.0;
    r[1] = i.status.bits() + (i.name_source % 4) * 16;
    r[2] = i.name.len;
    write_at(&mut r, 3, &i.name.bytes);
    assert(r@ =~= (ManagementResponsePayload::HostInfo(i)).body());
    r
}

fn usb_device_body(d: ManagementUsbDevice) -> (r: [u8; 15])
    ensures
        r@ == (ManagementResponsePayload::UsbDevice(d)).body(),
{
    let v = to_le16(d.vendor_id);
    let p = to_le16(d.product_id);
    let c = d.name_chunk;
    let r = [
        d.index, d.device_id, d.flags, v[0], v[1], p[0], p[1], d.name_len, d.name_offset,
        d.name_chunk_len, c[0], c[1], c[2], c[3], c[4],
    ];
    assert(r@ =~= (ManagementResponsePayload::UsbDevice(d)).body());
    r
}

fn diagnostics_body(d: ManagementDiagnostics) -> (r: [u8; 15])
    ensures
        r@ == (ManagementResponsePayload::Diagnostics(d)).body(),
{
    let u = to_le32(d.uptime_seconds);
    let b = to_le16(d.brownout_count);
    let c = to_le16(d.ble_disconnect_count);
    let n = to_le16(d.ble_notify_failure_count);
    let e = to_le16(d.usb_error_count);
    let r = [
        u[0], u[1], u[2], u[3], d.reset_reason, b[0], b[1], c[0], c[1], n[0], n[1], e[0], e[1],
        d.flash_write_count, d.flash_failure_count,
    ];
    assert(r@ =~= (ManagementResponsePayload::Diagnostics(d)).body());
    r
}

fn history_body(e: ManagementHistoryEvent) -> (r: [u8; 13])
    ensures
        r@ == (ManagementResponsePayload::History(e)).body(),
{
    let s = to_le16(e.sequence);
    let t = to_le32(e.timestamp_seconds);
    let v = to_le16(e.vendor_id);
    let p = to_le16(e.product_id);
    let r = [
        e.kind, s[0], s[1], t[0], t[1], t[2], t[3], e.subject, e.detail, v[0], v[1], p[0], p[1],
    ];
    assert(r@ =~= (ManagementResponsePayload::History(e)).body());
    r
}

fn schema_body(c: ManagementSchema) -> (r: [u8; 12])
    ensures
        r@ == (ManagementResponsePayload::Schema(c)).body(),
{
    let v = to_le16(c.version);
    let h = to_le32(c.hash);
    let r = [
        v[0], v[1], c.setting_count, c.history_capacity, c.usb_capacity, h[0], h[1], h[2], h[3],
        c.firmware_major, c.firmware_minor, c.firmware_patch,
    ];
    assert(r@ =~= (ManagementResponsePayload::Schema(c)).body());
    r
}

fn setting_body(t: ManagementSetting) -> (r: [u8; 8])
    ensures
        r@ == (ManagementResponsePayload::Setting(t)).body(),
{
    let s = to_le16(t.id.to_u16());
    let (scope, host) = encode_setting_target(t.target);
    let v = to_le32(to_bits32(t.value));
    let r = [s[0], s[1], scope, host, v[0], v[1], v[2], v[3]];
    assert(r@ =~= (ManagementResponsePayload::Setting(t)).body());
    r
}

fn host_timing_body(t: ManagementHostTiming) -> (r: [u8; 10])
    ensures
        r@ == (ManagementResponsePayload::HostTiming(t)).body(),
{
    let c = to_le32(t.last_connected_seconds);
    let d = to_le32(t.last_disconnected_seconds);
    let r = [
        t.host_id.0, c[0], c[1], c[2], c[3], d[0], d[1], d[2], d[3], t.last_disconnect_reason,
    ];
    assert(r@ =~= (ManagementResponsePayload::HostTiming(t)).body());
    r
}

fn output_target_body(o: ManagementOutputTargetStatus) -> (r: [u8; 13])
    ensures
        r@ == (ManagementResponsePayload::OutputTargetStatus(o)).body(),
{
    let (selected_kind, selected_id) = o.selected.encode();
    let (active_kind, active_id): (u8, u8) = match o.active {
        Some(active) => active.encode(),
        None => (0xff, 0),
    };
    let i = to_le32(o.operation_id);
    let r = [
        selected_kind, selected_id, active_kind, active_id, availability_byte(o.availability),
        bool_byte(o.wired_ready), o.ready_ble_mask, o.effective_presentation.to_byte(),
        bool_byte(o.mirror_configured), i[0], i[1], i[2], i[3],
    ];
    assert(r@ =~= (ManagementResponsePayload::OutputTargetStatus(o)).body());
    r
}

impl ManagementResponse {
    /// The response's bytes.
    pub fn encode(self) -> (r: [u8; MANAGEMENT_RESPONSE_LEN])
        ensures
            r@ == response_bytes(self),
    {
        let version: u8 = MANAGEMENT_PROTOCOL_VERSION;
        let id: u8 = self.request_id;
        let result: u8 = self.result.to_byte();
        match self.payload {
            ManagementResponsePayload::Empty => {
                let none: [u8; 0] = [];
                assert(none@ =~= seq![]);
                build_response([version, id, result, PAYLOAD_NONE, 0], &none)
            },
            ManagementResponsePayload::Status(status) => build_response(
                [version, id, result, PAYLOAD_STATUS, STATUS_PAYLOAD_LEN],
                &status_body(status),
            ),
            ManagementResponsePayload::HostInfo(info) => build_response(
                [version, id, result, PAYLOAD_HOST_INFO, HOST_INFO_PAYLOAD_LEN],
                &host_info_body(info),
            ),
            ManagementResponsePayload::UsbDevice(device) => build_response(
                [version, id, result, PAYLOAD_USB_DEVICE, USB_DEVICE_PAYLOAD_LEN],
                &usb_device_body(device),
            ),
            ManagementResponsePayload::Diagnostics(diagnostics) => build_response(
                [version, id, result, PAYLOAD_DIAGNOSTICS, DIAGNOSTICS_PAYLOAD_LEN],
                &diagnostics_body(diagnostics),
            ),
            ManagementResponsePayload::History(event) => build_response(
                [version, id, result, PAYLOAD_HISTORY, HISTORY_PAYLOAD_LEN],
                &history_body(event),
            ),
            ManagementResponsePayload::Schema(schema) => build_response(
                [version, id, result, PAYLOAD_SCHEMA, SCHEMA_PAYLOAD_LEN],
                &schema_body(schema),
            ),
            ManagementResponsePayload::Setting(setting) => build_response(
                [version, id, result, PAYLOAD_SETTING, SETTING_PAYLOAD_LEN],
                &setting_body(setting),
            ),
            ManagementResponsePayload::HostTiming(timing) => build_response(
                [version, id, result, PAYLOAD_HOST_TIMING, HOST_TIMING_PAYLOAD_LEN],
                &host_timing_body(timing),
            ),
            ManagementResponsePayload::OutputTargetStatus(status) => build_response(
                [
                    version,
                    id,
                    result,
                    PAYLOAD_OUTPUT_TARGET_STATUS,
                    OUTPUT_TARGET_STATUS_PAYLOAD_LEN,
                ],
                &output_target_body(status),
            ),
        }
    }

    /// The response that `bytes` are.
    pub fn decode(bytes: &[u8]) -> (r: Result<Self, ManagementProtocolError>)
        ensures
            response_error(bytes@) is Some ==> r is Err && r->Err_0 == response_error(bytes@)->0,
            response_error(bytes@) is None ==> r is Ok && response_says(bytes@, r->Ok_0),
    {
        if bytes.len() != MANAGEMENT_RESPONSE_LEN {
            return Err(ManagementProtocolError::InvalidLength);
        }
        if bytes[0] != MANAGEMENT_PROTOCOL_VERSION {
            return Err(ManagementProtocolError::UnsupportedVersion);
        }
        let result = match ManagementResult::from_byte(bytes[2]) {
            Ok(result) => result,
            Err(error) => {
                return Err(error);
            },
        };
        match decode_payload(bytes) {
            Ok(payload) => Ok(Self { request_id: bytes[1], result, payload }),
            Err(error) => Err(error),
        }
    }
}

fn decode_payload(bytes: &[u8]) -> (r: Result<ManagementResponsePayload, ManagementProtocolError>)
    requires
        bytes@.len() == MANAGEMENT_RESPONSE_LEN,
        bytes@[0] == MANAGEMENT_PROTOCOL_VERSION,
        ManagementResult::is_byte(bytes@[2]),
    ensures
        response_error(bytes@) is Some ==> r is Err && r->Err_0 == response_error(bytes@)->0,
        response_error(bytes@) is None ==> r is Ok && payload_says(bytes@, r->Ok_0)
            && r->Ok_0.kind() == bytes@[3],
{
    let kind: u8 = bytes[3];
    let len: u8 = bytes[4];
    if kind == PAYLOAD_NONE && len == 0 {
        return Ok(ManagementResponsePayload::Empty);
    }
    if kind == PAYLOAD_STATUS && len == STATUS_PAYLOAD_LEN {
        if bytes[7] > 4 {
            return Err(ManagementProtocolError::InvalidArgument);
        }
        let hosts = [
            ManagementHostStatus::from_bits(bytes[11]),
            ManagementHostStatus::from_bits(bytes[12]),
            ManagementHostStatus::from_bits(bytes[13]),
            ManagementHostStatus::from_bits(bytes[14]),
        ];
        assert forall|i: int| 0 <= i < 4 implies #[trigger] hosts@[i]
            == ManagementHostStatus::of_byte(bytes@[11 + i]) by {
            assert(i == 0 || i == 1 || i == 2 || i == 3);
        }
        return Ok(
            ManagementResponsePayload::Status(
                ManagementStatus {
                    active_host: decode_optional_host(bytes[5]),
                    pairing_host: decode_optional_host(bytes[6]),
                    host_count: bytes[7],
                    usb: ManagementUsbStatus {
                        device_count: bytes[8],
                        interface_count: bytes[9],
                        keyboard_count: bytes[10],
                    },
                    hosts,
                },
            ),
        );
    }
    if kind == PAYLOAD_HOST_INFO && len == HOST_INFO_PAYLOAD_LEN {
        let mut buffer = [0u8; MANAGEMENT_HOST_NAME_LEN];
        write_at(&mut buffer, 0, part(bytes, 8, 20));
        assert(buffer@ =~= bytes@.skip(8));
        return match ManagementHostName::from_parts(bytes[7], buffer) {
            Err(error) => Err(error),
            Ok(name) => Ok(
                ManagementResponsePayload::HostInfo(
                    ManagementHostInfo {
                        host_id: HostId(bytes[5]),
                        status: ManagementHostStatus::from_bits(bytes[6]),
                        name,
                        name_source: (bytes[6] / 16) % 4,
                    },
                ),
            ),
        };
    }
    if kind == PAYLOAD_USB_DEVICE && len == USB_DEVICE_PAYLOAD_LEN {
        if bytes[14] > 5 || bytes[13].saturating_add(bytes[14]) > bytes[12] {
            return Err(ManagementProtocolError::InvalidArgument);
        }
        let name_chunk: [u8; 5] = [bytes[15], bytes[16], bytes[17], bytes[18], bytes[19]];
        assert(name_chunk@ =~= bytes@.skip(15));
        return Ok(
            ManagementResponsePayload::UsbDevice(
                ManagementUsbDevice {
                    index: bytes[5],
                    device_id: bytes[6],
                    flags: bytes[7],
                    vendor_id: get16(bytes, 8),
                    product_id: get16(bytes, 10),
                    name_len: bytes[12],
                    name_offset: bytes[13],
                    name_chunk_len: bytes[14],
                    name_chunk,
                },
            ),
        );
    }
    if kind == PAYLOAD_DIAGNOSTICS && len == DIAGNOSTICS_PAYLOAD_LEN {
        return Ok(
            ManagementResponsePayload::Diagnostics(
                ManagementDiagnostics {
                    uptime_seconds: get32(bytes, 5),
                    reset_reason: bytes[9],
                    brownout_count: get16(bytes, 10),
                    ble_disconnect_count: get16(bytes, 12),
                    ble_notify_failure_count: get16(bytes, 14),
                    usb_error_count: get16(bytes, 16),
                    flash_write_count: bytes[18],
                    flash_failure_count: bytes[19],
                },
            ),
        );
    }
    if kind == PAYLOAD_HISTORY && len == HISTORY_PAYLOAD_LEN {
        return Ok(
            ManagementResponsePayload::History(
                ManagementHistoryEvent {
                    kind: bytes[5],
                    sequence: get16(bytes, 6),
                    timestamp_seconds: get32(bytes, 8),
                    subject: bytes[12],
                    detail: bytes[13],
                    vendor_id: get16(bytes, 14),
                    product_id: get16(bytes, 16),
                },
            ),
        );
    }
    if kind == PAYLOAD_SCHEMA && len == SCHEMA_PAYLOAD_LEN {
        return Ok(
            ManagementResponsePayload::Schema(
                ManagementSchema {
                    version: get16(bytes, 5),
                    setting_count: bytes[7],
                    history_capacity: bytes[8],
                    usb_capacity: bytes[9],
                    hash: get32(bytes, 10),
                    firmware_major: bytes[14],
                    firmware_minor: bytes[15],
                    firmware_patch: bytes[16],
                },
            ),
        );
    }
    if kind == PAYLOAD_SETTING && len == SETTING_PAYLOAD_LEN {
        let id = match SettingId::from_u16(get16(bytes, 5)) {
            Some(id) => id,
            None => {
                return Err(ManagementProtocolError::InvalidArgument);
            },
        };
        return match decode_setting_target(bytes[7], bytes[8]) {
            Err(error) => Err(error),
            Ok(target) => Ok(
                ManagementResponsePayload::Setting(
                    ManagementSetting { id, target, value: from_bits32(get32(bytes, 9)) },
                ),
            ),
        };
    }
    if kind == PAYLOAD_HOST_TIMING && len == HOST_TIMING_PAYLOAD_LEN {
        return Ok(
            ManagementResponsePayload::HostTiming(
                ManagementHostTiming {
                    host_id: HostId(bytes[5]),
                    last_connected_seconds: get32(bytes, 6),
                    last_disconnected_seconds: get32(bytes, 10),
                    last_disconnect_reason: bytes[14],
                },
            ),
        );
    }
    if kind == PAYLOAD_OUTPUT_TARGET_STATUS && len == OUTPUT_TARGET_STATUS_PAYLOAD_LEN {
        return decode_output_target_status(bytes);
    }
    Err(ManagementProtocolError::InvalidArgument)
}

fn decode_output_target_status(bytes: &[u8]) -> (r: Result<
    ManagementResponsePayload,
    ManagementProtocolError,
>)
    requires
        bytes@.len() == MANAGEMENT_RESPONSE_LEN,
        bytes@[0] == MANAGEMENT_PROTOCOL_VERSION,
        ManagementResult::is_byte(bytes@[2]),
        bytes@[3] == PAYLOAD_OUTPUT_TARGET_STATUS,
        bytes@[4] == OUTPUT_TARGET_STATUS_PAYLOAD_LEN,
    ensures
        response_error(bytes@) is Some ==> r is Err && r->Err_0 == response_error(bytes@)->0,
        response_error(bytes@) is None ==> r is Ok && payload_says(bytes@, r->Ok_0)
            && r->Ok_0.kind() == bytes@[3],
{
    let selected = match ManagementOutputTarget::decode(bytes[5], bytes[6]) {
        Ok(selected) => selected,
        Err(error) => {
            return Err(error);
        },
    };
    let active = if bytes[7] == 0xff {
        if bytes[8] != 0 {
            return Err(ManagementProtocolError::InvalidArgument);
        }
        None
    } else {
        match ManagementOutputTarget::decode(bytes[7], bytes[8]) {
            Ok(active) => Some(active),
            Err(error) => {
                return Err(error);
            },
        }
    };
    let availability = match availability_from_byte(bytes[9]) {
        Ok(availability) => availability,
        Err(error) => {
            return Err(error);
        },
    };
    let wired_ready = match decode_bool(bytes[10]) {
        Ok(wired_ready) => wired_ready,
        Err(error) => {
            return Err(error);
        },
    };
    let effective_presentation = match ManagementUsbPresentationKind::from_byte(bytes[12]) {
        Ok(kind) => kind,
        Err(error) => {
            return Err(error);
        },
    };
    let mirror_configured = match decode_bool(bytes[13]) {
        Ok(mirror_configured) => mirror_configured,
        Err(error) => {
            return Err(error);
        },
    };
    Ok(
        ManagementResponsePayload::OutputTargetStatus(
            ManagementOutputTargetStatus {
                selected,
                active,
                availability,
                wired_ready,
                ready_ble_mask: bytes[11] % 16,
                effective_presentation,
                mirror_configured,
                operation_id: get32(bytes, 14),
            },
        ),
    )
}

proof fn lemma_status_read_back(response: ManagementResponse)
    requires
        response.payload is Status,
        response.payload.valid(),
    ensures
        response_error(response_bytes(response)) is None,
        payload_says(response_bytes(response), response.payload),
{
    if let ManagementResponsePayload::Status(x) = response.payload {
        let bytes = response_bytes(response);
        let b = response.payload.body();
        assert(b.len() <= 15);
        assert(bytes.len() == 20);
        assert(bytes[0] == 1 && bytes[2] == response.result.byte() && bytes[3]
            == response.payload.kind() && bytes[4] == response.payload.announced());
        assert(bytes.subrange(5, 5 + b.len() as int) =~= b);
        assert(bytes[5] == b[0] && bytes[6] == b[1] && bytes[7] == b[2] && bytes[8] == b[3]
            && bytes[9] == b[4] && bytes[10] == b[5]);
        assert forall|i: int| 0 <= i < 4 implies #[trigger] x.hosts@[i]
            == ManagementHostStatus::of_byte(bytes[11 + i]) by {
            assert(i == 0 || i == 1 || i == 2 || i == 3);
            assert(bytes[11 + i] == b[6 + i]);
        }
    }
}

proof fn lemma_host_info_read_back(response: ManagementResponse)
    requires
        response.payload is HostInfo,
        response.payload.valid(),
    ensures
        response_error(response_bytes(response)) is None,
        payload_says(response_bytes(response), response.payload),
{
    if let ManagementResponsePayload::HostInfo(x) = response.payload {
        let bytes = response_bytes(response);
        let b = response.payload.body();
        assert(b.len() <= 15);
        assert(bytes.len() == 20);
        assert(bytes[0] == 1 && bytes[2] == response.result.byte() && bytes[3]
            == response.payload.kind() && bytes[4] == response.payload.announced());
        assert(bytes.subrange(5, 5 + b.len() as int) =~= b);
        assert(bytes[5] == b[0] && bytes[6] == b[1] && bytes[7] == b[2]);
        assert(bytes.skip(8) =~= x.name.buffer());
    }
}

proof fn lemma_usb_device_read_back(response: ManagementResponse)
    requires
        response.payload is UsbDevice,
        response.payload.valid(),
    ensures
        response_error(response_bytes(response)) is None,
        payload_says(response_bytes(response), response.payload),
{
    if let ManagementResponsePayload::UsbDevice(x) = response.payload {
        let bytes = response_bytes(response);
        let b = response.payload.body();
        assert(b.len() <= 15);
        assert(bytes.len() == 20);
        assert(bytes[0] == 1 && bytes[2] == response.result.byte() && bytes[3]
            == response.payload.kind() && bytes[4] == response.payload.announced());
        assert(bytes.subrange(5, 5 + b.len() as int) =~= b);
        assert(bytes.subrange(8, 10) =~= le16(x.vendor_id));
        assert(bytes.subrange(10, 12) =~= le16(x.product_id));
        lemma_u16_in(bytes, 8, x.vendor_id);
        lemma_u16_in(bytes, 10, x.product_id);
        assert(bytes.skip(15) =~= x.name_chunk@);
    }
}

proof fn lemma_diagnostics_read_back(response: ManagementResponse)
    requires
        response.payload is Diagnostics,
        response.payload.valid(),
    ensures
        response_error(response_bytes(response)) is None,
        payload_says(response_bytes(response), response.payload),
{
    if let ManagementResponsePayload::Diagnostics(x) = response.payload {
        let bytes = response_bytes(response);
        let b = response.payload.body();
        assert(b.len() <= 15);
        assert(bytes.len() == 20);
        assert(bytes[0] == 1 && bytes[2] == response.result.byte() && bytes[3]
            == response.payload.kind() && bytes[4] == response.payload.announced());
        assert(bytes.subrange(5, 5 + b.len() as int) =~= b);
        assert(bytes.subrange(5, 9) =~= le32(x.uptime_seconds));
        assert(bytes.subrange(10, 12) =~= le16(x.brownout_count));
        assert(bytes.subrange(12, 14) =~= le16(x.ble_disconnect_count));
        assert(bytes.subrange(14, 16) =~= le16(x.ble_notify_failure_count));
        assert(bytes.subrange(16, 18) =~= le16(x.usb_error_count));
        lemma_u32_in(bytes, 5, x.uptime_seconds);
        lemma_u16_in(bytes, 10, x.brownout_count);
        lemma_u16_in(bytes, 12, x.ble_disconnect_count);
        lemma_u16_in(bytes, 14, x.ble_notify_failure_count);
        lemma_u16_in(bytes, 16, x.usb_error_count);
    }
}

proof fn lemma_history_read_back(response: ManagementResponse)
    requires
        response.payload is History,
        response.payload.valid(),
    ensures
        response_error(response_bytes(response)) is None,
        payload_says(response_bytes(response), response.payload),
{
    if let ManagementResponsePayload::History(x) = response.payload {
        let bytes = response_bytes(response);
        let b = response.payload.body();
        assert(b.len() <= 15);
        assert(bytes.len() == 20);
        assert(bytes[0] == 1 && bytes[2] == response.result.byte() && bytes[3]
            == response.payload.kind() && bytes[4] == response.payload.announced());
        assert(bytes.subrange(5, 5 + b.len() as int) =~= b);
        assert(bytes.subrange(6, 8) =~= le16(x.sequence));
        assert(bytes.subrange(8, 12) =~= le32(x.timestamp_seconds));
        assert(bytes.subrange(14, 16) =~= le16(x.vendor_id));
        assert(bytes.subrange(16, 18) =~= le16(x.product_id));
        lemma_u16_in(bytes, 6, x.sequence);
        lemma_u32_in(bytes, 8, x.timestamp_seconds);
        lemma_u16_in(bytes, 14, x.vendor_id);
        lemma_u16_in(bytes, 16, x.product_id);
    }
}

proof fn lemma_schema_read_back(response: ManagementResponse)
    requires
        response.payload is Schema,
        response.payload.valid(),
    ensures
        response_error(response_bytes(response)) is None,
        payload_says(response_bytes(response), response.payload),
{
    if let ManagementResponsePayload::Schema(x) = response.payload {
        let bytes = response_bytes(response);
        let b = response.payload.body();
        assert(b.len() <= 15);
        assert(bytes.len() == 20);
        assert(bytes[0] == 1 && bytes[2] == response.result.byte() && bytes[3]
            == response.payload.kind() && bytes[4] == response.payload.announced());
        assert(bytes.subrange(5, 5 + b.len() as int) =~= b);
        assert(bytes.subrange(5, 7) =~= le16(x.version));
        assert(bytes.subrange(10, 14) =~= le32(x.hash));
        lemma_u16_in(bytes, 5, x.version);
        lemma_u32_in(bytes, 10, x.hash);
    }
}

proof fn lemma_setting_read_back(response: ManagementResponse)
    requires
        response.payload is Setting,
        response.payload.valid(),
    ensures
        response_error(response_bytes(response)) is None,
        payload_says(response_bytes(response), response.payload),
{
    if let ManagementResponsePayload::Setting(x) = response.payload {
        let bytes = response_bytes(response);
        let b = response.payload.body();
        assert(b.len() <= 15);
        assert(bytes.len() == 20);
        assert(bytes[0] == 1 && bytes[2] == response.result.byte() && bytes[3]
            == response.payload.kind() && bytes[4] == response.payload.announced());
        assert(bytes.subrange(5, 5 + b.len() as int) =~= b);
        assert(bytes.subrange(5, 7) =~= le16(x.id.number()));
        assert(bytes.subrange(9, 13) =~= le32(bits32(x.value)));
        lemma_u16_in(bytes, 5, x.id.number());
        lemma_u32_in(bytes, 9, bits32(x.value));
        assert(bytes[7] == target_wire(x.target).0 && bytes[8] == target_wire(x.target).1);
    }
}

proof fn lemma_host_timing_read_back(response: ManagementResponse)
    requires
        response.payload is HostTiming,
        response.payload.valid(),
    ensures
        response_error(response_bytes(response)) is None,
        payload_says(response_bytes(response), response.payload),
{
    if let ManagementResponsePayload::HostTiming(x) = response.payload {
        let bytes = response_bytes(response);
        let b = response.payload.body();
        assert(b.len() <= 15);
        assert(bytes.len() == 20);
        assert(bytes[0] == 1 && bytes[2] == response.result.byte() && bytes[3]
            == response.payload.kind() && bytes[4] == response.payload.announced());
        assert(bytes.subrange(5, 5 + b.len() as int) =~= b);
        assert(bytes.subrange(6, 10) =~= le32(x.last_connected_seconds));
        assert(bytes.subrange(10, 14) =~= le32(x.last_disconnected_seconds));
        lemma_u32_in(bytes, 6, x.last_connected_seconds);
        lemma_u32_in(bytes, 10, x.last_disconnected_seconds);
    }
}

proof fn lemma_output_target_read_back(response: ManagementResponse)
    requires
        response.payload is OutputTargetStatus,
        response.payload.valid(),
    ensures
        response_error(response_bytes(response)) is None,
        payload_says(response_bytes(response), response.payload),
{
    if let ManagementResponsePayload::OutputTargetStatus(x) = response.payload {
        let bytes = response_bytes(response);
        let b = response.payload.body();
        assert(b.len() <= 15);
        assert(bytes.len() == 20);
        assert(bytes[0] == 1 && bytes[2] == response.result.byte() && bytes[3]
            == response.payload.kind() && bytes[4] == response.payload.announced());
        assert(bytes.subrange(5, 5 + b.len() as int) =~= b);
        assert(forall|i: int| 0 <= i < 9 ==> bytes[5 + i] == b[i]);
        assert(bytes[5] == b[0] && bytes[6] == b[1] && bytes[7] == b[2] && bytes[8] == b[3]
            && bytes[9] == b[4] && bytes[10] == b[5] && bytes[11] == b[6] && bytes[12] == b[7]
            && bytes[13] == b[8]);
        assert(bytes.subrange(14, 18) =~= le32(x.operation_id));
        lemma_u32_in(bytes, 14, x.operation_id);
    }
}

proof fn lemma_same_payload(
    bytes: Seq<u8>,
    a: ManagementResponsePayload,
    b: ManagementResponsePayload,
)
    requires
        a.kind() == b.kind(),
        payload_says(bytes, a),
        payload_says(bytes, b),
    ensures
        a == b,
{
    match a {
        ManagementResponsePayload::Status(x) => {
            if let ManagementResponsePayload::Status(y) = b {
                assert(x.hosts =~= y.hosts) by {
                    assert forall|i: int| 0 <= i < 4 implies x.hosts[i] == y.hosts[i] by {
                        assert(x.hosts@[i] == y.hosts@[i]);
                    }
                }
            }
        },
        ManagementResponsePayload::HostInfo(x) => {
            if let ManagementResponsePayload::HostInfo(y) = b {
                ManagementHostName::lemma_same(x.name, y.name);
            }
        },
        ManagementResponsePayload::UsbDevice(x) => {
            if let ManagementResponsePayload::UsbDevice(y) = b {
                assert(x.name_chunk =~= y.name_chunk);
            }
        },
        _ => {},
    }
}

/// A response is read back as it was written, and as no other.
pub proof fn law_response_round_trip(response: ManagementResponse, other: ManagementResponse)
    requires
        response.payload.valid(),
    ensures
        response_bytes(response).len() == MANAGEMENT_RESPONSE_LEN,
        response_error(response_bytes(response)) is None,
        response_says(response_bytes(response), response),
        response_says(response_bytes(response), other) ==> other == response,
{
    let bytes = response_bytes(response);
    match response.payload {
        ManagementResponsePayload::Empty => {},
        ManagementResponsePayload::Status(_) => lemma_status_read_back(response),
        ManagementResponsePayload::HostInfo(_) => lemma_host_info_read_back(response),
        ManagementResponsePayload::UsbDevice(_) => lemma_usb_device_read_back(response),
        ManagementResponsePayload::Diagnostics(_) => lemma_diagnostics_read_back(response),
        ManagementResponsePayload::History(_) => lemma_history_read_back(response),
        ManagementResponsePayload::Schema(_) => lemma_schema_read_back(response),
        ManagementResponsePayload::Setting(_) => lemma_setting_read_back(response),
        ManagementResponsePayload::HostTiming(_) => lemma_host_timing_read_back(response),
        ManagementResponsePayload::OutputTargetStatus(_) => lemma_output_target_read_back(response),
    }
    lemma_response_head(response);
    if response_says(bytes, other) {
        lemma_same_payload(bytes, other.payload, response.payload);
    }
}

proof fn lemma_response_head(response: ManagementResponse)
    ensures
        response_bytes(response).len() == MANAGEMENT_RESPONSE_LEN,
        response_bytes(response)[1] == response.request_id,
        response_bytes(response)[2] == response.result.byte(),
        response_bytes(response)[3] == response.payload.kind(),
{
    assert(response.payload.body().len() <= 15);
}

} // verus!
