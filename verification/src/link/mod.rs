//! Transport-independent protocol for the bridge between two chips.
//!
//! The wire format is deliberately smaller than one radio payload. The same
//! packets can be carried over a serial line without changing HID semantics.

pub mod composite;
pub mod input_record;
pub mod input_scheduler;
pub mod message;
pub mod sequence;
pub mod session;
pub mod snapshot;
pub mod state_refresh;
pub mod watchdog;
pub mod wire;

pub use composite::{
    CompositeDescriptor, CompositeDescriptorError, ReportIdMapping, COMPOSITE_DESCRIPTOR_MAX,
};
pub use input_record::InputReportRecord;
pub use input_scheduler::{
    InputDeliveryClass, InputScheduler, InputSchedulerError, InputSchedulerStats, ScheduledInput,
};
pub use message::{
    BridgeMessage, BridgeMessageError, BridgeRole, HidReportType, InputLane, InterfaceDescriptor,
    MotionCumulative, MAX_BRIDGE_MESSAGE_SIZE, MAX_HID_INTERFACES,
    MAX_HID_REPORT_DESCRIPTOR_SIZE, MAX_HID_REPORT_SIZE,
};
pub use sequence::{InputSequenceDecision, InputSequenceWindow, ReplayWindow};
pub use session::{SessionDecision, SessionHandshake};
pub use snapshot::{
    EncodedInputSnapshot, InputSnapshotHistory, InputSnapshotRecord, InputSnapshotRecords,
    SnapshotError, INPUT_SNAPSHOT_RECORD_HEADER_LEN, REALTIME_CRITICAL_JOURNAL_CAPACITY,
};
pub use state_refresh::{
    CriticalStateRefresh, CRITICAL_STATE_REFRESH_COUNT, CRITICAL_STATE_REFRESH_INTERVAL_US,
};
pub use watchdog::LinkWatchdog;
pub use wire::{
    FragmentEncoder, PacketFlags, PacketKind, Reassembler, ReassemblyError, WirePacket,
    WirePacketError, WirePacketView, BRIDGE_LINK_PROTOCOL_VERSION, ESP_NOW_PAYLOAD_MAX,
    WIRE_HEADER_LEN, WIRE_PAYLOAD_MAX,
};
