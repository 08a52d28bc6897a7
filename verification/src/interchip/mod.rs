//! The wired link between the host chip and the device chip.

pub mod cell;
pub mod control_fragment;
pub mod delivery;
pub mod device;
pub mod handshake;
pub mod input_batch;
pub mod message;
pub mod profile_transfer;
pub mod rate_budget;
pub mod record;
pub mod recovery;
pub mod reliable;

pub use cell::{
    SpiCell, SpiCellError, SpiCellHeader, SPI_CELL_HEADER_LEN, SPI_CELL_LEN, SPI_CELL_MAGIC,
    SPI_CELL_PAYLOAD_LEN, SPI_PROTOCOL_VERSION,
};
pub use control_fragment::{
    ControlFragmentError, ControlRequestAssembler, ControlRequestFragment,
    ControlResponseAssembler, ControlResponseFragment, CONTROL_FRAGMENT_DATA_MAX_LEN,
    CONTROL_FRAGMENT_FIRST, CONTROL_FRAGMENT_LAST, CONTROL_REQUEST_FRAGMENT_HEADER_LEN,
    CONTROL_REQUEST_FRAGMENT_MAX_WIRE_LEN, CONTROL_RESPONSE_FRAGMENT_HEADER_LEN,
    CONTROL_RESPONSE_FRAGMENT_MAX_WIRE_LEN,
};
pub use device::{DeviceLink, DeviceLinkDiagnostics, DeviceLinkEvent};
pub use handshake::{SpiReadyAction, SpiReadyHandshake};
pub use input_batch::{InputReport, InputReportBatch, INPUT_REPORT_BATCH_MAX_REPORTS};
pub use message::{
    ActivateProfile, ControlStatus, Hello, InterchipRole, MessageError, MirrorControlRequest,
    MirrorControlResponse, ProfileBegin, ProfileChunk, ProfileChunkData, ProfileResult,
    ProfileResultStatus, RawEndpointReport, StandardInputReport, StandardInputReportError,
    StandardOutputReport, StandardOutputReportError, UsbState, ACTIVATE_PROFILE_WIRE_LEN,
    CAPABILITY_CONTROL_FORWARDING, CAPABILITY_DYNAMIC_PROFILE, CAPABILITY_ENDPOINT_IN,
    CAPABILITY_ENDPOINT_OUT, CAPABILITY_FALLBACK_PROFILE, CAPABILITY_PROFILE_FLASH_CACHE,
    CAPABILITY_STANDARD_WIRED_HID, CAPABILITY_USB_STATE_REPORTING, CONTROL_DATA_MAX_LEN,
    PROFILE_CHUNK_MAX_DATA_LEN,
};
pub use profile_transfer::{
    CommittedProfile, MirrorRejectReason, ProfileChunkDisposition, ProfileTransferCommand,
    ProfileTransferEncoder, ProfileTransferError, ProfileTransferReceiver, HSMI_MAX_SIZE,
};
pub use rate_budget::FixedIntervalBudget;
pub use record::{encode_records, Record, RecordCodecError, RecordIter, RecordRef};
pub use recovery::{SpiLinkRecovery, SpiLinkRecoveryAction, SpiTransactionWatchdog};
pub use reliable::{
    ReceiveDisposition, ReliableCommandSlot, ReliableReceiver, ReliableSender, RetransmitAction,
    SenderError, SPI_TX_WINDOW,
};
