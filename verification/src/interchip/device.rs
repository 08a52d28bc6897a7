//! The device's side of the wired link.

use vstd::prelude::*;

use super::cell::{
    CellView, SpiCell, SpiCellHeader, SPI_CELL_LEN, SPI_CELL_PAYLOAD_LEN, SPI_PROTOCOL_VERSION,
};
use super::message::{
    ActivateProfile, ChunkView, Hello, InterchipRole, ProfileBegin, ProfileChunk, ProfileChunkData,
    ProfileResult, StandardInputReport, StandardInputView, StandardOutputReport, UsbState,
    CAPABILITY_DYNAMIC_PROFILE, CAPABILITY_PROFILE_FLASH_CACHE, RECORD_ACTIVATE_PROFILE,
    RECORD_FORCE_FALLBACK, RECORD_HELLO, RECORD_HELLO_ACK, RECORD_LINK_RESET, RECORD_PROFILE_BEGIN,
    RECORD_PROFILE_CHUNK, RECORD_PROFILE_COMMIT, RECORD_PROFILE_RESULT,
    RECORD_STANDARD_INPUT_REPORT, RECORD_STANDARD_OUTPUT_REPORT, RECORD_STANDARD_RELEASE_ALL,
    RECORD_USB_STATE,
};
use super::record::{
    aligned, encode_records, fitting, record_views, records_wire, Record, RecordIter,
    RecordIterView, RecordRef, SpiRecord,
};
use super::reliable::{
    cell_ready, ReceiveDisposition, ReceiverView, ReliableReceiver, ReliableSender,
    RetransmitAction, RetransmitView, SenderView, SPI_TX_WINDOW,
};
use crate::bounded::BoundedVec;
use crate::bytes::{get32, padded, part, u32_at};

verus! {

/// What every device can do.
pub const DEVICE_CAPABILITIES: u32 = 194;

/// When a cell is sent again.
pub const RETRANSMIT_TIMEOUT_MS: u64 = 5;

/// How often a cell is sent before the link is reset.
pub const MAX_RETRANSMIT_ATTEMPTS: u8 = 8;

/// What the host told the device to do.
#[derive(Clone, Copy, Debug, PartialEq, Eq)]
pub enum DeviceLinkEvent {
    StandardInput(StandardInputReport),
    ReleaseAll,
    ForceFallback { operation_id: u32 },
    ActivateProfile(ActivateProfile),
    ProfileBegin(ProfileBegin),
    ProfileChunk(ProfileChunkData),
    ProfileCommit { transfer_id: u32 },
}

/// What an event says.
pub enum DeviceEventView {
    StandardInput(StandardInputView),
    ReleaseAll,
    ForceFallback { operation_id: u32 },
    ActivateProfile(ActivateProfile),
    ProfileBegin(ProfileBegin),
    ProfileChunk(ChunkView),
    ProfileCommit { transfer_id: u32 },
}

impl View for DeviceLinkEvent {
    type V = DeviceEventView;

    open spec fn view(&self) -> DeviceEventView {
        match *self {
            DeviceLinkEvent::StandardInput(report) => DeviceEventView::StandardInput(report@),
            DeviceLinkEvent::ReleaseAll => DeviceEventView::ReleaseAll,
            DeviceLinkEvent::ForceFallback { operation_id } => DeviceEventView::ForceFallback {
                operation_id,
            },
            DeviceLinkEvent::ActivateProfile(activate) => DeviceEventView::ActivateProfile(
                activate,
            ),
            DeviceLinkEvent::ProfileBegin(begin) => DeviceEventView::ProfileBegin(begin),
            DeviceLinkEvent::ProfileChunk(chunk) => DeviceEventView::ProfileChunk(chunk@),
            DeviceLinkEvent::ProfileCommit { transfer_id } => DeviceEventView::ProfileCommit {
                transfer_id,
            },
        }
    }
}

/// The views of events.
pub open spec fn event_views(events: Seq<DeviceLinkEvent>) -> Seq<DeviceEventView> {
    Seq::new(events.len(), |i: int| events[i]@)
}

/// What happened on the link so far.
#[derive(Clone, Copy, Debug, PartialEq, Eq, Structural)]
pub struct DeviceLinkDiagnostics {
    pub valid_cells: u32,
    pub standard_reports_received: u32,
    pub releases_received: u32,
    pub malformed_cells: u32,
    pub duplicate_cells: u32,
    pub sequence_gaps: u32,
    pub event_overflows: u32,
}

impl DeviceLinkDiagnostics {
    /// Nothing yet.
    pub open spec fn zero() -> DeviceLinkDiagnostics {
        DeviceLinkDiagnostics {
            valid_cells: 0,
            standard_reports_received: 0,
            releases_received: 0,
            malformed_cells: 0,
            duplicate_cells: 0,
            sequence_gaps: 0,
            event_overflows: 0,
        }
    }
}

impl Default for DeviceLinkDiagnostics {
    fn default() -> (r: Self)
        ensures
            r == DeviceLinkDiagnostics::zero(),
    {
        Self {
            valid_cells: 0,
            standard_reports_received: 0,
            releases_received: 0,
            malformed_cells: 0,
            duplicate_cells: 0,
            sequence_gaps: 0,
            event_overflows: 0,
        }
    }
}

/// The device's side of the link.
pub struct DeviceLink {
    sender: ReliableSender,
    receiver: ReliableReceiver,
    next_cell: Option<SpiCell>,
    host_compatible: bool,
    usb_state: UsbState,
    diagnostics: DeviceLinkDiagnostics,
    capabilities: u32,
    active_profile_hash: u32,
}

/// What the device knows of the link.
pub struct LinkView {
    pub sender: SenderView,
    pub receiver: ReceiverView,
    pub next_cell: Option<CellView>,
    pub host_compatible: bool,
    pub usb_state: UsbState,
    pub diagnostics: DeviceLinkDiagnostics,
    pub capabilities: u32,
    pub active_profile_hash: u32,
}

impl View for DeviceLink {
    type V = LinkView;

    closed spec fn view(&self) -> LinkView {
        LinkView {
            sender: self.sender@,
            receiver: self.receiver@,
            next_cell: match self.next_cell {
                Some(cell) => Some(cell@),
                None => None,
            },
            host_compatible: self.host_compatible,
            usb_state: self.usb_state,
            diagnostics: self.diagnostics,
            capabilities: self.capabilities,
            active_profile_hash: self.active_profile_hash,
        }
    }
}

/// A session number other than zero.
pub open spec fn session_or_one(value: u32) -> u32 {
    if value == 0 {
        1
    } else {
        value
    }
}

/// A record without flags.
pub open spec fn plain_record(record_type: u8, data: Seq<u8>) -> SpiRecord {
    SpiRecord { record_type, flags: 0, data }
}

/// Whether a hello is one of a host that speaks our protocol.
pub open spec fn compatible(hello: Hello) -> bool {
    hello.role == InterchipRole::Host && hello.protocol_version == SPI_PROTOCOL_VERSION
}

/// Whether a record is such a hello.
pub open spec fn is_compatible_hello(record: SpiRecord) -> bool {
    record.record_type == RECORD_HELLO && Hello::parse(record.data) is Ok && compatible(
        Hello::parse(record.data)->Ok_0,
    )
}

/// Whether a reader comes upon such a hello as the last record of its cell.
pub open spec fn ends_with_hello(it: RecordIterView) -> bool
    decreases
            it.remaining + (if it.failed {
                0int
            } else {
                1
            }),
{
    match it.stepped().1 {
        None => false,
        Some(Ok(record)) => if is_compatible_hello(record) {
            it.stepped().0.verdict() is Ok
        } else {
            ends_with_hello(it.stepped().0)
        },
        Some(Err(_)) => false,
    }
}

/// A reader at the start of a cell.
pub open spec fn cell_records(cell: CellView) -> RecordIterView {
    RecordIterView {
        bytes: cell.payload,
        offset: 0,
        remaining: cell.header.record_count,
        failed: false,
    }
}

impl LinkView {
    /// The hello of the device.
    pub open spec fn hello(self) -> Hello {
        Hello {
            role: InterchipRole::Device,
            protocol_version: SPI_PROTOCOL_VERSION,
            firmware_major: 0,
            firmware_minor: 2,
            capabilities: self.capabilities,
            active_profile_hash: self.active_profile_hash,
        }
    }

    /// The link with a cell of these records to be sent next, or with none
    /// where the window is full.
    pub open spec fn sending(self, records: Seq<SpiRecord>, now_ms: u64) -> LinkView {
        let queued = self.sender.queued(records_wire(records), records.len() as u8, now_ms);
        LinkView {
            sender: queued.0,
            next_cell: match queued.1 {
                Ok(cell) => Some(cell),
                Err(_) => None,
            },
            ..self
        }
    }

    /// The link with the device's hello to be sent next.
    pub open spec fn sending_hello(self, now_ms: u64) -> LinkView {
        self.sending(seq![plain_record(RECORD_HELLO, self.hello().wire())], now_ms)
    }

    /// The link with the answer to a hello to be sent next.
    pub open spec fn sending_hello_ack(self, now_ms: u64) -> LinkView {
        self.sending(
            seq![
                plain_record(RECORD_HELLO_ACK, self.hello().wire()),
                plain_record(RECORD_USB_STATE, self.usb_state.wire()),
            ],
            now_ms,
        )
    }

    /// The link with the state of the USB side to be sent next.
    pub open spec fn sending_usb_state(self, now_ms: u64) -> LinkView {
        self.sending(seq![plain_record(RECORD_USB_STATE, self.usb_state.wire())], now_ms)
    }

    /// The link with one more malformed cell.
    pub open spec fn malformed(self) -> LinkView {
        LinkView {
            diagnostics: DeviceLinkDiagnostics {
                malformed_cells: self.diagnostics.malformed_cells.saturating_add(1),
                ..self.diagnostics
            },
            ..self
        }
    }

    /// The link that only the device knows yet.
    pub open spec fn started(
        session_id: u32,
        usb_state: UsbState,
        capabilities: u32,
        active_profile_hash: u32,
    ) -> LinkView {
        (LinkView {
            sender: SenderView::fresh(session_or_one(session_id)),
            receiver: ReceiverView { session_id: None, cumulative_ack: 0 },
            next_cell: None,
            host_compatible: false,
            usb_state,
            diagnostics: DeviceLinkDiagnostics::zero(),
            capabilities,
            active_profile_hash,
        }).sending_hello(0)
    }

    /// The link after the next transaction was prepared, and the cell that it
    /// carries: the one that waits, else one that is to be sent again, else a
    /// reset of the link where that was tried too often, else an empty one.
    pub open spec fn transaction(self, now_ms: u64) -> (LinkView, CellView) {
        let acked = LinkView {
            sender: self.sender.acking(self.receiver.cumulative_ack),
            next_cell: None,
            ..self
        };
        let again = acked.sender.retransmit(
            now_ms,
            RETRANSMIT_TIMEOUT_MS,
            MAX_RETRANSMIT_ATTEMPTS,
        );
        let reset = (LinkView {
            sender: SenderView::fresh(session_or_one(self.sender.session_id.wrapping_add(1))),
            host_compatible: false,
            ..acked
        }).sending(seq![plain_record(RECORD_LINK_RESET, seq![])], now_ms);
        let (link, cell) = match self.next_cell {
            Some(cell) => (acked, Some(cell)),
            None => match again.1 {
                RetransmitView::Send(cell) => (LinkView { sender: again.0, ..acked }, Some(cell)),
                RetransmitView::Idle => (LinkView { sender: again.0, ..acked }, None),
                RetransmitView::LinkResetRequired => (
                    LinkView { next_cell: None, ..reset },
                    reset.next_cell,
                ),
            },
        };
        let sent = match cell {
            Some(cell) => cell,
            None => CellView {
                header: SpiCellHeader::blank(link.sender.session_id),
                payload: seq![],
            },
        };
        (
            link,
            CellView {
                header: SpiCellHeader {
                    cumulative_ack: self.receiver.cumulative_ack,
                    ..sent.header
                },
                payload: sent.payload,
            },
        )
    }
}

/// A link and the events that it led to, of which there may be `capacity`.
pub struct LinkStep {
    pub link: LinkView,
    pub events: Seq<DeviceEventView>,
    pub capacity: int,
}

impl LinkStep {
    /// One more event, or one more that was lost.
    pub open spec fn with_event(self, event: DeviceEventView) -> LinkStep {
        if self.events.len() < self.capacity {
            LinkStep { events: self.events.push(event), ..self }
        } else {
            LinkStep {
                link: LinkView {
                    diagnostics: DeviceLinkDiagnostics {
                        event_overflows: self.link.diagnostics.event_overflows.saturating_add(1),
                        ..self.link.diagnostics
                    },
                    ..self.link
                },
                ..self
            }
        }
    }

    /// The link as it is but for a malformed cell.
    pub open spec fn malformed(self) -> LinkStep {
        LinkStep { link: self.link.malformed(), ..self }
    }

    /// After a record that only a known host may send.
    #[verifier::opaque]
    pub open spec fn with_command(self, r: SpiRecord) -> LinkStep {
        if r.record_type == RECORD_ACTIVATE_PROFILE {
            match ActivateProfile::parse(r.data) {
                Ok(activate) => self.with_event(DeviceEventView::ActivateProfile(activate)),
                Err(_) => self.malformed(),
            }
        } else if r.record_type == RECORD_PROFILE_BEGIN {
            match ProfileBegin::parse(r.data) {
                Ok(begin) => self.with_event(DeviceEventView::ProfileBegin(begin)),
                Err(_) => self.malformed(),
            }
        } else if r.record_type == RECORD_PROFILE_CHUNK {
            match ChunkView::parse(r.data) {
                Ok(chunk) => self.with_event(DeviceEventView::ProfileChunk(chunk)),
                Err(_) => self.malformed(),
            }
        } else if r.record_type == RECORD_PROFILE_COMMIT {
            if r.data.len() != 4 {
                self.malformed()
            } else {
                self.with_event(DeviceEventView::ProfileCommit { transfer_id: u32_at(r.data, 0) })
            }
        } else if r.record_type == RECORD_STANDARD_INPUT_REPORT {
            match StandardInputView::parse(r.data) {
                Ok(report) => (LinkStep {
                    link: LinkView {
                        diagnostics: DeviceLinkDiagnostics {
                            standard_reports_received: self.link.diagnostics.standard_reports_received.saturating_add(
                                1,
                            ),
                            ..self.link.diagnostics
                        },
                        ..self.link
                    },
                    ..self
                }).with_event(DeviceEventView::StandardInput(report)),
                Err(_) => self.malformed(),
            }
        } else if r.record_type == RECORD_STANDARD_RELEASE_ALL {
            if r.data.len() != 0 {
                self.malformed()
            } else {
                (LinkStep {
                    link: LinkView {
                        diagnostics: DeviceLinkDiagnostics {
                            releases_received: self.link.diagnostics.releases_received.saturating_add(
                                1,
                            ),
                            ..self.link.diagnostics
                        },
                        ..self.link
                    },
                    ..self
                }).with_event(DeviceEventView::ReleaseAll)
            }
        } else {
            self
        }
    }

    /// After one record of a cell.
    #[verifier::opaque]
    pub open spec fn with_record(self, r: SpiRecord, now_ms: u64) -> LinkStep {
        if r.record_type == RECORD_HELLO {
            match Hello::parse(r.data) {
                Err(_) => self.malformed(),
                Ok(hello) => {
                    let link = LinkView { host_compatible: compatible(hello), ..self.link };
                    LinkStep {
                        link: if compatible(hello) {
                            link.sending_hello_ack(now_ms)
                        } else {
                            link
                        },
                        ..self
                    }
                },
            }
        } else if r.record_type == RECORD_LINK_RESET {
            LinkStep {
                link: (LinkView { host_compatible: false, ..self.link }).sending_hello(now_ms),
                ..self
            }
        } else if r.record_type == RECORD_FORCE_FALLBACK {
            if r.data.len() != 4 {
                self.malformed()
            } else {
                let step = self.with_event(
                    DeviceEventView::ForceFallback { operation_id: u32_at(r.data, 0) },
                );
                LinkStep { link: step.link.sending_usb_state(now_ms), ..step }
            }
        } else if self.link.host_compatible {
            self.with_command(r)
        } else {
            self
        }
    }

    /// After the records of a cell: those before one that is malformed, and
    /// all of them where they are not all of the cell.
    pub open spec fn with_records(self, it: RecordIterView, now_ms: u64) -> LinkStep
        decreases it.remaining,
    {
        match it.stepped().1 {
            None => if it.verdict() is Err {
                self.malformed()
            } else {
                self
            },
            Some(Err(_)) => self.malformed(),
            Some(Ok(record)) => if it.remaining == 0 {
                self
            } else {
                self.with_record(record, now_ms).with_records(it.stepped().0, now_ms)
            },
        }
    }

    /// After a cell that was read, of which the link counts and acknowledges
    /// what it says first.
    pub open spec fn with_cell(self, cell: CellView, now_ms: u64) -> LinkStep {
        let header = cell.header;
        let counted = LinkView {
            diagnostics: DeviceLinkDiagnostics {
                valid_cells: self.link.diagnostics.valid_cells.saturating_add(1),
                ..self.link.diagnostics
            },
            sender: self.link.sender.acknowledged(header.cumulative_ack),
            ..self.link
        };
        let another = counted.receiver.session_id != Some(header.session_id);
        let known = if another {
            LinkView { host_compatible: false, ..counted }
        } else {
            counted
        };
        if !known.host_compatible && !ends_with_hello(cell_records(cell)) {
            LinkStep {
                link: if another {
                    LinkView {
                        receiver: ReceiverView {
                            session_id: Some(header.session_id),
                            cumulative_ack: 0,
                        },
                        ..known
                    }
                } else {
                    known
                },
                ..self
            }
        } else {
            let received = LinkView { receiver: known.receiver.after(header), ..known };
            match known.receiver.disposition(header) {
                ReceiveDisposition::Accepted { .. } => (LinkStep {
                    link: received,
                    ..self
                }).with_records(cell_records(cell), now_ms),
                ReceiveDisposition::Duplicate { .. } => LinkStep {
                    link: LinkView {
                        diagnostics: DeviceLinkDiagnostics {
                            duplicate_cells: received.diagnostics.duplicate_cells.saturating_add(
                                1,
                            ),
                            ..received.diagnostics
                        },
                        ..received
                    },
                    ..self
                },
                ReceiveDisposition::Gap { .. } => LinkStep {
                    link: LinkView {
                        diagnostics: DeviceLinkDiagnostics {
                            sequence_gaps: received.diagnostics.sequence_gaps.saturating_add(1),
                            ..received.diagnostics
                        },
                        ..received
                    },
                    ..self
                },
                _ => LinkStep { link: received, ..self },
            }
        }
    }

    /// After the bytes of a transaction.
    pub open spec fn with_transaction(self, bytes: Seq<u8>, now_ms: u64) -> LinkStep {
        match CellView::parse(bytes) {
            Err(_) => self.malformed(),
            Ok(cell) => self.with_cell(cell, now_ms),
        }
    }
}

fn nonzero_session(value: u32) -> (r: u32)
    ensures
        r == session_or_one(value),
{
    if value == 0 {
        1
    } else {
        value
    }
}

proof fn lemma_one_fits(record: SpiRecord)
    requires
        record.data.len() <= 12,
    ensures
        fitting(seq![record]) == 1,
        records_wire(seq![record]) == record.wire(),
        record.wire().len() <= 16,
{
    let one = seq![record];
    assert(one.drop_last() =~= Seq::<SpiRecord>::empty());
    assert(record.wire().len() == aligned(4 + record.data.len() as int));
    assert(records_wire(one.drop_last()) =~= Seq::<u8>::empty());
    assert(one.last() == record);
    assert(records_wire(one) == records_wire(one.drop_last()) + record.wire());
    assert(records_wire(one) =~= record.wire());
    assert(fitting(one.drop_last()) == 0);
}

proof fn lemma_two_fit(a: SpiRecord, b: SpiRecord)
    requires
        a.data.len() <= 12,
        b.data.len() <= 12,
    ensures
        fitting(seq![a, b]) == 2,
        records_wire(seq![a, b]).len() <= 32,
{
    lemma_one_fits(a);
    lemma_one_fits(b);
    assert(seq![a, b].drop_last() =~= seq![a]);
}

fn is_host_hello(data: &[u8]) -> (r: bool)
    ensures
        r == (Hello::parse(data@) is Ok && compatible(Hello::parse(data@)->Ok_0)),
{
    match Hello::decode(data) {
        Ok(hello) => hello.role == InterchipRole::Host && hello.protocol_version
            == SPI_PROTOCOL_VERSION,
        Err(_) => false,
    }
}

fn contains_compatible_host_hello(cell: &SpiCell) -> (r: bool)
    requires
        cell.header.payload_len <= SPI_CELL_PAYLOAD_LEN,
    ensures
        r == ends_with_hello(cell_records(cell@)),
{
    let mut records = RecordIter::new(cell.payload(), cell.header.record_count);
    loop
        invariant
            records.wf(),
            ends_with_hello(records@) == ends_with_hello(cell_records(cell@)),
        decreases
                records@.remaining + (if records@.failed {
                    0int
                } else {
                    1
                }),
    {
        let ghost before = records@;
        match records.next() {
            None => {
                return false;
            },
            Some(Err(_)) => {
                return false;
            },
            Some(Ok(record)) => {
                if record.record_type == RECORD_HELLO && is_host_hello(record.data) {
                    return match records.finish() {
                        Ok(_) => true,
                        Err(_) => false,
                    };
                }
            },
        }
    }
}

impl DeviceLink {
    /// The sender is in order, and the cell that waits can be encoded.
    pub closed spec fn wf(&self) -> bool {
        &&& self.sender.wf()
        &&& self.next_cell matches Some(cell) ==> cell_ready(cell)
    }

    /// What `wf` says of the view.
    pub proof fn lemma_wf(&self)
        requires
            self.wf(),
        ensures
            self@.sender.numbered(),
            self@.sender.pending.len() <= SPI_TX_WINDOW,
            self@.next_cell is Some ==> self@.next_cell->0.header.payload_error() is None
                && self@.next_cell->0.payload.len() <= SPI_CELL_PAYLOAD_LEN,
    {
        self.sender.lemma_wf();
    }

    /// A link of a device with no storage for profiles.
    pub fn new(session_id: u32, usb_state: UsbState) -> (r: Self)
        ensures
            r.wf(),
            r@ == LinkView::started(session_id, usb_state, DEVICE_CAPABILITIES, 0),
    {
        Self::with_capabilities(session_id, usb_state, DEVICE_CAPABILITIES, 0)
    }

    /// A link of a device that stores profiles.
    pub fn new_with_profile_storage(
        session_id: u32,
        usb_state: UsbState,
        active_profile_hash: u32,
    ) -> (r: Self)
        ensures
            r.wf(),
            r@ == LinkView::started(
                session_id,
                usb_state,
                (DEVICE_CAPABILITIES + CAPABILITY_DYNAMIC_PROFILE
                    + CAPABILITY_PROFILE_FLASH_CACHE) as u32,
                active_profile_hash,
            ),
    {
        Self::with_capabilities(
            session_id,
            usb_state,
            DEVICE_CAPABILITIES + CAPABILITY_DYNAMIC_PROFILE + CAPABILITY_PROFILE_FLASH_CACHE,
            active_profile_hash,
        )
    }

    fn with_capabilities(
        session_id: u32,
        usb_state: UsbState,
        capabilities: u32,
        active_profile_hash: u32,
    ) -> (r: Self)
        ensures
            r.wf(),
            r@ == LinkView::started(session_id, usb_state, capabilities, active_profile_hash),
    {
        let mut link = Self {
            sender: ReliableSender::new(nonzero_session(session_id)),
            receiver: ReliableReceiver::new(),
            next_cell: None,
            host_compatible: false,
            usb_state,
            diagnostics: DeviceLinkDiagnostics::default(),
            capabilities,
            active_profile_hash,
        };
        link.queue_hello(0);
        link
    }

    /// Whether a host that speaks our protocol said hello.
    pub fn host_compatible(&self) -> (r: bool)
        ensures
            r == self@.host_compatible,
    {
        self.host_compatible
    }

    /// What happened on the link so far.
    pub fn diagnostics(&self) -> (r: DeviceLinkDiagnostics)
        ensures
            r == self@.diagnostics,
    {
        self.diagnostics
    }

    /// The last number that was acknowledged to the host.
    pub fn cumulative_ack(&self) -> (r: u16)
        ensures
            r == self@.receiver.cumulative_ack,
    {
        self.receiver.cumulative_ack()
    }

    /// The state of the USB side changed, which a known host is told.
    pub fn update_usb_state(&mut self, state: UsbState, now_ms: u64)
        requires
            old(self).wf(),
        ensures
            final(self).wf(),
            ({
                let link = LinkView { usb_state: state, ..old(self)@ };
                final(self)@ == if old(self)@.host_compatible {
                    link.sending_usb_state(now_ms)
                } else {
                    link
                }
            }),
    {
        self.usb_state = state;
        if self.host_compatible {
            self.queue_usb_state(now_ms);
        }
    }

    /// Passes a report on to a known host, unless a cell waits or the window
    /// is full.
    pub fn queue_standard_output(&mut self, report: StandardOutputReport, now_ms: u64) -> (r: bool)
        requires
            old(self).wf(),
        ensures
            final(self).wf(),
            !old(self)@.host_compatible || old(self)@.next_cell is Some ==> !r && final(self)@
                == old(self)@,
            old(self)@.host_compatible && old(self)@.next_cell is None ==> final(self)@ == old(
                self)@.sending(
                seq![
                    plain_record(
                        RECORD_STANDARD_OUTPUT_REPORT,
                        seq![report.kind, report.length] + report.data@,
                    ),
                ],
                now_ms,
            ) && r == (final(self)@.next_cell is Some),
    {
        if !self.host_compatible || self.next_cell.is_some() {
            return false;
        }
        let data = report.encode();
        self.queue_record(RECORD_STANDARD_OUTPUT_REPORT, &data, now_ms);
        self.next_cell.is_some()
    }

    /// Tells a known host how a profile transfer ended, unless a cell waits or
    /// the window is full.
    pub fn queue_profile_result(&mut self, result: ProfileResult, now_ms: u64) -> (r: bool)
        requires
            old(self).wf(),
        ensures
            final(self).wf(),
            !old(self)@.host_compatible || old(self)@.next_cell is Some ==> !r && final(self)@
                == old(self)@,
            old(self)@.host_compatible && old(self)@.next_cell is None ==> final(self)@ == old(
                self)@.sending(seq![plain_record(RECORD_PROFILE_RESULT, result.wire())], now_ms)
                && r == (final(self)@.next_cell is Some),
    {
        if !self.host_compatible || self.next_cell.is_some() {
            return false;
        }
        let data = result.encode();
        self.queue_record(RECORD_PROFILE_RESULT, &data, now_ms);
        self.next_cell.is_some()
    }

    /// The bytes of the next transaction.
    pub fn next_transaction(&mut self, now_ms: u64) -> (r: [u8; SPI_CELL_LEN])
        requires
            old(self).wf(),
        ensures
            final(self).wf(),
            final(self)@ == old(self)@.transaction(now_ms).0,
            r@ == old(self)@.transaction(now_ms).1.wire(),
    {
        let ack: u16 = self.receiver.cumulative_ack();
        self.sender.set_cumulative_ack(ack);
        let waiting = self.next_cell;
        self.next_cell = None;
        let cell = match waiting {
            Some(cell) => Some(cell),
            None => match self.sender.poll_retransmit(
                now_ms,
                RETRANSMIT_TIMEOUT_MS,
                MAX_RETRANSMIT_ATTEMPTS,
            ) {
                RetransmitAction::Send(cell) => Some(cell),
                RetransmitAction::Idle => None,
                RetransmitAction::LinkResetRequired => {
                    let session: u32 = nonzero_session(self.sender.session_id().wrapping_add(1));
                    self.sender.reset_session(session);
                    self.host_compatible = false;
                    let none: [u8; 0] = [];
                    assert(none@ =~= seq![]);
                    self.queue_record(RECORD_LINK_RESET, &none, now_ms);
                    let reset = self.next_cell;
                    self.next_cell = None;
                    reset
                },
            },
        };
        let mut cell = match cell {
            Some(cell) => cell,
            None => {
                let cell = SpiCell::empty(self.sender.session_id());
                assert(cell@.payload =~= seq![]);
                assert(cell.payload@ =~= padded(cell@.payload, SPI_CELL_PAYLOAD_LEN as nat));
                cell
            },
        };
        cell.header.cumulative_ack = ack;
        match cell.encode() {
            Ok(bytes) => bytes,
            Err(_) => [0; SPI_CELL_LEN],
        }
    }

    /// Takes in the bytes of a transaction, and puts what the host wants done
    /// behind the events that are there.
    pub fn handle_transaction<const EVENTS: usize>(
        &mut self,
        bytes: &[u8; SPI_CELL_LEN],
        now_ms: u64,
        events: &mut BoundedVec<DeviceLinkEvent, EVENTS>,
    )
        requires
            old(self).wf(),
        ensures
            final(self).wf(),
            (LinkStep {
                link: final(self)@,
                events: event_views(final(events)@),
                capacity: EVENTS as int,
            }) == (LinkStep {
                link: old(self)@,
                events: event_views(old(events)@),
                capacity: EVENTS as int,
            }).with_transaction(bytes@, now_ms),
    {
        let cell = match SpiCell::decode(bytes) {
            Ok(cell) => cell,
            Err(_) => {
                self.mark_malformed();
                return ;
            },
        };
        self.diagnostics.valid_cells = self.diagnostics.valid_cells.saturating_add(1);
        let _ = self.sender.acknowledge(cell.header.cumulative_ack);
        let another = match self.receiver.session_id() {
            Some(session_id) => session_id != cell.header.session_id,
            None => true,
        };
        if another {
            self.host_compatible = false;
            if !contains_compatible_host_hello(&cell) {
                self.receiver.reset_session(cell.header.session_id);
                return ;
            }
        } else if !self.host_compatible && !contains_compatible_host_hello(&cell) {
            return ;
        }
        match self.receiver.receive(&cell) {
            ReceiveDisposition::Accepted { .. } => {
                self.handle_records(cell.payload(), cell.header.record_count, now_ms, events);
            },
            ReceiveDisposition::Duplicate { .. } => {
                self.diagnostics.duplicate_cells =
                self.diagnostics.duplicate_cells.saturating_add(1);
            },
            ReceiveDisposition::Gap { .. } => {
                self.diagnostics.sequence_gaps = self.diagnostics.sequence_gaps.saturating_add(1);
            },
            ReceiveDisposition::Empty => {},
            ReceiveDisposition::SessionChanged => {},
        }
    }

    fn handle_records<const EVENTS: usize>(
        &mut self,
        payload: &[u8],
        record_count: u8,
        now_ms: u64,
        events: &mut BoundedVec<DeviceLinkEvent, EVENTS>,
    )
        requires
            old(self).wf(),
        ensures
            final(self).wf(),
            (LinkStep {
                link: final(self)@,
                events: event_views(final(events)@),
                capacity: EVENTS as int,
            }) == (LinkStep {
                link: old(self)@,
                events: event_views(old(events)@),
                capacity: EVENTS as int,
            }).with_records(
                (RecordIterView {
                    bytes: payload@,
                    offset: 0,
                    remaining: record_count,
                    failed: false,
                }),
                now_ms,
            ),
    {
        let mut records = RecordIter::new(payload, record_count);
        let ghost goal = (LinkStep {
            link: self@,
            events: event_views(events@),
            capacity: EVENTS as int,
        }).with_records(records@, now_ms);
        loop
            invariant
                self.wf(),
                records.wf(),
                !records@.failed,
                goal == (LinkStep {
                    link: old(self)@,
                    events: event_views(old(events)@),
                    capacity: EVENTS as int,
                }).with_records(
                    (RecordIterView {
                        bytes: payload@,
                        offset: 0,
                        remaining: record_count,
                        failed: false,
                    }),
                    now_ms,
                ),
                (LinkStep {
                    link: self@,
                    events: event_views(events@),
                    capacity: EVENTS as int,
                }).with_records(records@, now_ms) == goal,
            decreases records@.remaining,
        {
            let ghost before = records@;
            let ghost step = LinkStep {
                link: self@,
                events: event_views(events@),
                capacity: EVENTS as int,
            };
            match records.next() {
                Some(Err(_)) => {
                    self.mark_malformed();
                    return ;
                },
                Some(Ok(record)) => {
                    assert(step.with_records(before, now_ms) == step.with_record(
                        record@,
                        now_ms,
                    ).with_records(records@, now_ms));
                    self.handle_record(&record, now_ms, events);
                },
                None => {
                    assert(records@ == before);
                    match records.finish() {
                        Ok(_) => {},
                        Err(_) => {
                            self.mark_malformed();
                        },
                    }
                    return ;
                },
            }
        }
    }

    fn handle_record<const EVENTS: usize>(
        &mut self,
        record: &RecordRef<'_>,
        now_ms: u64,
        events: &mut BoundedVec<DeviceLinkEvent, EVENTS>,
    )
        requires
            old(self).wf(),
        ensures
            final(self).wf(),
            (LinkStep {
                link: final(self)@,
                events: event_views(final(events)@),
                capacity: EVENTS as int,
            }) == (LinkStep {
                link: old(self)@,
                events: event_views(old(events)@),
                capacity: EVENTS as int,
            }).with_record(record@, now_ms),
    {
        proof {
            reveal(LinkStep::with_record);
        }
        let kind: u8 = record.record_type;
        if kind == RECORD_HELLO {
            match Hello::decode(record.data) {
                Err(_) => {
                    self.mark_malformed();
                },
                Ok(hello) => {
                    self.host_compatible =
                    hello.role == InterchipRole::Host && hello.protocol_version
                        == SPI_PROTOCOL_VERSION;
                    if self.host_compatible {
                        self.queue_hello_ack_and_usb_state(now_ms);
                    }
                },
            }
        } else if kind == RECORD_LINK_RESET {
            self.host_compatible = false;
            self.queue_hello(now_ms);
        } else if kind == RECORD_FORCE_FALLBACK {
            if record.data.len() != 4 {
                self.mark_malformed();
            } else {
                self.push_event(
                    events,
                    DeviceLinkEvent::ForceFallback { operation_id: get32(record.data, 0) },
                );
                self.queue_usb_state(now_ms);
            }
        } else if self.host_compatible {
            self.handle_command(record, events);
        }
    }

    fn handle_command<const EVENTS: usize>(
        &mut self,
        record: &RecordRef<'_>,
        events: &mut BoundedVec<DeviceLinkEvent, EVENTS>,
    )
        requires
            old(self).wf(),
        ensures
            final(self).wf(),
            (LinkStep {
                link: final(self)@,
                events: event_views(final(events)@),
                capacity: EVENTS as int,
            }) == (LinkStep {
                link: old(self)@,
                events: event_views(old(events)@),
                capacity: EVENTS as int,
            }).with_command(record@),
    {
        proof {
            reveal(LinkStep::with_command);
        }
        let kind: u8 = record.record_type;
        if kind == RECORD_ACTIVATE_PROFILE {
            match ActivateProfile::decode(record.data) {
                Ok(activate) => self.push_event(events, DeviceLinkEvent::ActivateProfile(activate)),
                Err(_) => self.mark_malformed(),
            }
        } else if kind == RECORD_PROFILE_BEGIN {
            match ProfileBegin::decode(record.data) {
                Ok(begin) => self.push_event(events, DeviceLinkEvent::ProfileBegin(begin)),
                Err(_) => self.mark_malformed(),
            }
        } else if kind == RECORD_PROFILE_CHUNK {
            match ProfileChunk::decode(record.data) {
                Ok(chunk) => match ProfileChunkData::from_borrowed(chunk) {
                    Ok(chunk) => self.push_event(events, DeviceLinkEvent::ProfileChunk(chunk)),
                    Err(_) => self.mark_malformed(),
                },
                Err(_) => self.mark_malformed(),
            }
        } else if kind == RECORD_PROFILE_COMMIT {
            if record.data.len() != 4 {
                self.mark_malformed();
            } else {
                self.push_event(
                    events,
                    DeviceLinkEvent::ProfileCommit { transfer_id: get32(record.data, 0) },
                );
            }
        } else if kind == RECORD_STANDARD_INPUT_REPORT {
            match StandardInputReport::decode(record.data) {
                Ok(report) => {
                    self.diagnostics.standard_reports_received =
                    self.diagnostics.standard_reports_received.saturating_add(1);
                    self.push_event(events, DeviceLinkEvent::StandardInput(report));
                },
                Err(_) => self.mark_malformed(),
            }
        } else if kind == RECORD_STANDARD_RELEASE_ALL {
            if record.data.len() == 0 {
                self.diagnostics.releases_received =
                self.diagnostics.releases_received.saturating_add(1);
                self.push_event(events, DeviceLinkEvent::ReleaseAll);
            } else {
                self.mark_malformed();
            }
        }
    }

    fn push_event<const EVENTS: usize>(
        &mut self,
        events: &mut BoundedVec<DeviceLinkEvent, EVENTS>,
        event: DeviceLinkEvent,
    )
        requires
            old(self).wf(),
        ensures
            final(self).wf(),
            (LinkStep {
                link: final(self)@,
                events: event_views(final(events)@),
                capacity: EVENTS as int,
            }) == (LinkStep {
                link: old(self)@,
                events: event_views(old(events)@),
                capacity: EVENTS as int,
            }).with_event(event@),
    {
        match events.push(event) {
            Ok(_) => {
                assert(event_views(events@) =~= event_views(old(events)@).push(event@));
            },
            Err(_) => {
                self.diagnostics.event_overflows =
                self.diagnostics.event_overflows.saturating_add(1);
            },
        }
    }

    fn mark_malformed(&mut self)
        requires
            old(self).wf(),
        ensures
            final(self).wf(),
            final(self)@ == old(self)@.malformed(),
    {
        self.diagnostics.malformed_cells = self.diagnostics.malformed_cells.saturating_add(1);
    }

    fn queue_hello(&mut self, now_ms: u64)
        requires
            old(self).wf(),
        ensures
            final(self).wf(),
            final(self)@ == old(self)@.sending_hello(now_ms),
    {
        let hello = self.device_hello().encode();
        self.queue_record(RECORD_HELLO, &hello, now_ms);
    }

    fn queue_hello_ack_and_usb_state(&mut self, now_ms: u64)
        requires
            old(self).wf(),
        ensures
            final(self).wf(),
            final(self)@ == old(self)@.sending_hello_ack(now_ms),
    {
        let hello = self.device_hello().encode();
        let state = self.usb_state.encode();
        let records = [
            Record { record_type: RECORD_HELLO_ACK, flags: 0, data: &hello },
            Record { record_type: RECORD_USB_STATE, flags: 0, data: &state },
        ];
        proof {
            let a = plain_record(RECORD_HELLO_ACK, hello@);
            let b = plain_record(RECORD_USB_STATE, state@);
            assert(record_views(records@) =~= seq![a, b]);
            lemma_two_fit(a, b);
        }
        self.queue_records(&records, now_ms);
    }

    fn queue_usb_state(&mut self, now_ms: u64)
        requires
            old(self).wf(),
        ensures
            final(self).wf(),
            final(self)@ == old(self)@.sending_usb_state(now_ms),
    {
        let state = self.usb_state.encode();
        self.queue_record(RECORD_USB_STATE, &state, now_ms);
    }

    fn queue_record(&mut self, record_type: u8, data: &[u8], now_ms: u64)
        requires
            old(self).wf(),
            data@.len() <= 12,
        ensures
            final(self).wf(),
            final(self)@ == old(self)@.sending(seq![plain_record(record_type, data@)], now_ms),
    {
        let records = [Record { record_type, flags: 0, data }];
        proof {
            assert(record_views(records@) =~= seq![plain_record(record_type, data@)]);
            lemma_one_fits(plain_record(record_type, data@));
        }
        self.queue_records(&records, now_ms);
    }

    fn queue_records(&mut self, records: &[Record<'_>], now_ms: u64)
        requires
            old(self).wf(),
            records@.len() <= 255,
            fitting(record_views(records@)) == records@.len(),
            records_wire(record_views(records@)).len() <= SPI_CELL_PAYLOAD_LEN,
        ensures
            final(self).wf(),
            final(self)@ == old(self)@.sending(record_views(records@), now_ms),
    {
        let ghost all = record_views(records@);
        let mut payload = [0u8; SPI_CELL_PAYLOAD_LEN];
        self.next_cell = None;
        match encode_records(records, &mut payload) {
            Ok((length, count)) => {
                let data = part(&payload, 0, length as usize);
                assert(all.take(all.len() as int) =~= all);
                assert(data@ =~= records_wire(all));
                match self.sender.queue(data, count, now_ms) {
                    Ok(cell) => {
                        self.next_cell = Some(cell);
                    },
                    Err(_) => {},
                }
            },
            Err(_) => {},
        }
    }

    fn device_hello(&self) -> (r: Hello)
        ensures
            r == self@.hello(),
    {
        Hello {
            role: InterchipRole::Device,
            protocol_version: SPI_PROTOCOL_VERSION,
            firmware_major: 0,
            firmware_minor: 2,
            capabilities: self.capabilities,
            active_profile_hash: self.active_profile_hash,
        }
    }
}

/// A host is listened to only after it said hello: a cell of a host that is
/// not known, and that does not end with a hello, leads to no event, and
/// nothing of it is acknowledged.
pub proof fn law_nothing_before_hello(step: LinkStep, cell: CellView, now_ms: u64)
    requires
        !step.link.host_compatible || step.link.receiver.session_id != Some(
            cell.header.session_id,
        ),
        !ends_with_hello(cell_records(cell)),
    ensures
        step.with_cell(cell, now_ms).events == step.events,
        !step.with_cell(cell, now_ms).link.host_compatible,
        step.with_cell(cell, now_ms).link.receiver == step.link.receiver.in_session(
            cell.header.session_id,
        ),
{
}

proof fn lemma_records_keep_receiver(step: LinkStep, it: RecordIterView, now_ms: u64)
    ensures
        step.with_records(it, now_ms).link.receiver == step.link.receiver,
    decreases it.remaining,
{
    reveal(LinkStep::with_record);
    reveal(LinkStep::with_command);
    match it.stepped().1 {
        Some(Ok(record)) => {
            if it.remaining != 0 {
                lemma_records_keep_receiver(
                    step.with_record(record, now_ms),
                    it.stepped().0,
                    now_ms,
                );
            }
        },
        _ => {},
    }
}

/// A cell that is sent twice leads to its events once: whatever a cell led to,
/// the same cell right after it leads to no more.
pub proof fn law_same_cell_is_delivered_once(
    step: LinkStep,
    cell: CellView,
    now_ms: u64,
    later_ms: u64,
)
    requires
        step.link.receiver.disposition(cell.header) is Accepted,
        step.link.host_compatible && step.link.receiver.session_id == Some(cell.header.session_id)
            || ends_with_hello(cell_records(cell)),
    ensures
        step.with_cell(cell, now_ms).with_cell(cell, later_ms).events == step.with_cell(
            cell,
            now_ms,
        ).events,
        step.with_cell(cell, now_ms).link.receiver.cumulative_ack == cell.header.tx_sequence,
{
    let header = cell.header;
    let counted = LinkView {
        diagnostics: DeviceLinkDiagnostics {
            valid_cells: step.link.diagnostics.valid_cells.saturating_add(1),
            ..step.link.diagnostics
        },
        sender: step.link.sender.acknowledged(header.cumulative_ack),
        ..step.link
    };
    let known = if counted.receiver.session_id != Some(header.session_id) {
        LinkView { host_compatible: false, ..counted }
    } else {
        counted
    };
    let received = LinkView { receiver: known.receiver.after(header), ..known };
    let taken = LinkStep { link: received, ..step };
    lemma_records_keep_receiver(taken, cell_records(cell), now_ms);
    let first = step.with_cell(cell, now_ms);
    assert(first == taken.with_records(cell_records(cell), now_ms));
    assert(!(first.link.receiver.disposition(header) is Accepted));
}

/// What a host that is known tells the device becomes an event: a report, the
/// release of everything, or what concerns a profile, each with what was said.
pub proof fn law_commands_become_events(step: LinkStep, record: SpiRecord)
    requires
        step.events.len() < step.capacity,
    ensures
        ({
            let events = step.with_command(record).events;
            &&& record.record_type == 0x26 ==> events == match StandardInputView::parse(record.data) {
                Ok(report) => step.events.push(DeviceEventView::StandardInput(report)),
                Err(_) => step.events,
            }
            &&& record.record_type == 0x28 ==> events == if record.data.len() == 0 {
                step.events.push(DeviceEventView::ReleaseAll)
            } else {
                step.events
            }
            &&& record.record_type == 0x14 ==> events == match ActivateProfile::parse(record.data) {
                Ok(activate) => step.events.push(DeviceEventView::ActivateProfile(activate)),
                Err(_) => step.events,
            }
            &&& record.record_type == 0x10 ==> events == match ProfileBegin::parse(record.data) {
                Ok(begin) => step.events.push(DeviceEventView::ProfileBegin(begin)),
                Err(_) => step.events,
            }
            &&& record.record_type == 0x11 ==> events == match ChunkView::parse(record.data) {
                Ok(chunk) => step.events.push(DeviceEventView::ProfileChunk(chunk)),
                Err(_) => step.events,
            }
            &&& record.record_type == 0x12 && record.data.len() == 4 ==> events.len()
                == step.events.len() + 1 && (events.last() matches DeviceEventView::ProfileCommit {
                transfer_id,
            } && transfer_id == record.data[0] + 256 * record.data[1] + 65536 * record.data[2]
                + 16777216 * record.data[3])
        }),
{
    reveal(LinkStep::with_command);
}

/// The cell of a transaction acknowledges the last number that was taken from the
/// host, and is the one that waits where one waits.
pub proof fn law_cell_of_a_transaction(link: LinkView, now_ms: u64)
    ensures
        link.transaction(now_ms).1.header.cumulative_ack == link.receiver.cumulative_ack,
        link.next_cell is Some ==> {
            &&& link.transaction(now_ms).1.payload == link.next_cell->0.payload
            &&& link.transaction(now_ms).1.header.tx_sequence
                == link.next_cell->0.header.tx_sequence
        },
        link.transaction(now_ms).0.next_cell is None,
        link.transaction(now_ms).0.receiver == link.receiver,
{
}

} // verus!
