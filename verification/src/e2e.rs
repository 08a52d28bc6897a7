//! Fixed-size, allocation-free protocol used by the hardware E2E harness.
//!
//! This protocol deliberately enters at the normalized input-frame boundary. It
//! does not pretend to test USB enumeration or HID descriptor parsing.

pub use crate::checksum::crc16_ccitt_false;

use vstd::prelude::*;

use crate::bytes::{
    array_at, bits16, bits8, from_bits16, from_bits8, get16, get32, le16, le32, lemma_join16,
    lemma_u16_in, lemma_u32_in, padded, part, same_bytes, signed16, signed8, to_bits16, to_bits8,
    to_le16, to_le32, u16_at, u32_at, write_at,
};
use crate::checksum::{crc16, law_crc16_detects_a_changed_byte};
use crate::hex::{hex_of, is_hex, law_hex_round_trip, read_hex, unhex, write_hex};
use crate::ids::{DeviceId, InterfaceId};
use crate::input::aggregator::with_key;
use crate::input::{
    ConsumerFrame, ConsumerUsage, FrameView, InputFrame, KeyUsage, KeyboardFrame, KeysView,
    ModifierState, MouseButtons, MouseFrame, MouseMovement, StandardInputFrame,
};
use crate::transport::InputTransport;

verus! {

/// The protocol version on the wire.
pub const E2E_PROTOCOL_VERSION: u8 = 1;

/// The bytes of a packet.
pub const E2E_PACKET_LEN: usize = 20;

/// The front of a line: "@HIDSHIFT-E2E:".
pub const E2E_LINE_PREFIX: [u8; 14] = [
    0x40, 0x48, 0x49, 0x44, 0x53, 0x48, 0x49, 0x46, 0x54, 0x2d, 0x45, 0x32, 0x45, 0x3a,
];

/// The bytes of a line.
pub const E2E_LINE_LEN: usize = 54;

/// Raw little-endian HCI address used by the dedicated test probe.
pub const E2E_PROBE_BLE_ADDRESS_RAW: [u8; 6] = [0x01, 0xe2, 0xe2, 0xe2, 0xe2, 0xc2];

/// The device and the interface that test input comes from.
pub const E2E_TEST_ID: u8 = 0xfe;

/// A command, and its number.
#[derive(Clone, Copy, Debug, PartialEq, Eq)]
pub struct E2ePacket {
    pub sequence: u32,
    pub command: E2eCommand,
}

/// What the harness asks for.
#[derive(Clone, Copy, Debug, PartialEq, Eq)]
pub enum E2eCommand {
    Hello,
    ReadTimestamp { target_sequence: u32 },
    EnterDeviceDownload,
    DropNextInput { lane: E2eInputLane },
    /// Drops the primary frame and suppresses its timed recovery snapshots.
    /// The following new input must recover it from the rolling journal.
    DropNextInputBurst { lane: E2eInputLane },
    SelectTransport { transport: InputTransport },
    ReleaseAll,
    Keyboard { modifiers: u8, keys: [u8; 6] },
    Mouse { buttons: u8, x: i16, y: i16, wheel: i8, pan: i8 },
    /// Generates several motion reports inside firmware from one UART packet.
    /// This isolates radio-scheduler pressure from diagnostic UART throughput.
    MouseBurst { count: u8, x: i16, y: i16 },
    Consumer { usage: u16 },
    /// Generates a deterministic vendor report in bridge firmware. The data
    /// itself is expanded there so a 63-byte report fits this fixed UART packet.
    VendorInput { len: u8, seed: u8 },
}

/// The lane that input takes.
#[derive(Clone, Copy, Debug, PartialEq, Eq, Structural)]
pub enum E2eInputLane {
    Motion,
    Critical,
}

/// Why bytes are no packet.
#[derive(Clone, Copy, Debug, PartialEq, Eq, Structural)]
pub enum E2eProtocolError {
    InvalidLength,
    InvalidPrefix,
    InvalidHex,
    UnsupportedVersion,
    UnknownCommand,
    InvalidPayload,
    InvalidChecksum,
}

impl E2eInputLane {
    /// The byte that stands for the lane.
    pub open spec fn byte(self) -> u8 {
        match self {
            E2eInputLane::Motion => 1,
            E2eInputLane::Critical => 2,
        }
    }

    fn to_byte(self) -> (r: u8)
        ensures
            r == self.byte(),
    {
        match self {
            Self::Motion => 1,
            Self::Critical => 2,
        }
    }

    fn from_byte(value: u8) -> (r: Result<Self, E2eProtocolError>)
        ensures
            r is Ok <==> value == 1 || value == 2,
            r is Ok ==> r->Ok_0.byte() == value,
            r is Err ==> r->Err_0 == E2eProtocolError::InvalidPayload,
    {
        match value {
            1 => Ok(Self::Motion),
            2 => Ok(Self::Critical),
            _ => Err(E2eProtocolError::InvalidPayload),
        }
    }
}

impl E2eCommand {
    /// The byte that stands for the command.
    pub open spec fn opcode(self) -> u8 {
        match self {
            E2eCommand::Hello => 0x01,
            E2eCommand::ReleaseAll => 0x02,
            E2eCommand::ReadTimestamp { .. } => 0x03,
            E2eCommand::EnterDeviceDownload => 0x04,
            E2eCommand::DropNextInput { .. } => 0x05,
            E2eCommand::DropNextInputBurst { .. } => 0x06,
            E2eCommand::SelectTransport { .. } => 0x07,
            E2eCommand::Keyboard { .. } => 0x10,
            E2eCommand::Mouse { .. } => 0x11,
            E2eCommand::Consumer { .. } => 0x12,
            E2eCommand::VendorInput { .. } => 0x13,
            E2eCommand::MouseBurst { .. } => 0x14,
        }
    }

    /// The bytes of what the command says.
    pub open spec fn payload(self) -> Seq<u8> {
        match self {
            E2eCommand::Hello => seq![],
            E2eCommand::ReleaseAll => seq![],
            E2eCommand::ReadTimestamp { target_sequence } => le32(target_sequence),
            E2eCommand::EnterDeviceDownload => seq![],
            E2eCommand::DropNextInput { lane } => seq![lane.byte()],
            E2eCommand::DropNextInputBurst { lane } => seq![lane.byte()],
            E2eCommand::SelectTransport { transport } => seq![transport.byte()],
            E2eCommand::Keyboard { modifiers, keys } => seq![modifiers] + keys@,
            E2eCommand::Mouse { buttons, x, y, wheel, pan } => seq![buttons] + le16(bits16(x))
                + le16(bits16(y)) + seq![bits8(wheel), bits8(pan)],
            E2eCommand::Consumer { usage } => le16(usage),
            E2eCommand::VendorInput { len, seed } => seq![len, seed],
            E2eCommand::MouseBurst { count, x, y } => seq![count] + le16(bits16(x)) + le16(
                bits16(y),
            ),
        }
    }

    /// Whether the bytes of a packet say this command.
    pub open spec fn is_said_by(self, bytes: Seq<u8>) -> bool {
        &&& bytes[1] == self.opcode()
        &&& match self {
            E2eCommand::Hello => true,
            E2eCommand::ReleaseAll => true,
            E2eCommand::ReadTimestamp { target_sequence } => target_sequence == u32_at(bytes, 6),
            E2eCommand::EnterDeviceDownload => true,
            E2eCommand::DropNextInput { lane } => lane.byte() == bytes[6],
            E2eCommand::DropNextInputBurst { lane } => lane.byte() == bytes[6],
            E2eCommand::SelectTransport { transport } => transport.byte() == bytes[6],
            E2eCommand::Keyboard { modifiers, keys } => modifiers == bytes[6] && keys@
                == bytes.subrange(7, 13),
            E2eCommand::Mouse { buttons, x, y, wheel, pan } => buttons == bytes[6] && x
                == signed16(u16_at(bytes, 7)) && y == signed16(u16_at(bytes, 9)) && wheel
                == signed8(bytes[11]) && pan == signed8(bytes[12]),
            E2eCommand::Consumer { usage } => usage == u16_at(bytes, 6),
            E2eCommand::VendorInput { len, seed } => len == bytes[6] && seed == bytes[7],
            E2eCommand::MouseBurst { count, x, y } => count == bytes[6] && x == signed16(
                u16_at(bytes, 7),
            ) && y == signed16(u16_at(bytes, 9)),
        }
    }

    /// Whether the command asks for something: not for a burst of nothing.
    pub open spec fn is_sound(self) -> bool {
        match self {
            E2eCommand::MouseBurst { count, .. } => count != 0,
            _ => true,
        }
    }
}

/// What is wrong with the command in a packet.
pub open spec fn command_error(bytes: Seq<u8>) -> Option<E2eProtocolError> {
    let op = bytes[1];
    if 0x05 <= op <= 0x07 {
        if bytes[6] == 1 || bytes[6] == 2 {
            None
        } else {
            Some(E2eProtocolError::InvalidPayload)
        }
    } else if op == 0x14 {
        if bytes[6] != 0 {
            None
        } else {
            Some(E2eProtocolError::InvalidPayload)
        }
    } else if 0x01 <= op <= 0x04 || 0x10 <= op <= 0x13 {
        None
    } else {
        Some(E2eProtocolError::UnknownCommand)
    }
}

/// Why bytes are no packet, where they are none.
pub open spec fn packet_error(bytes: Seq<u8>) -> Option<E2eProtocolError> {
    if bytes.len() != E2E_PACKET_LEN {
        Some(E2eProtocolError::InvalidLength)
    } else if crc16(bytes.take(18)) != u16_at(bytes, 18) {
        Some(E2eProtocolError::InvalidChecksum)
    } else if bytes[0] != E2E_PROTOCOL_VERSION {
        Some(E2eProtocolError::UnsupportedVersion)
    } else {
        command_error(bytes)
    }
}

/// Why bytes are no line, where they are none.
pub open spec fn line_error(line: Seq<u8>) -> Option<E2eProtocolError> {
    if line.len() != E2E_LINE_LEN {
        Some(E2eProtocolError::InvalidLength)
    } else if line.take(14) != E2E_LINE_PREFIX@ {
        Some(E2eProtocolError::InvalidPrefix)
    } else if !is_hex(line.skip(14)) {
        Some(E2eProtocolError::InvalidHex)
    } else {
        packet_error(unhex(line.skip(14)))
    }
}

/// The keys that are pressed: those that are not 0, each once.
pub open spec fn pressed(keys: Seq<u8>) -> Seq<KeyUsage>
    decreases keys.len(),
{
    if keys.len() == 0 {
        seq![]
    } else if keys.last() == 0 {
        pressed(keys.drop_last())
    } else {
        with_key(pressed(keys.drop_last()), KeyUsage(keys.last()))
    }
}

/// A report from the test device.
pub open spec fn test_frame(
    keyboard: Option<KeysView>,
    mouse: Option<MouseFrame>,
    consumer: Option<ConsumerFrame>,
) -> FrameView {
    FrameView {
        device_id: DeviceId(E2E_TEST_ID),
        interface_id: InterfaceId(E2E_TEST_ID),
        keyboard,
        mouse,
        consumer,
    }
}

/// The reports that a command stands for.
pub open spec fn frames_of(command: E2eCommand) -> Seq<Option<FrameView>> {
    match command {
        E2eCommand::ReleaseAll => seq![
            Some(
                test_frame(
                    Some(KeysView { modifiers: ModifierState::of_mask(0), keys: seq![] }),
                    None,
                    None,
                ),
            ),
            Some(
                test_frame(
                    None,
                    Some(
                        MouseFrame {
                            buttons: MouseButtons::of_mask(0),
                            movement: MouseMovement::still(),
                        },
                    ),
                    None,
                ),
            ),
            Some(test_frame(None, None, Some(ConsumerFrame { active: None }))),
        ],
        E2eCommand::Keyboard { modifiers, keys } => seq![
            Some(
                test_frame(
                    Some(
                        KeysView {
                            modifiers: ModifierState::of_mask(modifiers),
                            keys: pressed(keys@),
                        },
                    ),
                    None,
                    None,
                ),
            ),
            None,
            None,
        ],
        E2eCommand::Mouse { buttons, x, y, wheel, pan } => seq![
            Some(
                test_frame(
                    None,
                    Some(
                        MouseFrame {
                            buttons: MouseButtons::of_mask(buttons & 0x1f),
                            movement: MouseMovement { x, y, wheel, pan },
                        },
                    ),
                    None,
                ),
            ),
            None,
            None,
        ],
        E2eCommand::Consumer { usage } => seq![
            Some(
                test_frame(
                    None,
                    None,
                    Some(
                        ConsumerFrame {
                            active: if usage != 0 {
                                Some(ConsumerUsage(usage))
                            } else {
                                None
                            },
                        },
                    ),
                ),
            ),
            None,
            None,
        ],
        _ => seq![None, None, None],
    }
}

/// What a report says, if there is one and it is a standard one.
pub open spec fn says(frame: Option<InputFrame>) -> Option<FrameView> {
    match frame {
        Some(InputFrame::Standard(frame)) => Some(frame@),
        _ => None,
    }
}

fn standard(
    keyboard: Option<KeyboardFrame>,
    mouse: Option<MouseFrame>,
    consumer: Option<ConsumerFrame>,
) -> (r: Option<InputFrame>)
    ensures
        says(r) == Some(
            test_frame(
                match keyboard {
                    Some(keyboard) => Some(keyboard@),
                    None => None,
                },
                mouse,
                consumer,
            ),
        ),
{
    Some(
        InputFrame::Standard(
            StandardInputFrame {
                device_id: DeviceId(E2E_TEST_ID),
                interface_id: InterfaceId(E2E_TEST_ID),
                keyboard,
                mouse,
                consumer,
            },
        ),
    )
}

proof fn lemma_pressed_len(keys: Seq<u8>)
    ensures
        pressed(keys).len() <= keys.len(),
    decreases keys.len(),
{
    if keys.len() > 0 {
        lemma_pressed_len(keys.drop_last());
    }
}

impl E2ePacket {
    /// The packet's bytes before its checksum.
    pub open spec fn body(self) -> Seq<u8> {
        padded(
            seq![E2E_PROTOCOL_VERSION, self.command.opcode()] + le32(self.sequence)
                + self.command.payload(),
            18,
        )
    }

    /// The packet's bytes.
    pub open spec fn wire(self) -> Seq<u8> {
        self.body() + le16(crc16(self.body()))
    }

    /// The packet's line.
    pub open spec fn line(self) -> Seq<u8> {
        E2E_LINE_PREFIX@ + hex_of(self.wire())
    }

    /// Whether bytes say this packet.
    pub open spec fn is_said_by(self, bytes: Seq<u8>) -> bool {
        self.sequence == u32_at(bytes, 2) && self.command.is_said_by(bytes)
    }

    /// Only handshake packets need a UART acknowledgement from the DUT.
    ///
    /// Input packets deliberately avoid synchronous logging because UART log
    /// output is slow enough to perturb the latency being measured.
    pub fn requests_acknowledgement(self) -> (r: bool)
        ensures
            r == (self.command is Hello || self.command is EnterDeviceDownload
                || self.command is SelectTransport),
    {
        match self.command {
            E2eCommand::Hello => true,
            E2eCommand::EnterDeviceDownload => true,
            E2eCommand::SelectTransport { .. } => true,
            _ => false,
        }
    }

    /// Whether the packet is about input.
    pub fn carries_input(self) -> (r: bool)
        ensures
            r == !(self.command is Hello || self.command is ReadTimestamp
                || self.command is EnterDeviceDownload || self.command is SelectTransport),
    {
        match self.command {
            E2eCommand::ReleaseAll => true,
            E2eCommand::DropNextInput { .. } => true,
            E2eCommand::DropNextInputBurst { .. } => true,
            E2eCommand::Keyboard { .. } => true,
            E2eCommand::Mouse { .. } => true,
            E2eCommand::MouseBurst { .. } => true,
            E2eCommand::Consumer { .. } => true,
            E2eCommand::VendorInput { .. } => true,
            _ => false,
        }
    }

    /// The packet's bytes.
    pub fn encode(self) -> (r: [u8; E2E_PACKET_LEN])
        ensures
            r@ == self.wire(),
    {
        let mut bytes = [0u8; E2E_PACKET_LEN];
        bytes[0] = E2E_PROTOCOL_VERSION;
        write_at(&mut bytes, 2, &to_le32(self.sequence));
        match self.command {
            E2eCommand::Hello => {
                bytes[1] = 0x01;
            },
            E2eCommand::ReadTimestamp { target_sequence } => {
                bytes[1] = 0x03;
                write_at(&mut bytes, 6, &to_le32(target_sequence));
            },
            E2eCommand::EnterDeviceDownload => {
                bytes[1] = 0x04;
            },
            E2eCommand::DropNextInput { lane } => {
                bytes[1] = 0x05;
                bytes[6] = lane.to_byte();
            },
            E2eCommand::DropNextInputBurst { lane } => {
                bytes[1] = 0x06;
                bytes[6] = lane.to_byte();
            },
            E2eCommand::SelectTransport { transport } => {
                bytes[1] = 0x07;
                bytes[6] = transport.to_byte();
            },
            E2eCommand::ReleaseAll => {
                bytes[1] = 0x02;
            },
            E2eCommand::Keyboard { modifiers, keys } => {
                bytes[1] = 0x10;
                bytes[6] = modifiers;
                write_at(&mut bytes, 7, &keys);
            },
            E2eCommand::Mouse { buttons, x, y, wheel, pan } => {
                bytes[1] = 0x11;
                bytes[6] = buttons;
                write_at(&mut bytes, 7, &to_le16(to_bits16(x)));
                write_at(&mut bytes, 9, &to_le16(to_bits16(y)));
                bytes[11] = to_bits8(wheel);
                bytes[12] = to_bits8(pan);
            },
            E2eCommand::Consumer { usage } => {
                bytes[1] = 0x12;
                write_at(&mut bytes, 6, &to_le16(usage));
            },
            E2eCommand::VendorInput { len, seed } => {
                bytes[1] = 0x13;
                bytes[6] = len;
                bytes[7] = seed;
            },
            E2eCommand::MouseBurst { count, x, y } => {
                bytes[1] = 0x14;
                bytes[6] = count;
                write_at(&mut bytes, 7, &to_le16(to_bits16(x)));
                write_at(&mut bytes, 9, &to_le16(to_bits16(y)));
            },
        }
        assert(bytes@.take(18) =~= self.body());
        let checksum: u16 = crc16_ccitt_false(part(&bytes, 0, 18));
        write_at(&mut bytes, 18, &to_le16(checksum));
        assert(bytes@ =~= self.wire());
        bytes
    }

    /// The packet of these bytes.
    pub fn decode(bytes: &[u8]) -> (r: Result<Self, E2eProtocolError>)
        ensures
            match packet_error(bytes@) {
                Some(error) => r == Err::<Self, E2eProtocolError>(error),
                None => r is Ok && r->Ok_0.is_said_by(bytes@),
            },
    {
        if bytes.len() != E2E_PACKET_LEN {
            return Err(E2eProtocolError::InvalidLength);
        }
        let expected: u16 = get16(bytes, 18);
        if crc16_ccitt_false(part(bytes, 0, 18)) != expected {
            return Err(E2eProtocolError::InvalidChecksum);
        }
        if bytes[0] != E2E_PROTOCOL_VERSION {
            return Err(E2eProtocolError::UnsupportedVersion);
        }
        let sequence: u32 = get32(bytes, 2);
        match decode_command(bytes) {
            Ok(command) => Ok(Self { sequence, command }),
            Err(error) => Err(error),
        }
    }

    /// The packet of this line.
    pub fn decode_line(line: &[u8]) -> (r: Result<Self, E2eProtocolError>)
        ensures
            match line_error(line@) {
                Some(error) => r == Err::<Self, E2eProtocolError>(error),
                None => r is Ok && r->Ok_0.is_said_by(unhex(line@.skip(14))),
            },
    {
        if line.len() != E2E_LINE_LEN {
            return Err(E2eProtocolError::InvalidLength);
        }
        let prefix = E2E_LINE_PREFIX;
        assert(line@.take(14) =~= line@.subrange(0, 14));
        assert(line@.skip(14) =~= line@.subrange(14, 54));
        if !same_bytes(part(line, 0, 14), prefix.as_slice()) {
            return Err(E2eProtocolError::InvalidPrefix);
        }
        match read_hex::<E2E_PACKET_LEN>(part(line, 14, 54)) {
            None => Err(E2eProtocolError::InvalidHex),
            Some(bytes) => Self::decode(bytes.as_slice()),
        }
    }

    /// The packet's line.
    pub fn encode_line(self) -> (r: [u8; E2E_LINE_LEN])
        ensures
            r@ == self.line(),
    {
        let mut line = [0u8; E2E_LINE_LEN];
        let prefix = E2E_LINE_PREFIX;
        write_at(&mut line, 0, &prefix);
        let bytes = self.encode();
        write_hex(&mut line, 14, bytes.as_slice());
        assert(line@ =~= self.line());
        line
    }

    /// The reports that the packet stands for.
    pub fn input_frames(self) -> (r: Result<[Option<InputFrame>; 3], E2eProtocolError>)
        ensures
            r is Ok,
            forall|i: int|
                0 <= i < 3 ==> says(#[trigger] r->Ok_0@[i]) == frames_of(self.command)[i],
            forall|i: int|
                0 <= i < 3 ==> ((#[trigger] r->Ok_0@[i]) is Some <==> frames_of(
                    self.command,
                )[i] is Some),
    {
        match self.command {
            E2eCommand::ReleaseAll => Ok(
                [
                    standard(Some(KeyboardFrame::new(ModifierState::empty())), None, None),
                    standard(
                        None,
                        Some(
                            MouseFrame {
                                buttons: MouseButtons::empty(),
                                movement: MouseMovement::neutral(),
                            },
                        ),
                        None,
                    ),
                    standard(None, None, Some(ConsumerFrame { active: None })),
                ],
            ),
            E2eCommand::Keyboard { modifiers, keys } => {
                let mut frame = KeyboardFrame::new(ModifierState::from_bits_truncate(modifiers));
                let mut i: usize = 0;
                assert(keys@.take(0) =~= Seq::<u8>::empty());
                while i < 6
                    invariant
                        i <= 6,
                        frame.wf(),
                        frame@.modifiers == ModifierState::of_mask(modifiers),
                        frame@.keys == pressed(keys@.take(i as int)),
                    decreases 6 - i,
                {
                    proof {
                        assert(keys@.take(i + 1).drop_last() =~= keys@.take(i as int));
                        lemma_pressed_len(keys@.take(i as int));
                    }
                    if keys[i] != 0 {
                        match frame.push_key(KeyUsage(keys[i])) {
                            Ok(_) => {},
                            Err(_) => {
                                return Err(E2eProtocolError::InvalidPayload);
                            },
                        }
                    }
                    i += 1;
                }
                assert(keys@.take(6) =~= keys@);
                Ok([standard(Some(frame), None, None), None, None])
            },
            E2eCommand::Mouse { buttons, x, y, wheel, pan } => Ok(
                [
                    standard(
                        None,
                        Some(
                            MouseFrame {
                                buttons: MouseButtons::from_bits_truncate(buttons),
                                movement: MouseMovement { x, y, wheel, pan },
                            },
                        ),
                        None,
                    ),
                    None,
                    None,
                ],
            ),
            E2eCommand::Consumer { usage } => {
                let active = if usage != 0 {
                    Some(ConsumerUsage(usage))
                } else {
                    None
                };
                Ok([standard(None, None, Some(ConsumerFrame { active })), None, None])
            },
            _ => Ok([None, None, None]),
        }
    }
}

fn decode_command(bytes: &[u8]) -> (r: Result<E2eCommand, E2eProtocolError>)
    requires
        bytes@.len() == E2E_PACKET_LEN,
    ensures
        match command_error(bytes@) {
            Some(error) => r == Err::<E2eCommand, E2eProtocolError>(error),
            None => r is Ok && r->Ok_0.is_said_by(bytes@),
        },
{
    match bytes[1] {
        0x01 => Ok(E2eCommand::Hello),
        0x02 => Ok(E2eCommand::ReleaseAll),
        0x03 => Ok(E2eCommand::ReadTimestamp { target_sequence: get32(bytes, 6) }),
        0x04 => Ok(E2eCommand::EnterDeviceDownload),
        0x05 => match E2eInputLane::from_byte(bytes[6]) {
            Ok(lane) => Ok(E2eCommand::DropNextInput { lane }),
            Err(error) => Err(error),
        },
        0x06 => match E2eInputLane::from_byte(bytes[6]) {
            Ok(lane) => Ok(E2eCommand::DropNextInputBurst { lane }),
            Err(error) => Err(error),
        },
        0x07 => match bytes[6] {
            1 => Ok(E2eCommand::SelectTransport { transport: InputTransport::Ble }),
            2 => Ok(E2eCommand::SelectTransport { transport: InputTransport::EspNow }),
            _ => Err(E2eProtocolError::InvalidPayload),
        },
        0x10 => Ok(
            E2eCommand::Keyboard { modifiers: bytes[6], keys: array_at::<6>(bytes, 7) },
        ),
        0x11 => Ok(
            E2eCommand::Mouse {
                buttons: bytes[6],
                x: from_bits16(get16(bytes, 7)),
                y: from_bits16(get16(bytes, 9)),
                wheel: from_bits8(bytes[11]),
                pan: from_bits8(bytes[12]),
            },
        ),
        0x12 => Ok(E2eCommand::Consumer { usage: get16(bytes, 6) }),
        0x13 => Ok(E2eCommand::VendorInput { len: bytes[6], seed: bytes[7] }),
        0x14 => if bytes[6] != 0 {
            Ok(
                E2eCommand::MouseBurst {
                    count: bytes[6],
                    x: from_bits16(get16(bytes, 7)),
                    y: from_bits16(get16(bytes, 9)),
                },
            )
        } else {
            Err(E2eProtocolError::InvalidPayload)
        },
        _ => Err(E2eProtocolError::UnknownCommand),
    }
}

/// Bytes say at most one packet.
pub proof fn law_one_packet(bytes: Seq<u8>, a: E2ePacket, b: E2ePacket)
    requires
        a.is_said_by(bytes),
        b.is_said_by(bytes),
    ensures
        a == b,
{
    match (a.command, b.command) {
        (
            E2eCommand::Keyboard { modifiers: _, keys: x },
            E2eCommand::Keyboard { modifiers: _, keys: y },
        ) => {
            assert(x =~= y);
        },
        _ => {},
    }
}

/// A packet comes back from its bytes, and from its line.
pub proof fn law_packet_round_trip(packet: E2ePacket)
    requires
        packet.command.is_sound(),
    ensures
        packet_error(packet.wire()) is None,
        packet.is_said_by(packet.wire()),
        line_error(packet.line()) is None,
        unhex(packet.line().skip(14)) == packet.wire(),
{
    let wire = packet.wire();
    let body = packet.body();
    let payload = packet.command.payload();
    lemma_payload_len(packet.command);
    assert(wire.len() == 20);
    assert(wire.take(18) =~= body);
    assert(wire.subrange(18, 20) =~= le16(crc16(body)));
    lemma_u16_in(wire, 18, crc16(body));
    assert(wire.subrange(2, 6) =~= le32(packet.sequence));
    lemma_u32_in(wire, 2, packet.sequence);
    assert(wire.subrange(6, 6 + payload.len() as int) =~= payload);
    assert forall|i: int| 0 <= i < payload.len() implies wire[6 + i] == payload[i] by {
        assert(wire.subrange(6, 6 + payload.len() as int)[i] == wire[6 + i]);
    }
    lemma_payload_read(packet.command, wire);
    let line = packet.line();
    assert(line.take(14) =~= E2E_LINE_PREFIX@);
    assert(line.skip(14) =~= hex_of(wire));
    law_hex_round_trip(wire);
}

proof fn lemma_payload_len(command: E2eCommand)
    ensures
        command.payload().len() <= 12,
{
}

proof fn lemma_payload_read(command: E2eCommand, wire: Seq<u8>)
    requires
        command.is_sound(),
        wire.len() == 20,
        wire[1] == command.opcode(),
        command.payload().len() <= 12,
        wire.subrange(6, 6 + command.payload().len() as int) == command.payload(),
        forall|i: int|
            0 <= i < command.payload().len() ==> wire[6 + i] == #[trigger] command.payload()[i],
    ensures
        command_error(wire) is None,
        command.is_said_by(wire),
{
    let p = command.payload();
    match command {
        E2eCommand::ReadTimestamp { target_sequence } => {
            lemma_u32_in(wire, 6, target_sequence);
        },
        E2eCommand::DropNextInput { lane } => {
            assert(wire[6] == p[0]);
        },
        E2eCommand::DropNextInputBurst { lane } => {
            assert(wire[6] == p[0]);
        },
        E2eCommand::SelectTransport { transport } => {
            assert(wire[6] == p[0]);
        },
        E2eCommand::Keyboard { modifiers, keys } => {
            assert(wire[6] == p[0]);
            assert(wire.subrange(7, 13) =~= keys@) by {
                assert forall|i: int| 0 <= i < 6 implies wire[7 + i] == keys@[i] by {
                    assert(wire[6 + (i + 1)] == p[i + 1]);
                }
            }
        },
        E2eCommand::Mouse { buttons, x, y, wheel, pan } => {
            assert(wire[6] == p[0]);
            assert(wire[7] == p[1] && wire[8] == p[2]);
            assert(wire[9] == p[3] && wire[10] == p[4]);
            assert(wire[11] == p[5] && wire[12] == p[6]);
            assert(wire.subrange(7, 9) =~= le16(bits16(x)));
            assert(wire.subrange(9, 11) =~= le16(bits16(y)));
            lemma_u16_in(wire, 7, bits16(x));
            lemma_u16_in(wire, 9, bits16(y));
        },
        E2eCommand::Consumer { usage } => {
            lemma_u16_in(wire, 6, usage);
        },
        E2eCommand::VendorInput { len, seed } => {
            assert(wire[6] == p[0] && wire[7] == p[1]);
        },
        E2eCommand::MouseBurst { count, x, y } => {
            assert(wire[6] == p[0]);
            assert(wire[7] == p[1] && wire[8] == p[2]);
            assert(wire[9] == p[3] && wire[10] == p[4]);
            assert(wire.subrange(7, 9) =~= le16(bits16(x)));
            assert(wire.subrange(9, 11) =~= le16(bits16(y)));
            lemma_u16_in(wire, 7, bits16(x));
            lemma_u16_in(wire, 9, bits16(y));
        },
        _ => {},
    }
}

/// A packet of which one byte was changed is refused for its checksum.
pub proof fn law_packet_corruption(bytes: Seq<u8>, at: int, byte: u8)
    requires
        packet_error(bytes) is None,
        0 <= at < 20,
        byte != bytes[at],
    ensures
        packet_error(bytes.update(at, byte)) == Some(E2eProtocolError::InvalidChecksum),
{
    let changed = bytes.update(at, byte);
    if at < 18 {
        law_crc16_detects_a_changed_byte(bytes.take(18), at, byte);
        assert(changed.take(18) =~= bytes.take(18).update(at, byte));
    } else {
        assert(changed.take(18) =~= bytes.take(18));
        lemma_join16(bytes[18], bytes[19]);
        lemma_join16(changed[18], changed[19]);
        if u16_at(changed, 18) == u16_at(bytes, 18) {
            let a = seq![bytes[18], bytes[19]];
            let b = seq![changed[18], changed[19]];
            assert(a[at - 18] == b[at - 18]);
        }
    }
}

proof fn lemma_pressed(keys: Seq<u8>, key: u8)
    ensures
        pressed(keys).contains(KeyUsage(key)) <==> key != 0 && keys.contains(key),
        pressed(keys).no_duplicates(),
    decreases keys.len(),
{
    if keys.len() > 0 {
        let rest = keys.drop_last();
        let last = keys.last();
        lemma_pressed(rest, key);
        lemma_pressed(rest, last);
        assert(keys.contains(last));
        if rest.contains(key) {
            assert(keys[rest.index_of(key)] == key);
        }
        if keys.contains(key) && key != last {
            assert(rest[keys.index_of(key)] == key);
        }
        if last != 0 {
            let before = pressed(rest);
            let after = pressed(keys);
            if !before.contains(KeyUsage(last)) {
                assert(after[before.len() as int] == KeyUsage(last));
                if before.contains(KeyUsage(key)) {
                    assert(after[before.index_of(KeyUsage(key))] == KeyUsage(key));
                }
            }
        }
    }
}

/// What a command does is in its first report, which comes from the test device
/// and speaks of nothing else: the keys that are not 0, the buttons of a mouse
/// and its movement, or the usage unless it is 0.
pub proof fn law_what_a_command_reports(command: E2eCommand, key: u8)
    requires
        command is Keyboard || command is Mouse || command is Consumer,
    ensures
        ({
            let frames = frames_of(command);
            let frame = frames[0]->0;
            &&& frames.len() == 3 && frames[0] is Some && frames[1] is None && frames[2] is None
            &&& frame.device_id.0 == E2E_TEST_ID && frame.interface_id.0 == E2E_TEST_ID
            &&& frame.keyboard is Some <==> command is Keyboard
            &&& frame.mouse is Some <==> command is Mouse
            &&& frame.consumer is Some <==> command is Consumer
            &&& command matches E2eCommand::Keyboard { modifiers, keys } ==> {
                &&& frame.keyboard->0.modifiers.mask() == modifiers
                &&& frame.keyboard->0.keys.no_duplicates()
                &&& frame.keyboard->0.keys.contains(KeyUsage(key)) <==> key != 0 && keys@.contains(
                    key,
                )
            }
            &&& command matches E2eCommand::Mouse { buttons, x, y, wheel, pan } ==> {
                &&& frame.mouse->0.buttons.mask() == buttons % 32
                &&& frame.mouse->0.movement == (MouseMovement { x, y, wheel, pan })
            }
            &&& command matches E2eCommand::Consumer { usage } ==> {
                &&& frame.consumer->0.active is Some <==> usage != 0
                &&& usage != 0 ==> frame.consumer->0.active == Some(ConsumerUsage(usage))
            }
        }),
{
    match command {
        E2eCommand::Keyboard { modifiers, keys } => {
            lemma_pressed(keys@, key);
        },
        E2eCommand::Mouse { buttons, x, y, wheel, pan } => {
            assert(buttons & 0x1f == buttons % 32) by (bit_vector);
        },
        _ => {},
    }
}

/// Letting everything go says so of the keys, of the mouse and of the usage, each
/// in a report of its own.
pub proof fn law_release_lets_go_of_everything()
    ensures
        ({
            let frames = frames_of(E2eCommand::ReleaseAll);
            &&& frames.len() == 3
            &&& frames[0] is Some && frames[1] is Some && frames[2] is Some
            &&& frames[0]->0.keyboard is Some && frames[0]->0.keyboard->0.keys.len() == 0
            &&& frames[0]->0.keyboard->0.modifiers.mask() == 0
            &&& frames[1]->0.mouse is Some && frames[1]->0.mouse->0.buttons.mask() == 0
            &&& frames[1]->0.mouse->0.movement == (MouseMovement { x: 0, y: 0, wheel: 0, pan: 0 })
            &&& frames[2]->0.consumer is Some && frames[2]->0.consumer->0.active is None
            &&& forall|i: int|
                0 <= i < 3 ==> (#[trigger] frames[i])->0.device_id.0 == E2E_TEST_ID
                    && frames[i]->0.interface_id.0 == E2E_TEST_ID
        }),
{
}

} // verus!
