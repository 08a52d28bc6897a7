use hidshift::e2e::{E2eCommand, E2eInputLane, E2ePacket, E2eProtocolError};
use hidshift::input::{InputFrame, KeyUsage, ModifierState};
use hidshift::transport::InputTransport;

fn commands() -> [E2eCommand; 12] {
    [
        E2eCommand::Hello,
        E2eCommand::ReadTimestamp {
            target_sequence: 0x1234_5678,
        },
        E2eCommand::EnterDeviceDownload,
        E2eCommand::DropNextInput {
            lane: E2eInputLane::Critical,
        },
        E2eCommand::DropNextInputBurst {
            lane: E2eInputLane::Critical,
        },
        E2eCommand::SelectTransport {
            transport: InputTransport::EspNow,
        },
        E2eCommand::ReleaseAll,
        E2eCommand::Keyboard {
            modifiers: 0x22,
            keys: [4, 5, 6, 0, 0, 0],
        },
        E2eCommand::Mouse {
            buttons: 3,
            x: -1234,
            y: 2048,
            wheel: -2,
            pan: 3,
        },
        E2eCommand::Consumer { usage: 0x00e9 },
        E2eCommand::VendorInput {
            len: 63,
            seed: 0xa5,
        },
        E2eCommand::MouseBurst {
            count: 48,
            x: 1,
            y: -1,
        },
    ]
}

#[test]
fn only_hello_requests_a_synchronous_acknowledgement() {
    for command in commands() {
        let packet = E2ePacket {
            sequence: 7,
            command,
        };
        assert_eq!(
            packet.requests_acknowledgement(),
            matches!(
                command,
                E2eCommand::Hello
                    | E2eCommand::EnterDeviceDownload
                    | E2eCommand::SelectTransport { .. }
            )
        );
    }
}

#[test]
fn timestamp_query_is_not_an_input_event() {
    for command in commands() {
        let packet = E2ePacket {
            sequence: 7,
            command,
        };
        assert_eq!(
            packet.carries_input(),
            !matches!(
                command,
                E2eCommand::Hello
                    | E2eCommand::ReadTimestamp { .. }
                    | E2eCommand::EnterDeviceDownload
                    | E2eCommand::SelectTransport { .. }
            )
        );
    }
}

#[test]
fn every_command_round_trips_binary_and_uart_line() {
    for (index, command) in commands().into_iter().enumerate() {
        let packet = E2ePacket {
            sequence: 0x1020_3040 + index as u32,
            command,
        };
        assert_eq!(E2ePacket::decode(&packet.encode()), Ok(packet));
        assert_eq!(E2ePacket::decode_line(&packet.encode_line()), Ok(packet));
    }
}

#[test]
fn corruption_and_non_e2e_logs_are_rejected() {
    let packet = E2ePacket {
        sequence: 1,
        command: E2eCommand::Hello,
    };
    let mut encoded = packet.encode();
    encoded[6] ^= 1;
    assert_eq!(
        E2ePacket::decode(&encoded),
        Err(E2eProtocolError::InvalidChecksum)
    );
    assert_eq!(
        E2ePacket::decode_line(b"firmware: unrelated log"),
        Err(E2eProtocolError::InvalidLength)
    );
}

#[test]
fn packets_convert_at_the_normalized_input_boundary() {
    let packet = E2ePacket {
        sequence: 9,
        command: E2eCommand::Keyboard {
            modifiers: ModifierState::left_shift().bits(),
            keys: [4, 5, 0, 0, 0, 0],
        },
    };
    let frames = packet.input_frames().unwrap();
    let Some(InputFrame::Standard(frame)) = &frames[0] else {
        panic!("keyboard frame missing")
    };
    let keyboard = frame.keyboard.as_ref().unwrap();
    assert_eq!(keyboard.modifiers, ModifierState::left_shift());
    assert_eq!(keyboard.keys_down(), &[KeyUsage(4), KeyUsage(5)]);
}

#[test]
fn release_all_clears_keyboard_mouse_and_consumer_domains() {
    let frames = E2ePacket {
        sequence: 10,
        command: E2eCommand::ReleaseAll,
    }
    .input_frames()
    .unwrap();
    assert!(frames.iter().all(Option::is_some));
}
