use hidshift::link::MAX_BRIDGE_MESSAGE_SIZE;
use hidshift::link::wire::{
    ESP_NOW_PAYLOAD_MAX, FragmentEncoder, PacketFlags, Reassembler, WIRE_HEADER_LEN,
    WIRE_PAYLOAD_MAX, WirePacket, WirePacketError,
};

fn all_packets(mut encoder: FragmentEncoder<'_>) -> Vec<WirePacket> {
    let mut packets = Vec::new();
    while let Some(packet) = encoder.next() {
        packets.push(packet);
    }
    packets
}

#[test]
fn maximum_descriptor_message_fragments_and_reassembles_out_of_order() {
    let mut message = [0u8; MAX_BRIDGE_MESSAGE_SIZE];
    for (index, byte) in message.iter_mut().enumerate() {
        *byte = index as u8;
    }
    let fragments = all_packets(FragmentEncoder::new(&message, 7, u32::MAX - 2, 42).unwrap());
    assert_eq!(fragments.len(), message.len().div_ceil(WIRE_PAYLOAD_MAX));

    let mut reassembler = Reassembler::new();
    for index in (1..fragments.len()).rev() {
        assert_eq!(reassembler.push(fragments[index].as_bytes()), Ok(None));
    }
    assert_eq!(
        reassembler.push(fragments[0].as_bytes()),
        Ok(Some(message.as_slice()))
    );
}

#[test]
fn checksum_detects_corruption_before_hid_delivery() {
    let packet = FragmentEncoder::new(&[1, 2, 3], 1, 2, 3)
        .unwrap()
        .next()
        .unwrap();
    let mut corrupt = [0; ESP_NOW_PAYLOAD_MAX];
    corrupt[..packet.as_bytes().len()].copy_from_slice(packet.as_bytes());
    corrupt[WIRE_HEADER_LEN] ^= 0x80;
    assert_eq!(
        WirePacket::decode(&corrupt[..packet.as_bytes().len()]),
        Err(WirePacketError::InvalidChecksum)
    );
}

#[test]
fn duplicate_fragment_is_idempotent() {
    let message = [0x55; WIRE_PAYLOAD_MAX + 3];
    let fragments = all_packets(FragmentEncoder::new(&message, 1, 1, 1).unwrap());
    let mut reassembler = Reassembler::new();
    assert_eq!(reassembler.push(fragments[0].as_bytes()), Ok(None));
    assert_eq!(reassembler.push(fragments[0].as_bytes()), Ok(None));
    assert_eq!(
        reassembler.push(fragments[1].as_bytes()),
        Ok(Some(message.as_slice()))
    );
}

#[test]
fn data_fragments_only_carry_boundary_flags() {
    let packet = FragmentEncoder::new(&[1, 2, 3], 1, 2, 3)
        .unwrap()
        .next()
        .unwrap();
    let decoded = WirePacket::decode(packet.as_bytes()).unwrap();
    assert!(decoded.flags.contains(PacketFlags::first()));
    assert!(decoded.flags.contains(PacketFlags::last()));
    assert_eq!(decoded.flags.bits(), 0b11);
}
