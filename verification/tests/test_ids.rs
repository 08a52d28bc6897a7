use hidshift::ids::{HostSlot, InvalidHostSlot};

#[test]
fn host_slot_rejects_zero_and_out_of_range_values() {
    assert_eq!(HostSlot::try_from(0), Err(InvalidHostSlot(0)));
    assert_eq!(HostSlot::try_from(5), Err(InvalidHostSlot(5)));
    assert_eq!(HostSlot::try_from(4).unwrap().get(), 4);
}
