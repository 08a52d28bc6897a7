use hidshift::interchip::{ControlStatus, MirrorControlRequest, MirrorControlResponse};
use hidshift::interchip::control_fragment::{
    CONTROL_REQUEST_FRAGMENT_MAX_WIRE_LEN, CONTROL_RESPONSE_FRAGMENT_MAX_WIRE_LEN,
    ControlFragmentError, ControlRequestAssembler, ControlRequestFragment,
    ControlResponseAssembler, ControlResponseFragment,
};
use hidshift::interchip::message::CONTROL_DATA_MAX_LEN;

#[test]
fn request_and_response_round_trip_across_three_fragments() {
    let request_data = [0x5a; CONTROL_DATA_MAX_LEN];
    let request =
        MirrorControlRequest::new(7, [1, 2, 3, 4, 5, 6, 7, 8], &request_data).unwrap();
    let mut request_assembler = ControlRequestAssembler::new();
    let mut offset = 0;
    let mut completed = None;
    while offset < request.data().len() {
        let fragment = ControlRequestFragment::from_request(request, offset).unwrap();
        let mut wire = [0; CONTROL_REQUEST_FRAGMENT_MAX_WIRE_LEN];
        let length = fragment.encode(&mut wire).unwrap();
        let decoded = ControlRequestFragment::decode(&wire[..length]).unwrap();
        offset += decoded.data().len();
        completed = request_assembler.push(decoded).unwrap().or(completed);
    }
    assert_eq!(completed, Some(request));

    let response =
        MirrorControlResponse::new(7, ControlStatus::Success, &request_data).unwrap();
    let mut response_assembler = ControlResponseAssembler::new();
    let mut offset = 0;
    let mut completed = None;
    while offset < response.data().len() {
        let fragment = ControlResponseFragment::from_response(response, offset).unwrap();
        let mut wire = [0; CONTROL_RESPONSE_FRAGMENT_MAX_WIRE_LEN];
        let length = fragment.encode(&mut wire).unwrap();
        let decoded = ControlResponseFragment::decode(&wire[..length]).unwrap();
        offset += decoded.data().len();
        completed = response_assembler.push(decoded).unwrap().or(completed);
    }
    assert_eq!(completed, Some(response));
}

#[test]
fn out_of_order_fragment_discards_partial_message() {
    let request = MirrorControlRequest::new(1, [0; 8], &[0xaa; 200]).unwrap();
    let first = ControlRequestFragment::from_request(request, 0).unwrap();
    let third = ControlRequestFragment::from_request(request, 176).unwrap();
    let mut assembler = ControlRequestAssembler::new();
    assert_eq!(assembler.push(first), Ok(None));
    assert_eq!(assembler.push(third), Err(ControlFragmentError::OutOfOrder));
}
