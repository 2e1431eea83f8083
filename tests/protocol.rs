use pubsub_client::protocol::{
    get_route_key, MessagePackage, Package, RegistrationPackage, SubscribePackage,
};

#[test]
fn protocol_test() {
    let reference_1 = SubscribePackage {
        is_sub: true,
        route_key: 42,
        msg_key: "SOME KEY".to_string(),
    };
    let reference_2 = SubscribePackage {
        is_sub: false,
        route_key: 42,
        msg_key: "".to_string(),
    };
    let result: Vec<u8> = reference_1.clone().to_bytes();
    match SubscribePackage::from_bytes(&result) {
        Ok(result) => assert_eq!(reference_1, result),
        Err(_) => assert!(false, "Unexpected error"),
    }
    let result: Vec<u8> = reference_2.clone().to_bytes();
    match SubscribePackage::from_bytes(&result) {
        Ok(result) => assert_eq!(reference_2, result),
        Err(_) => assert!(false, "Unexpected error"),
    }
}

#[test]
fn test() {
    let reference = RegistrationPackage { is_router: false };
    let result: Vec<u8> = reference.clone().to_bytes();
    match RegistrationPackage::from_bytes(&result) {
        Ok(result) => assert_eq!(reference, result),
        Err(_) => assert!(false, "Unexpected error"),
    }

    let reference_1 = MessagePackage {
        route_key: 42,
        msg_key: "SOME KEY".to_string(),
        payload: vec![1, 2, 3, 4, 5],
    };
    let reference_2 = MessagePackage {
        route_key: 42,
        msg_key: "".to_string(),
        payload: vec![],
    };
    let result: Vec<u8> = reference_1.clone().to_bytes();
    match MessagePackage::from_bytes(&result) {
        Ok(result) => assert_eq!(reference_1, result),
        Err(_) => assert!(false, "Unexpected error"),
    }
    let result: Vec<u8> = reference_2.clone().to_bytes();
    match MessagePackage::from_bytes(&result) {
        Ok(result) => assert_eq!(reference_2, result),
        Err(_) => assert!(false, "Unexpected error"),
    }
}

#[test]
fn test_sub() {
    let reference_1 = Package::Sub(SubscribePackage {
        is_sub: true,
        route_key: 42,
        msg_key: "SOME KEY".to_string(),
    });
    let reference_2 = Package::Sub(SubscribePackage {
        is_sub: false,
        route_key: 42,
        msg_key: "".to_string(),
    });
    let result: Vec<u8> = reference_1.clone().to_bytes();
    match Package::from_bytes(&result) {
        Ok(result) => assert_eq!(reference_1, result),
        Err(_) => assert!(false, "Unexpected error"),
    }
    let result: Vec<u8> = reference_2.clone().to_bytes();
    match Package::from_bytes(&result) {
        Ok(result) => assert_eq!(reference_2, result),
        Err(_) => assert!(false, "Unexpected error"),
    }
}

#[test]
fn test_reg() {
    let reference = Package::Reg(RegistrationPackage { is_router: false });
    let result: Vec<u8> = reference.clone().to_bytes();
    match Package::from_bytes(&result) {
        Ok(result) => assert_eq!(reference, result),
        Err(_) => assert!(false, "Unexpected error"),
    }
}

#[test]
fn test_msg() {
    let reference_1 = Package::Msg(MessagePackage {
        route_key: 42,
        msg_key: "SOME KEY".to_string(),
        payload: vec![1, 2, 3, 4, 5],
    });
    let reference_2 = Package::Msg(MessagePackage {
        route_key: 42,
        msg_key: "".to_string(),
        payload: vec![],
    });
    let result: Vec<u8> = reference_1.clone().to_bytes();
    match Package::from_bytes(&result) {
        Ok(result) => assert_eq!(reference_1, result),
        Err(_) => assert!(false, "Unexpected error"),
    }
    let result: Vec<u8> = reference_2.clone().to_bytes();
    match Package::from_bytes(&result) {
        Ok(result) => assert_eq!(reference_2, result),
        Err(_) => assert!(false, "Unexpected error"),
    }
}

#[test]
fn orders_message_frame() {
    let topic = "orders".to_string();
    let k = get_route_key(&topic);
    let p = Package::Msg(MessagePackage { route_key: k, msg_key: topic, payload: vec![1, 2, 3] });
    let bytes = p.to_bytes();
    let mut expected = vec![0x00u8];
    expected.extend_from_slice(&k.to_be_bytes());
    expected.extend_from_slice(b"orders");
    expected.push(0x00);
    expected.extend_from_slice(&[1, 2, 3]);
    assert_eq!(bytes, expected);
    assert_eq!(Package::from_bytes(&bytes), Ok(p));
}

#[test]
fn route_key_is_md5_prefix() {
    // MD5("") = d41d8cd98f00b204e9800998ecf8427e
    assert_eq!(get_route_key(&"".to_string()), 0xd41d8cd98f00b204);
    // MD5("abc") = 900150983cd24fb0d6963f7d28e17f72
    assert_eq!(get_route_key(&"abc".to_string()), 0x900150983cd24fb0);
}

#[test]
fn header_bytes_are_exact() {
    let sub = SubscribePackage { is_sub: true, route_key: 0x0102030405060708, msg_key: "t".to_string() };
    assert_eq!(sub.to_bytes(), vec![0x60, 1, 2, 3, 4, 5, 6, 7, 8, b't']);
    let unsub = SubscribePackage { is_sub: false, route_key: 1, msg_key: "".to_string() };
    assert_eq!(unsub.to_bytes(), vec![0x40, 0, 0, 0, 0, 0, 0, 0, 1]);
    assert_eq!(RegistrationPackage { is_router: true }.to_bytes(), vec![0xA0]);
    assert_eq!(RegistrationPackage { is_router: false }.to_bytes(), vec![0x80]);
}

#[test]
fn short_frames_are_rejected() {
    assert_eq!(Package::from_bytes(&[]), Err(()));
    let msg = Package::Msg(MessagePackage { route_key: 7, msg_key: "".to_string(), payload: vec![] }).to_bytes();
    assert_eq!(msg.len(), 10);
    for n in 0..msg.len() {
        assert_eq!(Package::from_bytes(&msg[..n]), Err(()));
    }
    let sub = Package::Sub(SubscribePackage { is_sub: true, route_key: 7, msg_key: "".to_string() }).to_bytes();
    assert_eq!(sub.len(), 9);
    for n in 0..sub.len() {
        assert_eq!(Package::from_bytes(&sub[..n]), Err(()));
    }
    assert_eq!(RegistrationPackage::from_bytes(&[]), Err(()));
}

#[test]
fn unknown_tag_is_rejected() {
    assert_eq!(Package::from_bytes(&[0xC0]), Err(()));
    assert_eq!(Package::from_bytes(&[0xE0, 0, 0, 0, 0, 0, 0, 0, 0, 0]), Err(()));
}

#[test]
fn invalid_utf8_topic_is_rejected() {
    let mut frame = vec![0x40u8, 0, 0, 0, 0, 0, 0, 0, 1];
    frame.push(0xFF);
    assert_eq!(Package::from_bytes(&frame), Err(()));
    let frame = vec![0x00u8, 0, 0, 0, 0, 0, 0, 0, 1, 0xC3, 0x00, 5];
    assert_eq!(Package::from_bytes(&frame), Err(()));
}

#[test]
fn message_without_separator_is_rejected() {
    let frame = vec![0x00u8, 0, 0, 0, 0, 0, 0, 0, 1, b'a', b'b'];
    assert_eq!(MessagePackage::from_bytes(&frame), Err(()));
}

#[test]
fn payload_may_hold_zero_bytes() {
    let m = MessagePackage { route_key: 3, msg_key: "x".to_string(), payload: vec![0, 0, 9, 0] };
    let bytes = m.to_bytes();
    assert_eq!(MessagePackage::from_bytes(&bytes), Ok(m));
}

#[test]
fn reserved_bits_are_ignored() {
    assert_eq!(Package::from_bytes(&[0xBF]), Ok(Package::Reg(RegistrationPackage { is_router: true })));
    assert_eq!(Package::from_bytes(&[0x9F]), Ok(Package::Reg(RegistrationPackage { is_router: false })));
}

#[test]
fn unicode_topic_round_trips() {
    let p = Package::Sub(SubscribePackage { is_sub: true, route_key: 5, msg_key: "grüße/ключ".to_string() });
    assert_eq!(Package::from_bytes(&p.to_bytes()), Ok(p));
}
