use sctp::error::Error;
use sctp::param::{build_param, Param};

#[test]
fn forward_tsn_supported_round_trip() {
    let raw = vec![0xc0, 0x00, 0x00, 0x04];
    let p = build_param(&raw).unwrap();
    assert!(matches!(p, Param::ForwardTsnSupported));
    assert_eq!(p.marshal().unwrap(), raw);
    assert_eq!(p.value_length(), 0);
}

#[test]
fn supported_extensions_round_trip() {
    let raw = vec![0x80, 0x08, 0x00, 0x06, 0xc0, 0x82];
    let p = build_param(&raw).unwrap();
    match &p {
        Param::SupportedExtensions { chunk_types } => assert_eq!(chunk_types, &vec![0xc0, 0x82]),
        _ => panic!("wrong variant"),
    }
    assert_eq!(p.marshal().unwrap(), raw);
}

#[test]
fn hmac_algorithms_decode() {
    let raw = vec![0x80, 0x04, 0x00, 0x08, 0x00, 0x01, 0x00, 0x03];
    let p = build_param(&raw).unwrap();
    match &p {
        Param::RequestedHmacAlgorithm {
            available_algorithms,
        } => assert_eq!(available_algorithms, &vec![1, 3]),
        _ => panic!("wrong variant"),
    }
    assert_eq!(p.marshal().unwrap(), raw);
}

#[test]
fn outgoing_reset_request_decode() {
    let raw = vec![
        0x00, 0x0d, 0x00, 0x16, 0x00, 0x00, 0x00, 0x01, 0x00, 0x00, 0x00, 0x02, 0x00, 0x00, 0x00,
        0x03, 0x00, 0x04, 0x00, 0x05, 0x00, 0x06,
    ];
    let p = build_param(&raw).unwrap();
    match &p {
        Param::OutgoingResetRequest {
            reconfig_request_sequence_number,
            reconfig_response_sequence_number,
            sender_last_tsn,
            stream_identifiers,
        } => {
            assert_eq!(*reconfig_request_sequence_number, 1);
            assert_eq!(*reconfig_response_sequence_number, 2);
            assert_eq!(*sender_last_tsn, 3);
            assert_eq!(stream_identifiers, &vec![4, 5, 6]);
        }
        _ => panic!("wrong variant"),
    }
    assert_eq!(p.marshal().unwrap(), raw);
}

#[test]
fn reconfig_response_decode() {
    let raw = vec![0x00, 0x10, 0x00, 0x0c, 0x12, 0x34, 0x56, 0x78, 0x00, 0x00, 0x00, 0x01];
    let p = build_param(&raw).unwrap();
    match &p {
        Param::ReconfigResponse {
            reconfig_response_sequence_number,
            result,
            next_tsns,
        } => {
            assert_eq!(*reconfig_response_sequence_number, 0x1234_5678);
            assert_eq!(*result, 1);
            assert_eq!(*next_tsns, None);
        }
        _ => panic!("wrong variant"),
    }
    assert_eq!(p.marshal().unwrap(), raw);
}

#[test]
fn cookie_ignores_bytes_past_length() {
    let raw = vec![0x00, 0x07, 0x00, 0x07, 0xaa, 0xbb, 0xcc, 0x00];
    let p = build_param(&raw).unwrap();
    match &p {
        Param::StateCookie { cookie } => assert_eq!(cookie, &vec![0xaa, 0xbb, 0xcc]),
        _ => panic!("wrong variant"),
    }
    assert_eq!(p.marshal().unwrap(), raw[..7].to_vec());
}

#[test]
fn header_too_short() {
    assert!(matches!(build_param(&[0x00, 0x07, 0x00]), Err(Error::ErrParamHeaderTooShort)));
}

#[test]
fn length_longer_than_buffer() {
    assert!(matches!(
        build_param(&[0x00, 0x07, 0x00, 0x09, 0x01]),
        Err(Error::ErrParamHeaderLengthInvalid)
    ));
    assert!(matches!(
        build_param(&[0x00, 0x07, 0x00, 0x03, 0x01]),
        Err(Error::ErrParamHeaderLengthInvalid)
    ));
}

#[test]
fn unknown_type_rejected_or_skipped() {
    assert!(matches!(
        build_param(&[0x00, 0x63, 0x00, 0x04]),
        Err(Error::ErrParamTypeUnhandled)
    ));
    let p = build_param(&[0x80, 0x63, 0x00, 0x05, 0x09]).unwrap();
    match &p {
        Param::Unrecognized { param_type, value } => {
            assert_eq!(*param_type, 0x8063);
            assert_eq!(value, &vec![0x09]);
        }
        _ => panic!("wrong variant"),
    }
}

#[test]
fn short_reconfig_params() {
    assert!(matches!(
        build_param(&[0x00, 0x0d, 0x00, 0x0c, 0, 0, 0, 0, 0, 0, 0, 0]),
        Err(Error::ErrSsnResetRequestParamTooShort)
    ));
    assert!(matches!(
        build_param(&[0x00, 0x10, 0x00, 0x08, 0, 0, 0, 0]),
        Err(Error::ErrReconfigRespParamTooShort)
    ));
}

#[test]
fn value_too_long() {
    let p = Param::Random {
        random_data: vec![0u8; 0x10000],
    };
    assert!(matches!(p.marshal(), Err(Error::ErrParamValueTooLong)));
}

#[test]
fn reconfig_response_with_next_tsns_round_trip() {
    let raw = vec![
        0x00, 0x10, 0x00, 0x14, 0, 0, 0, 9, 0, 0, 0, 1, 0, 0, 0, 0x20, 0, 0, 0, 0x30,
    ];
    let p = build_param(&raw).unwrap();
    match &p {
        Param::ReconfigResponse { next_tsns, .. } => assert_eq!(*next_tsns, Some((0x20, 0x30))),
        _ => panic!("wrong variant"),
    }
    assert_eq!(p.marshal().unwrap(), raw);
}

#[test]
fn malformed_value_lengths_rejected() {
    assert!(matches!(
        build_param(&[0x00, 0x10, 0x00, 0x10, 0, 0, 0, 9, 0, 0, 0, 1, 0, 0, 0, 0]),
        Err(Error::ErrParamHeaderLengthInvalid)
    ));
    assert!(matches!(
        build_param(&[0x80, 0x04, 0x00, 0x07, 0x00, 0x01, 0x00]),
        Err(Error::ErrParamHeaderLengthInvalid)
    ));
    assert!(matches!(
        build_param(&[0x00, 0x0d, 0x00, 0x11, 0, 0, 0, 1, 0, 0, 0, 2, 0, 0, 0, 3, 4]),
        Err(Error::ErrParamHeaderLengthInvalid)
    ));
    assert!(matches!(
        build_param(&[0xc0, 0x00, 0x00, 0x05, 0x01]),
        Err(Error::ErrParamHeaderLengthInvalid)
    ));
}

#[test]
fn padded_parameter_written_without_padding() {
    let raw = vec![0x80, 0x08, 0x00, 0x05, 0xc0, 0x00, 0x00, 0x00];
    let p = build_param(&raw).unwrap();
    assert_eq!(p.marshal().unwrap(), raw[..5].to_vec());
}

#[test]
fn unrecognized_with_known_or_reject_type_refused() {
    let known = Param::Unrecognized {
        param_type: 0xc000,
        value: vec![],
    };
    assert!(matches!(known.marshal(), Err(Error::ErrParamTypeUnhandled)));
    let reject = Param::Unrecognized {
        param_type: 0x0063,
        value: vec![1],
    };
    assert!(matches!(reject.marshal(), Err(Error::ErrParamTypeUnhandled)));
}
