use pentardp_rs::mcs::{McsResult, ErectDomainRequest, AttachUserRequest, AttachUserConfirm, ChannelJoinRequest, ChannelJoinConfirm, DomainParameters, ConnectInitial, ConnectResponse};
use pentardp_rs::ber::{BerReader, BerWriter};

#[test]
fn test_channel_join_request() {
    let request = ChannelJoinRequest::new(1001, 1003);

    let mut buffer = Vec::new();
    request.encode(&mut buffer).unwrap();

    let mut cursor = BerReader::new(&buffer);
    let decoded = ChannelJoinRequest::decode(&mut cursor).unwrap();

    assert_eq!(request, decoded);
    assert_eq!(decoded.user_id, 1001);
    assert_eq!(decoded.channel_id, 1003);
}

#[test]
fn test_channel_join_request_roundtrip() {
    let test_cases = vec![
        ChannelJoinRequest::new(1, 1),
        ChannelJoinRequest::new(1001, 1003),
        ChannelJoinRequest::new(65535, 65535),
    ];

    for request in test_cases {
        let mut buffer = Vec::new();
        request.encode(&mut buffer).unwrap();

        let mut cursor = BerReader::new(&buffer);
        let decoded = ChannelJoinRequest::decode(&mut cursor).unwrap();

        assert_eq!(request, decoded);
    }
}

#[test]
fn test_channel_join_confirm_success() {
    let confirm = ChannelJoinConfirm::success(1001, 1003);

    let mut buffer = Vec::new();
    confirm.encode(&mut buffer).unwrap();

    let mut cursor = BerReader::new(&buffer);
    let decoded = ChannelJoinConfirm::decode(&mut cursor).unwrap();

    assert_eq!(confirm, decoded);
    assert_eq!(decoded.result, McsResult::RtSuccessful);
    assert_eq!(decoded.user_id, 1001);
    assert_eq!(decoded.requested_channel_id, 1003);
    assert_eq!(decoded.channel_id, Some(1003));
}

#[test]
fn test_channel_join_confirm_failure() {
    let confirm = ChannelJoinConfirm::failure(McsResult::RtNoSuchChannel, 1001, 1003);

    let mut buffer = Vec::new();
    confirm.encode(&mut buffer).unwrap();

    let mut cursor = BerReader::new(&buffer);
    let decoded = ChannelJoinConfirm::decode(&mut cursor).unwrap();

    assert_eq!(confirm, decoded);
    assert_eq!(decoded.result, McsResult::RtNoSuchChannel);
    assert_eq!(decoded.user_id, 1001);
    assert_eq!(decoded.requested_channel_id, 1003);
    assert_eq!(decoded.channel_id, None);
}

#[test]
fn test_channel_join_confirm_roundtrip() {
    let test_cases = vec![
        ChannelJoinConfirm::success(1, 1),
        ChannelJoinConfirm::success(1001, 1003),
        ChannelJoinConfirm::failure(McsResult::RtNoSuchChannel, 1001, 1003),
        ChannelJoinConfirm::failure(McsResult::RtTooManyChannels, 500, 600),
    ];

    for confirm in test_cases {
        let mut buffer = Vec::new();
        confirm.encode(&mut buffer).unwrap();

        let mut cursor = BerReader::new(&buffer);
        let decoded = ChannelJoinConfirm::decode(&mut cursor).unwrap();

        assert_eq!(confirm, decoded);
    }
}

#[test]
fn test_domain_parameters() {
    let params = DomainParameters::target();
    assert_eq!(params.max_channel_ids, 34);
    assert_eq!(params.protocol_version, 2);

    let min = DomainParameters::minimum();
    assert_eq!(min.max_channel_ids, 1);

    let max = DomainParameters::maximum();
    assert_eq!(max.max_channel_ids, 65535);
}

#[test]
fn test_domain_parameters_encode_decode() {
    let params = DomainParameters::target();
    let mut writer = BerWriter::new();
    params.encode(&mut writer);

    let mut reader = BerReader::new(writer.as_bytes());
    let decoded = DomainParameters::decode(&mut reader).unwrap();

    assert_eq!(params, decoded);
}

#[test]
fn test_connect_initial() {
    let user_data = b"test_gcc_data".to_vec();
    let initial = ConnectInitial::new(user_data.clone());

    let mut buffer = Vec::new();
    initial.encode(&mut buffer).unwrap();

    let mut cursor = BerReader::new(&buffer);
    let decoded = ConnectInitial::decode(&mut cursor).unwrap();

    assert_eq!(initial.user_data, decoded.user_data);
    assert_eq!(initial.upward_flag, decoded.upward_flag);
    assert_eq!(
        initial.target_parameters.max_channel_ids,
        decoded.target_parameters.max_channel_ids
    );
}

#[test]
fn test_connect_initial_with_custom_parameters() {
    let target = DomainParameters::target();
    let minimum = DomainParameters::minimum();
    let maximum = DomainParameters::maximum();
    let user_data = b"custom_data".to_vec();

    let initial = ConnectInitial::with_parameters(target.clone(), minimum, maximum, user_data);

    let mut buffer = Vec::new();
    initial.encode(&mut buffer).unwrap();

    let mut cursor = BerReader::new(&buffer);
    let decoded = ConnectInitial::decode(&mut cursor).unwrap();

    assert_eq!(
        initial.target_parameters.max_channel_ids,
        decoded.target_parameters.max_channel_ids
    );
}

#[test]
fn test_connect_response() {
    let user_data = b"response_data".to_vec();
    let response = ConnectResponse::success(user_data.clone());

    let mut buffer = Vec::new();
    response.encode(&mut buffer).unwrap();

    let mut cursor = BerReader::new(&buffer);
    let decoded = ConnectResponse::decode(&mut cursor).unwrap();

    assert_eq!(response.result, decoded.result);
    assert_eq!(response.user_data, decoded.user_data);
    assert_eq!(
        response.domain_parameters.max_channel_ids,
        decoded.domain_parameters.max_channel_ids
    );
}

#[test]
fn test_connect_response_custom() {
    let params = DomainParameters::target();
    let user_data = b"test".to_vec();
    let response = ConnectResponse::new(McsResult::RtSuccessful, 42, params, user_data);

    let mut buffer = Vec::new();
    response.encode(&mut buffer).unwrap();

    let mut cursor = BerReader::new(&buffer);
    let decoded = ConnectResponse::decode(&mut cursor).unwrap();

    assert_eq!(response.called_connect_id, decoded.called_connect_id);
    assert_eq!(response.result, decoded.result);
}

#[test]
fn test_erect_domain_request() {
    let request = ErectDomainRequest::new(0, 0);

    let mut buffer = Vec::new();
    request.encode(&mut buffer).unwrap();

    let mut cursor = BerReader::new(&buffer);
    let decoded = ErectDomainRequest::decode(&mut cursor).unwrap();

    assert_eq!(request, decoded);
    assert_eq!(decoded.sub_height, 0);
    assert_eq!(decoded.sub_interval, 0);
}

#[test]
fn test_erect_domain_request_default() {
    let request = ErectDomainRequest::default_request();
    assert_eq!(request.sub_height, 0);
    assert_eq!(request.sub_interval, 0);
}

#[test]
fn test_erect_domain_request_with_values() {
    let request = ErectDomainRequest::new(5, 10);

    let mut buffer = Vec::new();
    request.encode(&mut buffer).unwrap();

    let mut cursor = BerReader::new(&buffer);
    let decoded = ErectDomainRequest::decode(&mut cursor).unwrap();

    assert_eq!(request, decoded);
    assert_eq!(decoded.sub_height, 5);
    assert_eq!(decoded.sub_interval, 10);
}

#[test]
fn test_attach_user_request() {
    let request = AttachUserRequest::new();

    let mut buffer = Vec::new();
    request.encode(&mut buffer).unwrap();

    assert!(buffer.len() > 0);

    let mut cursor = BerReader::new(&buffer);
    let decoded = AttachUserRequest::decode(&mut cursor).unwrap();

    assert_eq!(request, decoded);
}

#[test]
fn test_attach_user_confirm_success() {
    let confirm = AttachUserConfirm::success(1001);

    let mut buffer = Vec::new();
    confirm.encode(&mut buffer).unwrap();

    let mut cursor = BerReader::new(&buffer);
    let decoded = AttachUserConfirm::decode(&mut cursor).unwrap();

    assert_eq!(confirm, decoded);
    assert_eq!(decoded.result, McsResult::RtSuccessful);
    assert_eq!(decoded.user_id, Some(1001));
}

#[test]
fn test_attach_user_confirm_failure() {
    let confirm = AttachUserConfirm::failure(McsResult::RtTooManyUsers);

    let mut buffer = Vec::new();
    confirm.encode(&mut buffer).unwrap();

    let mut cursor = BerReader::new(&buffer);
    let decoded = AttachUserConfirm::decode(&mut cursor).unwrap();

    assert_eq!(confirm, decoded);
    assert_eq!(decoded.result, McsResult::RtTooManyUsers);
    assert_eq!(decoded.user_id, None);
}

#[test]
fn test_attach_user_confirm_roundtrip() {
    let test_cases = vec![
        AttachUserConfirm::success(1),
        AttachUserConfirm::success(65535),
        AttachUserConfirm::failure(McsResult::RtNoSuchUser),
        AttachUserConfirm::failure(McsResult::RtUserRejected),
    ];

    for confirm in test_cases {
        let mut buffer = Vec::new();
        confirm.encode(&mut buffer).unwrap();

        let mut cursor = BerReader::new(&buffer);
        let decoded = AttachUserConfirm::decode(&mut cursor).unwrap();

        assert_eq!(confirm, decoded);
    }
}

