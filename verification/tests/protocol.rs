use scopehal_fx_bridge::fx3lafw::{
    check_start_response, device_matches, encode_start_flags, is_expected_product,
    parse_version_response, CmdStartAcquisition, Command, Error, VersionInfo,
};

#[test]
fn start_flags_all_rate_width_combinations() {
    // Rate selector in bits 6-7, wide bit 5, superwide bit 3.
    assert_eq!(encode_start_flags(30, 8), 0x00);
    assert_eq!(encode_start_flags(30, 16), 0x20);
    assert_eq!(encode_start_flags(30, 24), 0x08);
    assert_eq!(encode_start_flags(30, 32), 0x28);
    assert_eq!(encode_start_flags(48, 8), 0x40);
    assert_eq!(encode_start_flags(48, 16), 0x60);
    assert_eq!(encode_start_flags(48, 24), 0x48);
    assert_eq!(encode_start_flags(48, 32), 0x68);
    assert_eq!(encode_start_flags(192, 8), 0x80);
    assert_eq!(encode_start_flags(192, 16), 0xa0);
    assert_eq!(encode_start_flags(192, 24), 0x88);
    assert_eq!(encode_start_flags(192, 32), 0xa8);
}

#[test]
fn start_flags_same_inputs_same_byte() {
    for &rate in &[30usize, 48, 192] {
        for &width in &[8usize, 16, 24, 32] {
            assert_eq!(encode_start_flags(rate, width), encode_start_flags(rate, width));
        }
    }
}

#[test]
fn start_command_payload_layout() {
    let cmd = CmdStartAcquisition::new(48, 16);
    assert_eq!(cmd.flags, 0x60);
    assert_eq!(cmd.sample_delay_h, 0);
    assert_eq!(cmd.sample_delay_l, 0);
    assert_eq!(cmd.to_bytes(), vec![0x60, 0, 0]);
}

#[test]
fn start_response_length_checked() {
    assert!(check_start_response(3).is_ok());
    assert_eq!(check_start_response(2).unwrap_err(), Error::InvalidResponse);
    assert_eq!(check_start_response(0).unwrap_err(), Error::InvalidResponse);
    assert_eq!(check_start_response(4).unwrap_err(), Error::InvalidResponse);
}

#[test]
fn version_response_decoded() {
    let v = parse_version_response(&[1, 4], 2).unwrap();
    assert_eq!(v, VersionInfo { major: 1, minor: 4 });
}

#[test]
fn version_short_read_is_invalid_response() {
    assert_eq!(
        parse_version_response(&[7, 7], 1).unwrap_err(),
        Error::InvalidResponse
    );
    assert_eq!(
        parse_version_response(&[7, 7], 0).unwrap_err(),
        Error::InvalidResponse
    );
}

#[test]
fn command_request_codes() {
    assert_eq!(Command::GetFwVersion.request_code(), 0xb0);
    assert_eq!(Command::Start.request_code(), 0xb1);
}

#[test]
fn device_selection_fixed_ids() {
    assert!(device_matches(0x04b4, 0x00f3));
    assert!(!device_matches(0x04b4, 0x00f4));
    assert!(!device_matches(0x04b5, 0x00f3));
    assert!(!device_matches(0x0000, 0x0000));
}

#[test]
fn product_string_identifies_firmware() {
    assert!(is_expected_product(&"fx3lafw".to_string()));
    assert!(!is_expected_product(&"WestBridge".to_string()));
    assert!(!is_expected_product(&"".to_string()));
}
