use safebank::utils::{
    check_connectivity, compress_transaction_data, connectivity_for_time,
    decompress_transaction_data, generate_simple_otp, get_emergency_help_message,
    get_local_time_hour, help_message_for, otp_for_time, sanitize_for_logging,
    validate_phone_number, ConnectivityStatus, DeviceCapabilities, DeviceScreenSize,
    PerformanceMetrics,
};

#[test]
fn test_phone_validation() {
    assert!(validate_phone_number("+1234567890", Some("US")));
    assert!(validate_phone_number("254712345678", Some("KE")));
    assert!(!validate_phone_number("123", None));
    assert!(!validate_phone_number("12345678901234567890", None));
}

#[test]
fn phone_validation_regions() {
    assert!(validate_phone_number("(555) 123-4567", Some("US")));
    assert!(validate_phone_number("1 555 123 4567", Some("US")));
    assert!(!validate_phone_number("2 555 123 4567", Some("US")));
    assert!(validate_phone_number("712345678", Some("KE")));
    assert!(validate_phone_number("08012345678", Some("NG")));
    assert!(!validate_phone_number("080123456", Some("NG")));
    assert!(validate_phone_number("9876543210", Some("IN")));
    assert!(!validate_phone_number("98765432101", Some("IN")));
    assert!(validate_phone_number("1234567", Some("FR")));
    assert!(!validate_phone_number("12345a7890", None));
}

#[test]
fn test_otp_generation() {
    let otp = generate_simple_otp(4);
    assert_eq!(otp.len(), 4);
    assert!(otp.chars().all(|c| c.is_ascii_digit()));
}

#[test]
fn otp_takes_last_digits_zero_padded() {
    assert_eq!(otp_for_time(1_234_567, 4), "4567");
    assert_eq!(otp_for_time(1_230_005, 4), "0005");
    assert_eq!(otp_for_time(42, 6), "000042");
    assert_eq!(otp_for_time(42, 0), "0");
}

#[test]
fn test_device_capabilities() {
    let low_end_device = DeviceCapabilities {
        has_camera: false,
        has_fingerprint: false,
        has_sms: true,
        has_internet: true,
        ram_mb: Some(512),
        storage_mb: Some(2048),
        screen_size: DeviceScreenSize::Small,
    };
    assert!(low_end_device.is_low_end());
    assert!(!low_end_device.supports_advanced_auth());
}

#[test]
fn device_capabilities_high_end() {
    let d = DeviceCapabilities {
        has_camera: true,
        has_fingerprint: false,
        has_sms: true,
        has_internet: true,
        ram_mb: Some(2048),
        storage_mb: Some(8192),
        screen_size: DeviceScreenSize::Large,
    };
    assert!(!d.is_low_end());
    assert!(d.supports_advanced_auth());
    let unknown = DeviceCapabilities { ram_mb: None, ..d };
    assert!(unknown.is_low_end());
}

#[test]
fn connectivity_by_last_digit() {
    assert_eq!(connectivity_for_time(1_700_000_007), ConnectivityStatus::Online);
    assert_eq!(connectivity_for_time(1_700_000_008), ConnectivityStatus::Limited);
    assert_eq!(connectivity_for_time(1_700_000_009), ConnectivityStatus::Offline);
    assert_eq!(connectivity_for_time(-3), ConnectivityStatus::Offline);
    let _ = check_connectivity();
}

#[test]
fn compression_round_trip() {
    let b = compress_transaction_data("héllo").unwrap();
    assert_eq!(b, "héllo".as_bytes().to_vec());
    assert_eq!(decompress_transaction_data(&b).unwrap(), "héllo");
    assert!(decompress_transaction_data(&[0xff, 0xfe]).is_err());
}

#[test]
fn sanitize_masks_pins() {
    assert_eq!(sanitize_for_logging("pin 1234 ok"), "pin **** ok");
    assert_eq!(sanitize_for_logging("11234123"), "1****123");
    assert_eq!(sanitize_for_logging("nothing here"), "nothing here");
    assert_eq!(sanitize_for_logging(""), "");
}

#[test]
fn performance_limits_and_summary() {
    let m = PerformanceMetrics {
        auth_time_ms: 100,
        fraud_analysis_time_ms: 20,
        transaction_processing_time_ms: 30,
        total_memory_kb: 512,
        network_requests: 3,
    };
    assert!(m.is_within_limits(100, 512));
    assert!(!m.is_within_limits(99, 512));
    let s = m.get_summary();
    assert_eq!(s.total_time_ms, 150);
    assert_eq!(s.memory_kb, 512);
    assert_eq!(s.network_requests, 3);
}

#[test]
fn local_hour_with_offset() {
    // 2023-11-14 22:13:20 UTC
    assert_eq!(get_local_time_hour(1_700_000_000, 0), 22);
    assert_eq!(get_local_time_hour(1_700_000_000, 3), 1);
    assert_eq!(get_local_time_hour(1_700_000_000, -23), 23);
}

#[test]
fn help_messages_by_language() {
    assert_eq!(
        help_message_for("fr"),
        "Pour une aide d'urgence, appelez le 911 ou rendez-vous au poste de police le plus proche."
    );
    assert_eq!(
        get_emergency_help_message("SWAHILI"),
        "Kwa msaada wa haraka, piga simu 911 au tembelea kituo cha polisi karibu nawe."
    );
    assert_eq!(
        get_emergency_help_message("Klingon"),
        "For emergency help, call 911 or visit your nearest police station."
    );
}
