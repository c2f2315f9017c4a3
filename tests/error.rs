use pentardp_rs::error::{PduError};

#[test]
fn test_error_display() {
    let err = PduError::InvalidLength {
        expected: 10,
        actual: 5,
    };
    assert_eq!(err.to_string(), "Invalid length: expected 10, got 5");

    let err = PduError::UnsupportedVersion(0x05);
    assert_eq!(err.to_string(), "Unsupported version: 5");
}

