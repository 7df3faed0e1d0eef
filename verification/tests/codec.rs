use cross_core::class::decode_status;
use cross_core::class::encode_status;

#[test]
fn encode_exact_values() {
    assert_eq!(encode_status(true, 7), "true:7");
    assert_eq!(encode_status(false, 0), "false:0");
    assert_eq!(encode_status(false, 10), "false:10");
    assert_eq!(encode_status(true, 4294967295), "true:4294967295");
    assert_eq!(encode_status(true, 1000000), "true:1000000");
}

#[test]
fn decode_exact_values() {
    assert_eq!(decode_status(&"true:7".to_string()), Some((true, 7)));
    assert_eq!(decode_status(&"false:0".to_string()), Some((false, 0)));
    assert_eq!(decode_status(&"true:4294967295".to_string()), Some((true, 4294967295)));
    // Leading zeros denote the same number.
    assert_eq!(decode_status(&"true:007".to_string()), Some((true, 7)));
}

#[test]
fn decode_rejects_malformed_values() {
    assert_eq!(decode_status(&"".to_string()), None);
    assert_eq!(decode_status(&"true".to_string()), None);
    assert_eq!(decode_status(&"true:".to_string()), None);
    assert_eq!(decode_status(&":7".to_string()), None);
    assert_eq!(decode_status(&"True:7".to_string()), None);
    assert_eq!(decode_status(&"yes:7".to_string()), None);
    assert_eq!(decode_status(&"true:7x".to_string()), None);
    assert_eq!(decode_status(&"true:-1".to_string()), None);
    assert_eq!(decode_status(&"true:7:9".to_string()), None);
    // One past the largest stock that fits.
    assert_eq!(decode_status(&"true:4294967296".to_string()), None);
    assert_eq!(decode_status(&"true:99999999999999999999".to_string()), None);
}

#[test]
fn codec_round_trip_samples() {
    for &(donated, stock) in
        &[(true, 0u32), (false, 1), (true, 9), (false, 10), (true, 12345), (false, 4294967295)]
    {
        let encoded = encode_status(donated, stock);
        assert_eq!(decode_status(&encoded), Some((donated, stock)));
    }
}
