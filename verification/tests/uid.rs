use event_pulse::models::uid::{prefix, GlobalId, PrefixError};
use event_pulse::utils::timestamp;

#[test]
fn test_timestamp() {
    // Test if timestamp function returns a value greater than 0
    assert!(timestamp() > 0);
}

#[test]
fn test_prefix_valid_length() {
    // Test prefix function with valid input length
    assert_eq!(prefix("abcd").unwrap(), [97, 98, 99, 100]); // ASCII values: 'a', 'b', 'c', 'd'
}

#[test]
fn test_prefix_invalid_length() {
    // Test prefix function with invalid input length
    assert_eq!(
        prefix("abcdefghi").unwrap_err(),
        PrefixError::InvalidPrefixLength(String::from("Expected 1 to 4 bytes. Received: 9"))
    );
}

#[test]
fn test_prefix_zero_length() {
    // Test prefix function with invalid input length
    assert_eq!(
        prefix("").unwrap_err(),
        PrefixError::InvalidPrefixLength(String::from("Expected 1 to 4 bytes. Received: 0"))
    );
}

#[test]
fn test_concatenated_id() {
    // Test concatenated_id function
    let concatenated_id = GlobalId::new("test");
    assert_eq!(concatenated_id.len(), 12); // Length should be 12 bytes
}

#[test]
fn test_display_to_uppercase() {
    // first 4 bytes, prefix = "abcd"
    let concatenated_id = GlobalId([97, 98, 99, 100, 101, 102, 103, 104, 105, 106, 107, 108]);
    assert_eq!(concatenated_id.to_string(), "ABCD65666768696A6B6C");
}

#[test]
fn test_to_vec() {
    let global_id = GlobalId([
        0x61, 0x62, 0x63, 0x64, 0x01, 0x02, 0x03, 0x04, 0x05, 0x06, 0x07, 0x08,
    ]);
    let vec = global_id.to_vec();
    assert_eq!(
        vec,
        vec![0x61, 0x62, 0x63, 0x64, 0x01, 0x02, 0x03, 0x04, 0x05, 0x06, 0x07, 0x08]
    );
}

#[test]
fn test_from_vec() {
    let vec = vec![
        0x61, 0x62, 0x63, 0x64, 0x01, 0x02, 0x03, 0x04, 0x05, 0x06, 0x07, 0x08,
    ];
    let global_id = GlobalId::from_vec(vec.clone());
    assert_eq!(
        global_id.0,
        [0x61, 0x62, 0x63, 0x64, 0x01, 0x02, 0x03, 0x04, 0x05, 0x06, 0x07, 0x08]
    );
}

#[test]
fn test_get_prefix_str() {
    let global_id = GlobalId([
        0x61, 0x62, 0x63, 0x64, 0x01, 0x02, 0x03, 0x04, 0x05, 0x06, 0x07, 0x08,
    ]);
    assert_eq!(global_id.get_prefix_str(), "abcd");
}

#[test]
fn test_get_timestamp() {
    let mut gid: GlobalId = GlobalId([0; 12]);
    let timestamp: u64 = 1710778108;
    let bytes_conversion = timestamp.to_be_bytes();
    let prefix = prefix("test").unwrap();
    gid.0[..4].copy_from_slice(&prefix);
    gid.0[4..].copy_from_slice(&bytes_conversion);

    assert_eq!(gid.get_timestamp(), 1710778108);
}

#[test]
fn prefix_pads_short_input_with_zeros() {
    assert_eq!(prefix("a").unwrap(), [97, 0, 0, 0]);
    assert_eq!(prefix("ab").unwrap(), [97, 98, 0, 0]);
    assert_eq!(prefix("EVN").unwrap(), [69, 86, 78, 0]);
}

#[test]
fn prefix_refuses_five_bytes() {
    assert_eq!(
        prefix("abcde").unwrap_err(),
        PrefixError::InvalidPrefixLength(String::from("Expected 1 to 4 bytes. Received: 5"))
    );
}

#[test]
fn prefix_reports_lengths_of_several_digits() {
    let long = "a".repeat(1234);
    assert_eq!(
        prefix(&long).unwrap_err(),
        PrefixError::InvalidPrefixLength(String::from("Expected 1 to 4 bytes. Received: 1234"))
    );
}

#[test]
fn prefix_refuses_non_ascii() {
    assert_eq!(prefix("é").unwrap_err(), PrefixError::InvalidUtf8);
    assert_eq!(prefix("ab\u{3000}").unwrap_err(), PrefixError::InvalidUtf8);
    assert_eq!(prefix("ααααααα").unwrap_err(), PrefixError::InvalidUtf8);
}

#[test]
fn generated_ids_have_prefix_and_twelve_bytes() {
    for p in ["a", "ab", "abc", "abcd", "EVNT", "NTFY"] {
        let id = GlobalId::new(p);
        assert_eq!(id.len(), 12);
        let mut expected = [0u8; 4];
        expected[..p.len()].copy_from_slice(p.as_bytes());
        assert_eq!(&id[..4], &expected[..]);
        assert_eq!(GlobalId(id).get_prefix(), expected);
    }
}

#[test]
fn generated_timestamps_do_not_decrease() {
    let mut last = 0u64;
    for _ in 0..200 {
        let before = timestamp();
        let id = GlobalId(GlobalId::new("test"));
        let after = timestamp();
        let stamp = id.get_timestamp();
        assert!(before <= stamp && stamp <= after);
        assert!(last <= stamp);
        last = stamp;
    }
}

#[test]
fn try_new_refuses_what_prefix_refuses() {
    assert_eq!(
        GlobalId::try_new("").unwrap_err(),
        PrefixError::InvalidPrefixLength(String::from("Expected 1 to 4 bytes. Received: 0"))
    );
    assert_eq!(
        GlobalId::try_new("toolong").unwrap_err(),
        PrefixError::InvalidPrefixLength(String::from("Expected 1 to 4 bytes. Received: 7"))
    );
    assert_eq!(GlobalId::try_new("ñ").unwrap_err(), PrefixError::InvalidUtf8);
    let id = GlobalId::try_new("ok").unwrap();
    assert_eq!(&id[..4], &[b'o', b'k', 0, 0]);
}

#[test]
fn assemble_writes_the_timestamp_big_endian() {
    let id = GlobalId::assemble([1, 2, 3, 4], 0x0102_0304_0506_0708);
    assert_eq!(id, [1, 2, 3, 4, 1, 2, 3, 4, 5, 6, 7, 8]);
    for stamp in [0u64, 1, 255, 256, 1710778108, u64::MAX, u64::MAX - 1, 1 << 63, 0xdead_beef_0bad_f00d] {
        let id = GlobalId::assemble(*b"test", stamp);
        assert_eq!(&id[4..], &stamp.to_be_bytes());
        assert_eq!(GlobalId(id).get_timestamp(), stamp);
        assert_eq!(GlobalId(id).get_prefix(), *b"test");
    }
}

#[test]
fn bytes_round_trip() {
    let id = GlobalId(GlobalId::new("rt"));
    let back = GlobalId::from_vec(id.to_vec());
    assert_eq!(back.0, id.0);
    let again = GlobalId::try_from_vec(back.to_vec()).unwrap();
    assert_eq!(again.0, id.0);
}

#[test]
fn try_from_vec_refuses_other_lengths() {
    assert_eq!(GlobalId::try_from_vec(vec![]).unwrap_err(), PrefixError::InvalidLength(0));
    assert_eq!(GlobalId::try_from_vec(vec![0; 11]).unwrap_err(), PrefixError::InvalidLength(11));
    assert_eq!(GlobalId::try_from_vec(vec![0; 13]).unwrap_err(), PrefixError::InvalidLength(13));
    assert!(GlobalId::try_from_vec(vec![7; 12]).is_ok());
}

#[test]
fn display_matches_the_standard_uppercase_for_every_byte() {
    for b in 0..=255u8 {
        let id = GlobalId([b, b'x', 0, b, 0x00, 0x0f, 0xa0, 0xff, b, 0x10, 0x9a, 0xbc]);
        let mut expected = String::new();
        for byte in [b, b'x', 0, b] {
            for c in char::from(byte).to_uppercase() {
                expected.push(c);
            }
        }
        for byte in [0x00, 0x0f, 0xa0, 0xff, b, 0x10, 0x9a, 0xbc] {
            expected.push_str(&format!("{:02X}", byte));
        }
        assert_eq!(id.to_string(), expected);
    }
}

#[test]
fn prefix_str_reads_bytes_as_characters() {
    let id = GlobalId([0xe9, 0x00, 0x41, 0x7f, 0, 0, 0, 0, 0, 0, 0, 0]);
    assert_eq!(id.get_prefix_str(), "\u{e9}\u{0}A\u{7f}");
}

#[test]
fn prefix_error_texts() {
    assert_eq!(
        prefix("").unwrap_err().to_string(),
        "Invalid prefix length: Expected 1 to 4 bytes. Received: Expected 1 to 4 bytes. Received: 0"
    );
    assert_eq!(PrefixError::InvalidUtf8.to_string(), "Invalid UTF-8 input");
    assert_eq!(
        PrefixError::InvalidLength(9).to_string(),
        "Invalid identifier length: Expected 12 bytes. Received: 9"
    );
}
