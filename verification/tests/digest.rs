use identicon::{calculate_md5, format_hex};

#[test]
fn calculate_md5_consistent() {
    let data = b"test";
    let hash1 = calculate_md5(data);
    let hash2 = calculate_md5(data);
    assert_eq!(hash1, hash2);
}

#[test]
fn calculate_md5_known_digests() {
    assert_eq!(format_hex(&calculate_md5(b"test")), "098f6bcd4621d373cade4e832627b4f6");
    assert_eq!(format_hex(&calculate_md5(b"")), "d41d8cd98f00b204e9800998ecf8427e");
}
