use identicon::Nibbler;

#[test]
fn iterates_nibbles() {
    let bytes = [0x2a];
    let nibbles: Vec<u8> = Nibbler::new(&bytes).collect();
    assert_eq!(vec![0x02, 0x0a], nibbles);
}

#[test]
fn handles_multiple_bytes() {
    let bytes = [0x2a, 0xbc];
    let nibbles: Vec<u8> = Nibbler::new(&bytes).collect();
    assert_eq!(vec![0x02, 0x0a, 0x0b, 0x0c], nibbles);
}

#[test]
fn handles_empty_slice() {
    let bytes = [];
    let nibbles: Vec<u8> = Nibbler::new(&bytes).collect();
    assert!(nibbles.is_empty());
}

#[test]
fn next_hands_out_high_then_low_and_then_stops() {
    let bytes = [0xf0, 0x07];
    let mut nibbles = Nibbler::new(&bytes);
    assert_eq!(nibbles.next(), Some(0x0f));
    assert_eq!(nibbles.next(), Some(0x00));
    assert_eq!(nibbles.next(), Some(0x00));
    assert_eq!(nibbles.next(), Some(0x07));
    assert_eq!(nibbles.next(), None);
    assert_eq!(nibbles.next(), None);
}

#[test]
fn nibbles_reassemble_into_the_bytes() {
    let bytes: Vec<u8> = (0..=255u8).collect();
    let nibbles: Vec<u8> = Nibbler::new(&bytes).collect();
    assert_eq!(nibbles.len(), 2 * bytes.len());
    for (i, b) in bytes.iter().enumerate() {
        assert!(nibbles[2 * i] < 16 && nibbles[2 * i + 1] < 16);
        assert_eq!(nibbles[2 * i] * 16 + nibbles[2 * i + 1], *b);
    }
}
