use h11::targets::{target_from_bytes, token_byte};

#[test]
fn token_bytes_are_lower_case_letters() {
    assert_eq!(token_byte(0), b'a');
    assert_eq!(token_byte(25), b'z');
    assert_eq!(token_byte(26), b'a');
    assert_eq!(token_byte(255), b'a' + (255 % 26) as u8);
}

#[test]
fn targets_take_at_most_sixteen_bytes() {
    assert_eq!(target_from_bytes(b""), b"/".to_vec());
    assert_eq!(target_from_bytes(&[0, 1, 2]), b"/abc".to_vec());
    let long: Vec<u8> = (0..40).collect();
    assert_eq!(target_from_bytes(&long), b"/abcdefghijklmnop".to_vec());
}
