use shake_lab::xof::shake128_4bytes;
use shake_lab::xof::shake128_5bytes;

#[test]
fn shake128_of_abc_matches_the_published_vector() {
    assert_eq!(shake128_4bytes(b"abc"), [0x58, 0x81, 0x09, 0x2d]);
    assert_eq!(shake128_5bytes(b"abc"), [0x58, 0x81, 0x09, 0x2d, 0xd8]);
}

#[test]
fn shake128_of_the_empty_input_matches_the_published_vector() {
    assert_eq!(shake128_4bytes(b""), [0x7f, 0x9c, 0x2b, 0xa4]);
    assert_eq!(shake128_5bytes(b""), [0x7f, 0x9c, 0x2b, 0xa4, 0xe8]);
}

#[test]
fn digest_is_not_the_input() {
    assert_ne!(shake128_4bytes(&[1, 2, 3, 4]), [1, 2, 3, 4]);
    assert_ne!(shake128_5bytes(&[1, 2, 3, 4, 5]), [1, 2, 3, 4, 5]);
}

#[test]
fn repeated_digests_are_identical() {
    let input = b"password_42";
    assert_eq!(shake128_4bytes(input), shake128_4bytes(input));
    assert_eq!(shake128_5bytes(input), shake128_5bytes(input));
}

#[test]
fn shorter_digest_is_a_prefix_of_the_longer() {
    let input = b"candidate_7";
    let four = shake128_4bytes(input);
    let five = shake128_5bytes(input);
    assert_eq!(&five[..4], &four[..]);
}

#[test]
fn long_inputs_are_absorbed_in_full() {
    let mut input = vec![0x61u8; 400];
    let before = shake128_4bytes(&input);
    input[399] = 0x62;
    assert_ne!(shake128_4bytes(&input), before);
}
