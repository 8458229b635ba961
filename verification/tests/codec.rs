use secret_codec::crypto::{decrypt, encrypt, open, seal};
use secret_codec::result::{CodecError, Error};

const HELLO_SEALED: [u8; 16] = [
    0x62, 0x2a, 0x74, 0x15, 0xac, 0x55, 0x2f, 0x4d, 0x82, 0x87, 0x31, 0xe1, 0x38, 0x1b, 0x49, 0x0d,
];

const TWENTY_SEALED: [u8; 32] = [
    0x07, 0xb9, 0x44, 0x66, 0x6d, 0xca, 0x3e, 0x6b, 0x7c, 0x5c, 0x05, 0x22, 0x28, 0x83, 0xa0, 0xcd,
    0xed, 0xb3, 0xdb, 0xe2, 0x18, 0xbd, 0x6c, 0x14, 0x11, 0x1d, 0x46, 0x91, 0xb2, 0x91, 0xc0, 0x13,
];

#[test]
fn seal_hello_gives_the_known_block() {
    let sealed = seal("secret", "hello").unwrap();
    assert_eq!(sealed, HELLO_SEALED.to_vec());
}

#[test]
fn open_hello_gives_the_text_back() {
    let opened = open("secret", &HELLO_SEALED.to_vec()).unwrap();
    assert_eq!(opened, "hello");
}

#[test]
fn seal_twenty_ascii_characters_gives_two_blocks() {
    let text = "abcdefghijklmnopqrst";
    let sealed = seal("secret", text).unwrap();
    assert_eq!(sealed.len(), 32);
    assert_eq!(sealed, TWENTY_SEALED.to_vec());
    assert_eq!(open("secret", &sealed).unwrap(), text);
}

#[test]
fn seal_under_a_full_size_passphrase() {
    let pass = "0123456789abcdef0123456789abcdef";
    assert_eq!(pass.len(), 32);
    let sealed = seal(pass, "x").unwrap();
    let expected: [u8; 16] = [
        0x1f, 0xd1, 0x04, 0x3b, 0x03, 0x98, 0xf7, 0xf3, 0x98, 0xa4, 0x4a, 0x06, 0xea, 0xb8, 0x00,
        0x95,
    ];
    assert_eq!(sealed, expected.to_vec());
    assert_eq!(open(pass, &sealed).unwrap(), "x");
}

#[test]
fn seal_under_the_empty_passphrase() {
    let sealed = seal("", "a").unwrap();
    let expected: [u8; 16] = [
        0x3c, 0x32, 0x98, 0x1f, 0x52, 0xc1, 0x11, 0x12, 0xf9, 0x4e, 0x9c, 0x45, 0xcd, 0x5f, 0xea,
        0x87,
    ];
    assert_eq!(sealed, expected.to_vec());
    assert_eq!(open("", &sealed).unwrap(), "a");
}

#[test]
fn empty_text_seals_to_no_bytes_and_opens_again() {
    let sealed = seal("secret", "").unwrap();
    assert_eq!(sealed, Vec::<u8>::new());
    assert_eq!(open("secret", &sealed).unwrap(), "");
}

#[test]
fn round_trip_over_many_ascii_lengths() {
    let mut text = String::new();
    for n in 0..70usize {
        let sealed = seal("secret", &text).unwrap();
        assert_eq!(sealed.len(), 16 * ((n + 15) / 16));
        assert_eq!(open("secret", &sealed).unwrap(), text);
        text.push((b'a' + (n % 26) as u8) as char);
    }
}

#[test]
fn sealed_length_rounds_up_to_whole_blocks() {
    assert_eq!(seal("p", "12345").unwrap().len(), 16);
    assert_eq!(seal("p", "0123456789abcdef").unwrap().len(), 16);
    assert_eq!(seal("p", "0123456789abcdefg").unwrap().len(), 32);
    assert_eq!(seal("p", "0123456789abcdef0123456789abcdef").unwrap().len(), 32);
}

#[test]
fn multibyte_text_inside_one_block_round_trips() {
    let text = "h\u{e9}llo w\u{f6}rld";
    let sealed = seal("secret", text).unwrap();
    let expected: [u8; 16] = [
        0x65, 0x75, 0xf4, 0x1e, 0xc2, 0x32, 0x9f, 0xe8, 0x10, 0xcd, 0x81, 0x1e, 0x07, 0xc0, 0x3f,
        0x3c,
    ];
    assert_eq!(sealed, expected.to_vec());
    assert_eq!(open("secret", &sealed).unwrap(), text);
}

#[test]
fn character_on_a_block_boundary_round_trips() {
    let text = "0123456789abcdef\u{e9}\u{4e16}";
    let sealed = seal("secret", text).unwrap();
    assert_eq!(sealed.len(), 32);
    assert_eq!(open("secret", &sealed).unwrap(), text);
}

#[test]
fn character_across_a_block_boundary_does_not_open() {
    let text = "0123456789abcde\u{e9}";
    assert_eq!(text.len(), 17);
    let sealed = seal("secret", text).unwrap();
    assert_eq!(sealed.len(), 32);
    assert_eq!(open("secret", &sealed), Err(CodecError::DecodeError));
}

#[test]
fn sealing_twice_gives_the_same_bytes() {
    let first = seal("secret", "the same text, twice").unwrap();
    let second = seal("secret", "the same text, twice").unwrap();
    assert_eq!(first, second);
    assert_eq!(seal("secret", "a\0"), seal("secret", "a\0"));
}

#[test]
fn equal_blocks_seal_to_equal_blocks() {
    let sealed = seal("secret", "0123456789abcdef0123456789abcdef").unwrap();
    assert_eq!(sealed.len(), 32);
    assert_eq!(sealed[..16], sealed[16..]);
    let single: [u8; 16] = [
        0x04, 0xdc, 0x43, 0x0e, 0x48, 0x45, 0xbd, 0x4a, 0x9d, 0xde, 0xde, 0x73, 0x24, 0x8d, 0xab,
        0x15,
    ];
    assert_eq!(sealed[..16], single);
}

#[test]
fn passphrases_that_differ_in_trailing_zero_bytes_share_a_key() {
    assert_eq!(seal("secret\0\0", "hello").unwrap(), HELLO_SEALED.to_vec());
    assert_eq!(open("secret\0", &HELLO_SEALED.to_vec()).unwrap(), "hello");
}

#[test]
fn long_passphrase_is_refused_whatever_the_other_argument() {
    let pass = "0123456789abcdef0123456789abcdefg";
    assert_eq!(pass.len(), 33);
    let size = Err(CodecError::SizeViolation { limit: 32 });
    assert_eq!(seal(pass, "hello"), size);
    assert_eq!(seal(pass, ""), size);
    assert_eq!(seal(pass, "ab\0cd"), size);
    let size = Err(CodecError::SizeViolation { limit: 32 });
    assert_eq!(open(pass, &HELLO_SEALED.to_vec()), size);
    assert_eq!(open(pass, &vec![0u8; 17]), size);
    assert_eq!(open(pass, &Vec::new()), size);
}

#[test]
fn passphrase_size_counts_bytes_not_characters() {
    let pass = "\u{e9}".repeat(17);
    assert_eq!(pass.chars().count(), 17);
    assert_eq!(seal(&pass, "x"), Err(CodecError::SizeViolation { limit: 32 }));
    let pass = "\u{e9}".repeat(16);
    assert!(seal(&pass, "x").is_ok());
}

#[test]
fn nul_in_the_text_is_refused_with_its_offset() {
    assert_eq!(seal("secret", "ab\0cd"), Err(CodecError::EncodeError { offset: 2 }));
    assert_eq!(seal("secret", "\0"), Err(CodecError::EncodeError { offset: 0 }));
    assert_eq!(seal("secret", "a\0b\0"), Err(CodecError::EncodeError { offset: 1 }));
    assert_eq!(
        seal("secret", "0123456789abcdef0123\0"),
        Err(CodecError::EncodeError { offset: 20 })
    );
    assert_eq!(seal("secret", "\u{e9}\0"), Err(CodecError::EncodeError { offset: 2 }));
}

#[test]
fn misaligned_ciphertext_is_refused_with_its_length() {
    assert_eq!(
        open("secret", &vec![0u8; 17]),
        Err(CodecError::AlignmentError { len: 17, block_size: 16 })
    );
    assert_eq!(
        open("secret", &vec![7u8; 1]),
        Err(CodecError::AlignmentError { len: 1, block_size: 16 })
    );
    assert_eq!(
        open("secret", &HELLO_SEALED[..15].to_vec()),
        Err(CodecError::AlignmentError { len: 15, block_size: 16 })
    );
}

#[test]
fn open_under_another_key_fails_or_differs() {
    let sealed = seal("secret", "hello").unwrap();
    match open("other", &sealed) {
        Ok(text) => assert_ne!(text, "hello"),
        Err(e) => assert_eq!(e, CodecError::DecodeError),
    }
    assert_eq!(open("other", &sealed), Err(CodecError::DecodeError));
}

#[test]
fn open_of_foreign_blocks_is_a_decode_error() {
    assert_eq!(open("secret", &vec![0u8; 16]), Err(CodecError::DecodeError));
    let counting: Vec<u8> = (0u8..16).collect();
    assert_eq!(open("secret", &counting), Err(CodecError::DecodeError));
}

#[test]
fn encrypt_and_decrypt_round_trip() {
    let sealed = encrypt("secret", "hello").unwrap();
    assert_eq!(sealed, HELLO_SEALED.to_vec());
    assert_eq!(decrypt("secret", &sealed).unwrap(), "hello");
}

#[test]
fn encrypt_reports_a_long_passphrase_as_auth_error() {
    let pass = "0123456789abcdef0123456789abcdefg";
    assert_eq!(
        encrypt(pass, "hello"),
        Err(Error::AuthError("master password must be <= 32 bytes long".to_owned()))
    );
    assert_eq!(
        decrypt(pass, &vec![0u8; 17]),
        Err(Error::AuthError("master password must be <= 32 bytes long".to_owned()))
    );
}

#[test]
fn encrypt_reports_a_nul_as_app_error() {
    assert_eq!(
        encrypt("secret", "ab\0cd"),
        Err(Error::AppError("value contains a NUL character at byte index 2".to_owned()))
    );
}

#[test]
fn decrypt_reports_a_misaligned_ciphertext_as_app_error() {
    assert_eq!(
        decrypt("secret", &vec![0u8; 17]),
        Err(Error::AppError(
            "encoded bytes have size 17, which is not a multiple of the block size (16)"
                .to_owned()
        ))
    );
}

#[test]
fn decrypt_reports_undecodable_data_as_app_error() {
    assert_eq!(
        decrypt("secret", &vec![0u8; 16]),
        Err(Error::AppError("UTF-8 decode error".to_owned()))
    );
}
