use bcrypt_pbkdf::bcrypt_pbkdf;
use bcrypt_pbkdf::bhash;
use bcrypt_pbkdf::KdfError;

fn derive(password: &[u8], salt: &[u8], rounds: u32, len: usize) -> Vec<u8> {
    let mut out = vec![0u8; len];
    bcrypt_pbkdf(password, salt, rounds, &mut out).unwrap();
    out
}

#[test]
fn test_bhash() {
    let zeros = [0u8; 64];
    let mut ascending = [0u8; 64];
    for i in 0..64 {
        ascending[i] = i as u8;
    }

    let out = bhash(&zeros, &zeros);
    assert_eq!(
        out,
        vec![
            0x46, 0x02, 0x86, 0xe9, 0x72, 0xfa, 0x83, 0x3f, 0x8b, 0x12, 0x83, 0xad, 0x8f, 0xa9,
            0x19, 0xfa, 0x29, 0xbd, 0xe2, 0x0e, 0x23, 0x32, 0x9e, 0x77, 0x4d, 0x84, 0x22, 0xba,
            0xc0, 0xa7, 0x92, 0x6c,
        ]
    );

    let out = bhash(&ascending, &zeros);
    assert_eq!(
        out,
        vec![
            0xb0, 0xb2, 0x29, 0xdb, 0xc6, 0xba, 0xde, 0xf0, 0xe1, 0xda, 0x25, 0x27, 0x47, 0x4a,
            0x8b, 0x28, 0x88, 0x8f, 0x8b, 0x06, 0x14, 0x76, 0xfe, 0x80, 0xc3, 0x22, 0x56, 0xe1,
            0x14, 0x2d, 0xd0, 0x0d,
        ]
    );

    let out = bhash(&zeros, &ascending);
    assert_eq!(
        out,
        vec![
            0xb6, 0x2b, 0x4e, 0x36, 0x7d, 0x31, 0x57, 0xf5, 0xc3, 0x1e, 0x4d, 0x2c, 0xba, 0xfb,
            0x29, 0x31, 0x49, 0x4d, 0x9d, 0x3b, 0xdd, 0x17, 0x1d, 0x55, 0xcf, 0x79, 0x9f, 0xa4,
            0x41, 0x60, 0x42, 0xe2,
        ]
    );

    let out = bhash(&ascending, &ascending);
    assert_eq!(
        out,
        vec![
            0xc6, 0xa9, 0x5f, 0xe6, 0x41, 0x31, 0x15, 0xfb, 0x57, 0xe9, 0x9f, 0x75, 0x74, 0x98,
            0xe8, 0x5d, 0xa3, 0xc6, 0xe1, 0xdf, 0x0c, 0x3c, 0x93, 0xaa, 0x97, 0x5c, 0x54, 0x8a,
            0x34, 0x43, 0x26, 0xf8,
        ]
    );
}

#[test]
fn test_openbsd_vectors() {
    assert_eq!(
        derive(b"password", b"salt", 4, 32),
        vec![
            0x5b, 0xbf, 0x0c, 0xc2, 0x93, 0x58, 0x7f, 0x1c, 0x36, 0x35, 0x55, 0x5c, 0x27, 0x79,
            0x65, 0x98, 0xd4, 0x7e, 0x57, 0x90, 0x71, 0xbf, 0x42, 0x7e, 0x9d, 0x8f, 0xbe, 0x84,
            0x2a, 0xba, 0x34, 0xd9,
        ]
    );
    assert_eq!(
        derive(b"password", &[0u8], 4, 16),
        vec![
            0xc1, 0x2b, 0x56, 0x62, 0x35, 0xee, 0xe0, 0x4c, 0x21, 0x25, 0x98, 0x97, 0x0a, 0x57,
            0x9a, 0x67,
        ]
    );
    assert_eq!(
        derive(b"\x00", b"salt", 4, 16),
        vec![
            0x60, 0x51, 0xbe, 0x18, 0xc2, 0xf4, 0xf8, 0x2c, 0xbf, 0x0e, 0xfe, 0xe5, 0x47, 0x1b,
            0x4b, 0xb9,
        ]
    );
    assert_eq!(
        derive(b"password\x00", b"salt\x00", 4, 32),
        vec![
            0x74, 0x10, 0xe4, 0x4c, 0xf4, 0xfa, 0x07, 0xbf, 0xaa, 0xc8, 0xa9, 0x28, 0xb1, 0x72,
            0x7f, 0xac, 0x00, 0x13, 0x75, 0xe7, 0xbf, 0x73, 0x84, 0x37, 0x0f, 0x48, 0xef, 0xd1,
            0x21, 0x74, 0x30, 0x50,
        ]
    );
    assert_eq!(
        derive(b"pass\x00wor", b"sa\x00l", 4, 16),
        vec![
            0xc2, 0xbf, 0xfd, 0x9d, 0xb3, 0x8f, 0x65, 0x69, 0xef, 0xef, 0x43, 0x72, 0xf4, 0xde,
            0x83, 0xc0,
        ]
    );
    assert_eq!(
        derive(b"pass\x00word", b"sa\x00lt", 4, 16),
        vec![
            0x4b, 0xa4, 0xac, 0x39, 0x25, 0xc0, 0xe8, 0xd7, 0xf0, 0xcd, 0xb6, 0xbb, 0x16, 0x84,
            0xa5, 0x6f,
        ]
    );
    assert_eq!(
        derive(b"password", b"salt", 8, 64),
        vec![
            0xe1, 0x36, 0x7e, 0xc5, 0x15, 0x1a, 0x33, 0xfa, 0xac, 0x4c, 0xc1, 0xc1, 0x44, 0xcd,
            0x23, 0xfa, 0x15, 0xd5, 0x54, 0x84, 0x93, 0xec, 0xc9, 0x9b, 0x9b, 0x5d, 0x9c, 0x0d,
            0x3b, 0x27, 0xbe, 0xc7, 0x62, 0x27, 0xea, 0x66, 0x08, 0x8b, 0x84, 0x9b, 0x20, 0xab,
            0x7a, 0xa4, 0x78, 0x01, 0x02, 0x46, 0xe7, 0x4b, 0xba, 0x51, 0x72, 0x3f, 0xef, 0xa9,
            0xf9, 0x47, 0x4d, 0x65, 0x08, 0x84, 0x5e, 0x8d,
        ]
    );
    assert_eq!(
        derive(b"password", b"salt", 42, 16),
        vec![
            0x83, 0x3c, 0xf0, 0xdc, 0xf5, 0x6d, 0xb6, 0x56, 0x08, 0xe8, 0xf0, 0xdc, 0x0c, 0xe8,
            0x82, 0xbd,
        ]
    );
    assert_eq!(
        derive(
            b"Lorem ipsum dolor sit amet, consectetur adipisicing elit, sed do eiusmod tempor incididunt ut labore et dolore magna aliqua. Ut enim ad minim veniam, quis nostrud exercitation ullamco laboris nisi ut aliquip ex ea commodo consequat. Duis aute irure dolor in reprehenderit in voluptate velit esse cillum dolore eu fugiat nulla pariatur. Excepteur sint occaecat cupidatat non proident, sunt in culpa qui officia deserunt mollit anim id est laborum.",
            b"salis\x00",
            8,
            16
        ),
        vec![
            0x10, 0x97, 0x8b, 0x07, 0x25, 0x3d, 0xf5, 0x7f, 0x71, 0xa1, 0x62, 0xeb, 0x0e, 0x8a,
            0xd3, 0x0a,
        ]
    );
}

#[test]
fn identical_inputs_derive_identical_output() {
    let a = derive(b"correct horse", b"battery staple", 4, 48);
    let b = derive(b"correct horse", b"battery staple", 4, 48);
    assert_eq!(a, b);
}

#[test]
fn output_length_is_exactly_as_requested() {
    for len in [1usize, 15, 16, 31, 32, 33, 63, 64, 65] {
        let out = derive(b"password", b"salt", 4, len);
        assert_eq!(out.len(), len);
    }
}

#[test]
fn output_is_sensitive_to_every_input() {
    let base = derive(b"password", b"salt", 4, 32);
    assert_ne!(base, derive(b"passwore", b"salt", 4, 32));
    assert_ne!(base, derive(b"password", b"sblt", 4, 32));
    assert_ne!(base, derive(b"password", b"salt", 5, 32));
}

#[test]
fn embedded_nul_bytes_are_significant() {
    let with_nul = derive(b"pass\x00wor", b"sa\x00l", 4, 16);
    let without_nul = derive(b"pass", b"sa", 4, 16);
    assert_ne!(with_nul, without_nul);
}

#[test]
fn zero_rounds_is_rejected() {
    let mut out = vec![7u8; 16];
    assert_eq!(
        bcrypt_pbkdf(b"password", b"salt", 0, &mut out),
        Err(KdfError::ZeroRounds)
    );
    assert_eq!(out, vec![7u8; 16]);
}

#[test]
fn empty_output_is_rejected() {
    let mut out: Vec<u8> = Vec::new();
    assert_eq!(
        bcrypt_pbkdf(b"password", b"salt", 4, &mut out),
        Err(KdfError::EmptyOutput)
    );
    assert!(out.is_empty());
}
