//! The block cipher: key expansion, the field helpers, the state
//! transforms, and the chaining pass over a buffer.
use kernel_core::crypt::aes::buffer_to_statet;
use kernel_core::crypt::aes::cipher;
use kernel_core::crypt::aes::inv_cipher;
use kernel_core::crypt::aes::key_expansion;
use kernel_core::crypt::aes::multiply;
use kernel_core::crypt::aes::xtime;
use kernel_core::crypt::aes::AesCtx;
use kernel_core::crypt::aes::StateT;

#[test]
fn field_helpers() {
    assert_eq!(xtime(0x57), 0xae);
    assert_eq!(xtime(0xae), 0x47);
    // doubling wraps through the field polynomial
    assert_eq!(xtime(0x80), 0x1b);
    assert_eq!(multiply(0x57, 0x01), 0x57);
    assert_eq!(multiply(0x57, 0x02), 0xae);
    assert_eq!(multiply(0x57, 0x04), 0x47);
}

#[test]
fn key_expansion_starts_with_the_key_itself() {
    let mut rk = [0u8; 240];
    let mut key = [0u8; 32];
    for (i, b) in key.iter_mut().enumerate() {
        *b = i as u8;
    }
    key_expansion(&mut rk, &key);
    assert_eq!(&rk[..32], &key[..]);
}

#[test]
fn key_expansion_zero_key_first_derived_word() {
    // with an all-zero key the ninth word substitutes zero and folds in
    // the first round constant
    let mut rk = [0u8; 240];
    let key = [0u8; 32];
    key_expansion(&mut rk, &key);
    assert_eq!(&rk[32..36], &[0x62, 0x63, 0x63, 0x63]);
    // the next word combines that word with the zero key word
    assert_eq!(&rk[36..40], &[0x62, 0x63, 0x63, 0x63]);
}

#[test]
fn cipher_round_trips_with_its_inverse() {
    let mut rk = [0u8; 240];
    let mut key = [0u8; 32];
    for (i, b) in key.iter_mut().enumerate() {
        *b = (37 * i + 11) as u8;
    }
    key_expansion(&mut rk, &key);
    let original: StateT = [
        [0x00, 0x11, 0x22, 0x33],
        [0x44, 0x55, 0x66, 0x77],
        [0x88, 0x99, 0xaa, 0xbb],
        [0xcc, 0xdd, 0xee, 0xff],
    ];
    let mut state = original;
    cipher(&mut state, &rk);
    assert_ne!(state, original);
    inv_cipher(&mut state, &rk);
    assert_eq!(state, original);
}

#[test]
fn context_setup_and_vector() {
    let mut ctx = AesCtx::new([0; 240], [0; 16]);
    let key = [7u8; 32];
    let iv: Vec<u8> = (0..16u8).collect();
    ctx.aes_init_ctx_iv(&key, &iv);
    assert_eq!(&ctx.iv[..], &iv[..]);
    ctx.aes_ctx_set_iv(&[9u8; 16]);
    assert_eq!(ctx.iv, [9u8; 16]);
}

#[test]
fn encrypt_buffer_chains_through_the_first_block() {
    // each pass folds the running vector into the buffer's first block
    // and takes the block at the step's offset as the next vector
    let mut ctx = AesCtx::new([0; 240], [0; 16]);
    ctx.aes_init_ctx(&[0u8; 32]);
    let iv: Vec<u8> = (1..=16u8).collect();
    ctx.aes_ctx_set_iv(&iv);
    let mut buf = vec![0u8; 16];
    ctx.aes_encrypt_buffer(&mut buf, 16);
    assert_eq!(&buf[..], &iv[..]);
    assert_eq!(&ctx.iv[..], &iv[..]);
}

#[test]
fn buffer_blocks_read_row_major() {
    let buf: Vec<u8> = (0..32u8).collect();
    let s = buffer_to_statet(&buf, 16);
    assert_eq!(s[0], [16, 17, 18, 19]);
    assert_eq!(s[3], [28, 29, 30, 31]);
}
