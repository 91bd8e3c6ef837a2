use blowfish::Blowfish;
use cbc::cipher::{Array, BlockModeEncrypt, KeyIvInit};
use deezco::crypto::{
    aes_ecb_encrypt, decrypt_chunk, decrypt_stream, generate_blowfish_key,
    generate_crypted_stream_url, generate_stream_path, md5_hex,
};

fn blowfish_cbc_encrypt(data: &[u8], key: &[u8]) -> Vec<u8> {
    let mut buf = data.to_vec();
    let mut encryptor =
        cbc::Encryptor::<Blowfish>::new_from_slices(key, &[0, 1, 2, 3, 4, 5, 6, 7]).unwrap();
    for block_data in buf.chunks_exact_mut(8) {
        let block: [u8; 8] = block_data.try_into().expect("block must be 8 bytes");
        let mut block = Array::from(block);
        encryptor.encrypt_block(&mut block);
        block_data.copy_from_slice(&block);
    }
    buf
}

#[test]
fn md5_hex_matches_standard_vectors() {
    assert_eq!(md5_hex(b""), "d41d8cd98f00b204e9800998ecf8427e");
    assert_eq!(md5_hex(b"abc"), "900150983cd24fb0d6963f7d28e17f72");
}

#[test]
fn aes_ecb_encrypt_matches_fips_vector() {
    assert_eq!(
        aes_ecb_encrypt(&[0u8; 16], &[0u8; 16]),
        "66e94bd4ef8a2c3b884cfa59ca342b2e"
    );
}

#[test]
fn aes_ecb_encrypt_processes_blocks_independently() {
    let one = aes_ecb_encrypt(&[0u8; 16], &[0u8; 16]);
    let two = aes_ecb_encrypt(&[0u8; 16], &[0u8; 32]);
    assert_eq!(two, format!("{one}{one}"));
}

#[test]
fn generate_blowfish_key_matches_known_answer() {
    let expected = [
        0x6c, 0x32, 0x63, 0x6d, 0x67, 0x36, 0x70, 0x64, 0x63, 0x7d, 0x71, 0x6c, 0x3d, 0x3b, 0x63,
        0x63,
    ];
    assert_eq!(generate_blowfish_key("123"), expected.to_vec());
}

#[test]
fn generate_blowfish_key_is_deterministic_and_id_dependent() {
    let first = generate_blowfish_key("123");
    let second = generate_blowfish_key("123");
    let other = generate_blowfish_key("124");

    assert_eq!(first.len(), 16);
    assert_eq!(first, second);
    assert_ne!(first, other);
}

#[test]
fn decrypt_chunk_roundtrips_blowfish_cbc() {
    let key = b"0123456789abcdef";
    let plaintext: Vec<u8> = (0..64u8).collect();

    let ciphertext = blowfish_cbc_encrypt(&plaintext, key);

    assert_eq!(decrypt_chunk(&ciphertext, key), plaintext);
}

#[test]
fn decrypt_chunk_leaves_partial_trailing_block_untouched() {
    let key = b"0123456789abcdef";
    let data: Vec<u8> = (0..20u8).collect();

    let decrypted = decrypt_chunk(&data, key);

    assert_eq!(decrypted.len(), data.len());
    assert_eq!(&decrypted[16..], &data[16..]);
}

#[test]
fn decrypt_stream_reverses_the_stream_format() {
    let key = b"0123456789abcdef";
    let plaintext: Vec<u8> = (0..=255u8).cycle().take(2048 * 3 + 100).collect();

    let mut encrypted = Vec::new();
    let mut offset = 0;
    while offset < plaintext.len() {
        let end = (offset + 2048 * 3).min(plaintext.len());
        let chunk = &plaintext[offset..end];
        if chunk.len() >= 2048 {
            encrypted.extend_from_slice(&blowfish_cbc_encrypt(&chunk[..2048], key));
            encrypted.extend_from_slice(&chunk[2048..]);
        } else {
            encrypted.extend_from_slice(chunk);
        }
        offset = end;
    }

    assert_eq!(decrypt_stream(&encrypted, key), plaintext);
}

#[test]
fn decrypt_stream_passes_through_short_input() {
    let key = b"0123456789abcdef";
    let data: Vec<u8> = (0..100u8).collect();

    assert_eq!(decrypt_stream(&data, key), data);
}

#[test]
fn stream_paths_match_known_answer() {
    let md5 = "0123456789abcdef0123456789abcdef";
    assert_eq!(
        generate_stream_path("123", md5, "1", 3),
        "430dcb588807fb735a0ffe55286b6ae198fddda9f08015f200df630c6437d9b0\
         c0efbb341173e62e6c9a982b1267afb619cf52ab2fc1386eb8629b2e9ba88a55\
         8558980a1193b8817adf24efc7ba2790"
    );
    assert_ne!(
        generate_stream_path("123", md5, "1", 3),
        generate_stream_path("123", md5, "1", 9)
    );
}

#[test]
fn stream_urls_name_the_proxy_of_the_file() {
    let md5 = "a123456789abcdef0123456789abcdef";
    let path = generate_stream_path("123", md5, "1", 3);
    assert_eq!(
        generate_crypted_stream_url("123", md5, "1", 3),
        format!("https://e-cdns-proxy-a.dzcdn.net/mobile/1/{path}")
    );
    assert!(generate_crypted_stream_url("123", "", "1", 3)
        .starts_with("https://e-cdns-proxy-0.dzcdn.net/mobile/1/"));
}
