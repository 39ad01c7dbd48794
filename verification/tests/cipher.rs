use aes::Aes128;
use cfb8::cipher::{AsyncStreamCipher, NewCipher};
use cfb8::Cfb8;
use packet_framing::cipher::StreamCipher;

fn key() -> [u8; 16] {
    [0, 1, 2, 3, 4, 5, 6, 7, 8, 9, 10, 11, 12, 13, 14, 15]
}

fn reference_encrypt(key: &[u8; 16], data: &[u8]) -> Vec<u8> {
    let mut out = data.to_vec();
    Cfb8::<Aes128>::new_from_slices(key, key).unwrap().encrypt(&mut out);
    out
}

#[test]
fn encrypt_changes_the_bytes_and_keeps_the_length() {
    let plain = b"The quick brown fox jumps over the lazy dog.".to_vec();
    let mut data = plain.clone();
    StreamCipher::new(&key()).encrypt(&mut data);
    assert_eq!(data.len(), plain.len());
    assert_ne!(data, plain);
    assert_eq!(data, reference_encrypt(&key(), &plain));
}

#[test]
fn decrypt_undoes_encrypt() {
    let plain: Vec<u8> = (0..200u16).map(|i| (i * 7 % 251) as u8).collect();
    let mut data = plain.clone();
    StreamCipher::new(&key()).encrypt(&mut data);
    assert_ne!(data, plain);
    StreamCipher::new(&key()).decrypt(&mut data);
    assert_eq!(data, plain);
}

#[test]
fn decrypt_is_not_encrypt() {
    let plain = vec![0u8; 40];
    let mut a = plain.clone();
    let mut b = plain.clone();
    StreamCipher::new(&key()).encrypt(&mut a);
    StreamCipher::new(&key()).decrypt(&mut b);
    // The first byte sees the same keystream, the later ones do not.
    assert_eq!(a[0], b[0]);
    assert_ne!(a, b);
}

#[test]
fn streams_keep_their_state_between_calls() {
    let plain: Vec<u8> = (0..100u8).collect();
    let at_once = reference_encrypt(&key(), &plain);
    let mut cipher = StreamCipher::new(&key());
    let mut pieces = Vec::new();
    for chunk in plain.chunks(7) {
        let mut piece = chunk.to_vec();
        cipher.encrypt(&mut piece);
        pieces.extend_from_slice(&piece);
    }
    assert_eq!(pieces, at_once);
    let mut decipher = StreamCipher::new(&key());
    let mut back = Vec::new();
    for chunk in at_once.chunks(13) {
        let mut piece = chunk.to_vec();
        decipher.decrypt(&mut piece);
        back.extend_from_slice(&piece);
    }
    assert_eq!(back, plain);
}

#[test]
fn different_keys_give_different_ciphertext() {
    let plain = vec![0x42u8; 32];
    let mut a = plain.clone();
    let mut b = plain.clone();
    StreamCipher::new(&key()).encrypt(&mut a);
    StreamCipher::new(&[0xffu8; 16]).encrypt(&mut b);
    assert_ne!(a, b);
}

#[test]
fn empty_input_stays_empty() {
    let mut data: Vec<u8> = Vec::new();
    let mut cipher = StreamCipher::new(&key());
    cipher.encrypt(&mut data);
    assert!(data.is_empty());
    cipher.decrypt(&mut data);
    assert!(data.is_empty());
}
