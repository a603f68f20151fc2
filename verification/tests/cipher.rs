use minecraft_protocol::cipher::CipherStream;

fn hex(s: &str) -> Vec<u8> {
    (0..s.len()).step_by(2).map(|i| u8::from_str_radix(&s[i..i + 2], 16).unwrap()).collect()
}

fn key() -> Vec<u8> {
    (0u8..16).collect()
}

const PLAINTEXT: &[u8] = b"hello world! this is my plaintext.";
const CIPHERTEXT: &str = "62bfe8a32e18b0652c214903b1ea3f25d8e7bc4b717a4c763f92bd868347ed38eb25";

#[test]
fn encrypts_to_the_known_ciphertext() {
    let mut stream = CipherStream::new(&key()).unwrap();
    assert_eq!(stream.encrypt(PLAINTEXT), hex(CIPHERTEXT));
}

#[test]
fn decrypts_the_known_ciphertext() {
    let mut stream = CipherStream::new(&key()).unwrap();
    assert_eq!(stream.decrypt(&hex(CIPHERTEXT)), PLAINTEXT.to_vec());
}

#[test]
fn parts_encrypt_as_the_whole() {
    for split in [0, 1, 5, 15, 16, 17, 33, 34] {
        let mut stream = CipherStream::new(&key()).unwrap();
        let mut out = stream.encrypt(&PLAINTEXT[..split]);
        out.extend(stream.encrypt(&PLAINTEXT[split..]));
        assert_eq!(out, hex(CIPHERTEXT));
    }
    let mut stream = CipherStream::new(&key()).unwrap();
    let mut out = Vec::new();
    for b in PLAINTEXT {
        out.extend(stream.encrypt(&[*b]));
    }
    assert_eq!(out, hex(CIPHERTEXT));
}

#[test]
fn parts_decrypt_as_the_whole() {
    let cipher = hex(CIPHERTEXT);
    for split in [0, 3, 16, 20, 34] {
        let mut stream = CipherStream::new(&key()).unwrap();
        let mut out = stream.decrypt(&cipher[..split]);
        out.extend(stream.decrypt(&cipher[split..]));
        assert_eq!(out, PLAINTEXT.to_vec());
    }
}

#[test]
fn decrypt_undoes_encrypt() {
    let secret = [0x5Au8; 16];
    let message: Vec<u8> = (0..1000u32).map(|i| (i * 7 % 251) as u8).collect();
    let mut out = CipherStream::new(&secret).unwrap();
    let mut back = CipherStream::new(&secret).unwrap();
    let sealed = out.encrypt(&message);
    assert_eq!(sealed.len(), message.len());
    assert_ne!(sealed, message);
    assert_eq!(back.decrypt(&sealed), message);
    // and the streams go on in step
    let more = out.encrypt(b"more");
    assert_eq!(back.decrypt(&more), b"more".to_vec());
}

#[test]
fn empty_message() {
    let mut stream = CipherStream::new(&key()).unwrap();
    assert_eq!(stream.encrypt(&[]), Vec::<u8>::new());
    assert_eq!(stream.encrypt(PLAINTEXT), hex(CIPHERTEXT));
}

#[test]
fn secret_must_have_sixteen_bytes() {
    assert!(CipherStream::new(&[0; 15]).is_none());
    assert!(CipherStream::new(&[0; 17]).is_none());
    assert!(CipherStream::new(&[]).is_none());
    assert!(CipherStream::new(&[0; 16]).is_some());
}
