use wg_client::{
    clamp_key, decode_key, derive_public_key, encode_key, gen_private_key, gen_public_key,
    generate_private_key, wg_key_from_str, WgError, WgKey, WgKeyBase64String,
};

fn hex32(s: &str) -> [u8; 32] {
    let mut out = [0u8; 32];
    for i in 0..32 {
        out[i] = u8::from_str_radix(&s[2 * i..2 * i + 2], 16).unwrap();
    }
    out
}

fn text_of(t: &WgKeyBase64String) -> String {
    t.0[..44].iter().map(|&c| c as char).collect()
}

#[test]
fn encode_zero_key() {
    let t = encode_key(&WgKey([0u8; 32]));
    assert_eq!(text_of(&t), format!("{}=", "A".repeat(43)));
    assert_eq!(t.0[44], 0);
}

#[test]
fn encode_counting_key() {
    let mut k = [0u8; 32];
    for i in 0..32 {
        k[i] = i as u8;
    }
    let t = encode_key(&WgKey(k));
    assert_eq!(text_of(&t), "AAECAwQFBgcICQoLDA0ODxAREhMUFRYXGBkaGxwdHh8=");
}

#[test]
fn encode_has_44_meaningful_characters_and_padding() {
    let k = hex32("77076d0a7318a57d3c16c17251b26645df4c2f87ebc0992ab177fba51db92c2a");
    let t = encode_key(&WgKey(k));
    assert_eq!(t.0.len(), 45);
    assert!(t.0[..44].iter().all(|&c| c != 0));
    assert_eq!(t.0[43], b'=');
    assert_eq!(t.0[44], 0);
}

#[test]
fn decode_encode_round_trip() {
    let samples = [
        [0u8; 32],
        [0xffu8; 32],
        hex32("77076d0a7318a57d3c16c17251b26645df4c2f87ebc0992ab177fba51db92c2a"),
        hex32("8520f0098930a754748b7ddcb43ef75a0dbf3a0d26381af4eba4a98eaa9b4e6a"),
    ];
    for k in samples.iter() {
        let t = encode_key(&WgKey(*k));
        let back = decode_key(&t).unwrap();
        assert_eq!(back.0, *k);
    }
}

#[test]
fn decode_rejects_bad_symbol() {
    let mut t = encode_key(&WgKey([7u8; 32]));
    t.0[5] = b'!';
    assert_eq!(decode_key(&t).unwrap_err(), WgError::InvalidKeyEncoding);
}

#[test]
fn decode_rejects_missing_padding() {
    let mut t = encode_key(&WgKey([7u8; 32]));
    t.0[43] = b'A';
    assert_eq!(decode_key(&t).unwrap_err(), WgError::InvalidKeyEncoding);
}

#[test]
fn decode_rejects_noncanonical_last_symbol() {
    // The last symbol before `=` must leave its two low bits clear.
    let s = format!("{}B=", "A".repeat(42));
    assert_eq!(wg_key_from_str(&s).unwrap_err(), WgError::InvalidKeyEncoding);
}

#[test]
fn key_from_str_reads_text() {
    let k = wg_key_from_str("AAECAwQFBgcICQoLDA0ODxAREhMUFRYXGBkaGxwdHh8=").unwrap();
    let mut expected = [0u8; 32];
    for i in 0..32 {
        expected[i] = i as u8;
    }
    assert_eq!(k.0, expected);
}

#[test]
fn key_from_str_rejects_short_and_long_text() {
    assert_eq!(wg_key_from_str("").unwrap_err(), WgError::InvalidKeyEncoding);
    assert_eq!(wg_key_from_str("AAECAwQF").unwrap_err(), WgError::InvalidKeyEncoding);
    let long = "AAECAwQFBgcICQoLDA0ODxAREhMUFRYXGBkaGxwdHh8=A";
    assert_eq!(wg_key_from_str(long).unwrap_err(), WgError::InvalidKeyEncoding);
    assert_eq!(
        wg_key_from_str("default-server-pub-key").unwrap_err(),
        WgError::InvalidKeyEncoding
    );
}

#[test]
fn from_text_pads_with_zero_bytes() {
    let t = WgKeyBase64String::from_text("abc");
    assert_eq!(&t.0[..3], b"abc");
    assert!(t.0[3..].iter().all(|&c| c == 0));
    let long = "x".repeat(60);
    let t = WgKeyBase64String::from_text(&long);
    assert!(t.0.iter().all(|&c| c == b'x'));
}

#[test]
fn clamp_sets_and_clears_bits() {
    let r = clamp_key([0xffu8; 32]);
    assert_eq!(r[0], 0xf8);
    assert_eq!(r[31], 0x7f);
    assert!(r[1..31].iter().all(|&b| b == 0xff));
    let r = clamp_key([0u8; 32]);
    assert_eq!(r[31], 0x40);
}

#[test]
fn public_key_matches_known_vector() {
    let private = hex32("77076d0a7318a57d3c16c17251b26645df4c2f87ebc0992ab177fba51db92c2a");
    let public = derive_public_key(&WgKey(private));
    assert_eq!(
        public.0,
        hex32("8520f0098930a754748b7ddcb43ef75a0dbf3a0d26381af4eba4a98eaa9b4e6a")
    );
}

#[test]
fn gen_public_key_from_text() {
    let private = hex32("77076d0a7318a57d3c16c17251b26645df4c2f87ebc0992ab177fba51db92c2a");
    let t = encode_key(&WgKey(private));
    let p = gen_public_key(&t).unwrap();
    let back = decode_key(&p).unwrap();
    assert_eq!(
        back.0,
        hex32("8520f0098930a754748b7ddcb43ef75a0dbf3a0d26381af4eba4a98eaa9b4e6a")
    );
    let bad = WgKeyBase64String::from_text("not a key");
    assert_eq!(gen_public_key(&bad).unwrap_err(), WgError::InvalidKeyEncoding);
}

#[test]
fn generated_private_key_is_clamped() {
    let k = generate_private_key().unwrap();
    assert_eq!(k.0[0] & 7, 0);
    assert_eq!(k.0[31] & 0x80, 0);
    assert_eq!(k.0[31] & 0x40, 0x40);
}

#[test]
fn generated_private_key_text_decodes() {
    let t = gen_private_key().unwrap();
    let k = decode_key(&t).unwrap();
    assert_eq!(k.0[0] & 7, 0);
    assert_eq!(k.0[31] & 0xc0, 0x40);
    let again = gen_private_key().unwrap();
    assert_ne!(t.0, again.0);
}
