use tunnel::secret::{read_stored, recover, seal, seal_with, unseal, write_stored};

#[test]
fn password_comes_back() {
    for plain in ["", "hunter2", "密码 🔑", "aes256gcm:00"] {
        let stored = seal(plain).unwrap();
        assert_eq!(unseal(&stored), plain);
    }
}

#[test]
fn stored_password_is_not_the_password() {
    let stored = seal("hunter2").unwrap();
    assert_ne!(stored, "hunter2");
    assert!(!stored.contains("hunter2"));
    assert!(stored.starts_with("aes256gcm:"));
    assert_eq!(stored.len(), "aes256gcm:".len() + 2 * (12 + 7 + 16));
}

#[test]
fn each_encryption_has_its_own_nonce() {
    assert_ne!(seal("hunter2"), seal("hunter2"));
}

#[test]
fn one_nonce_gives_one_result() {
    let a = seal_with("hunter2", vec![7; 12]).unwrap();
    let b = seal_with("hunter2", vec![7; 12]).unwrap();
    let c = seal_with("hunter3", vec![7; 12]).unwrap();
    assert_eq!(a, b);
    assert_ne!(a, c);
    assert_eq!(unseal(&a), "hunter2");
    assert!(a.starts_with("aes256gcm:070707070707070707070707"));
}

#[test]
fn stored_form_holds_nonce_and_data() {
    let nonce: Vec<u8> = (1..=12).collect();
    let stored = write_stored(nonce.clone(), vec![0xab, 0xcd]);
    assert_eq!(stored, "aes256gcm:0102030405060708090a0b0cabcd");
    assert_eq!(read_stored(&stored), Some((nonce.clone(), vec![0xab, 0xcd])));
    assert_eq!(read_stored(&write_stored(nonce.clone(), vec![])), Some((nonce, vec![])));
}

#[test]
fn what_is_not_in_the_stored_form() {
    assert_eq!(read_stored("hunter2"), None);
    assert_eq!(read_stored("aes256gcm:"), None);
    assert_eq!(read_stored("aes256gcm:0102"), None);
    assert_eq!(read_stored("aes256gcm:0102030405060708090a0b0x"), None);
    assert_eq!(unseal("hunter2"), "hunter2");
    assert_eq!(unseal(""), "");
}

#[test]
fn damaged_text_stays_as_it_is() {
    let stored = seal("hunter2").unwrap();
    let last = if stored.ends_with('0') { "1" } else { "0" };
    let damaged = format!("{}{}", &stored[..stored.len() - 1], last);
    assert_eq!(unseal(&damaged), damaged);
    let cut = &stored[..stored.len() - 2];
    assert_eq!(unseal(cut), cut);
}

#[test]
fn recovery_needs_text() {
    assert_eq!(recover("kept", None), "kept");
    assert_eq!(recover("kept", Some(b"plain".to_vec())), "plain");
    assert_eq!(recover("kept", Some("密".as_bytes().to_vec())), "密");
    assert_eq!(recover("kept", Some(vec![0xff, 0xfe])), "kept");
}
