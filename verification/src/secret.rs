//! Passwords at rest: AES-256-GCM under a key that is part of the program.
//!
//! A stored password is a mark followed by hexadecimal digits: twelve bytes of
//! nonce, then the encrypted text with its tag.
use crate::text::{hex, hex_bytes, hex_digits_are_those_of_the_bytes, hex_round_trip, hex_text};
use crate::text::{hex_value, only_hex_is_read, prefix_and_rest, starts_with, strip_prefix};
use aes_gcm::aead::{Aead, OsRng};
use aes_gcm::{Aes256Gcm, AeadCore, KeyInit, Nonce};
use vstd::prelude::*;
use vstd::string::*;
use vstd::utf8::*;

verus! {

/// Bytes in a nonce.
pub const NONCE_LEN: usize = 12;

/// The longest text that can be encrypted, in bytes.
pub const TEXT_MAX: u64 = 0x10_0000_0000;

/// The key that the program carries.
pub open spec fn key() -> Seq<u8> {
    seq![
        0x54, 0x75, 0x6e, 0x6e, 0x65, 0x6c, 0x2f, 0x61, 0x74, 0x2d, 0x72, 0x65, 0x73, 0x74, 0x2f,
        0x63, 0x6f, 0x6e, 0x66, 0x69, 0x67, 0x2f, 0x6b, 0x65, 0x79, 0x2f, 0x30, 0x30, 0x30, 0x30,
        0x30, 0x31,
    ]
}

fn key_bytes() -> (k: Vec<u8>)
    ensures
        k@ == key(),
{
    let k: Vec<u8> = vec![
        0x54, 0x75, 0x6e, 0x6e, 0x65, 0x6c, 0x2f, 0x61, 0x74, 0x2d, 0x72, 0x65, 0x73, 0x74, 0x2f,
        0x63, 0x6f, 0x6e, 0x66, 0x69, 0x67, 0x2f, 0x6b, 0x65, 0x79, 0x2f, 0x30, 0x30, 0x30, 0x30,
        0x30, 0x31,
    ];
    assert(k@ =~= key());
    k
}

/// What marks a stored password as encrypted.
pub open spec fn mark() -> Seq<char> {
    "aes256gcm:"@
}

/// What AES-256-GCM makes of `text` under a key and a nonce, with no associated
/// data: the encrypted text followed by its tag.
pub uninterp spec fn sealed_bytes(key: Seq<u8>, nonce: Seq<u8>, text: Seq<u8>) -> Seq<u8>;

/// What AES-256-GCM makes of encrypted `data` under a key and a nonce: the text,
/// or nothing where the tag does not match.
pub uninterp spec fn opened_bytes(key: Seq<u8>, nonce: Seq<u8>, data: Seq<u8>) -> Option<Seq<u8>>;

/// Calls `aes_gcm`'s `Aead::encrypt` with an `Aes256Gcm` and no associated data.
///
/// Trusted: for a text within the cipher's limit it succeeds, its result depends
/// on key, nonce and text alone, and is sixteen bytes (the tag) longer than the
/// text.
#[verifier::external_body]
fn seal_bytes(key: &[u8], nonce: &[u8], text: &[u8]) -> (r: Vec<u8>)
    requires
        key@.len() == 32,
        nonce@.len() == NONCE_LEN,
        text@.len() <= TEXT_MAX,
    ensures
        r@ == sealed_bytes(key@, nonce@, text@),
        r@.len() == text@.len() + 16,
{
    let cipher = Aes256Gcm::new_from_slice(key).unwrap();
    cipher.encrypt(Nonce::from_slice(nonce), text).unwrap()
}

/// Calls `aes_gcm`'s `Aead::decrypt` with an `Aes256Gcm` and no associated data.
///
/// Trusted: its result depends on key, nonce and data alone, and what
/// `Aead::encrypt` made of a text under the same key and nonce it turns back into
/// that text. Nothing is claimed of which other data it refuses.
#[verifier::external_body]
fn open_bytes(key: &[u8], nonce: &[u8], data: &[u8]) -> (r: Option<Vec<u8>>)
    requires
        key@.len() == 32,
        nonce@.len() == NONCE_LEN,
    ensures
        match r {
            Some(text) => opened_bytes(key@, nonce@, data@) == Some(text@),
            None => opened_bytes(key@, nonce@, data@) is None,
        },
        forall|text: Seq<u8>|
            text.len() <= TEXT_MAX && data@ == #[trigger] sealed_bytes(key@, nonce@, text) ==> r
                is Some && r->0@ == text,
{
    let cipher = Aes256Gcm::new_from_slice(key).unwrap();
    cipher.decrypt(Nonce::from_slice(nonce), data).ok()
}

/// Calls `aes_gcm`'s `AeadCore::generate_nonce` with the system's random source.
///
/// Trusted: the nonce of `Aes256Gcm` has twelve bytes. Which they are is left to
/// chance.
#[verifier::external_body]
fn fresh_nonce() -> (r: Vec<u8>)
    ensures
        r@.len() == NONCE_LEN,
{
    Aes256Gcm::generate_nonce(&mut OsRng).to_vec()
}

/// Calls std's `String::from_utf8`.
///
/// Trusted: it succeeds exactly on valid UTF-8, and gives the characters that the
/// bytes encode.
#[verifier::external_body]
fn text_of(bytes: Vec<u8>) -> (r: Option<String>)
    ensures
        r is Some <==> valid_utf8(bytes@),
        r is Some ==> r->0@ == decode_utf8(bytes@),
{
    String::from_utf8(bytes).ok()
}

/// A nonce and encrypted data as one text: the mark, then their digits.
pub open spec fn stored_text(nonce: Seq<u8>, data: Seq<u8>) -> Seq<char> {
    mark() + hex(nonce + data)
}

/// The nonce and the encrypted data in a stored text, if it is marked and its
/// digits stand for at least a nonce.
pub open spec fn stored_parts(stored: Seq<char>) -> Option<(Seq<u8>, Seq<u8>)> {
    if !starts_with(stored, mark()) {
        None
    } else {
        match hex_value(stored.skip(mark().len() as int)) {
            Some(bytes) => if bytes.len() < NONCE_LEN {
                None
            } else {
                Some((bytes.take(NONCE_LEN as int), bytes.skip(NONCE_LEN as int)))
            },
            None => None,
        }
    }
}

/// The password that decryption yields. Where it yields none, or no text, the
/// stored text stands.
pub open spec fn recovered_text(stored: Seq<char>, opened: Option<Seq<u8>>) -> Seq<char> {
    match opened {
        Some(text) => if valid_utf8(text) {
            decode_utf8(text)
        } else {
            stored
        },
        None => stored,
    }
}

/// A password as it is stored, under a given nonce.
pub open spec fn sealed_text(nonce: Seq<u8>, plain: Seq<char>) -> Seq<char> {
    stored_text(nonce, sealed_bytes(key(), nonce, encode_utf8(plain)))
}

/// The password behind a stored text. What is not in the stored form, or cannot
/// be decrypted, stays as it is.
pub open spec fn unsealed_text(stored: Seq<char>) -> Seq<char> {
    match stored_parts(stored) {
        Some((nonce, data)) => recovered_text(stored, opened_bytes(key(), nonce, data)),
        None => stored,
    }
}

/// Whether a password fits the cipher.
pub open spec fn can_be_sealed(plain: Seq<char>) -> bool {
    encode_utf8(plain).len() <= TEXT_MAX
}

/// Whether `stored` is `plain` as it is stored, under some nonce.
pub open spec fn is_sealed(stored: Seq<char>, plain: Seq<char>) -> bool {
    &&& can_be_sealed(plain)
    &&& exists|nonce: Seq<u8>|
        nonce.len() == NONCE_LEN && stored == #[trigger] sealed_text(nonce, plain)
}

/// A stored text holds the nonce and the data that it was made of.
pub proof fn stored_text_round_trip(nonce: Seq<u8>, data: Seq<u8>)
    requires
        nonce.len() == NONCE_LEN,
    ensures
        stored_parts(stored_text(nonce, data)) == Some((nonce, data)),
{
    let stored = stored_text(nonce, data);
    hex_round_trip(nonce + data);
    assert(stored.take(mark().len() as int) =~= mark());
    assert(stored.skip(mark().len() as int) =~= hex(nonce + data));
    assert((nonce + data).take(NONCE_LEN as int) =~= nonce);
    assert((nonce + data).skip(NONCE_LEN as int) =~= data);
}

/// UTF-8 needs at least a byte for each character.
proof fn lemma_encoding_is_no_shorter(s: Seq<char>)
    ensures
        encode_utf8(s).len() >= s.len(),
    decreases s.len(),
{
    if s.len() > 0 {
        lemma_encoding_is_no_shorter(s.drop_first());
    }
}

/// Writes a nonce and encrypted data as one text.
pub fn write_stored(nonce: Vec<u8>, data: Vec<u8>) -> (r: String)
    ensures
        r@ == stored_text(nonce@, data@),
        r@.len() >= 2 * data@.len(),
{
    let mut all = nonce;
    let mut rest = data;
    all.append(&mut rest);
    proof {
        hex_round_trip(all@);
    }
    "aes256gcm:".to_owned().concat(hex_text(all.as_slice()).as_str())
}

/// Reads the nonce and the encrypted data from a stored text.
pub fn read_stored(stored: &str) -> (r: Option<(Vec<u8>, Vec<u8>)>)
    ensures
        match r {
            Some((nonce, data)) => stored_parts(stored@) == Some((nonce@, data@)),
            None => stored_parts(stored@) is None,
        },
{
    let digits = match strip_prefix(stored, "aes256gcm:") {
        Some(digits) => digits,
        None => return None,
    };
    let bytes = match hex_bytes(digits.as_str()) {
        Some(bytes) => bytes,
        None => return None,
    };
    if bytes.len() < NONCE_LEN {
        return None;
    }
    let ghost all = bytes@;
    let mut nonce = bytes;
    let data = nonce.split_off(NONCE_LEN);
    assert(nonce@ =~= all.take(NONCE_LEN as int));
    assert(data@ =~= all.skip(NONCE_LEN as int));
    Some((nonce, data))
}

/// The password that decryption yields, or the stored text where it yields none.
pub fn recover(stored: &str, opened: Option<Vec<u8>>) -> (r: String)
    ensures
        r@ == recovered_text(
            stored@,
            match opened {
                Some(text) => Some(text@),
                None => None,
            },
        ),
{
    let text = match opened {
        Some(text) => text_of(text),
        None => None,
    };
    match text {
        Some(plain) => plain,
        None => stored.to_owned(),
    }
}

/// Encrypts a password under a nonce. `None` where it exceeds what the cipher
/// takes.
pub fn seal_with(plain: &str, nonce: Vec<u8>) -> (r: Option<String>)
    requires
        nonce@.len() == NONCE_LEN,
    ensures
        r is Some <==> can_be_sealed(plain@),
        r is Some ==> r->0@ == sealed_text(nonce@, plain@),
        r is Some ==> r->0@ != plain@,
{
    let bytes = plain.as_bytes();
    if bytes.len() as u64 > TEXT_MAX {
        return None;
    }
    let data = seal_bytes(key_bytes().as_slice(), nonce.as_slice(), bytes);
    proof {
        lemma_encoding_is_no_shorter(plain@);
    }
    Some(write_stored(nonce, data))
}

/// Encrypts a password under a fresh nonce. `None` where it exceeds what the
/// cipher takes.
pub fn seal(plain: &str) -> (r: Option<String>)
    ensures
        r is Some <==> can_be_sealed(plain@),
        r is Some ==> is_sealed(r->0@, plain@),
        r is Some ==> r->0@ != plain@,
{
    seal_with(plain, fresh_nonce())
}

/// The password behind a stored text; what [`seal_with`] made of a password
/// comes back as that password, whatever the nonce was.
pub fn unseal(stored: &str) -> (r: String)
    ensures
        r@ == unsealed_text(stored@),
        forall|plain: Seq<char>| #[trigger] is_sealed(stored@, plain) ==> r@ == plain,
{
    let opened = match read_stored(stored) {
        Some((nonce, data)) => open_bytes(
            key_bytes().as_slice(),
            nonce.as_slice(),
            data.as_slice(),
        ),
        None => None,
    };
    proof {
        assert forall|plain: Seq<char>| #[trigger] is_sealed(stored@, plain) implies opened is Some
            && valid_utf8(opened->0@) && decode_utf8(opened->0@) == plain by {
            let nonce = choose|nonce: Seq<u8>|
                nonce.len() == NONCE_LEN && stored@ == #[trigger] sealed_text(nonce, plain);
            stored_text_round_trip(nonce, sealed_bytes(key(), nonce, encode_utf8(plain)));
            encode_utf8_valid_utf8(plain);
            encode_utf8_decode_utf8(plain);
        }
    }
    recover(stored, opened)
}

/// The key is the text of its name, thirty-two bytes long.
pub proof fn key_spells_its_name(i: int)
    ensures
        key().len() == 32,
        "Tunnel/at-rest/config/key/000001"@.len() == 32,
        0 <= i < 32 ==> key()[i] as int == "Tunnel/at-rest/config/key/000001"@[i] as int,
{
    reveal_strlit("Tunnel/at-rest/config/key/000001");
}

/// A text fits the cipher exactly where its UTF-8 form has no more than 2^36 bytes.
pub proof fn texts_of_any_usual_length_fit(plain: Seq<char>)
    ensures
        can_be_sealed(plain) <==> encode_utf8(plain).len() <= 68719476736,
{
}

/// A stored password is the mark followed by digits alone, two for each byte of the
/// nonce and then of what the cipher made of the text's UTF-8 form, under the
/// program's key and that nonce.
pub proof fn stored_form_holds_nonce_and_data(nonce: Seq<u8>, plain: Seq<char>)
    requires
        nonce.len() == 12,
    ensures
        ({
            let data = sealed_bytes(key(), nonce, encode_utf8(plain));
            let stored = sealed_text(nonce, plain);
            let rest = stored.skip(10);
            &&& stored.take(10) == "aes256gcm:"@
            &&& stored.len() == 10 + 24 + 2 * data.len()
            &&& rest.take(24) == hex(nonce)
            &&& rest.skip(24) == hex(data)
        }),
{
    let data = sealed_bytes(key(), nonce, encode_utf8(plain));
    let stored = sealed_text(nonce, plain);
    reveal_strlit("aes256gcm:");
    prefix_and_rest(stored, "aes256gcm:"@, hex(nonce + data));
    hex_round_trip(nonce + data);
    hex_round_trip(nonce);
    hex_round_trip(data);
    assert(stored.take(10) =~= "aes256gcm:"@);
    let rest = stored.skip(10);
    assert(rest == hex(nonce + data));
    assert forall|k: int| 0 <= k < 24 implies rest.take(24)[k] == hex(nonce)[k] by {
        hex_digits_are_those_of_the_bytes(nonce + data, k / 2);
        hex_digits_are_those_of_the_bytes(nonce, k / 2);
    }
    assert(rest.take(24) =~= hex(nonce));
    assert forall|k: int| 0 <= k < 2 * data.len() implies rest.skip(24)[k] == hex(data)[k] by {
        hex_digits_are_those_of_the_bytes(nonce + data, 12 + k / 2);
        hex_digits_are_those_of_the_bytes(data, k / 2);
    }
    assert(rest.skip(24) =~= hex(data));
}

/// What was read from a stored text is all that it holds: a nonce of twelve bytes
/// and the data after it.
pub proof fn stored_text_has_one_reading(stored: Seq<char>)
    ensures
        stored_parts(stored) matches Some((nonce, data)) ==> nonce.len() == 12 && stored
            == "aes256gcm:"@ + hex(nonce + data),
{
    if let Some((nonce, data)) = stored_parts(stored) {
        let digits = stored.skip(mark().len() as int);
        prefix_and_rest(stored, "aes256gcm:"@, digits);
        only_hex_is_read(digits);
        assert(nonce + data =~= hex_value(digits)->0);
    }
}

/// A text without the mark is a password as it stands.
pub proof fn unmarked_text_stands(stored: Seq<char>)
    requires
        stored.len() < 10 || stored.take(10) != "aes256gcm:"@,
    ensures
        stored_parts(stored) is None,
        unsealed_text(stored) == stored,
{
    reveal_strlit("aes256gcm:");
}

/// So does one whose mark is followed by too little for a nonce, by half a pair of
/// digits, or by anything but digits in lower case.
pub proof fn damaged_text_stands(digits: Seq<char>, i: int)
    requires
        digits.len() < 24 || digits.len() % 2 == 1 || (0 <= i < digits.len() && !('0' <= digits[i]
            <= '9' || 'a' <= digits[i] <= 'f')),
    ensures
        stored_parts("aes256gcm:"@ + digits) is None,
        unsealed_text("aes256gcm:"@ + digits) == "aes256gcm:"@ + digits,
{
    let stored = "aes256gcm:"@ + digits;
    prefix_and_rest(stored, "aes256gcm:"@, digits);
    only_hex_is_read(digits);
    if let Some(bytes) = hex_value(digits) {
        hex_round_trip(bytes);
        if 0 <= i < digits.len() {
            hex_digits_are_those_of_the_bytes(bytes, i / 2);
        }
    }
}

/// What is in the stored form is decrypted under the program's key and its own
/// nonce: where that yields text, it is the password; where it yields nothing, or
/// bytes that are no text, the stored text stands.
pub proof fn stored_text_is_opened(nonce: Seq<u8>, data: Seq<u8>)
    requires
        nonce.len() == 12,
    ensures
        ({
            let stored = "aes256gcm:"@ + hex(nonce + data);
            match opened_bytes(key(), nonce, data) {
                Some(text) => if valid_utf8(text) {
                    unsealed_text(stored) == decode_utf8(text)
                } else {
                    unsealed_text(stored) == stored
                },
                None => unsealed_text(stored) == stored,
            }
        }),
{
    stored_text_round_trip(nonce, data);
}

/// What decryption yields is taken where it is text, whatever the stored text was.
pub proof fn recovered_text_is_what_was_opened(stored: Seq<char>, text: Seq<u8>)
    ensures
        recovered_text(stored, None) == stored,
        valid_utf8(text) ==> recovered_text(stored, Some(text)) == decode_utf8(text),
        !valid_utf8(text) ==> recovered_text(stored, Some(text)) == stored,
{
}

} // verus!
