use pepperhash::hashing::hash_input_with_pepper;
use pepperhash::hexcode::hex_decode;
use pepperhash::session::App;

fn type_str(app: &mut App, s: &str) {
    for c in s.chars() {
        app.enter_char(c);
    }
}

#[test]
fn digest_matches_fixed_test_vector() {
    // SHA-512 of "abc" with an empty pepper, a standard test vector.
    let digest = hash_input_with_pepper("abc", &Vec::new());
    assert_eq!(
        digest,
        "ddaf35a193617abacc417349ae20413112e6fa4e89a97ea20a9eeee64b55d39a\
         2192992a274fc1a836ba3c23a3feebbd454d4423643ce80e2a9ac94fa54ca49f"
    );
}

#[test]
fn digest_is_deterministic_for_fixed_pepper_and_plaintext() {
    let pepper: Vec<u8> = (0u8..32u8).collect();
    let a = hash_input_with_pepper("hello", &pepper);
    let b = hash_input_with_pepper("hello", &pepper);
    assert_eq!(a, b);
    assert_eq!(a.len(), 128);
}

#[test]
fn pepper_order_comes_first() {
    // Swapping pepper and plaintext bytes changes the digest.
    let a = hash_input_with_pepper("ab", &vec![b'c', b'd']);
    let b = hash_input_with_pepper("cd", &vec![b'a', b'b']);
    assert_ne!(a, b);
}

#[test]
fn two_submissions_of_same_text_differ() {
    let mut app = App::new();
    type_str(&mut app, "hello");
    app.submit_input().unwrap();
    type_str(&mut app, "hello");
    app.submit_input().unwrap();
    assert_eq!(app.hash.len(), 2);
    assert_eq!(app.secrets.len(), 2);
    assert_eq!(app.hash[0].len(), 128);
    assert_eq!(app.hash[1].len(), 128);
    assert_ne!(app.hash[0], app.hash[1]);
    assert_ne!(app.secrets[0], app.secrets[1]);
}

#[test]
fn stored_record_recovers_pepper_and_plaintext() {
    let plain = "h\u{e9}llo w\u{f6}rld";
    let mut app = App::new();
    type_str(&mut app, plain);
    app.submit_input().unwrap();
    let record = app.secrets[0].clone();
    let comma = record.find(',').unwrap();
    let pepper_bytes = hex_decode(&record[..comma]).unwrap();
    let plain_bytes = hex_decode(&record[comma + 1..]).unwrap();
    assert_eq!(pepper_bytes.len(), 32);
    assert_eq!(plain_bytes, plain.as_bytes());
    // The two fields of two different records carry different peppers.
    type_str(&mut app, plain);
    app.submit_input().unwrap();
    let record2 = app.secrets[1].clone();
    let comma2 = record2.find(',').unwrap();
    let pepper2 = hex_decode(&record2[..comma2]).unwrap();
    assert_ne!(pepper_bytes, pepper2);
}

#[test]
fn submission_clears_buffer_and_cursor() {
    let mut app = App::new();
    type_str(&mut app, "abc");
    app.submit_input().unwrap();
    assert_eq!(app.input, "");
    assert_eq!(app.character_index, 0);
}

#[test]
fn submitting_empty_buffer_records_pepper_only_plaintext() {
    let mut app = App::new();
    app.submit_input().unwrap();
    assert_eq!(app.hash.len(), 1);
    assert_eq!(app.hash[0].len(), 128);
    let record = app.secrets[0].clone();
    let comma = record.find(',').unwrap();
    assert_eq!(hex_decode(&record[..comma]).unwrap().len(), 32);
    assert_eq!(hex_decode(&record[comma + 1..]).unwrap(), Vec::<u8>::new());
}

#[test]
fn hex_decode_round_trips_and_rejects_bad_input() {
    assert_eq!(hex_decode("00ff10"), Some(vec![0u8, 255u8, 16u8]));
    assert_eq!(hex_decode(""), Some(vec![]));
    assert_eq!(hex_decode("abc"), None);
    assert_eq!(hex_decode("0g"), None);
    assert_eq!(hex_decode("AB"), None);
}
