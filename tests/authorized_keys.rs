use sshbeam::keys::{ed25519_key_of, second_field_of, AuthorizedKeySet};

fn key_blob(fill: u8) -> Vec<u8> {
    let mut b = vec![0u8, 0, 0, 11];
    b.extend_from_slice(b"ssh-ed25519");
    b.extend_from_slice(&[0, 0, 0, 32]);
    b.extend_from_slice(&[fill; 32]);
    b
}

fn entry(blob: &[u8]) -> String {
    data_encoding::BASE64.encode(blob)
}

#[test]
fn well_formed_entry_is_a_member() {
    let text = format!("ssh-ed25519 {} alice@host\n", entry(&key_blob(1)));
    let set = AuthorizedKeySet::parse(&text);
    assert_eq!(set.len(), 1);
    assert!(set.contains(&key_blob(1)));
    assert!(!set.contains(&key_blob(2)));
}

#[test]
fn membership_is_exact_byte_equality() {
    let text = format!("ssh-ed25519 {}", entry(&key_blob(7)));
    let set = AuthorizedKeySet::parse(&text);
    let mut shorter = key_blob(7);
    shorter.pop();
    let mut longer = key_blob(7);
    longer.push(0);
    let mut changed = key_blob(7);
    changed[50] = 8;
    assert!(set.contains(&key_blob(7)));
    assert!(!set.contains(&shorter));
    assert!(!set.contains(&longer));
    assert!(!set.contains(&changed));
    assert!(!set.contains(&[]));
}

#[test]
fn malformed_lines_are_skipped() {
    let mut short_key = vec![0u8, 0, 0, 11];
    short_key.extend_from_slice(b"ssh-ed25519");
    short_key.extend_from_slice(&[0, 0, 0, 31]);
    short_key.extend_from_slice(&[3u8; 31]);
    let mut rsa = vec![0u8, 0, 0, 7];
    rsa.extend_from_slice(b"ssh-rsa");
    rsa.extend_from_slice(&[0, 0, 0, 1, 3]);
    let text = format!(
        "# a comment line\n\nonlyonefield\nssh-ed25519 !!!notbase64!!!\nssh-ed25519 {}\nssh-rsa {}\nssh-ed25519 {} bob\n",
        entry(&short_key),
        entry(&rsa),
        entry(&key_blob(9)),
    );
    let set = AuthorizedKeySet::parse(&text);
    assert_eq!(set.len(), 1);
    assert!(set.contains(&key_blob(9)));
}

#[test]
fn keys_on_every_line_are_read() {
    let text = format!(
        "ssh-ed25519 {} one\r\n  \tssh-ed25519\t{}\u{a0}two\nssh-ed25519 {}",
        entry(&key_blob(1)),
        entry(&key_blob(2)),
        entry(&key_blob(3)),
    );
    let set = AuthorizedKeySet::parse(&text);
    assert_eq!(set.len(), 3);
    for fill in 1..=3 {
        assert!(set.contains(&key_blob(fill)));
    }
}

#[test]
fn empty_text_gives_empty_set() {
    let set = AuthorizedKeySet::parse("");
    assert_eq!(set.len(), 0);
    assert!(!set.contains(&key_blob(0)));
    assert_eq!(AuthorizedKeySet::empty().len(), 0);
}

#[test]
fn trailing_bytes_after_the_key_are_ignored() {
    let mut blob = key_blob(5);
    blob.extend_from_slice(&[1, 2, 3]);
    let set = AuthorizedKeySet::parse(&format!("ssh-ed25519 {}", entry(&blob)));
    assert!(set.contains(&key_blob(5)));
    assert!(!set.contains(&blob));
}

#[test]
fn blob_check_gives_the_wire_form() {
    let mut blob = key_blob(4);
    assert_eq!(ed25519_key_of(&blob), Some(key_blob(4)));
    blob.push(9);
    assert_eq!(ed25519_key_of(&blob), Some(key_blob(4)));
    assert_eq!(ed25519_key_of(&key_blob(4)[..50].to_vec()), None);
    let mut wrong_name = key_blob(4);
    wrong_name[4] = b'x';
    assert_eq!(ed25519_key_of(&wrong_name), None);
    let mut wrong_len = key_blob(4);
    wrong_len[18] = 33;
    assert_eq!(ed25519_key_of(&wrong_len), None);
}

#[test]
fn second_field_splits_on_unicode_whitespace() {
    let line: Vec<char> = "  algo\u{3000}key rest".chars().collect();
    assert_eq!(second_field_of(&line), Some("key".chars().collect()));
    let one: Vec<char> = "\talgo  ".chars().collect();
    assert_eq!(second_field_of(&one), None);
    assert_eq!(second_field_of(&Vec::new()), None);
}
