use kernel_fingerprint::fingerprint::{
    file_digest, generate_fingerprint, lex_leq_bytes, paths_distinct, FileEntry,
};
use kernel_fingerprint::digest::{hex_lower, sha512_digest, utf8_to_string};
use sha2::{Digest, Sha512};

const EMPTY_SHA512: &str = "cf83e1357eefb8bdf1542850d66d8007d620e4050b5715dc83f4a921d36ce9ce47d0d13c5d85f2b0ff8318d2877eec2f63b931bd47417a81a538327af927da3e";
const HELLO_SHA512: &str = "9b71d224bd62f3785d96d46ad3ea3d73319bfbc2890caadae2dff72519673ca72323c3d99ba5c11d7c7acc6e14b8c5da0c4663475c2e5c3adef46f73bcdec043";
const TWO_FILE_TREE: &str = "e09aa4706f99469575bc026960b5a525559230e928391c75d966d24acbdf5f17a3532cdd4144f361fd57aab7a4478459570cf1ac7bda9da95ff9cb9a0d50c291";

fn entry(path: &str, content: &[u8]) -> FileEntry {
    FileEntry { path: path.as_bytes().to_vec(), content: content.to_vec() }
}

#[test]
fn empty_tree_yields_digest_of_empty_string() {
    assert_eq!(generate_fingerprint(Vec::new()), EMPTY_SHA512);
}

#[test]
fn two_file_tree_matches_independent_computation() {
    let files = vec![entry("a.txt", b"hello"), entry("b.txt", b"world")];
    assert_eq!(generate_fingerprint(files), TWO_FILE_TREE);
}

#[test]
fn fingerprint_recomputed_from_scratch_with_sha2() {
    // Recompute the golden value independently with the hash crate itself.
    let ha = hex::encode(Sha512::digest(b"hello"));
    let hb = hex::encode(Sha512::digest(b"world"));
    let expected = hex::encode(Sha512::digest(format!("{}{}", ha, hb).as_bytes()));
    let files = vec![entry("a.txt", b"hello"), entry("b.txt", b"world")];
    assert_eq!(generate_fingerprint(files), expected);
}

#[test]
fn fingerprint_is_deterministic_across_calls() {
    let once = generate_fingerprint(vec![entry("a.txt", b"hello"), entry("b.txt", b"world")]);
    let twice = generate_fingerprint(vec![entry("a.txt", b"hello"), entry("b.txt", b"world")]);
    assert_eq!(once, twice);
}

#[test]
fn fingerprint_ignores_traversal_order() {
    let shuffled = generate_fingerprint(vec![
        entry("c", b"3"),
        entry("a", b"1"),
        entry("b", b"2"),
    ]);
    let sorted = generate_fingerprint(vec![entry("a", b"1"), entry("b", b"2"), entry("c", b"3")]);
    assert_eq!(shuffled, sorted);
    let reversed = generate_fingerprint(vec![
        entry("b.txt", b"world"),
        entry("a.txt", b"hello"),
    ]);
    assert_eq!(reversed, TWO_FILE_TREE);
}

#[test]
fn fingerprint_changes_when_one_byte_changes() {
    let base = generate_fingerprint(vec![entry("a.txt", b"hello"), entry("b.txt", b"world")]);
    let mutated = generate_fingerprint(vec![entry("a.txt", b"hellp"), entry("b.txt", b"world")]);
    assert_ne!(base, mutated);
}

#[test]
fn fingerprint_changes_when_a_file_is_added_or_removed() {
    let base = generate_fingerprint(vec![entry("a.txt", b"hello"), entry("b.txt", b"world")]);
    let added = generate_fingerprint(vec![
        entry("a.txt", b"hello"),
        entry("b.txt", b"world"),
        entry("c.txt", b""),
    ]);
    let removed = generate_fingerprint(vec![entry("a.txt", b"hello")]);
    assert_ne!(base, added);
    assert_ne!(base, removed);
    assert_ne!(added, removed);
}

#[test]
fn file_digest_matches_known_value() {
    assert_eq!(file_digest(&b"hello".to_vec()), HELLO_SHA512);
    assert_eq!(file_digest(&Vec::new()), EMPTY_SHA512);
}

#[test]
fn sha512_wrapper_really_hashes() {
    let d = sha512_digest(b"hello");
    assert_eq!(d.len(), 64);
    assert_eq!(hex::encode(&d), HELLO_SHA512);
}

#[test]
fn hex_wrapper_encodes_lowercase_high_nibble_first() {
    assert_eq!(hex_lower(&[]), "");
    assert_eq!(hex_lower(&[0x00, 0xff, 0x1a]), "00ff1a");
}

#[test]
fn utf8_wrapper_decodes_and_rejects() {
    assert_eq!(utf8_to_string(b"caf\xc3\xa9".to_vec()), Some(String::from("caf\u{e9}")));
    assert_eq!(utf8_to_string(vec![0xff, 0xfe]), None);
}

#[test]
fn distinct_paths_are_recognized() {
    assert!(paths_distinct(&vec![]));
    assert!(paths_distinct(&vec![entry("a", b"1"), entry("b", b"1")]));
    assert!(!paths_distinct(&vec![entry("a", b"1"), entry("b", b"2"), entry("a", b"3")]));
}

#[test]
fn byte_order_is_lexicographic() {
    assert!(lex_leq_bytes(&b"a.txt".to_vec(), &b"b.txt".to_vec()));
    assert!(!lex_leq_bytes(&b"b.txt".to_vec(), &b"a.txt".to_vec()));
    assert!(lex_leq_bytes(&b"a".to_vec(), &b"a".to_vec()));
    assert!(lex_leq_bytes(&b"a".to_vec(), &b"ab".to_vec()));
    assert!(!lex_leq_bytes(&b"ab".to_vec(), &b"a".to_vec()));
    assert!(lex_leq_bytes(&Vec::new(), &b"a".to_vec()));
}
