use bsmcp::auth::{hash_token, TokenRow, TokenTable, MAX_ACCESS_TOKENS};
use bsmcp::crypto::{hex_encode, sha256_hex, TokenCipher};

const KEY: &str = "test-encryption-key-thirty-two-chars-long";
const NOW: i64 = 1_000_000;
const TTL: u64 = 1_000;

fn credentials(id: &str, secret: &str) -> Option<(String, String)> {
    Some((id.to_string(), secret.to_string()))
}

#[test]
fn digests_are_those_of_the_standard() {
    assert_eq!(
        sha256_hex(""),
        "e3b0c44298fc1c149afbf4c8996fb92427ae41e4649b934ca495991b7852b855"
    );
    assert_eq!(hash_token("abc"), sha256_hex("abc"));
    assert_eq!(hex_encode(&[0, 15, 255]), "000fff");
}

#[test]
fn texts_are_encrypted_and_read_back() {
    let cipher = TokenCipher::new(KEY);
    let stored = cipher.encrypt("s\u{e9}cret");
    assert_ne!(stored, "s\u{e9}cret");
    assert_ne!(cipher.encrypt("s\u{e9}cret"), stored);
    assert_eq!(cipher.decrypt(&stored).as_deref(), Some("s\u{e9}cret"));
    assert_eq!(TokenCipher::new("another").decrypt(&stored), None);
    assert_eq!(cipher.decrypt("no base64!"), None);
    assert_eq!(cipher.decrypt("AAAA"), None);
    let fixed = cipher.encrypt_with(&[0; 12], "");
    assert!(fixed.starts_with("AAAAAAAAAAAAAAAA"));
    assert_eq!(fixed.len(), 40);
    assert_eq!(cipher.encrypt_with(&[0; 12], ""), fixed);
}

#[test]
fn a_wiped_cipher_reads_nothing() {
    let mut cipher = TokenCipher::new(KEY);
    let stored = cipher.encrypt("x");
    cipher.wipe();
    assert_eq!(cipher.decrypt(&stored), None);
}

#[test]
fn access_tokens_give_credentials_until_they_expire() {
    let cipher = TokenCipher::new(KEY);
    let mut table = TokenTable::new();
    table.insert_access_token(&cipher, "t", "id", "secret", NOW, TTL);
    assert_eq!(table.rows[0].token, hash_token("t"));
    assert_ne!(table.rows[0].token_secret, "secret");
    assert_eq!(table.get_access_token(&cipher, "t", NOW + 999, TTL), credentials("id", "secret"));
    assert_eq!(table.get_access_token(&cipher, "t", NOW + 1_000, TTL), None);
    assert_eq!(table.get_access_token(&cipher, "u", NOW, TTL), None);
    table.insert_access_token(&cipher, "t", "id2", "secret2", NOW, TTL);
    assert_eq!(table.rows.len(), 1);
    assert_eq!(table.get_access_token(&cipher, "t", NOW, TTL), credentials("id2", "secret2"));
}

#[test]
fn old_rows_are_encrypted_when_they_are_read() {
    let cipher = TokenCipher::new(KEY);
    let mut table = TokenTable::new();
    table.rows.push(TokenRow {
        token: "raw".to_string(),
        token_id: "id".to_string(),
        token_secret: "secret".to_string(),
        created_at: NOW,
    });
    assert_eq!(table.get_access_token(&cipher, "raw", NOW, TTL), credentials("id", "secret"));
    assert_ne!(table.rows[0].token_secret, "secret");
    assert_eq!(cipher.decrypt(&table.rows[0].token_secret).as_deref(), Some("secret"));
    assert_eq!(table.get_access_token(&cipher, "raw", NOW, TTL), credentials("id", "secret"));
}

#[test]
fn a_full_table_is_cleaned_up() {
    let cipher = TokenCipher::new(KEY);
    let mut table = TokenTable::new();
    for i in 0..MAX_ACCESS_TOKENS {
        table.rows.push(TokenRow {
            token: format!("{i}"),
            token_id: String::new(),
            token_secret: String::new(),
            created_at: NOW - 5_000,
        });
    }
    table.insert_access_token(&cipher, "t", "id", "secret", NOW, TTL);
    assert_eq!(table.rows.len(), 1);
}

#[test]
fn a_table_full_of_valid_tokens_takes_no_more() {
    let cipher = TokenCipher::new(KEY);
    let mut table = TokenTable::new();
    for i in 1..MAX_ACCESS_TOKENS {
        table.rows.push(TokenRow {
            token: format!("{i}"),
            token_id: String::new(),
            token_secret: String::new(),
            created_at: NOW,
        });
    }
    table.insert_access_token(&cipher, "t", "id", "secret", NOW, TTL);
    assert_eq!(table.rows.len(), MAX_ACCESS_TOKENS);
    assert_eq!(table.get_access_token(&cipher, "t", NOW, TTL), credentials("id", "secret"));
    table.insert_access_token(&cipher, "u", "id", "secret", NOW, TTL);
    assert_eq!(table.rows.len(), MAX_ACCESS_TOKENS);
    assert_eq!(table.get_access_token(&cipher, "u", NOW, TTL), None);
    table.insert_access_token(&cipher, "t", "id2", "secret2", NOW, TTL);
    assert_eq!(table.rows.len(), MAX_ACCESS_TOKENS);
    assert_eq!(table.get_access_token(&cipher, "t", NOW, TTL), credentials("id2", "secret2"));
}

#[test]
fn refresh_tokens_are_used_up() {
    let cipher = TokenCipher::new(KEY);
    let mut table = TokenTable::new();
    table.insert_refresh_token(&cipher, "r", "id", "secret", NOW);
    assert_eq!(table.get_refresh_token(&cipher, "r", NOW, TTL), credentials("id", "secret"));
    assert_eq!(table.get_refresh_token(&TokenCipher::new("x"), "r", NOW, TTL), None);
    table.delete_refresh_token("r");
    assert_eq!(table.get_refresh_token(&cipher, "r", NOW, TTL), None);
}

#[test]
fn expired_tokens_are_removed() {
    let cipher = TokenCipher::new(KEY);
    let mut table = TokenTable::new();
    table.insert_refresh_token(&cipher, "a", "id", "secret", NOW - 1_000);
    table.insert_refresh_token(&cipher, "b", "id", "secret", NOW - 999);
    table.cleanup_expired_tokens(NOW, TTL);
    assert_eq!(table.rows.len(), 1);
    assert_eq!(table.rows[0].token, hash_token("b"));
}
