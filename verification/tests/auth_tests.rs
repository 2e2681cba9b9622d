use sha1::Digest;
use base64::Engine as _;
use hmac::{Hmac, Mac};
use xmpp_server::auth::AuthManager;
use xmpp_server::crypto::{client_first_part, hex_decode, hi, sha1_hex, sha256_hex, xor_bytes, generate_nonce, generate_salt};

fn b64(bytes: &[u8]) -> String {
    base64::engine::general_purpose::STANDARD.encode(bytes)
}

fn hmac_sha1(key: &[u8], data: &[u8]) -> Vec<u8> {
    let mut mac = Hmac::<sha1::Sha1>::new_from_slice(key).unwrap();
    mac.update(data);
    mac.finalize().into_bytes().to_vec()
}

#[test]
fn digests_in_hex() {
    assert_eq!(sha1_hex(b"abc"), "a9993e364706816aba3e25717850c26c9cd0d89d");
    assert_eq!(sha256_hex("abc"), "ba7816bf8f01cfea414140de5dae2223b00361a396177a9cb410ff61f20015ad");
}

#[test]
fn hi_is_pbkdf2_hmac_sha1() {
    let one = hi(b"password", b"salt", 1);
    assert_eq!(hex::encode(one), "0c60c80f961f0e71f3a9b524af6012062fe037a6");
    let two = hi(b"password", b"salt", 2);
    assert_eq!(hex::encode(two), "ea6c014dc72d6f8ccd1ed92ace1d41f0d8de8957");
}

#[test]
fn xor_is_as_long_as_the_shorter_input_and_undoes_itself() {
    assert_eq!(xor_bytes(&[0x0f, 0xf0, 0xaa], &[0xff, 0xff]), vec![0xf0, 0x0f]);
    let a = vec![1u8, 2, 3];
    let k = vec![9u8, 8, 7, 6];
    assert_eq!(xor_bytes(&xor_bytes(&a, &k), &k), a);
}

#[test]
fn proof_decoding_reads_base64() {
    assert_eq!(hex_decode("AQID"), Ok(vec![1, 2, 3]));
    assert_eq!(hex_decode("010203!"), Err(()));
}

#[test]
fn client_first_message_part() {
    assert_eq!(client_first_part("abc"), "n,,n=,r=abc");
}

#[test]
fn salts_and_nonces_have_their_lengths() {
    assert_eq!(generate_salt().len(), 24);
    let n = generate_nonce();
    assert_eq!(n.len(), 32);
    assert!(n.chars().all(|c| c.is_ascii_hexdigit() && !c.is_ascii_uppercase()));
}

#[test]
fn register_stores_derived_credentials() {
    let mut auth = AuthManager::new();
    assert_eq!(auth.register_user("alice", "secret"), Ok(()));
    assert!(auth.user_exists("alice"));
    assert!(!auth.user_exists("bob"));
    let u = auth.get_user("alice").unwrap();
    assert_eq!(u.username, "alice");
    assert_eq!(u.password, "secret");
    assert_eq!(u.password_hash, sha256_hex("secret"));
    let salted = hi(b"secret", u.salt.as_bytes(), 4096);
    let client_key = hmac_sha1(&salted, b"Client Key");
    assert_eq!(u.stored_key, sha1_hex(&client_key));
    assert_eq!(u.server_key, hex::encode(hmac_sha1(&salted, b"Server Key")));
    assert_eq!(auth.list_users(), vec!["alice".to_string()]);
}

#[test]
fn register_refuses_a_taken_name() {
    let mut auth = AuthManager::new();
    auth.register_user("alice", "secret").unwrap();
    assert_eq!(auth.register_user("alice", "other"), Err("User already exists".to_string()));
    assert_eq!(auth.get_user("alice").unwrap().password, "secret");
    assert_eq!(auth.list_users().len(), 1);
}

#[test]
fn plain_accepts_the_right_password() {
    let mut auth = AuthManager::new();
    auth.register_user("alice", "secret").unwrap();
    assert_eq!(auth.authenticate_plain("s1", &b64(b"\0alice\0secret")), Ok("alice".to_string()));
    assert_eq!(auth.authenticate_plain("s1", "AGFsaWNlAHNlY3JldA=="), Ok("alice".to_string()));
}

#[test]
fn plain_refuses_bad_input() {
    let mut auth = AuthManager::new();
    auth.register_user("alice", "secret").unwrap();
    assert_eq!(auth.authenticate_plain("s1", &b64(b"\0alice\0wrong")), Err("not-authorized".to_string()));
    assert_eq!(auth.authenticate_plain("s1", &b64(b"\0bob\0secret")), Err("not-authorized".to_string()));
    assert_eq!(auth.authenticate_plain("s1", &b64(b"\0alice")), Err("bad-protocol".to_string()));
    assert_eq!(auth.authenticate_plain("s1", "%%%"), Err("invalid-base64".to_string()));
}

#[test]
fn plain_hashes_the_sent_password_before_comparing() {
    let mut auth = AuthManager::new();
    auth.register_user("alice", "secret").unwrap();
    let digest = sha256_hex("secret");
    let data = format!("\0alice\0{}", digest);
    assert_eq!(auth.authenticate_plain("s1", &b64(data.as_bytes())), Err("not-authorized".to_string()));
}

#[test]
fn scram_start_answers_with_nonce_salt_and_count() {
    let mut auth = AuthManager::new();
    auth.register_user("alice", "secret").unwrap();
    let salt = auth.get_user("alice").unwrap().salt;
    let (challenge, user, server_first) = auth.start_scram_sha1("s1", &b64(b"n,,n=alice,r=abc")).unwrap();
    assert_eq!(user, "alice");
    assert!(server_first.starts_with("r=abc"));
    assert!(server_first.ends_with(&format!(",s={},i=4096", salt)));
    assert_eq!(server_first.len(), "r=abc".len() + 32 + ",s=".len() + salt.len() + ",i=4096".len());
    assert_eq!(challenge, b64(server_first.as_bytes()));
    assert_eq!(auth.get_username_for_stream("s1"), Some("alice".to_string()));
    auth.remove_auth_state("s1");
    assert_eq!(auth.get_username_for_stream("s1"), None);
}

#[test]
fn scram_start_errors() {
    let mut auth = AuthManager::new();
    auth.register_user("alice", "secret").unwrap();
    assert_eq!(auth.start_scram_sha1("s1", "%%%"), Err("invalid-base64".to_string()));
    assert_eq!(auth.start_scram_sha1("s1", &b64(b"n,,r=abc")), Err("invalid-username".to_string()));
    assert_eq!(auth.start_scram_sha1("s1", &b64(b"n,,n=alice")), Err("invalid-nonce".to_string()));
    assert_eq!(auth.start_scram_sha1("s1", &b64(b"n,,n=bob,r=abc")), Err("not-authorized".to_string()));
    assert_eq!(auth.get_username_for_stream("s1"), None);
}

#[test]
fn scram_finish_without_an_exchange_is_refused() {
    let mut auth = AuthManager::new();
    auth.register_user("alice", "secret").unwrap();
    assert_eq!(auth.finish_scram_sha1("s1", &b64(b"c=biws,r=abc,p=AAAA")), Err("not-authorized".to_string()));
    assert_eq!(auth.finish_scram_sha1("s1", "%%%"), Err("invalid-base64".to_string()));
}

#[test]
fn scram_finish_checks_the_proof_against_the_stored_key() {
    let mut auth = AuthManager::new();
    auth.register_user("alice", "secret").unwrap();
    let u = auth.get_user("alice").unwrap();
    auth.start_scram_sha1("s1", &b64(b"n,,n=alice,r=abc")).unwrap();

    // A proof that does not give back the client key is refused, and the
    // exchange is kept.
    let bad = format!("c=biws,r=abc,p={}", b64(&[0u8; 20]));
    assert_eq!(auth.finish_scram_sha1("s1", &b64(bad.as_bytes())), Err("not-authorized".to_string()));
    assert_eq!(auth.get_username_for_stream("s1"), Some("alice".to_string()));

    // The proof is XORed with the stored key; the result must hash to it.
    let salted = hi(b"secret", u.salt.as_bytes(), 4096);
    let client_key = hmac_sha1(&salted, b"Client Key");
    let stored_key = hex::decode(&u.stored_key).unwrap();
    let proof = xor_bytes(&stored_key, &client_key);
    let good = format!("c=biws,r=abc,p={}", b64(&proof));
    let data = auth.finish_scram_sha1("s1", &b64(good.as_bytes())).unwrap();
    assert_eq!(auth.get_username_for_stream("s1"), None);

    let decoded = {
            base64::engine::general_purpose::STANDARD.decode(&data).unwrap()
    };
    let text = String::from_utf8(decoded).unwrap();
    assert!(text.starts_with("v="));
}

#[test]
fn scram_finish_without_proof() {
    let mut auth = AuthManager::new();
    auth.register_user("alice", "secret").unwrap();
    auth.start_scram_sha1("s1", &b64(b"n,,n=alice,r=abc")).unwrap();
    assert_eq!(auth.finish_scram_sha1("s1", &b64(b"c=biws,r=abc")), Err("invalid-proof".to_string()));
    assert_eq!(
        auth.finish_scram_sha1("s1", &b64(b"c=biws,r=abc,p=!!")),
        Err("invalid-proof-encoding".to_string())
    );
}

fn record(stored_key: &str, server_key: &str) -> xmpp_server::auth::UserData {
    xmpp_server::auth::UserData {
        username: "carol".to_string(),
        password: "pw".to_string(),
        password_hash: sha256_hex("pw"),
        salt: "c2FsdA==".to_string(),
        stored_key: stored_key.to_string(),
        server_key: server_key.to_string(),
    }
}

#[test]
fn scram_finish_reports_a_bad_stored_key() {
    let mut auth = AuthManager::new();
    auth.insert_user(record("zz", "00"));
    auth.start_scram_sha1("s1", &b64(b"n,,n=carol,r=abc")).unwrap();
    let msg = format!("c=biws,r=abc,p={}", b64(&[1u8; 20]));
    assert_eq!(auth.finish_scram_sha1("s1", &b64(msg.as_bytes())), Err("invalid-key".to_string()));
}

#[test]
fn scram_finish_reports_a_bad_server_key() {
    let x = [7u8; 20];
    let ck = sha1::Sha1::digest(x).to_vec();
    let mut auth = AuthManager::new();
    auth.insert_user(record(&hex::encode(&ck), "not hex"));
    auth.start_scram_sha1("s1", &b64(b"n,,n=carol,r=abc")).unwrap();
    let proof = xor_bytes(&ck, &x);
    let msg = format!("c=biws,r=abc,p={}", b64(&proof));
    assert_eq!(auth.finish_scram_sha1("s1", &b64(msg.as_bytes())), Err("invalid-server-key".to_string()));
}

#[test]
fn scram_success_signature_is_over_the_auth_message() {
    let x = [7u8; 20];
    let ck = sha1::Sha1::digest(x).to_vec();
    let server_key = [3u8; 20];
    let mut auth = AuthManager::new();
    auth.insert_user(record(&hex::encode(&ck), &hex::encode(server_key)));
    let (_, _, server_first) = auth.start_scram_sha1("s1", &b64(b"n,,n=carol,r=abc")).unwrap();
    let proof = xor_bytes(&ck, &x);
    let msg = format!("c=biws,r=abc,p={}", b64(&proof));
    let data = auth.finish_scram_sha1("s1", &b64(msg.as_bytes())).unwrap();
    let auth_msg = format!("{},c=biws,r=abc", server_first);
    let sig = hmac_sha1(&server_key, auth_msg.as_bytes());
    assert_eq!(data, b64(format!("v={}", b64(&sig)).as_bytes()));
}

#[test]
fn inserted_records_replace_accounts_of_the_same_name() {
    let mut auth = AuthManager::new();
    auth.register_user("carol", "first").unwrap();
    auth.insert_user(record("aa", "bb"));
    assert_eq!(auth.list_users(), vec!["carol".to_string()]);
    assert_eq!(auth.get_user("carol").unwrap().stored_key, "aa");
    assert_eq!(auth.all_users().len(), 1);
}
