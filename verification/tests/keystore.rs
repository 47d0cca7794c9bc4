use sirji::id52;
use sirji::keys::SecretKey;
use sirji::keystore::{home, Keystore, KeystoreError};

fn store() -> Keystore {
    Keystore::at("/tmp/sirji-keystore-test/keys".to_string())
}

fn file_name(store: &Keystore, key: &sirji::keys::PublicKey) -> String {
    let path = store.path_of(key);
    path.rsplit('/').next().unwrap().to_string()
}

#[test]
fn generate_then_load_round_trips() {
    let store = store();
    let secret = SecretKey::generate();
    let key = secret.public();
    let bytes = secret.to_bytes();
    assert_eq!(store.secret(&key, Some(&bytes)).unwrap().public(), key);
}

#[test]
fn lists_what_it_generated() {
    let store = store();
    let mut minted: Vec<_> = (0..3).map(|_| SecretKey::generate().public()).collect();
    let names: Vec<String> = minted.iter().map(|k| file_name(&store, k)).collect();
    minted.sort_by_key(id52::encode);
    assert_eq!(store.list(&names).unwrap(), minted);
}

#[test]
fn missing_key_is_an_error_naming_the_key() {
    let store = store();
    let absent = SecretKey::generate().public();
    let err = store.secret(&absent, None).err().unwrap().message();
    assert!(err.contains(&id52::encode(&absent)), "{err}");
}

#[test]
fn a_misfiled_key_is_caught_on_load() {
    let store = store();
    let real = SecretKey::generate().public();
    let impostor = SecretKey::generate();

    // Same bytes, wrong name: exactly what a bad copy or rename would leave.
    let err = store.secret(&real, Some(&impostor.to_bytes())).err().unwrap().message();
    assert!(err.contains("corrupt or misfiled"), "{err}");
}

#[test]
fn a_truncated_key_is_caught_on_load() {
    let store = store();
    let key = SecretKey::generate().public();
    let err = store.secret(&key, Some(&[0u8; 16])).err().unwrap().message();
    assert!(err.contains("a secret key is 32"), "{err}");
}

#[test]
fn empty_store_lists_nothing() {
    assert!(store().list(&Vec::new()).unwrap().is_empty());
}

#[test]
fn keys_are_filed_under_their_id52() {
    let store = store();
    let key = SecretKey::generate().public();
    assert_eq!(
        store.path_of(&key),
        format!("/tmp/sirji-keystore-test/keys/{}.private-key", id52::encode(&key))
    );
    assert_eq!(store.dir(), "/tmp/sirji-keystore-test/keys");
}

#[test]
fn other_files_are_passed_over_and_misnamed_keys_reported() {
    let store = store();
    let key = SecretKey::generate().public();
    let names = vec![
        "README".to_string(),
        ".private-key".to_string(),
        "notes.txt".to_string(),
        file_name(&store, &key),
    ];
    assert_eq!(store.list(&names).unwrap(), vec![key]);

    let names = vec![file_name(&store, &key), "junk.private-key".to_string()];
    let err = store.list(&names).unwrap_err();
    assert_eq!(err.message(), "/tmp/sirji-keystore-test/keys/junk.private-key is not named after an id52");
}

#[test]
fn an_uppercase_file_name_still_lists_the_key() {
    let store = store();
    let key = SecretKey::generate().public();
    let name = format!("{}.private-key", id52::encode(&key).to_uppercase());
    assert_eq!(store.list(&vec![name]).unwrap(), vec![key]);
}

#[test]
fn the_errors_read_as_they_should() {
    let store = store();
    let key = SecretKey::generate().public();
    let text = id52::encode(&key);
    let path = format!("/tmp/sirji-keystore-test/keys/{text}.private-key");
    assert_eq!(
        store.secret(&key, None).err().unwrap().message(),
        format!("no key for {text} at {path}")
    );
    assert_eq!(
        store.secret(&key, Some(&[1u8; 16])).err().unwrap().message(),
        format!("{path} is 16 bytes; a secret key is 32")
    );
    let other = SecretKey::generate();
    let other_text = id52::encode(&other.public());
    assert_eq!(
        store.secret(&key, Some(&other.to_bytes())).err().unwrap().message(),
        format!("{path} holds a key for {other_text}, not for {text} \u{2014} the store is corrupt or misfiled")
    );
}

#[test]
fn the_home_comes_from_the_environment() {
    assert_eq!(home(Some("/srv/sirji".into()), Some("/home/a".into())).unwrap(), "/srv/sirji");
    assert_eq!(home(None, Some("/home/a".into())).unwrap(), "/home/a/.sirji");
    let err = home(None, None).unwrap_err();
    assert!(matches!(err, KeystoreError::NoHome));
    assert_eq!(
        err.message(),
        "neither SIRJI_HOME nor HOME is set; cannot find the sirji directory"
    );
    let store = Keystore::open(None, Some("/home/a".into())).unwrap();
    assert_eq!(store.dir(), "/home/a/.sirji/keys");
    assert_eq!(Keystore::in_home("/d").dir(), "/d/keys");
}
