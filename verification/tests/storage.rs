use ji::crypto::{chiffrer_aes_256, dechiffrer_aes_256, derive_master_key};
use ji::db::get_all_databases;
use ji::history::{head_to_archive, pop_stack, StackPop};
use ji::persist::{compress_snapshot, decode_database_file, frame_database, LoadError};

#[test]
fn database_file_round_trip() {
    let data = b"some serialized graph data, some serialized graph data".to_vec();
    let compressed = compress_snapshot(&data).unwrap();
    assert_ne!(compressed, data);
    let file = frame_database(&compressed);
    assert_eq!(&file[..4], &[0x4A, 0x49, 0x44, 0x42]);
    assert_eq!(decode_database_file(&file).unwrap(), data);
}

#[test]
fn database_file_errors() {
    assert!(matches!(decode_database_file(&[0x4A, 0x49]), Err(LoadError::Truncated)));
    assert!(matches!(decode_database_file(b"XXXXrest"), Err(LoadError::BadMagic)));
    assert!(matches!(decode_database_file(b"JIDBnot zstd"), Err(LoadError::Decompress(_))));
}

#[test]
fn encryption_round_trip_and_tampering() {
    let key = [7u8; 32];
    let payload = chiffrer_aes_256(b"secret graph", &key).unwrap();
    assert_eq!(payload.len(), 12 + 12 + 16);
    assert_eq!(dechiffrer_aes_256(&payload, &key).unwrap(), b"secret graph".to_vec());
    let other = [8u8; 32];
    assert_eq!(
        dechiffrer_aes_256(&payload, &other).unwrap_err(),
        "Déchiffrement impossible : Clé incorrecte ou fichier altéré (Tampering) !"
    );
    let mut bad = payload.clone();
    bad[20] ^= 1;
    assert!(dechiffrer_aes_256(&bad, &key).is_err());
    assert_eq!(dechiffrer_aes_256(&[0u8; 27], &key).unwrap_err(), "Fichier corrompu : payload trop court.");
}

#[test]
fn master_key_ignores_surrounding_whitespace() {
    let k1 = derive_master_key("  passphrase\n").unwrap();
    let k2 = derive_master_key("passphrase").unwrap();
    let k3 = derive_master_key("other").unwrap();
    assert_eq!(k1, k2);
    assert_ne!(k1, k3);
}

#[test]
fn stack_pop_takes_the_last_line() {
    match pop_stack("a.ji\nb.ji\n\nc.ji\r\n") {
        StackPop::Popped { top, rest } => {
            assert_eq!(top, "c.ji");
            assert_eq!(rest.as_deref(), Some("a.ji\nb.ji\n"));
        }
        StackPop::Empty => panic!("stack should not be empty"),
    }
    match pop_stack("only.ji\n") {
        StackPop::Popped { top, rest } => {
            assert_eq!(top, "only.ji");
            assert_eq!(rest, None);
        }
        StackPop::Empty => panic!("stack should not be empty"),
    }
    assert!(matches!(pop_stack("\n\n"), StackPop::Empty));
    assert!(matches!(pop_stack(""), StackPop::Empty));
}

#[test]
fn push_then_pop_gives_the_pushed_entry() {
    let mut content = String::from("a.ji\n");
    content.push_str("b.ji\n");
    match pop_stack(&content) {
        StackPop::Popped { top, rest } => {
            assert_eq!(top, "b.ji");
            assert_eq!(rest.as_deref(), Some("a.ji\n"));
        }
        StackPop::Empty => panic!("stack should not be empty"),
    }
}

#[test]
fn head_archiving() {
    assert_eq!(head_to_archive("  prod_1.ji \n", None).as_deref(), Some("prod_1.ji"));
    assert_eq!(head_to_archive("prod_1.ji", Some("prod_2.ji")).as_deref(), Some("prod_1.ji"));
    assert_eq!(head_to_archive("prod_1.ji\n", Some("prod_1.ji")), None);
    assert_eq!(head_to_archive(" \n", None), None);
}

#[test]
fn database_listing() {
    assert_eq!(get_all_databases(Ok(vec!["a".to_string(), "b".to_string()])), vec!["a", "b"]);
    assert!(get_all_databases(Err("no storage".to_string())).is_empty());
}
