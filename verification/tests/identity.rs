use cryptenv::commands::{edit_finish, edit_start, keygen, EditOutcome};
use cryptenv::age_calls::SMALL_ORDER_KEYS;
use cryptenv::crypto::encrypt;
use cryptenv::error::Error;
use cryptenv::identity::{
    default_identity_path, generate_identity, identity_file, identity_path,
    identity_secret_string, parse_identity_file, public_string, public_strings,
};

const SECRET: &str = "AGE-SECRET-KEY-1GQ9778VQXMMJVE8SK7J6VT8UJ4HDQAJUVSFCWCM02D8GEWQ72PVQ2Y5J33";
const PUBLIC: &str = "age1t7rxyev2z3rw82stdlrrepyc39nvn86l5078zqkf5uasdy86jp6svpy7pa";

#[test]
fn generated_identity_round_trips_through_its_own_string_form() {
    let id = generate_identity();
    let secret = identity_secret_string(&id);
    let parsed = parse_identity_file(&secret).unwrap();
    assert_eq!(parsed.len(), 1);
    // The same secret key has the same public key.
    assert_eq!(public_string(&parsed[0]), public_string(&id));
}

#[test]
fn identity_file_parsing_skips_blanks_and_comments() {
    let id = generate_identity();
    let secret = identity_secret_string(&id);
    let contents = format!("# my laptop key\n\n{secret}\n");
    let parsed = parse_identity_file(&contents).unwrap();
    assert_eq!(parsed.len(), 1);
}

#[test]
fn public_key_has_the_age1_prefix() {
    let id = generate_identity();
    assert!(public_string(&id).starts_with("age1"));
}

#[test]
fn a_secret_key_has_its_public_key() {
    let ids = parse_identity_file(SECRET).unwrap();
    assert_eq!(identity_secret_string(&ids[0]), SECRET);
    assert_eq!(public_string(&ids[0]), PUBLIC);
}

#[test]
fn a_lower_case_secret_key_is_written_in_upper_case() {
    let ids = parse_identity_file(&SECRET.to_lowercase()).unwrap();
    assert_eq!(ids.len(), 1);
    assert_eq!(identity_secret_string(&ids[0]), SECRET);
}

#[test]
fn generated_identities_differ() {
    let a = identity_secret_string(&generate_identity());
    let b = identity_secret_string(&generate_identity());
    assert!(a.starts_with("AGE-SECRET-KEY-1"));
    assert_eq!(a.len(), 74);
    assert_ne!(a, b);
}

#[test]
fn an_identity_file_may_hold_several_or_none() {
    let other = identity_secret_string(&generate_identity());
    let ids = parse_identity_file(&format!("  {SECRET}\r\n#x\n\t{other} ")).unwrap();
    assert_eq!(ids.len(), 2);
    assert_eq!(identity_secret_string(&ids[0]), SECRET);
    assert_eq!(identity_secret_string(&ids[1]), other);
    assert_eq!(parse_identity_file("").unwrap().len(), 0);
    assert_eq!(parse_identity_file("# nothing\n\n").unwrap().len(), 0);
}

#[test]
fn a_bad_identity_line_is_said_so() {
    for (line, fault) in [
        ("nonsense", "invalid identity line: invalid Bech32 encoding"),
        (PUBLIC, "invalid identity line: incorrect HRP"),
    ] {
        match parse_identity_file(&format!("{SECRET}\n{line}\n")) {
            Ok(_) => panic!("{line} is no secret key"),
            Err(error) => {
                assert!(matches!(error, Error::InvalidIdentity { .. }));
                assert_eq!(error.message(), "parsing identity file");
                assert_eq!(error.cause(), Some(fault.to_string()));
            }
        }
    }
}

#[test]
fn a_new_identity_file_is_read_back() {
    let ids = parse_identity_file(SECRET).unwrap();
    let contents = identity_file(&ids[0]);
    assert_eq!(contents, format!("# created by cryptenv keygen\n{SECRET}\n"));
    let again = parse_identity_file(&contents).unwrap();
    assert_eq!(again.len(), 1);
    assert_eq!(identity_secret_string(&again[0]), SECRET);
}

#[test]
fn public_strings_keep_the_order() {
    let other = generate_identity();
    let contents = format!("{SECRET}\n{}\n", identity_secret_string(&other));
    let ids = parse_identity_file(&contents).unwrap();
    assert_eq!(public_strings(&ids), vec![PUBLIC.to_string(), public_string(&other)]);
    assert_eq!(public_strings(&[]), Vec::<String>::new());
}

#[test]
fn the_identity_file_has_its_place() {
    assert_eq!(identity_path(Some(b"/home/me/.config".to_vec())), b"/home/me/.config/cryptenv/key.txt");
    assert_eq!(identity_path(Some(b"/".to_vec())), b"/cryptenv/key.txt");
    assert_eq!(identity_path(None), b"./cryptenv/key.txt");
}

#[test]
fn the_default_identity_path_is_in_the_configuration_directory() {
    let dir = dirs::config_dir().map(|dir| dir.to_str().unwrap().as_bytes().to_vec());
    assert_eq!(default_identity_path(), identity_path(dir));
    assert!(default_identity_path().ends_with(b"/cryptenv/key.txt"));
}

#[test]
fn keygen_does_not_overwrite() {
    assert_eq!(keygen(true), None);
}

#[test]
fn keygen_announces_the_recipient_of_its_file() {
    let new = keygen(false).unwrap();
    assert!(new.contents.starts_with("# created by cryptenv keygen\nAGE-SECRET-KEY-1"));
    let ids = parse_identity_file(&new.contents).unwrap();
    assert_eq!(public_strings(&ids), vec![new.recipient]);
}

#[test]
fn an_edit_is_found_by_the_next() {
    let ids = parse_identity_file(SECRET).unwrap();
    let recipients = vec![PUBLIC.to_string()];
    assert_eq!(edit_start(None, &ids), Ok(Vec::new()));
    assert_eq!(edit_start(None, &[]), Ok(Vec::new()));
    match edit_finish(true, b"A=1\nB=2\n", &recipients) {
        Some(EditOutcome::Stored { ciphertext, wipe }) => {
            assert_eq!(wipe, vec![0u8; 8]);
            assert_eq!(edit_start(Some(&ciphertext), &ids), Ok(b"A=1\nB=2\n".to_vec()));
            assert_eq!(edit_start(Some(&ciphertext), &[]), Err(Error::NoIdentities));
        }
        _ => panic!("must be stored"),
    }
}

#[test]
fn an_edit_that_fails_stores_nothing() {
    let recipients = vec![PUBLIC.to_string()];
    let bad = vec![SMALL_ORDER_KEYS[3].to_string()];
    assert_eq!(edit_finish(false, b"x", &recipients), Some(EditOutcome::Abandoned));
    assert_eq!(edit_finish(false, b"x", &[]), Some(EditOutcome::Abandoned));
    assert_eq!(edit_finish(false, b"x", &bad), Some(EditOutcome::Abandoned));
    assert_eq!(edit_finish(true, b"x", &bad), None);
    assert_eq!(edit_finish(true, b"x", &[]), Some(EditOutcome::Failed(Error::NoRecipients)));
    let plain = edit_start(Some(b"never encrypted"), &parse_identity_file(SECRET).unwrap());
    assert!(matches!(plain, Err(Error::Header { .. })));
}

#[test]
fn files_of_other_hands_open() {
    let ids = parse_identity_file(&format!("# by hand\n\n  {SECRET}\n")).unwrap();
    let ciphertext = encrypt(b"x", &public_strings(&ids)).unwrap();
    assert_eq!(edit_start(Some(&ciphertext), &ids), Ok(b"x".to_vec()));
}
