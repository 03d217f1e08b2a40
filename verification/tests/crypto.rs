use cryptenv::age_calls::{OpenFailure, SMALL_ORDER_KEYS};
use cryptenv::crypto::{
    decrypt, decrypted, encrypt, looks_like_age_armor, panics_in_age, try_encrypt,
};
use cryptenv::error::Error;
use cryptenv::identity::{generate_identity, parse_identity_file, public_string, public_strings};

const SECRET: &str = "AGE-SECRET-KEY-1GQ9778VQXMMJVE8SK7J6VT8UJ4HDQAJUVSFCWCM02D8GEWQ72PVQ2Y5J33";
const PUBLIC: &str = "age1t7rxyev2z3rw82stdlrrepyc39nvn86l5078zqkf5uasdy86jp6svpy7pa";

#[test]
fn encrypt_then_decrypt_round_trips() {
    let id = generate_identity();
    let recipients = vec![public_string(&id)];
    let plaintext = b"DATABASE_URL=postgres://secret\nAPI_KEY=sk-abc123\n";

    let ciphertext = encrypt(plaintext, &recipients).unwrap();
    assert_ne!(ciphertext, plaintext, "ciphertext must not equal plaintext");
    assert!(
        !String::from_utf8_lossy(&ciphertext).contains("sk-abc123"),
        "the secret value must not appear in ciphertext"
    );

    let decrypted = decrypt(&ciphertext, &[id]).unwrap();
    assert_eq!(decrypted, plaintext);
}

#[test]
fn wrong_identity_cannot_decrypt() {
    let id_a = generate_identity();
    let id_b = generate_identity();
    let recipients = vec![public_string(&id_a)];
    let ciphertext = encrypt(b"top secret", &recipients).unwrap();

    let result = decrypt(&ciphertext, &[id_b]);
    assert!(
        result.is_err(),
        "an unrelated identity must not decrypt this"
    );
}

#[test]
fn multiple_recipients_each_independently_decrypt() {
    let id_a = generate_identity();
    let id_b = generate_identity();
    let recipients = vec![public_string(&id_a), public_string(&id_b)];
    let ciphertext = encrypt(b"shared secret", &recipients).unwrap();

    assert_eq!(decrypt(&ciphertext, &[id_a]).unwrap(), b"shared secret");
    assert_eq!(decrypt(&ciphertext, &[id_b]).unwrap(), b"shared secret");
}

#[test]
fn rejects_when_no_recipients_given() {
    assert!(encrypt(b"anything", &[]).is_err());
}

#[test]
fn looks_like_age_armor_recognizes_real_ciphertext() {
    let id = generate_identity();
    let ciphertext = encrypt(b"hello", &[public_string(&id)]).unwrap();
    assert!(looks_like_age_armor(&ciphertext));
}

#[test]
fn looks_like_age_armor_rejects_plaintext() {
    assert!(!looks_like_age_armor(b"DATABASE_URL=postgres://secret\n"));
    assert!(!looks_like_age_armor(b""));
}

#[test]
fn looks_like_age_armor_tolerates_leading_whitespace() {
    let id = generate_identity();
    let ciphertext = encrypt(b"hello", &[public_string(&id)]).unwrap();
    let mut padded = b"\n\n  ".to_vec();
    padded.extend_from_slice(&ciphertext);
    assert!(looks_like_age_armor(&padded));
}

#[test]
fn armor_is_recognized_by_its_whole_first_line_alone() {
    assert!(looks_like_age_armor(b"-----BEGIN AGE ENCRYPTED FILE-----"));
    assert!(looks_like_age_armor(b" \t\r\n-----BEGIN AGE ENCRYPTED FILE-----\nrest"));
    assert!(!looks_like_age_armor(b"-----BEGIN AGE ENCRYPTED FILE----"));
    assert!(!looks_like_age_armor(b"\x0b-----BEGIN AGE ENCRYPTED FILE-----"));
    assert!(!looks_like_age_armor(b"x-----BEGIN AGE ENCRYPTED FILE-----"));
    assert!(!looks_like_age_armor(b" \n\t"));
}

#[test]
fn ciphertext_is_text() {
    let ciphertext = encrypt(&[0u8, 255, 128], &[PUBLIC.to_string()]).unwrap();
    let text = String::from_utf8(ciphertext).unwrap();
    assert!(text.starts_with("-----BEGIN AGE ENCRYPTED FILE-----\n"));
    assert!(text.ends_with("-----END AGE ENCRYPTED FILE-----\n"));
}

#[test]
fn ciphertext_is_armor_from_end_to_end() {
    for n in [0usize, 1, 47, 48, 49, 5000] {
        let ciphertext = encrypt(&vec![b'-'; n], &[PUBLIC.to_string()]).unwrap();
        assert!(ciphertext.iter().all(|b| *b < 128));
        let text = String::from_utf8(ciphertext).unwrap();
        let lines: Vec<&str> = text.lines().collect();
        assert_eq!(lines[0], "-----BEGIN AGE ENCRYPTED FILE-----");
        assert_eq!(lines[lines.len() - 1], "-----END AGE ENCRYPTED FILE-----");
        for line in &lines[1..lines.len() - 1] {
            assert!(line.len() <= 64);
            assert!(line.chars().all(|c| c.is_ascii_alphanumeric() || "+/=".contains(c)));
        }
    }
}

#[test]
fn encrypting_twice_gives_two_files_of_one_plaintext() {
    let ids = parse_identity_file(SECRET).unwrap();
    let recipients = vec![PUBLIC.to_string()];
    let first = encrypt(b"same", &recipients).unwrap();
    let second = encrypt(b"same", &recipients).unwrap();
    assert_ne!(first, second);
    assert_eq!(decrypt(&first, &ids).unwrap(), b"same");
    assert_eq!(decrypt(&second, &ids).unwrap(), b"same");
}

#[test]
fn only_the_given_recipients_open_the_file() {
    let given = [generate_identity(), generate_identity()];
    let recipients = public_strings(&given);
    let ciphertext = encrypt(b"ours", &recipients).unwrap();
    let text = String::from_utf8(ciphertext.clone()).unwrap();
    assert!(!text.contains(&recipients[0]));
    for id in given {
        assert_eq!(decrypt(&ciphertext, &[generate_identity(), id]).unwrap(), b"ours");
    }
    let strangers = [generate_identity(), generate_identity(), generate_identity()];
    assert!(decrypt(&ciphertext, &strangers).is_err());
}

#[test]
fn empty_and_long_plaintexts_round_trip() {
    let ids = parse_identity_file(SECRET).unwrap();
    for n in [0usize, 1, 65535, 65536, 65537, 200000] {
        let plaintext: Vec<u8> = (0..n).map(|i| (i * 7 % 251) as u8).collect();
        let ciphertext = encrypt(&plaintext, &[PUBLIC.to_string()]).unwrap();
        assert_eq!(decrypt(&ciphertext, &ids).unwrap(), plaintext);
    }
}

#[test]
fn an_upper_case_recipient_is_the_same_recipient() {
    let ids = parse_identity_file(SECRET).unwrap();
    let ciphertext = encrypt(b"shout", &[PUBLIC.to_uppercase()]).unwrap();
    assert_eq!(decrypt(&ciphertext, &ids).unwrap(), b"shout");
}

#[test]
fn any_matching_identity_among_others_decrypts() {
    let ciphertext = encrypt(b"mine", &[PUBLIC.to_string(), PUBLIC.to_string()]).unwrap();
    let mut ids = vec![generate_identity(), generate_identity()];
    ids.append(&mut parse_identity_file(SECRET).unwrap());
    ids.push(generate_identity());
    assert_eq!(decrypt(&ciphertext, &ids).unwrap(), b"mine");
}

#[test]
fn no_recipients_is_said_so() {
    let error = encrypt(b"anything", &[]).unwrap_err();
    assert_eq!(error, Error::NoRecipients);
    assert_eq!(
        error.message(),
        "no recipients given — see `cryptenv keygen` and `.cryptenv-recipients`"
    );
    assert_eq!(error.cause(), None);
}

#[test]
fn the_first_invalid_recipient_is_named() {
    let recipients = vec![PUBLIC.to_string(), "nobody".to_string(), SECRET.to_string()];
    let error = encrypt(b"x", &recipients).unwrap_err();
    assert_eq!(
        error,
        Error::InvalidRecipient {
            recipient: "nobody".to_string(),
            fault: "invalid Bech32 encoding".to_string(),
        }
    );
    assert_eq!(error.message(), "invalid recipient 'nobody': invalid Bech32 encoding");
    assert_eq!(error.cause(), None);

    let error = encrypt(b"x", &[SECRET.to_string()]).unwrap_err();
    assert_eq!(error.message(), format!("invalid recipient '{SECRET}': incorrect HRP"));
}

#[test]
fn no_identities_is_said_so() {
    let error = decrypt(b"anything", &[]).unwrap_err();
    assert_eq!(error, Error::NoIdentities);
    assert_eq!(error.message(), "no identities given — see `cryptenv keygen`");
    assert_eq!(error.cause(), None);
}

#[test]
fn what_is_no_age_file_has_no_header() {
    let ids = parse_identity_file(SECRET).unwrap();
    for data in [&b""[..], b"DATABASE_URL=postgres://secret\n", b"-----BEGIN AGE ENCRYPTED FILE-----\n"] {
        let error = decrypt(data, &ids).unwrap_err();
        assert!(matches!(error, Error::Header { .. }));
        assert_eq!(error.message(), "reading age header");
        assert!(error.cause().is_some());
    }
}

#[test]
fn a_wrong_identity_is_said_so() {
    let ciphertext = encrypt(b"top secret", &[PUBLIC.to_string()]).unwrap();
    let error = decrypt(&ciphertext, &[generate_identity()]).unwrap_err();
    assert!(matches!(error, Error::NoMatchingIdentity { .. }));
    assert_eq!(error.message(), "no matching identity for this ciphertext's recipients");
    assert_eq!(error.cause(), Some("No matching keys found".to_string()));
}

#[test]
fn a_spoilt_payload_is_said_so() {
    let ids = parse_identity_file(SECRET).unwrap();
    let ciphertext = encrypt(&[b'a'; 300], &[PUBLIC.to_string()]).unwrap();
    let text = String::from_utf8(ciphertext).unwrap();
    let mut lines: Vec<String> = text.lines().map(str::to_string).collect();
    let at = lines.len() - 2;
    let other = if lines[at].starts_with('A') { "B" } else { "A" };
    lines[at].replace_range(0..1, other);
    let spoilt = lines.join("\n");

    let error = decrypt(spoilt.as_bytes(), &ids).unwrap_err();
    assert!(matches!(error, Error::Payload { .. }));
    assert_eq!(error.message(), "decryption error");
    assert_eq!(error.cause(), None);
}

#[test]
fn each_failure_to_open_has_its_error() {
    let cause = "why".to_string();
    assert_eq!(decrypted(Ok(vec![1, 2])), Ok(vec![1, 2]));
    assert_eq!(
        decrypted(Err(OpenFailure::Header(cause.clone()))),
        Err(Error::Header { cause: cause.clone() })
    );
    assert_eq!(
        decrypted(Err(OpenFailure::Identity(cause.clone()))),
        Err(Error::NoMatchingIdentity { cause: cause.clone() })
    );
    assert_eq!(
        decrypted(Err(OpenFailure::Payload(cause.clone()))),
        Err(Error::Payload { cause })
    );
}

#[test]
fn recipients_of_small_order_are_told_apart() {
    for key in SMALL_ORDER_KEYS {
        assert!(panics_in_age(&[key.to_string()]));
        assert!(panics_in_age(&[PUBLIC.to_string(), key.to_uppercase()]));
        assert_eq!(try_encrypt(b"x", &[key.to_string()]), None);
        let recipients = vec![key.to_string(), "nobody".to_string()];
        assert!(!panics_in_age(&recipients));
        let outcome = try_encrypt(b"x", &recipients).unwrap();
        assert_eq!(
            outcome.unwrap_err().message(),
            "invalid recipient 'nobody': invalid Bech32 encoding"
        );
    }
    assert!(!panics_in_age(&[]));
    assert!(!panics_in_age(&[PUBLIC.to_string()]));
}

#[test]
fn try_encrypt_encrypts() {
    let ids = parse_identity_file(SECRET).unwrap();
    let ciphertext = try_encrypt(b"x", &[PUBLIC.to_string()]).unwrap().unwrap();
    assert_eq!(decrypt(&ciphertext, &ids).unwrap(), b"x");
    assert_eq!(try_encrypt(b"x", &[]), Some(Err(Error::NoRecipients)));
}
