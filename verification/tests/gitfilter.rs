use cryptenv::age_calls::SMALL_ORDER_KEYS;
use cryptenv::crypto::{encrypt, looks_like_age_armor};
use cryptenv::error::Error;
use cryptenv::gitfilter::{
    available_identities, clean, smudge, smudge_outcome, try_clean, CleanOutcome, SmudgeOutcome,
    NOT_ARMORED, NO_IDENTITY,
};
use cryptenv::identity::{generate_identity, identity_secret_string, public_string};

#[test]
fn clean_encrypts_plaintext() {
    let id = generate_identity();
    let recipients = vec![public_string(&id)];
    let outcome = clean(b"DATABASE_URL=secret\n", &recipients).unwrap();
    match outcome {
        CleanOutcome::Encrypted(bytes) => {
            assert!(looks_like_age_armor(&bytes));
            assert!(!String::from_utf8_lossy(&bytes).contains("secret"));
        }
        CleanOutcome::AlreadyEncrypted(_) => panic!("plaintext should not be classified as already-encrypted"),
    }
}

#[test]
fn clean_is_idempotent_on_already_encrypted_content() {
    let id = generate_identity();
    let recipients = vec![public_string(&id)];
    let first = clean(b"DATABASE_URL=secret\n", &recipients)
        .unwrap()
        .into_bytes();

    // Cleaning what was cleaned, as `git diff` or a second `git add` does, gives it back byte
    // for byte, not wrapped once more.
    let second = clean(&first, &recipients).unwrap();
    assert_eq!(second, CleanOutcome::AlreadyEncrypted(first));
}

#[test]
fn clean_fails_when_no_recipients_are_available() {
    // An error, so that a required filter blocks the commit.
    assert!(clean(b"plaintext", &[]).is_err());
}

#[test]
fn smudge_decrypts_valid_ciphertext() {
    let id = generate_identity();
    let recipients = vec![public_string(&id)];
    let ciphertext = encrypt(b"top secret", &recipients).unwrap();

    let outcome = smudge(&ciphertext, &[id]);
    assert_eq!(outcome, SmudgeOutcome::Decrypted(b"top secret".to_vec()));
}

#[test]
fn smudge_passes_through_plaintext_unchanged() {
    let plaintext = b"DATABASE_URL=secret\n";
    let outcome = smudge(plaintext, &[]);
    assert_eq!(outcome.into_bytes(), plaintext);
}

#[test]
fn smudge_passes_through_when_no_identity_available() {
    let id = generate_identity();
    let recipients = vec![public_string(&id)];
    let ciphertext = encrypt(b"top secret", &recipients).unwrap();

    let outcome = smudge(&ciphertext, &[]);
    match outcome {
        SmudgeOutcome::PassedThrough { content, reason } => {
            assert_eq!(content, ciphertext);
            assert!(reason.contains("no identity available"));
        }
        SmudgeOutcome::Decrypted(_) => panic!("must not decrypt with zero identities"),
    }
}

#[test]
fn smudge_passes_through_on_wrong_identity_instead_of_crashing() {
    let id_a = generate_identity();
    let id_b = generate_identity();
    let ciphertext = encrypt(b"top secret", &[public_string(&id_a)]).unwrap();

    let outcome = smudge(&ciphertext, &[id_b]);
    match outcome {
        SmudgeOutcome::PassedThrough { content, .. } => assert_eq!(content, ciphertext),
        SmudgeOutcome::Decrypted(_) => panic!("wrong identity must not decrypt"),
    }
}

#[test]
fn clean_then_smudge_round_trips() {
    let id = generate_identity();
    let recipients = vec![public_string(&id)];
    let plaintext = b"DATABASE_URL=secret\nAPI_KEY=sk-abc123\n";

    let ciphertext = clean(plaintext, &recipients).unwrap().into_bytes();
    let restored = smudge(&ciphertext, &[id]).into_bytes();
    assert_eq!(restored, plaintext);
}

#[test]
fn smudge_smudge_is_stable() {
    let id = generate_identity();
    let recipients = vec![public_string(&id)];
    let plaintext = b"DATABASE_URL=secret\n";
    let ciphertext = clean(plaintext, &recipients).unwrap().into_bytes();

    let once = smudge(&ciphertext, std::slice::from_ref(&id)).into_bytes();
    let twice = smudge(&once, &[id]).into_bytes();
    assert_eq!(once, twice);
    assert_eq!(twice, plaintext);
}

#[test]
fn reasons_are_spelt_out() {
    let id = generate_identity();
    let ciphertext = encrypt(b"top secret", &[public_string(&id)]).unwrap();
    assert_eq!(
        smudge(b"plain", &[]),
        SmudgeOutcome::PassedThrough {
            reason: "input isn't armored age ciphertext (already plaintext, or already smudged) — passing through unchanged".to_string(),
            content: b"plain".to_vec(),
        }
    );
    assert_eq!(
        smudge(&ciphertext, &[]),
        SmudgeOutcome::PassedThrough {
            reason: "no identity available to decrypt — passing through ciphertext unchanged (this is expected on a machine that only needs to read the encrypted file, e.g. CI without the private key)".to_string(),
            content: ciphertext.clone(),
        }
    );
    assert_eq!(
        smudge(&ciphertext, &[generate_identity()]),
        SmudgeOutcome::PassedThrough {
            reason: "decryption failed (no matching identity for this ciphertext's recipients) — passing through ciphertext unchanged instead of failing the checkout".to_string(),
            content: ciphertext,
        }
    );
    assert!(NOT_ARMORED.starts_with("input isn't armored"));
    assert!(NO_IDENTITY.starts_with("no identity available"));
}

#[test]
fn armored_content_that_is_no_age_file_passes_through() {
    let content = b"-----BEGIN AGE ENCRYPTED FILE-----\nnot base64\n";
    assert_eq!(
        smudge(content, &[generate_identity()]),
        SmudgeOutcome::PassedThrough {
            reason: "decryption failed (reading age header) — passing through ciphertext unchanged instead of failing the checkout".to_string(),
            content: content.to_vec(),
        }
    );
}

#[test]
fn blanks_in_front_hide_the_armor_from_age_but_not_from_the_filter() {
    let id = generate_identity();
    let recipients = vec![public_string(&id)];
    let mut padded = b"\n".to_vec();
    padded.extend_from_slice(&encrypt(b"x", &recipients).unwrap());
    assert_eq!(
        clean(&padded, &recipients),
        Ok(CleanOutcome::AlreadyEncrypted(padded.clone()))
    );
    assert_eq!(smudge(&padded, &[id]).into_bytes(), padded);
}

#[test]
fn smudge_outcome_follows_the_decryption() {
    assert_eq!(
        smudge_outcome(b"in", Ok(b"out".to_vec())),
        SmudgeOutcome::Decrypted(b"out".to_vec())
    );
    assert_eq!(
        smudge_outcome(b"in", Err(Error::Payload { cause: "cut".to_string() })),
        SmudgeOutcome::PassedThrough {
            reason: "decryption failed (cut) — passing through ciphertext unchanged instead of failing the checkout".to_string(),
            content: b"in".to_vec(),
        }
    );
}

#[test]
fn clean_reports_the_recipients_fault() {
    assert_eq!(clean(b"plaintext", &[]), Err(Error::NoRecipients));
    let error = clean(b"plaintext", &["nobody".to_string()]).unwrap_err();
    assert_eq!(error.message(), "invalid recipient 'nobody': invalid Bech32 encoding");
}

#[test]
fn armored_content_needs_no_recipients() {
    let id = generate_identity();
    let stored = encrypt(b"x", &[public_string(&id)]).unwrap();
    assert_eq!(clean(&stored, &[]), Ok(CleanOutcome::AlreadyEncrypted(stored.clone())));
}

#[test]
fn a_checkout_without_identity_counts_as_unmodified() {
    let id = generate_identity();
    let recipients = vec![public_string(&id)];
    let stored = clean(b"DATABASE_URL=secret\n", &recipients).unwrap().into_bytes();
    let worktree = smudge(&stored, &[]).into_bytes();
    assert_eq!(worktree, stored);
    assert_eq!(clean(&worktree, &recipients).unwrap().into_bytes(), stored);
}

#[test]
fn try_clean_stops_short_of_a_panic() {
    let bad = vec![SMALL_ORDER_KEYS[0].to_string()];
    assert_eq!(try_clean(b"plaintext", &bad), None);
    let id = generate_identity();
    let stored = encrypt(b"x", &[public_string(&id)]).unwrap();
    assert_eq!(
        try_clean(&stored, &bad),
        Some(Ok(CleanOutcome::AlreadyEncrypted(stored.clone())))
    );
    assert_eq!(try_clean(b"plaintext", &[]), Some(Err(Error::NoRecipients)));
    let cleaned = try_clean(b"plaintext", &[public_string(&id)]).unwrap().unwrap();
    assert_eq!(smudge(&cleaned.into_bytes(), &[id]).into_bytes(), b"plaintext");
}

#[test]
fn an_unusable_identity_file_counts_as_none() {
    let id = generate_identity();
    let secret = identity_secret_string(&id);
    assert_eq!(available_identities(None).len(), 0);
    assert_eq!(available_identities(Some("")).len(), 0);
    assert_eq!(available_identities(Some(&format!("{secret}\nbroken\n"))).len(), 0);
    let ids = available_identities(Some(&format!("# key\n{secret}\n")));
    assert_eq!(ids.len(), 1);
    assert_eq!(identity_secret_string(&ids[0]), secret);
}
