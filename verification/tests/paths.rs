use cryptenv::paths::{
    decrypted_path, default_recipients_file, encrypted_path, parse_recipients_file,
    resolve_recipients, RecipientsSource, ENCRYPTED_SUFFIX, RECIPIENTS_FILENAME,
};
use std::path::{Path, PathBuf};

#[test]
fn encrypted_path_appends_suffix() {
    assert_eq!(encrypted_path(b".env"), b".env.age");
    assert_eq!(
        encrypted_path(b"secrets/prod.yaml"),
        b"secrets/prod.yaml.age"
    );
}

#[test]
fn encrypted_path_is_idempotent() {
    assert_eq!(
        encrypted_path(b".env.age"),
        b".env.age"
    );
}

#[test]
fn decrypted_path_strips_suffix() {
    assert_eq!(decrypted_path(b".env.age"), b".env");
    assert_eq!(
        decrypted_path(b"secrets/prod.yaml.age"),
        b"secrets/prod.yaml"
    );
}

#[test]
fn decrypted_path_of_non_age_file_does_not_guess() {
    assert_eq!(decrypted_path(b".env"), b".env.dec");
}

#[test]
fn recipients_file_parsing_skips_blanks_and_comments() {
    let contents = "\n# alice's laptop\nage1qqqqqqqqqqqqqqqqqqqqqqqqqqqqqqqqqqqqqqqqqqqqqqqqqqqqqqqqqqqqqqq\n\n  # bob\nage1rrrrrrrrrrrrrrrrrrrrrrrrrrrrrrrrrrrrrrrrrrrrrrrrrrrrrrrrrrrrrrr  \n";
    let parsed = parse_recipients_file(contents);
    assert_eq!(
        parsed,
        vec![
            "age1qqqqqqqqqqqqqqqqqqqqqqqqqqqqqqqqqqqqqqqqqqqqqqqqqqqqqqqqqqqqqqq".to_string(),
            "age1rrrrrrrrrrrrrrrrrrrrrrrrrrrrrrrrrrrrrrrrrrrrrrrrrrrrrrrrrrrrrrr".to_string(),
        ]
    );
}

#[test]
fn default_recipients_file_is_a_sibling() {
    assert_eq!(
        default_recipients_file(b"apps/roasted/.env"),
        b"apps/roasted/.cryptenv-recipients"
    );
}

fn sample_paths() -> Vec<String> {
    let parts = ["", "/", ".", "..", "a", ".env", "b.age", ".age", "./", "//", "é.age", "x.y.z"];
    let mut out: Vec<String> = Vec::new();
    for a in parts {
        for b in parts {
            for c in parts {
                out.push(format!("{a}{b}{c}"));
                out.push(format!("{a}/{b}/{c}"));
            }
        }
    }
    out
}

#[test]
fn paths_are_taken_apart_as_std_does() {
    for text in sample_paths() {
        let path = Path::new(&text);
        let dir = path.parent().unwrap_or_else(|| Path::new("."));
        assert_eq!(
            default_recipients_file(text.as_bytes()),
            dir.join(RECIPIENTS_FILENAME).to_str().unwrap().as_bytes(),
            "{text}"
        );

        let ends = text.ends_with(ENCRYPTED_SUFFIX);
        let named = path.extension().and_then(|e| e.to_str()) == Some("age");
        let expected = if ends || named { text.clone() } else { format!("{text}.age") };
        assert_eq!(encrypted_path(text.as_bytes()), expected.as_bytes(), "{text}");

        let expected = match text.strip_suffix(ENCRYPTED_SUFFIX) {
            Some(stripped) => stripped.to_string(),
            None => format!("{text}.dec"),
        };
        assert_eq!(decrypted_path(text.as_bytes()), expected.as_bytes(), "{text}");
    }
}

#[test]
fn the_laws_of_paths_hold_on_samples() {
    for text in sample_paths() {
        let plain = text.as_bytes();
        let once = encrypted_path(plain);
        assert_eq!(encrypted_path(&once), once);
        if once != plain {
            assert_eq!(decrypted_path(&once), plain);
        }
        assert_ne!(decrypted_path(plain), plain);
        let sibling = String::from_utf8(default_recipients_file(plain)).unwrap();
        let sibling = PathBuf::from(sibling);
        assert_eq!(sibling.file_name().unwrap().to_str(), Some(".cryptenv-recipients"));
        if let Some(dir) = Path::new(&text).parent() {
            assert_eq!(sibling.parent(), Some(dir));
        }
    }
}

#[test]
fn a_file_named_by_the_suffix_alone_counts_as_encrypted() {
    assert_eq!(encrypted_path(b".age"), b".age");
    assert_eq!(encrypted_path(b"dir/.age"), b"dir/.age");
    assert_eq!(encrypted_path(b"key.age/"), b"key.age/");
    assert_eq!(encrypted_path(b"age"), b"age.age");
    assert_eq!(encrypted_path(b""), b".age");
}

#[test]
fn decrypted_path_appends_to_any_extension() {
    assert_eq!(decrypted_path(b"prod.yaml"), b"prod.yaml.dec");
    assert_eq!(decrypted_path(b"prod.AGE"), b"prod.AGE.dec");
    assert_eq!(decrypted_path(b".env.age.age"), b".env.age");
    assert_eq!(decrypted_path(b".age"), b"");
}

#[test]
fn paths_that_are_no_text_are_replaced_only_where_the_suffix_is_cut() {
    let odd = b"\xff.env";
    assert_eq!(encrypted_path(odd), b"\xff.env.age");
    assert_eq!(decrypted_path(b"\xff.env.age"), "\u{fffd}.env".as_bytes());
    assert_eq!(decrypted_path(odd), b"\xff.env.dec");
    assert_eq!(default_recipients_file(b"\xff/x"), b"\xff/.cryptenv-recipients");
}

#[test]
fn explicit_recipients_go_first() {
    let explicit = vec!["age1x".to_string()];
    assert_eq!(
        resolve_recipients(explicit.clone(), Some(b"team".to_vec()), b"apps/.env"),
        RecipientsSource::Given(explicit)
    );
    assert_eq!(
        resolve_recipients(Vec::new(), Some(b"team".to_vec()), b"apps/.env"),
        RecipientsSource::File(b"team".to_vec())
    );
    assert_eq!(
        resolve_recipients(Vec::new(), None, b"apps/.env"),
        RecipientsSource::File(b"apps/.cryptenv-recipients".to_vec())
    );
}
