use cryptenv::install::{install_filter, AGE_EXCLUSION, ENV_ATTRIBUTE, ENV_VARIANT_ATTRIBUTE};
use cryptenv::text::{values_in, white_space};

#[test]
fn a_new_file_gets_the_three_attributes() {
    assert_eq!(
        install_filter("").attributes,
        ".env filter=cryptenv\n.env.* filter=cryptenv\n*.age -filter\n"
    );
}

#[test]
fn the_settings_of_the_driver_are_made() {
    let pair = |key: &str, value: &str| (key.to_string(), value.to_string());
    assert_eq!(
        install_filter("").config,
        vec![
            pair("filter.cryptenv.clean", "cryptenv git-clean %f"),
            pair("filter.cryptenv.smudge", "cryptenv git-smudge %f"),
            pair("filter.cryptenv.required", "true"),
        ]
    );
}

#[test]
fn existing_lines_stay_in_front() {
    assert_eq!(
        install_filter("*.png binary\r\n\n  .env filter=cryptenv \n# end").attributes,
        "*.png binary\n\n  .env filter=cryptenv \n# end\n.env.* filter=cryptenv\n*.age -filter\n"
    );
}

fn count(text: &str, wanted: &str) -> usize {
    text.lines().filter(|l| l.trim() == wanted).count()
}

fn last(text: &str, wanted: &str) -> Option<usize> {
    text.lines().enumerate().filter(|(_, l)| l.trim() == wanted).map(|(i, _)| i).last()
}

#[test]
fn installing_again_changes_nothing() {
    for existing in ["", "\n", "*.png binary", "a\r\nb\r\n", "x\n\n\n", "a\r\r\n", "b\r"] {
        let once = install_filter(existing).attributes;
        assert_eq!(install_filter(&once).attributes, once);
        for wanted in [ENV_ATTRIBUTE, ENV_VARIANT_ATTRIBUTE, AGE_EXCLUSION] {
            assert_eq!(count(&once, wanted), 1);
        }
    }
}

#[test]
fn the_exclusion_follows_the_pattern_that_it_overrides() {
    let lines = [ENV_ATTRIBUTE, ENV_VARIANT_ATTRIBUTE, AGE_EXCLUSION, "*.png binary", ""];
    for a in lines {
        for b in lines {
            for c in lines {
                let existing = format!("{a}\n {b}\t\n{c}\n");
                let once = install_filter(&existing).attributes;
                assert!(last(&once, AGE_EXCLUSION) > last(&once, ENV_VARIANT_ATTRIBUTE), "{existing:?}");
                assert!(last(&once, ENV_ATTRIBUTE).is_some());
                assert!(last(&once, ENV_VARIANT_ATTRIBUTE).is_some());
                assert!(once.starts_with(&existing));
                assert_eq!(install_filter(&once).attributes, once);
            }
        }
    }
}

#[test]
fn an_exclusion_that_came_first_is_put_last_as_well() {
    assert_eq!(
        install_filter("*.age -filter\n").attributes,
        "*.age -filter\n.env filter=cryptenv\n.env.* filter=cryptenv\n*.age -filter\n"
    );
    assert_eq!(
        install_filter(".env filter=cryptenv\n*.age -filter\n").attributes,
        ".env filter=cryptenv\n*.age -filter\n.env.* filter=cryptenv\n*.age -filter\n"
    );
    let whole = ".env filter=cryptenv\n.env.* filter=cryptenv\n*.age -filter\n*.png binary\n";
    assert_eq!(install_filter(whole).attributes, whole);
}

#[test]
fn an_exclusion_behind_its_pattern_is_not_repeated() {
    assert_eq!(
        install_filter(".env.* filter=cryptenv\n*.age -filter\n").attributes,
        ".env.* filter=cryptenv\n*.age -filter\n.env filter=cryptenv\n"
    );
    let whole = ".env.* filter=cryptenv\n*.age -filter\n.env filter=cryptenv\n";
    assert_eq!(install_filter(whole).attributes, whole);
}

#[test]
fn carriage_returns_at_the_end_of_a_line_go() {
    let once = install_filter("a\r\r\nb\rc\r\n").attributes;
    assert!(once.starts_with("a\nb\rc\n.env "));
}

#[test]
fn the_exclusion_comes_last_where_it_was_missing() {
    let text = install_filter(".env.* filter=cryptenv\n").attributes;
    assert_eq!(text, ".env.* filter=cryptenv\n.env filter=cryptenv\n*.age -filter\n");
}

#[test]
fn lines_are_taken_apart_as_std_does() {
    let parts = ["", "a", "\r", " b\t", "#c", "\n", "\r\n", "\u{3000}d\u{a0}", "\u{200b}", " # e"];
    for x in parts {
        for y in parts {
            for z in parts {
                for w in parts {
                    let text = format!("{x}{y}{z}{w}");
                    let expected: Vec<String> = text
                        .lines()
                        .map(str::trim)
                        .filter(|l| !l.is_empty() && !l.starts_with('#'))
                        .map(str::to_string)
                        .collect();
                    assert_eq!(values_in(&text), expected, "{text:?}");

                    let mut lines: Vec<String> = text
                        .lines()
                        .map(|l| l.trim_end_matches('\r').to_string())
                        .collect();
                    for wanted in [ENV_ATTRIBUTE, ENV_VARIANT_ATTRIBUTE, AGE_EXCLUSION] {
                        if !lines.iter().any(|l| l.trim() == wanted) {
                            lines.push(wanted.to_string());
                        }
                    }
                    let expected = format!("{}\n", lines.join("\n"));
                    assert_eq!(install_filter(&text).attributes, expected, "{text:?}");
                }
            }
        }
    }
}

#[test]
fn white_space_is_what_std_takes_for_it() {
    for n in 0..=0x10ffffu32 {
        if let Some(c) = char::from_u32(n) {
            assert_eq!(white_space(c), c.is_whitespace(), "{n:x}");
        }
    }
}

#[test]
fn values_are_read_back_and_comments_ignored() {
    let list = vec!["age1a".to_string(), "two words".to_string(), "é".to_string()];
    let text = format!("{}\n", list.join("\n"));
    assert_eq!(values_in(&text), list);
    let commented = text.replace("\n", "\n  # note\n \t\n");
    assert_eq!(values_in(&commented), list);
}
