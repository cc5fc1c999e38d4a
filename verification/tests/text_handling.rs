use ferrous::text::{chars_of, clean_ciphertext, is_space, trim_bounds, trim_text};

#[test]
fn trim_removes_unicode_white_space() {
    assert_eq!(trim_text("\u{a0}\t hello world \u{3000}\r\n"), "hello world");
    assert_eq!(trim_text("   "), "");
    assert_eq!(trim_text(""), "");
    assert_eq!(trim_text("x"), "x");
    assert_eq!(trim_text("\u{2028}a b\u{85}"), "a b");
}

#[test]
fn white_space_matches_std() {
    for c in ['\t', '\n', '\u{b}', '\u{c}', '\r', ' ', '\u{85}', '\u{a0}', '\u{1680}', '\u{2000}', '\u{200a}', '\u{2028}', '\u{2029}', '\u{202f}', '\u{205f}', '\u{3000}', 'a', '0', '\u{200b}', '\u{feff}', '\u{180e}'] {
        assert_eq!(is_space(c), c.is_whitespace(), "{:?}", c);
    }
}

#[test]
fn trim_matches_std_on_samples() {
    let samples = ["  a  ", "\u{3000}x\u{3000}", "\r\nline\r\n", "a\u{200b}", "", " \u{a0} "];
    for s in samples {
        assert_eq!(trim_text(s), s.trim());
    }
}

#[test]
fn trim_bounds_of_a_range() {
    let chars = chars_of("ab  cd  ef");
    assert_eq!(trim_bounds(&chars, 2, 8), (4, 6));
    assert_eq!(trim_bounds(&chars, 2, 4), (4, 4));
}

#[test]
fn chars_of_keeps_every_character() {
    assert_eq!(chars_of("añ\u{3000}b"), vec!['a', 'ñ', '\u{3000}', 'b']);
}

#[test]
fn clean_ciphertext_strips_vault_header_and_indentation() {
    let pasted = "my_var: !vault |\n          $ANSIBLE_VAULT;1.1;AES256\n          6162636465\r\n\n          3132333435  \n";
    assert_eq!(clean_ciphertext(pasted), "$ANSIBLE_VAULT;1.1;AES256\n6162636465\n3132333435");
}

#[test]
fn clean_ciphertext_edge_cases() {
    assert_eq!(clean_ciphertext(""), "");
    assert_eq!(clean_ciphertext("\n\n  \n"), "");
    assert_eq!(clean_ciphertext("!vault"), "");
    assert_eq!(clean_ciphertext("a!vaultb\nc"), "c");
    assert_eq!(clean_ciphertext("!vaul\n!VAULT"), "!vaul\n!VAULT");
    assert_eq!(clean_ciphertext("single"), "single");
    assert_eq!(clean_ciphertext("x\r"), "x");
}

#[test]
fn clean_ciphertext_matches_the_iterator_pipeline() {
    let samples = ["a\nb", "  x: !vault |\n  1\n  2", "\r\n\r\n", "tab\there\n\u{a0}y\u{a0}", "!v\nault"];
    for s in samples {
        let expected = s
            .lines()
            .map(|l| l.trim())
            .filter(|l| !l.is_empty() && !l.contains("!vault"))
            .collect::<Vec<_>>()
            .join("\n");
        assert_eq!(clean_ciphertext(s), expected);
    }
}

#[test]
fn cleaning_twice_changes_nothing() {
    let pasted = "v: !vault |\n   $ANSIBLE_VAULT;1.1;AES256\n   6162\n\n   6364 \r\n";
    let once = clean_ciphertext(pasted);
    assert_eq!(clean_ciphertext(&once), once);
}
