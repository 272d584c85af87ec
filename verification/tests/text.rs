use dmlive::ini::parse_ini;
use dmlive::text;

/// All words up to a length over an alphabet.
fn words(alphabet: &[char], longest: usize) -> Vec<String> {
    let mut all = vec![String::new()];
    let mut last = all.clone();
    for _ in 0..longest {
        let mut next = Vec::new();
        for word in &last {
            for c in alphabet {
                let mut longer = word.clone();
                longer.push(*c);
                next.push(longer);
            }
        }
        all.extend(next.clone());
        last = next;
    }
    all
}

#[test]
fn white_space_is_that_of_unicode() {
    for code in 0..=0x10ffffu32 {
        if let Some(c) = char::from_u32(code) {
            assert_eq!(text::is_whitespace(c), c.is_whitespace(), "{code:x}");
        }
    }
}

#[test]
fn trimming_removes_white_space_at_the_ends() {
    for word in words(&['a', ' ', '\n', '\u{3000}', 'é'], 5) {
        assert_eq!(text::trim(&word), word.trim());
    }
}

#[test]
fn splitting_gives_the_pieces() {
    for word in words(&['a', ';', 'é'], 6) {
        let pieces: Vec<&str> = word.split(';').collect();
        assert_eq!(text::split(&word, ';'), pieces);
        assert_eq!(text::split_once(&word, ';'), word.split_once(';'));
    }
}

#[test]
fn searching_and_replacing() {
    for word in words(&['a', 'b', 'é'], 6) {
        for pattern in ["a", "ab", "aa", "aba", "é"] {
            assert_eq!(text::contains(&word, pattern), word.contains(pattern));
            assert_eq!(text::starts_with(&word, pattern), word.starts_with(pattern));
            assert_eq!(
                text::replace(&word, pattern, "xa"),
                word.replace(pattern, "xa")
            );
            assert_eq!(text::same_text(&word, pattern), word == pattern);
        }
        assert!(text::contains(&word, "") && text::starts_with(&word, ""));
    }
}

#[test]
fn lower_case_is_that_of_ascii() {
    for word in words(&['A', 'a', 'Z', '[', '@', 'É'], 3) {
        assert!(text::lowers_to(&word, &word.to_ascii_lowercase()));
        assert_eq!(text::lowers_to(&word, "a"), word.to_ascii_lowercase() == "a");
    }
}

#[test]
fn numbers_are_decimal() {
    for word in words(&['0', '7', '+', '-', ' ', '٣'], 4) {
        assert_eq!(text::parse_usize(&word), word.parse::<usize>().ok());
    }
    let largest = usize::MAX.to_string();
    assert_eq!(text::parse_usize(&largest), Some(usize::MAX));
    assert_eq!(text::parse_usize(&format!("{largest}0")), None);
    assert_eq!(text::parse_usize("18446744073709551616"), None);
    assert_eq!(text::parse_usize("00000000000000000000000042"), Some(42));
}

#[test]
fn ini_sections_and_entries() {
    let sections = parse_ini(
        "stray=1\r\n# comment\r\n; comment\r\n[ A ]\r\n key = a = b \r\nkey2\r\n\r\n[B]\nkey=1\nkey=2\n[\n]\n[C",
    );
    assert_eq!(sections.len(), 2);
    assert_eq!(sections[0].name, " A ");
    assert_eq!(sections[0].values.get("key"), Some("a = b"));
    assert_eq!(sections[0].values.get("key2"), None);
    assert_eq!(sections[0].values.get("stray"), None);
    assert_eq!(sections[1].name, "B");
    assert_eq!(sections[1].values.get("key"), Some("2"));
    assert!(parse_ini("").is_empty());
    assert_eq!(parse_ini("[]")[0].name, "");
}

#[test]
fn ini_comments_make_no_difference() {
    let plain = parse_ini("[A]\nx=1\n[B]\ny=2");
    let commented = parse_ini("#\n[A]\n;z=1\nx=1\n\n[B]\n  # [C]\ny=2\n");
    assert_eq!(plain.len(), commented.len());
    for (a, b) in plain.iter().zip(&commented) {
        assert_eq!(a.name, b.name);
        for key in ["x", "y", "z", ";z"] {
            assert_eq!(a.values.get(key), b.values.get(key));
        }
    }
}

#[test]
fn ini_files_are_read_one_after_the_other() {
    let a = "[A]\nx=1";
    let b = "\n; comment\n[B]\ny=2\n[C]";
    let both = parse_ini(&format!("{a}\n{b}"));
    let parts: Vec<_> = parse_ini(a).into_iter().chain(parse_ini(b)).collect();
    assert_eq!(both.len(), 3);
    assert_eq!(both.len(), parts.len());
    for (joined, part) in both.iter().zip(&parts) {
        assert_eq!(joined.name, part.name);
        for key in ["x", "y"] {
            assert_eq!(joined.values.get(key), part.values.get(key));
        }
    }
}
