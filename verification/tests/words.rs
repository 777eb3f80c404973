use vssh::chars::{
    chars_of, joined, space, split_at_marks, split_words, string_of, stripped, trimmed,
};

fn chars(s: &str) -> Vec<char> {
    s.chars().collect()
}

fn text(v: &[char]) -> String {
    v.iter().collect()
}

fn texts(vs: &[Vec<char>]) -> Vec<String> {
    vs.iter().map(|v| text(v)).collect()
}

const SAMPLES: [&str; 16] = [
    "",
    " ",
    "ls",
    "ls -l",
    "  ls   -l\t/tmp \n",
    "\u{a0}a\u{2003}b\u{3000}",
    "a|b",
    "a | b | c",
    "|",
    "||",
    "a||b|",
    "sleep 5 &",
    "sleep 5 &&& ",
    "&&&",
    "cmd < in.txt > out.txt",
    "\u{85}x\u{1680}y\u{2028}z\u{2029}\u{202f}w\u{205f}",
];

#[test]
fn space_agrees_with_the_standard_library_on_every_character() {
    let mut n: u32 = 0;
    while n <= 0x10FFFF {
        if let Some(c) = char::from_u32(n) {
            assert_eq!(space(c), c.is_whitespace(), "code point {:#x}", n);
        }
        n += 1;
    }
}

#[test]
fn space_on_named_characters() {
    assert!(space(' '));
    assert!(space('\t'));
    assert!(space('\n'));
    assert!(space('\r'));
    assert!(space('\u{0b}'));
    assert!(space('\u{0c}'));
    assert!(space('\u{3000}'));
    assert!(!space('a'));
    assert!(!space('<'));
    assert!(!space('\u{200b}'));
    assert!(!space('\u{1c}'));
}

#[test]
fn chars_and_strings_convert_both_ways() {
    for s in SAMPLES {
        assert_eq!(chars_of(s), chars(s));
        assert_eq!(string_of(&chars(s)), s.to_string());
    }
    assert_eq!(chars_of("héllo"), vec!['h', 'é', 'l', 'l', 'o']);
    assert_eq!(string_of(&vec!['a', 'b']), "ab".to_string());
    assert_eq!(string_of(&Vec::new()), String::new());
}

#[test]
fn trimmed_agrees_with_trim() {
    for s in SAMPLES {
        assert_eq!(text(&trimmed(&chars(s))), s.trim().to_string(), "{:?}", s);
    }
    assert_eq!(text(&trimmed(&chars("  a b  "))), "a b");
    assert_eq!(text(&trimmed(&chars(" \t\n"))), "");
}

#[test]
fn stripped_agrees_with_trim_end_matches() {
    for s in SAMPLES {
        assert_eq!(
            text(&stripped(&chars(s), '&')),
            s.trim_end_matches('&').to_string(),
            "{:?}",
            s
        );
    }
    assert_eq!(text(&stripped(&chars("sort &&"), '&')), "sort ");
    assert_eq!(text(&stripped(&chars("a&b"), '&')), "a&b");
}

#[test]
fn split_words_agrees_with_split_whitespace() {
    for s in SAMPLES {
        let expected: Vec<String> = s.split_whitespace().map(|w| w.to_string()).collect();
        assert_eq!(texts(&split_words(&chars(s))), expected, "{:?}", s);
    }
    assert_eq!(
        texts(&split_words(&chars("  echo   hello\tworld "))),
        vec!["echo", "hello", "world"]
    );
    assert!(split_words(&chars("   ")).is_empty());
}

#[test]
fn joined_puts_one_space_between_words() {
    assert_eq!(text(&joined(&vec![])), "");
    assert_eq!(text(&joined(&vec![chars("ls")])), "ls");
    assert_eq!(text(&joined(&vec![chars("ls"), chars("-l"), chars("/")])), "ls -l /");
    for s in SAMPLES {
        let words: Vec<&str> = s.split_whitespace().collect();
        let given: Vec<Vec<char>> = words.iter().map(|w| chars(w)).collect();
        assert_eq!(text(&joined(&given)), words.join(" "), "{:?}", s);
    }
}

#[test]
fn split_at_marks_agrees_with_split() {
    for s in SAMPLES {
        let expected: Vec<String> = s.split('|').map(|w| w.to_string()).collect();
        assert_eq!(texts(&split_at_marks(&chars(s), '|')), expected, "{:?}", s);
    }
    assert_eq!(texts(&split_at_marks(&chars("a||b|"), '|')), vec!["a", "", "b", ""]);
    assert_eq!(texts(&split_at_marks(&chars(""), '|')), vec![""]);
}

#[test]
fn words_of_a_join_are_the_words() {
    let given = vec![chars("grep"), chars("-v"), chars("x<y")];
    assert_eq!(split_words(&joined(&given)), given);
}

#[test]
fn join_of_the_words_of_a_single_spaced_text_is_the_text() {
    let s = "tar -x -f archive.tar";
    assert_eq!(text(&joined(&split_words(&chars(s)))), s);
    let doubled = "ls  -l";
    assert_eq!(text(&joined(&split_words(&chars(doubled)))), "ls -l");
}
