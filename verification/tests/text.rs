use ingest_parser::text::{
    chars_of, has_text, is_white_space, position, position_from, same_text, text_after,
    text_after_last, text_before, text_first_word, text_listed, text_of, text_prefix_without,
    text_second, text_trim, text_trim_end, text_trim_set, to_ascii_lowercase, CharSet,
};

fn trimmed(s: &str) -> String {
    text_of(text_trim(&chars_of(s)))
}

#[test]
fn white_space_is_the_unicode_property() {
    for code in 0..=0x10ffffu32 {
        if let Some(c) = char::from_u32(code) {
            assert_eq!(is_white_space(c), c.is_whitespace(), "U+{:04X}", code);
        }
    }
}

#[test]
fn text_goes_through_characters_unchanged() {
    for s in ["", "a", "naïve", "日本語", "a\u{1F600}b"] {
        assert_eq!(text_of(&chars_of(s)), s);
    }
    assert_eq!(chars_of("aé"), vec!['a', 'é']);
}

#[test]
fn same_text_compares_whole_texts() {
    assert!(same_text("", ""));
    assert!(same_text("é", "é"));
    assert!(!same_text("a", "ab"));
    assert!(!same_text("ab", "ac"));
}

#[test]
fn positions_are_the_first_ones() {
    let s = chars_of("abcabc");
    assert_eq!(position(&s, &chars_of("bc")), Some(1));
    assert_eq!(position_from(&s, &chars_of("bc"), 2), Some(4));
    assert_eq!(position_from(&s, &chars_of("bc"), 5), None);
    assert_eq!(position(&s, &chars_of("")), Some(0));
    assert_eq!(position(&s, &chars_of("abcabcd")), None);
    assert!(has_text(&s, &chars_of("cab")));
    assert!(!has_text(&s, &chars_of("cb")));
}

#[test]
fn text_is_cut_as_split_cuts_it() {
    for s in ["a as b", " as ", "a as b as c", "abc", "", "as as as as"] {
        let chars = chars_of(s);
        let pattern = chars_of(" as ");
        assert_eq!(text_of(text_before(&chars, &pattern)), s.split(" as ").next().unwrap());
        assert_eq!(
            text_second(&chars, &pattern).map(text_of),
            s.split(" as ").nth(1).map(|part| part.to_string())
        );
        assert_eq!(
            text_after(&chars, &pattern).map(text_of),
            s.split_once(" as ").map(|parts| parts.1.to_string())
        );
    }
}

#[test]
fn text_after_the_last_mark() {
    assert_eq!(text_of(text_after_last(&chars_of("a.b.c"), '.')), "c");
    assert_eq!(text_of(text_after_last(&chars_of("abc"), '.')), "abc");
    assert_eq!(text_of(text_after_last(&chars_of("abc."), '.')), "");
    assert_eq!(text_of(text_after_last(&chars_of(""), '.')), "");
}

#[test]
fn trimming_takes_white_space_off_both_ends() {
    for s in ["", "  ", " a b ", "\u{3000}x\u{85}", "\t\r\n", "a"] {
        assert_eq!(trimmed(s), s.trim());
    }
    let quoted = chars_of("''a'b'");
    assert_eq!(text_of(text_trim_set(&quoted, CharSet::Only('\''))), "a'b");
    assert_eq!(text_of(text_trim_end(&chars_of("<A<,>"), CharSet::TypeTail)), "<A");
}

#[test]
fn words_and_prefixes() {
    assert_eq!(text_of(text_first_word(&chars_of("  one two"))), "one");
    assert_eq!(text_of(text_first_word(&chars_of(" \t "))), "");
    assert_eq!(text_of(text_prefix_without(&chars_of("Base{x"), CharSet::Only('{'))), "Base");
    assert_eq!(text_of(text_prefix_without(&chars_of(" Base"), CharSet::Blank)), "");
}

#[test]
fn lists_leave_out_what_is_blank() {
    let list = chars_of(" a, b c ,, \t ,d");
    let entries: Vec<String> = text_listed(&list).into_iter().map(text_of).collect();
    assert_eq!(entries, vec!["a", "b c", "d"]);
    assert!(text_listed(&chars_of(" , ")).is_empty());
    let first = chars_of(" a, b c ,");
    let second = chars_of(" \t ,d");
    let mut both: Vec<String> = text_listed(&first).into_iter().map(text_of).collect();
    both.extend(text_listed(&second).into_iter().map(text_of));
    assert_eq!(both, entries);
}

#[test]
fn lower_case_of_ascii_letters_only() {
    assert_eq!(text_of(&to_ascii_lowercase(&chars_of("AZ[@az É"))), "az[@az É");
    assert_eq!(text_of(&to_ascii_lowercase(&chars_of("É"))), "É");
}
