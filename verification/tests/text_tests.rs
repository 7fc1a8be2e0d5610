use hera::text::{
    chars_to_string, chunk_text, clean_text, is_control, is_whitespace, join_range, push_decimal,
    push_joined, seed_string, slice_to_string, split_words, str_chars, strip_tags, tokenize,
    trim_chars,
};

fn strings(v: &[&str]) -> Vec<String> {
    v.iter().map(|s| s.to_string()).collect()
}

#[test]
fn tokenize_lowercases_and_drops_short_tokens() {
    assert_eq!(
        tokenize("Hello, World! a I'm fine-tuned"),
        strings(&["hello", "world", "fine", "tuned"])
    );
}

#[test]
fn tokenize_measures_length_in_bytes() {
    // "é" is one letter but two bytes, so it is kept.
    assert_eq!(tokenize("Éclair café é x"), strings(&["éclair", "café", "é"]));
}

#[test]
fn tokenize_of_nothing_alphabetic_is_empty() {
    assert!(tokenize("").is_empty());
    assert!(tokenize("12 34 -- !!").is_empty());
    assert!(tokenize("a b c").is_empty());
}

#[test]
fn clean_text_collapses_whitespace_and_drops_controls() {
    // Tabs are control characters and vanish; newlines collapse like spaces.
    assert_eq!(clean_text("  Hello\t\tworld \n\n foo\u{7}bar  "), "Helloworld foobar");
    assert_eq!(clean_text("a\nb"), "a b");
    assert_eq!(clean_text("   "), "");
    assert_eq!(clean_text(""), "");
    assert_eq!(clean_text("x\u{3000}\u{3000}y"), "x y");
}

#[test]
fn strip_tags_replaces_tags_with_spaces() {
    assert_eq!(strip_tags("<p>Hi <b>there</b></p>"), "  Hi   there    ");
    assert_eq!(strip_tags("plain"), "plain");
    assert_eq!(strip_tags("a > b"), "a   b");
}

#[test]
fn chunk_text_short_text_is_one_trimmed_chunk() {
    assert_eq!(chunk_text("  x   y  ", 5), strings(&["x   y"]));
    assert_eq!(chunk_text("a b c d e", 5), strings(&["a b c d e"]));
}

#[test]
fn chunk_text_of_blank_text_is_empty() {
    assert!(chunk_text("", 5).is_empty());
    assert!(chunk_text(" \n\t ", 5).is_empty());
}

#[test]
fn chunk_text_without_overlap() {
    // max 4: overlap 4 / 5 = 0, step 4.
    assert_eq!(
        chunk_text("a b c d e f g h i j", 4),
        strings(&["a b c d", "e f g h", "i j"])
    );
}

#[test]
fn chunk_text_with_overlap() {
    // max 5: overlap 1, step 4.
    assert_eq!(
        chunk_text("a  b c d e f g h i j", 5),
        strings(&["a b c d e", "e f g h i", "i j"])
    );
}

#[test]
fn chunk_text_one_word_per_chunk() {
    assert_eq!(chunk_text("x y z", 1), strings(&["x", "y", "z"]));
}

#[test]
fn chunk_text_last_chunk_ends_at_the_text_end() {
    // 12 words, max 10: overlap 2, step 8; the second chunk reaches the end.
    let text = "w0 w1 w2 w3 w4 w5 w6 w7 w8 w9 w10 w11";
    assert_eq!(
        chunk_text(text, 10),
        strings(&["w0 w1 w2 w3 w4 w5 w6 w7 w8 w9", "w8 w9 w10 w11"])
    );
}

#[test]
fn split_and_join_words() {
    let ws = split_words("  one two\tthree\n");
    assert_eq!(ws.len(), 3);
    assert_eq!(chars_to_string(&ws[1]), "two");
    assert_eq!(join_range(&ws, 0, 3), "one two three");
    assert_eq!(join_range(&ws, 1, 2), "two");
    assert_eq!(join_range(&ws, 2, 2), "");
}

#[test]
fn char_helpers() {
    let cs = str_chars("héllo");
    assert_eq!(cs.len(), 5);
    assert_eq!(chars_to_string(&cs), "héllo");
    assert_eq!(slice_to_string(&cs, 1, 3), "él");
    assert_eq!(trim_chars(&str_chars("  in  side \n")), "in  side");
    assert!(is_whitespace(' '));
    assert!(is_whitespace('\u{2003}'));
    assert!(!is_whitespace('x'));
    assert!(is_control('\t'));
    assert!(is_control('\u{85}'));
    assert!(is_control('\n'));
    assert!(!is_control('a'));
}

#[test]
fn decimal_and_seed_strings() {
    let mut s = String::from("n=");
    push_decimal(&mut s, 0);
    assert_eq!(s, "n=0");
    push_decimal(&mut s, 18446744073709551615);
    assert_eq!(s, "n=018446744073709551615");
    assert_eq!(seed_string("mc_", 12, "q"), "mc_12_q");
    assert_eq!(seed_string("cls_", 0, "some text"), "cls_0_some text");
}

#[test]
fn joined_fields() {
    let mut out = String::from(">");
    push_joined(&mut out, &strings(&["a", "b", "c"]), '\t');
    assert_eq!(out, ">a\tb\tc");
    let mut none = String::new();
    push_joined(&mut none, &Vec::new(), ',');
    assert_eq!(none, "");
}

#[test]
fn clean_text_is_idempotent_and_clean() {
    for s in ["  a\t b \n\n c  ", "x\u{7}y  z", "", "   ", "one", "\u{a0}lead and trail\u{3000}"] {
        let once = clean_text(s);
        assert_eq!(clean_text(&once), once);
        assert!(!once.starts_with(' ') && !once.ends_with(' '));
        assert!(!once.contains("  "));
        assert!(once.chars().all(|c| !c.is_control() && (!c.is_whitespace() || c == ' ')));
    }
}

#[test]
fn tokens_are_alphabetic_and_longer_than_a_byte() {
    for t in tokenize("It's 2024: naïve café-goers ate 3 crêpes, a b c!") {
        assert!(t.len() > 1);
        assert!(t.chars().all(|c| c.is_alphabetic()));
    }
}

#[test]
fn chunk_text_without_words_needs_no_size() {
    assert!(chunk_text("", 0).is_empty());
    assert!(chunk_text(" \t\n", 0).is_empty());
}
