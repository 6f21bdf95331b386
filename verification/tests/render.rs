use animalsay::animalsay;
use animalsay::AnimalSay;

const COW: &str = "  \\   ^__^\n   \\  (oo)\\_______\n      (__)\\       )\\/\\\n          ||----w |\n          ||     ||";
const SHEEP: &str = "  \\  (__) \n   \\ (oo)\\_______\n      (__)\\       )\\/\\\n          ||----w |\n          ||     ||";
const DRAGON: &str = "  \\    \\=====\n   \\   (o  o)\n        |  ~|  \n       (_____)";
const CAT: &str = "  \\   /\\_/\\\n   \\  ( o.o )\n        > ^ <";

fn dashes(n: usize) -> String {
    "-".repeat(n)
}

#[test]
fn moo_cow() {
    let out = animalsay("Moo", "cow");
    let body = format!("| {:<40} |", "Moo");
    assert_eq!(body.len(), 44);
    let expected = format!(" {}\n{}\n{}", dashes(42), body, COW);
    assert_eq!(out, expected);
}

#[test]
fn empty_message_cow() {
    let out = animalsay("", "cow");
    let expected = format!(" \n\n{}", COW);
    assert_eq!(out, expected);
}

#[test]
fn whitespace_only_message() {
    let out = animalsay(" \t\u{b}\u{c}\r\n  ", "cat");
    let expected = format!(" \n\n{}", CAT);
    assert_eq!(out, expected);
}

#[test]
fn unicode_whitespace_separates_words() {
    let out = animalsay("a\u{a0}b", "cow");
    let body = format!("| {:<40} |", "a b");
    let expected = format!(" {}\n{}\n{}", dashes(42), body, COW);
    assert_eq!(out, expected);
}

#[test]
fn unicode_whitespace_only_message_is_empty_body() {
    let out = animalsay("\u{a0}\u{2028}\u{3000}\u{85}", "cow");
    let expected = format!(" \n\n{}", COW);
    assert_eq!(out, expected);
}

#[test]
fn render_invariant_under_separator_kind() {
    assert_eq!(animalsay("a b", "cow"), animalsay("a\u{a0}b", "cow"));
    assert_eq!(animalsay("a b", "cow"), animalsay(" a\u{2009}\u{200a}b ", "cow"));
}

#[test]
fn greedy_break_with_unicode_separator() {
    let renderer = AnimalSay::new("aaaa bb\u{a0}ccccc", "cow");
    let wrapped = renderer.wrap_message(10);
    let line1 = format!("| {:<10} |", "aaaa bb");
    let line2 = format!("| {:<10} |", "ccccc");
    assert_eq!(wrapped, format!("{}\n{}", line1, line2));
}

#[test]
fn long_word_with_trailing_unicode_separator() {
    let renderer = AnimalSay::new("ab\u{a0}", "cow");
    let wrapped = renderer.wrap_message(1);
    assert_eq!(wrapped, "| ab |");
}

#[test]
fn border_strips_carriage_return_of_crlf_first_line() {
    let renderer = AnimalSay::new("m", "cow");
    assert_eq!(renderer.create_border("abc\r\nd"), " -");
    // A carriage return not followed by a newline is part of the line.
    assert_eq!(renderer.create_border("abc\rd"), format!(" {}", dashes(3)));
}

#[test]
fn hello_world_unrecognized_key_falls_back_to_cow() {
    let out = animalsay("Hello world", "elephant");
    let body = format!("| {:<40} |", "Hello world");
    let expected = format!(" {}\n{}\n{}", dashes(42), body, COW);
    assert_eq!(out, expected);
}

#[test]
fn long_sentence_dragon() {
    let out = animalsay(
        "A very long sentence that definitely exceeds forty characters in total length",
        "dragon",
    );
    let line1 = format!("| {:<40} |", "A very long sentence that definitely");
    let line2 = format!("| {:<40} |", "exceeds forty characters in total length");
    assert_eq!(line1.len(), 44);
    assert_eq!(line2.len(), 44);
    let expected = format!(" {}\n{}\n{}\n{}", dashes(42), line1, line2, DRAGON);
    assert_eq!(out, expected);
}

#[test]
fn repeated_calls_identical() {
    let a = animalsay("same input twice", "sheep");
    let b = animalsay("same input twice", "sheep");
    assert_eq!(a, b);
}

#[test]
fn unrecognized_key_equals_cow_render() {
    let with_unknown = animalsay("Hi", "unicorn");
    let with_cow = animalsay("Hi", "cow");
    assert_eq!(with_unknown, with_cow);
}

#[test]
fn single_long_word_own_line_unsplit() {
    let word = "a".repeat(45);
    let out = animalsay(&word, "cow");
    let body = format!("| {} |", word);
    assert_eq!(body.len(), 49);
    let expected = format!(" {}\n{}\n{}", dashes(47), body, COW);
    assert_eq!(out, expected);
}

#[test]
fn message_of_exactly_wrap_width_is_one_line() {
    // 39 characters of word plus one separator fill the width exactly.
    let first = "x".repeat(39);
    let msg = format!("{} y", first);
    assert_eq!(msg.len(), 41);
    let renderer = AnimalSay::new(&msg, "cow");
    let wrapped = renderer.wrap_message(40);
    // The last word no longer fits: two lines.
    let line1 = format!("| {:<40} |", first);
    let line2 = format!("| {:<40} |", "y");
    assert_eq!(wrapped, format!("{}\n{}", line1, line2));
}

#[test]
fn short_message_wraps_to_one_line() {
    let renderer = AnimalSay::new("fits on one line", "cow");
    let wrapped = renderer.wrap_message(40);
    assert_eq!(wrapped, format!("| {:<40} |", "fits on one line"));
}

#[test]
fn consecutive_separators_collapse() {
    let renderer = AnimalSay::new("  two\t\twords  ", "cow");
    let wrapped = renderer.wrap_message(40);
    assert_eq!(wrapped, format!("| {:<40} |", "two words"));
}

#[test]
fn border_matches_first_line_width() {
    let renderer = AnimalSay::new("Moo", "cow");
    let wrapped = renderer.wrap_message(40);
    let border = renderer.create_border(&wrapped);
    assert_eq!(border, format!(" {}", dashes(42)));
}

#[test]
fn border_for_empty_body_is_a_single_space() {
    let renderer = AnimalSay::new("", "cow");
    let wrapped = renderer.wrap_message(40);
    assert_eq!(wrapped, "");
    let border = renderer.create_border(&wrapped);
    assert_eq!(border, " ");
}

#[test]
fn art_lookup_exact_matches() {
    assert_eq!(AnimalSay::new("m", "cow").get_animal_art(), COW);
    assert_eq!(AnimalSay::new("m", "sheep").get_animal_art(), SHEEP);
    assert_eq!(AnimalSay::new("m", "dragon").get_animal_art(), DRAGON);
    assert_eq!(AnimalSay::new("m", "cat").get_animal_art(), CAT);
}

#[test]
fn art_lookup_is_case_sensitive_and_falls_back() {
    assert_eq!(AnimalSay::new("m", "Cow").get_animal_art(), COW);
    assert_eq!(AnimalSay::new("m", "SHEEP").get_animal_art(), COW);
    assert_eq!(AnimalSay::new("m", "").get_animal_art(), COW);
}

#[test]
fn art_table_holds_the_four_animals_with_cow_first() {
    let table = AnimalSay::animal_art_map();
    assert_eq!(table.len(), 4);
    assert_eq!(table[0], ("cow", COW));
    assert_eq!(table[1], ("sheep", SHEEP));
    assert_eq!(table[2], ("dragon", DRAGON));
    assert_eq!(table[3], ("cat", CAT));
}

#[test]
fn new_keeps_message_and_animal() {
    let renderer = AnimalSay::new("hello", "cat");
    assert_eq!(renderer.message, "hello");
    assert_eq!(renderer.animal, "cat");
}

#[test]
fn say_equals_animalsay() {
    let renderer = AnimalSay::new("both paths agree", "dragon");
    assert_eq!(renderer.say(), animalsay("both paths agree", "dragon"));
}
