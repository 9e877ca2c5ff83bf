use ultimate_bf::filter::filter_instructions;

fn text_of(kept: &[char]) -> String {
    kept.iter().collect()
}

#[test]
fn empty_text_gives_an_empty_sequence() {
    assert_eq!(filter_instructions(""), Vec::<char>::new());
}

#[test]
fn noise_gives_an_empty_sequence() {
    assert_eq!(filter_instructions("hello world\n\t 123 (){}"), Vec::<char>::new());
    assert_eq!(filter_instructions("日本語 éñ"), Vec::<char>::new());
}

#[test]
fn symbols_are_kept_in_order() {
    assert_eq!(filter_instructions("a+b-c"), vec!['+', '-']);
    assert_eq!(filter_instructions("><+-.,[]"), vec!['>', '<', '+', '-', '.', ',', '[', ']']);
    assert_eq!(filter_instructions("][,.-+<>"), vec![']', '[', ',', '.', '-', '+', '<', '>']);
}

#[test]
fn comments_and_whitespace_are_dropped() {
    let text = "add two cells: [->+<]\n  print . # done, really";
    assert_eq!(text_of(&filter_instructions(text)), "[->+<].,");
    let cleaned = "set cell\n\t++ \r\n then loop [ - ]";
    assert_eq!(text_of(&filter_instructions(cleaned)), "++[-]");
}

#[test]
fn repeated_symbols_are_all_kept() {
    assert_eq!(text_of(&filter_instructions("+ + + x + +")), "+++++");
}

#[test]
fn wide_characters_do_not_disturb_the_symbols() {
    assert_eq!(filter_instructions("é+ñ[日本]"), vec!['+', '[', ']']);
}

#[test]
fn filtering_is_idempotent() {
    for text in ["", "abc", "a+b-c", "++[>+<-]. and , more", "><+-.,[]", "é+ñ[日本]"] {
        let once = filter_instructions(text);
        let twice = filter_instructions(&text_of(&once));
        assert_eq!(twice, once);
    }
}

#[test]
fn filtering_symbols_only_is_the_identity() {
    for text in ["+", "><+-.,[]", "++++++++[>++++++++<-]>+.", ",[.,]"] {
        assert_eq!(text_of(&filter_instructions(text)), text);
    }
}
