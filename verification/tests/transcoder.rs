use ultimate_bf::alphabet::{decrement, increment};
use ultimate_bf::transcoder::{
    cipher_shift, convert_to_brainfuck, convert_to_ultimate_brainfuck, transcode, Direction,
};

fn symbols_of(text: &str) -> Vec<char> {
    text.chars().collect()
}

#[test]
fn two_pluses_encode_to_plus_minus() {
    assert_eq!(convert_to_ultimate_brainfuck(&symbols_of("++")), "+-");
}

#[test]
fn plus_minus_decodes_to_two_pluses() {
    assert_eq!(convert_to_brainfuck(&symbols_of("+-")), "++");
}

#[test]
fn the_empty_sequence_transcodes_to_nothing() {
    assert_eq!(convert_to_ultimate_brainfuck(&[]), "");
    assert_eq!(convert_to_brainfuck(&[]), "");
    assert_eq!(transcode(&[], Direction::Encode), "");
    assert_eq!(transcode(&[], Direction::Decode), "");
}

#[test]
fn the_first_symbol_is_never_shifted() {
    for c in ['>', '<', '+', '-', '.', ',', '[', ']'] {
        assert_eq!(convert_to_ultimate_brainfuck(&[c]), c.to_string());
        assert_eq!(convert_to_brainfuck(&[c]), c.to_string());
    }
}

#[test]
fn encoding_shifts_each_symbol_by_its_position() {
    assert_eq!(convert_to_ultimate_brainfuck(&symbols_of("[-]>+<.")), "[.<-[[+");
    assert_eq!(convert_to_ultimate_brainfuck(&symbols_of(">>>>>>>>")), "><+-.,[]");
    assert_eq!(convert_to_ultimate_brainfuck(&symbols_of(">>>>>>>>>>")), "><+-.,[]><");
}

#[test]
fn decoding_shifts_each_symbol_back_by_its_position() {
    assert_eq!(convert_to_brainfuck(&symbols_of("[.<-[[+")), "[-]>+<.");
    assert_eq!(convert_to_brainfuck(&symbols_of("><+-.,[]")), ">>>>>>>>");
    assert_eq!(convert_to_brainfuck(&symbols_of(">>>>")), ">][,");
}

#[test]
fn output_is_as_long_as_input() {
    let source = symbols_of("++[>+++[>++<-]<-]>>.,<<[-]");
    assert_eq!(convert_to_ultimate_brainfuck(&source).chars().count(), source.len());
    assert_eq!(convert_to_brainfuck(&source).chars().count(), source.len());
}

#[test]
fn decode_undoes_encode() {
    for text in ["", "+", "++", "[-]", "><+-.,[]", "++++++++[>++++++++<-]>+.", ",[.,]"] {
        let source = symbols_of(text);
        let encoded = symbols_of(&convert_to_ultimate_brainfuck(&source));
        assert_eq!(convert_to_brainfuck(&encoded), text);
    }
}

#[test]
fn encode_undoes_decode() {
    for text in ["", "-", "+-", "].[", "][,.-+<>", "++++++++[>++++++++<-]>+.", ",[.,]"] {
        let source = symbols_of(text);
        let decoded = symbols_of(&convert_to_brainfuck(&source));
        assert_eq!(convert_to_ultimate_brainfuck(&decoded), text);
    }
}

#[test]
fn round_trip_holds_for_a_long_sequence() {
    let pattern = symbols_of("+[>,.<-]");
    let mut source: Vec<char> = Vec::new();
    for k in 0..1000 {
        source.push(pattern[(k * 7 + k / 3) % pattern.len()]);
    }
    let encoded = symbols_of(&convert_to_ultimate_brainfuck(&source));
    let decoded = symbols_of(&convert_to_brainfuck(&encoded));
    assert_eq!(decoded, source);
    let back = symbols_of(&convert_to_ultimate_brainfuck(&symbols_of(&convert_to_brainfuck(&source))));
    assert_eq!(back, source);
}

#[test]
fn the_same_symbol_differs_by_position() {
    let encoded = symbols_of(&convert_to_ultimate_brainfuck(&symbols_of("++++++++++++++++")));
    for first in 0..16 {
        for second in 0..16 {
            assert_eq!(encoded[first] == encoded[second], first % 8 == second % 8);
        }
    }
}

#[test]
fn positions_eight_apart_encode_alike() {
    let encoded = symbols_of(&convert_to_ultimate_brainfuck(&symbols_of("+-------+")));
    assert_eq!(encoded[0], '+');
    assert_eq!(encoded[8], '+');
    let decoded = symbols_of(&convert_to_brainfuck(&symbols_of("+-------+")));
    assert_eq!(decoded[0], '+');
    assert_eq!(decoded[8], '+');
}

#[test]
fn position_counting_ignores_brackets_and_symbol_values() {
    assert_eq!(convert_to_ultimate_brainfuck(&symbols_of("[[[[")), "[]><");
    assert_eq!(convert_to_ultimate_brainfuck(&symbols_of("]]]]")), "]><+");
}

#[test]
fn cipher_shift_gives_exact_symbols() {
    assert_eq!(cipher_shift('>', 0, Direction::Encode), '>');
    assert_eq!(cipher_shift('>', 3, Direction::Encode), '-');
    assert_eq!(cipher_shift('>', 3, Direction::Decode), ',');
    assert_eq!(cipher_shift(']', 1, Direction::Encode), '>');
    assert_eq!(cipher_shift('>', 1, Direction::Decode), ']');
    assert_eq!(cipher_shift('+', 8, Direction::Encode), '+');
    assert_eq!(cipher_shift('+', 9, Direction::Encode), '-');
    assert_eq!(cipher_shift('+', 9, Direction::Decode), '<');
    assert_eq!(cipher_shift('.', 11, Direction::Decode), '<');
}

#[test]
fn cipher_shift_is_repeated_stepping() {
    for c in ['>', '<', '+', '-', '.', ',', '[', ']', 'x'] {
        let mut forward = c;
        let mut backward = c;
        for count in 0..40 {
            assert_eq!(cipher_shift(c, count, Direction::Encode), forward);
            assert_eq!(cipher_shift(c, count, Direction::Decode), backward);
            forward = increment(forward);
            backward = decrement(backward);
        }
    }
}

#[test]
fn cipher_shift_takes_the_largest_count() {
    assert_eq!(cipher_shift('>', usize::MAX, Direction::Encode), cipher_shift('>', usize::MAX % 8, Direction::Encode));
    assert_eq!(cipher_shift('>', usize::MAX, Direction::Decode), cipher_shift('>', usize::MAX % 8, Direction::Decode));
}

#[test]
fn characters_outside_the_alphabet_become_blanks_once_shifted() {
    assert_eq!(cipher_shift('a', 0, Direction::Encode), 'a');
    assert_eq!(cipher_shift('a', 0, Direction::Decode), 'a');
    assert_eq!(cipher_shift('a', 5, Direction::Encode), ' ');
    assert_eq!(cipher_shift('a', 8, Direction::Decode), ' ');
    assert_eq!(convert_to_ultimate_brainfuck(&symbols_of("a+b")), "a- ");
}

#[test]
fn named_converters_are_the_two_directions() {
    let source = symbols_of("+[->+<]>.");
    assert_eq!(convert_to_ultimate_brainfuck(&source), transcode(&source, Direction::Encode));
    assert_eq!(convert_to_brainfuck(&source), transcode(&source, Direction::Decode));
}
