use ultimate_bf::alphabet::{
    decrement, increment, is_instruction, symbol_from_position, symbol_position, ALPHABET_SIZE,
};

const ORDER: [char; 8] = ['>', '<', '+', '-', '.', ',', '[', ']'];

#[test]
fn alphabet_has_eight_symbols() {
    assert_eq!(ALPHABET_SIZE, 8);
    for c in ORDER {
        assert!(is_instruction(c));
    }
}

#[test]
fn other_characters_are_not_instructions() {
    for c in [' ', 'a', 'Z', '0', '\n', '\t', '(', ')', '{', '}', '=', '*', '/', 'é', '日'] {
        assert!(!is_instruction(c));
    }
}

#[test]
fn increment_follows_the_cyclic_order() {
    assert_eq!(increment('>'), '<');
    assert_eq!(increment('<'), '+');
    assert_eq!(increment('+'), '-');
    assert_eq!(increment('-'), '.');
    assert_eq!(increment('.'), ',');
    assert_eq!(increment(','), '[');
    assert_eq!(increment('['), ']');
    assert_eq!(increment(']'), '>');
}

#[test]
fn decrement_follows_the_cyclic_order_backward() {
    assert_eq!(decrement(']'), '[');
    assert_eq!(decrement('['), ',');
    assert_eq!(decrement(','), '.');
    assert_eq!(decrement('.'), '-');
    assert_eq!(decrement('-'), '+');
    assert_eq!(decrement('+'), '<');
    assert_eq!(decrement('<'), '>');
    assert_eq!(decrement('>'), ']');
}

#[test]
fn steps_outside_the_alphabet_give_a_blank() {
    assert_eq!(increment('a'), ' ');
    assert_eq!(decrement('a'), ' ');
    assert_eq!(increment(' '), ' ');
    assert_eq!(decrement(' '), ' ');
}

#[test]
fn increment_and_decrement_are_inverse() {
    for c in ORDER {
        assert_eq!(decrement(increment(c)), c);
        assert_eq!(increment(decrement(c)), c);
    }
}

#[test]
fn eight_steps_come_back_to_the_start() {
    for c in ORDER {
        let mut forward = c;
        let mut backward = c;
        for turn in 1..=8 {
            forward = increment(forward);
            backward = decrement(backward);
            if turn < 8 {
                assert_ne!(forward, c);
                assert_ne!(backward, c);
            }
        }
        assert_eq!(forward, c);
        assert_eq!(backward, c);
    }
}

#[test]
fn the_alphabet_is_closed_under_both_steps() {
    for c in ORDER {
        assert!(is_instruction(increment(c)));
        assert!(is_instruction(decrement(c)));
    }
}

#[test]
fn positions_and_symbols_correspond() {
    for (place, c) in ORDER.iter().enumerate() {
        assert_eq!(symbol_position(*c), Some(place));
        assert_eq!(symbol_from_position(place), *c);
    }
    assert_eq!(symbol_position('x'), None);
    assert_eq!(symbol_position(' '), None);
}

#[test]
fn positions_are_counted_modulo_eight() {
    assert_eq!(symbol_from_position(8), '>');
    assert_eq!(symbol_from_position(9), '<');
    assert_eq!(symbol_from_position(15), ']');
    assert_eq!(symbol_from_position(usize::MAX), symbol_from_position(usize::MAX % 8));
}
