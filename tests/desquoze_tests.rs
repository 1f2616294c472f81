use squoze::charmap::{char_to_value, value_to_char};
use squoze::{desquoze, squoze};

#[test]
fn test_desquoze() {
    assert_eq!("".to_string(), desquoze(vec![]));
    assert_eq!("   ".to_string(), desquoze(vec![0]));
    assert_eq!("  0".to_string(), desquoze(vec![1]));
    assert_eq!("  A".to_string(), desquoze(vec![11]));
    assert_eq!("  %".to_string(), desquoze(vec![39]));
    assert_eq!(" AB".to_string(), desquoze(vec![452]));
    assert_eq!("ABC".to_string(), desquoze(vec![18093]));
    assert_eq!("  HELL".to_string(), desquoze(vec![18, 24902]));
}

#[test]
fn desquoze_gives_three_characters_per_word() {
    assert_eq!(desquoze(vec![0, 1, 2, 3]).chars().count(), 12);
    assert_eq!(desquoze(vec![63999]), "%%%".to_string());
    assert_eq!(desquoze(vec![64000]), "   ".to_string());
    assert_eq!(desquoze(vec![65535]), " $E".to_string());
}

#[test]
fn value_to_char_is_right_inverse_of_char_to_value() {
    for v in 0u8..40 {
        assert_eq!(char_to_value(value_to_char(v)), v);
    }
    assert_eq!(value_to_char(40), ' ');
    assert_eq!(value_to_char(255), ' ');
}

#[test]
fn char_table_values() {
    assert_eq!(char_to_value('0'), 1);
    assert_eq!(char_to_value('9'), 10);
    assert_eq!(char_to_value('a'), 11);
    assert_eq!(char_to_value('Z'), 36);
    assert_eq!(char_to_value(' '), 0);
    assert_eq!(char_to_value('\u{a0}'), 0);
    assert_eq!(char_to_value('#'), 0);
    assert_eq!(value_to_char(1), '0');
    assert_eq!(value_to_char(36), 'Z');
    assert_eq!(value_to_char(37), '.');
}

#[test]
fn round_trip_pads_and_normalizes() {
    assert_eq!(desquoze(squoze("ABC123")), "ABC123".to_string());
    assert_eq!(desquoze(squoze("hello")), " HELLO".to_string());
    assert_eq!(desquoze(squoze("a;b")), "A B".to_string());
}

#[test]
fn round_trip_can_lose_information() {
    let s = "abc";
    assert_ne!(desquoze(squoze(s)), s.to_string());
}

#[test]
fn empty_input_gives_empty_output() {
    assert!(squoze("").is_empty());
    assert!(desquoze(Vec::new()).is_empty());
}
