use uat_runner::text::{
    read_decimal, remove_prefix, remove_text_prefix, same_chars, spells_decimal, split_ranges,
    to_chars,
};

fn chars(s: &str) -> Vec<char> {
    s.chars().collect()
}

fn pieces(s: &str, sep: char) -> Vec<String> {
    let all = chars(s);
    split_ranges(&all, sep)
        .into_iter()
        .map(|(from, to)| all[from..to].iter().collect::<String>())
        .collect()
}

fn decimal(s: &str, max: u32) -> Option<u32> {
    read_decimal(&chars(s), max)
}

#[test]
fn to_chars_keeps_every_character_in_order() {
    assert_eq!(to_chars(""), Vec::<char>::new());
    assert_eq!(to_chars("cl-5"), vec!['c', 'l', '-', '5']);
    assert_eq!(to_chars("é5"), vec!['é', '5']);
}

#[test]
fn same_chars_compares_length_and_content() {
    assert!(same_chars(&chars("latest"), &chars("latest")));
    assert!(!same_chars(&chars("latest"), &chars("lates")));
    assert!(!same_chars(&chars("latest"), &chars("Latest")));
    assert!(same_chars(&chars(""), &chars("")));
}

#[test]
fn remove_prefix_gives_the_rest() {
    let all = chars("cl-500");
    let rest = remove_prefix(&all, &chars("cl-"));
    assert_eq!(rest, Some(&all[3..]));
    assert_eq!(remove_prefix(&all, &chars("")), Some(&all[..]));
    assert_eq!(remove_prefix(&all, &all), Some(&all[6..]));
}

#[test]
fn remove_prefix_refuses_what_does_not_start_with_it() {
    let all = chars("cl-500");
    assert_eq!(remove_prefix(&all, &chars("CL-")), None);
    assert_eq!(remove_prefix(&all, &chars("cl-5000")), None);
    assert_eq!(remove_prefix(&chars(""), &chars("c")), None);
}

#[test]
fn remove_text_prefix_agrees_with_str_strip_prefix() {
    let texts = ["UE_5.4", "UE_", "UE", "ue_5.4", "xUE_5.4", "", "UE_é", "éUE_"];
    let prefixes = ["UE_", "", "U", "é", "UE_5.4"];
    for text in texts {
        for prefix in prefixes {
            assert_eq!(remove_text_prefix(text, prefix), text.strip_prefix(prefix));
        }
    }
}

#[test]
fn split_of_a_text_without_separator_is_the_text() {
    assert_eq!(pieces("5", '.'), vec!["5"]);
    assert_eq!(pieces("", '.'), vec![""]);
}

#[test]
fn split_keeps_empty_pieces() {
    assert_eq!(pieces("5.4.1", '.'), vec!["5", "4", "1"]);
    assert_eq!(pieces("5..1", '.'), vec!["5", "", "1"]);
    assert_eq!(pieces(".", '.'), vec!["", ""]);
    assert_eq!(pieces("5.", '.'), vec!["5", ""]);
    assert_eq!(pieces(".5", '.'), vec!["", "5"]);
}

#[test]
fn split_ranges_are_positions_in_characters() {
    let all = chars("é+5.4");
    assert_eq!(split_ranges(&all, '+'), vec![(0, 1), (2, 5)]);
}

#[test]
fn split_agrees_with_str_split() {
    let alphabet = ['a', '+', '.'];
    let mut texts: Vec<String> = vec![String::new()];
    for _ in 0..5 {
        let mut longer = Vec::new();
        for text in &texts {
            for c in alphabet {
                let mut next = text.clone();
                next.push(c);
                longer.push(next);
            }
        }
        for text in &longer {
            let expected: Vec<String> = text.split('+').map(|p| p.to_string()).collect();
            assert_eq!(pieces(text, '+'), expected);
        }
        texts = longer;
    }
}

#[test]
fn split_pieces_joined_are_the_text_again() {
    for text in ["5.4.1+5.3.0", "+", "", "a++b+", "latest"] {
        let joined = pieces(text, '+').join("+");
        assert_eq!(joined, text);
        assert!(pieces(text, '+').iter().all(|p| !p.contains('+')));
    }
}

#[test]
fn read_decimal_reads_plain_digits() {
    assert_eq!(decimal("0", 255), Some(0));
    assert_eq!(decimal("5", 255), Some(5));
    assert_eq!(decimal("42", 255), Some(42));
    assert_eq!(decimal("255", 255), Some(255));
    assert_eq!(decimal("500", u32::MAX), Some(500));
    assert_eq!(decimal("4294967295", u32::MAX), Some(4294967295));
}

#[test]
fn read_decimal_accepts_a_plus_sign_and_leading_zeros() {
    assert_eq!(decimal("+5", 255), Some(5));
    assert_eq!(decimal("005", 255), Some(5));
    assert_eq!(decimal("+000255", 255), Some(255));
    assert_eq!(decimal("0000000000000000000000000001", 255), Some(1));
}

#[test]
fn read_decimal_refuses_numbers_above_the_limit() {
    assert_eq!(decimal("256", 255), None);
    assert_eq!(decimal("300", 255), None);
    assert_eq!(decimal("4294967296", u32::MAX), None);
    assert_eq!(decimal("99999999999999999999999999999999", u32::MAX), None);
    assert_eq!(decimal("6", 5), None);
}

#[test]
fn read_decimal_refuses_what_is_no_number() {
    let texts = [
        "", "+", "-", "-5", "++5", "5+", " 5", "5 ", "5a", "a", "abc", "5.4", "1_0", "٣", "0x10",
    ];
    for text in texts {
        assert_eq!(decimal(text, u32::MAX), None, "{:?}", text);
    }
}

#[test]
fn read_decimal_agrees_with_u8_parse() {
    let alphabet = ['0', '1', '2', '5', '9', '+', '-', 'x', ' '];
    let mut texts: Vec<String> = vec![String::new()];
    for _ in 0..4 {
        let mut longer = Vec::new();
        for text in &texts {
            for c in alphabet {
                let mut next = text.clone();
                next.push(c);
                longer.push(next);
            }
        }
        for text in &longer {
            let expected = text.parse::<u8>().ok().map(|n| n as u32);
            assert_eq!(decimal(text, 255), expected, "{:?}", text);
        }
        texts = longer;
    }
    assert_eq!(decimal("", 255), "".parse::<u8>().ok().map(|n| n as u32));
}

#[test]
fn read_decimal_agrees_with_u32_parse() {
    let texts = [
        "0", "00", "4294967295", "4294967296", "+4294967295", "04294967295", "42949672950",
        "1000000000", "3999999999", "9999999999", "-1", "+", "",
    ];
    for text in texts {
        assert_eq!(decimal(text, u32::MAX), text.parse::<u32>().ok(), "{:?}", text);
    }
}

#[test]
fn spells_decimal_accepts_numbers_of_any_size() {
    for text in ["0", "5", "+5", "005", "256", "4294967296", "99999999999999999999999999999999"] {
        assert!(spells_decimal(&chars(text)), "{:?}", text);
    }
    for text in ["", "+", "-5", "5a", " 5", "5.4", "++5", "x"] {
        assert!(!spells_decimal(&chars(text)), "{:?}", text);
    }
}
