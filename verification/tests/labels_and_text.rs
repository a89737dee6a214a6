use toy_rnn::characters::get_character_set;
use toy_rnn::diagram::diagram_lines;
use toy_rnn::scene::{label_for, last_max_index, prediction_text, total_order_key};
use toy_rnn::text::{character_label, push_decimal, push_hex, TextAnchor};

#[test]
fn character_label_names_whitespace() {
    assert_eq!(character_label(' '), "space");
    assert_eq!(character_label('\n'), "\\n");
    assert_eq!(character_label('\r'), "\\r");
    assert_eq!(character_label('\t'), "\\t");
}

#[test]
fn character_label_keeps_printable_ascii() {
    assert_eq!(character_label('a'), "a");
    assert_eq!(character_label('Z'), "Z");
    assert_eq!(character_label('!'), "!");
    assert_eq!(character_label('~'), "~");
}

#[test]
fn character_label_gives_code_points_otherwise() {
    assert_eq!(character_label('\u{0}'), "U+00");
    assert_eq!(character_label('\u{1}'), "U+01");
    assert_eq!(character_label('\u{7f}'), "U+7F");
    assert_eq!(character_label('\u{80}'), "U+0080");
    assert_eq!(character_label('é'), "U+00E9");
    assert_eq!(character_label('\u{2603}'), "U+2603");
    assert_eq!(character_label('\u{1F600}'), "U+1F600");
    assert_eq!(character_label('\u{10FFFF}'), "U+10FFFF");
}

#[test]
fn character_label_matches_the_format_macro() {
    for code in (0u32..0x3000).chain(0x1F000..0x1F100) {
        let Some(c) = char::from_u32(code) else { continue };
        let expected = match c {
            ' ' => "space".to_string(),
            '\n' => "\\n".to_string(),
            '\r' => "\\r".to_string(),
            '\t' => "\\t".to_string(),
            c if c.is_ascii_graphic() => c.to_string(),
            c if c.is_ascii() => format!("U+{:02X}", c as u32),
            c => format!("U+{:04X}", c as u32),
        };
        assert_eq!(character_label(c), expected);
    }
}

#[test]
fn numerals_are_padded_and_unpadded() {
    let mut s = String::from("#");
    push_hex(&mut s, 0, 2);
    assert_eq!(s, "#00");
    let mut s = String::new();
    push_hex(&mut s, 0xABCDEF, 4);
    assert_eq!(s, "ABCDEF");
    let mut s = String::new();
    push_hex(&mut s, 0, 0);
    assert_eq!(s, "");
    let mut s = String::from("x");
    push_decimal(&mut s, 0);
    assert_eq!(s, "x0");
    let mut s = String::new();
    push_decimal(&mut s, 1234567890);
    assert_eq!(s, "1234567890");
}

#[test]
fn labels_fall_back_to_indices() {
    let characters = ['a', ' ', '\n'];
    assert_eq!(label_for(&characters, 0, 'x'), "a");
    assert_eq!(label_for(&characters, 1, 'x'), "space");
    assert_eq!(label_for(&characters, 2, 'y'), "\\n");
    assert_eq!(label_for(&characters, 3, 'x'), "x3");
    assert_eq!(label_for(&[], 12, 'y'), "y12");
}

#[test]
fn prediction_text_names_the_output() {
    assert_eq!(prediction_text(&['q', 'r'], 1), "Predicted: r");
    assert_eq!(prediction_text(&['q'], 4), "Predicted: y4");
}

#[test]
fn last_max_index_picks_the_last_of_equal_maxima() {
    assert_eq!(last_max_index(&[]), None);
    assert_eq!(last_max_index(&[5]), Some(0));
    assert_eq!(last_max_index(&[1, 3, 3, 2]), Some(2));
    assert_eq!(last_max_index(&[-4, -9, -4]), Some(2));
    assert_eq!(last_max_index(&[9, 1, 2]), Some(0));
    let keys = [2, 7, 1, 7, 7, 0];
    let expected = keys
        .iter()
        .enumerate()
        .max_by(|(_, a), (_, b)| a.cmp(b))
        .map(|(i, _)| i);
    assert_eq!(last_max_index(&keys), expected);
}

#[test]
fn character_set_holds_each_character_once() {
    let set = get_character_set("hello world\n");
    let mut sorted = set.clone();
    sorted.sort();
    assert_eq!(sorted, vec!['\n', ' ', 'd', 'e', 'h', 'l', 'o', 'r', 'w']);
    assert!(get_character_set("").is_empty());
    let unicode = get_character_set("ééa€a");
    assert_eq!(unicode.len(), 3);
    assert!(unicode.contains(&'€'));
}

#[test]
fn anchors_compare() {
    assert_eq!(TextAnchor::Left, TextAnchor::Left);
    assert_ne!(TextAnchor::Left, TextAnchor::Right);
    assert_ne!(TextAnchor::Center, TextAnchor::Right);
}

#[test]
fn distinct_characters_get_distinct_labels() {
    let mut labels = std::collections::HashSet::new();
    let mut count = 0;
    for code in (0u32..0x800).chain(0xFFF0..0x10010) {
        if let Some(c) = char::from_u32(code) {
            labels.insert(character_label(c));
            count += 1;
        }
    }
    assert_eq!(labels.len(), count);
}

#[test]
fn total_order_key_orders_as_total_cmp() {
    let values = [
        f32::NEG_INFINITY,
        -1.5e30,
        -2.0,
        -1.0,
        -f32::MIN_POSITIVE,
        -0.0,
        0.0,
        f32::MIN_POSITIVE,
        0.5,
        1.0,
        3.0e38,
        f32::INFINITY,
        f32::NAN,
        -f32::NAN,
    ];
    for a in values {
        for b in values {
            let keys = total_order_key(a.to_bits()).cmp(&total_order_key(b.to_bits()));
            assert_eq!(keys, a.total_cmp(&b));
        }
    }
    assert_eq!(total_order_key(0), 0);
    assert_eq!(total_order_key(0x8000_0000), -1);
    assert_eq!(total_order_key(0xFFFF_FFFF), i32::MIN);
    assert_eq!(total_order_key(0x7FFF_FFFF), i32::MAX);
}

#[test]
fn diagram_pads_every_column() {
    let columns = vec![
        ("In".to_string(), vec!["x0".to_string(), "x1".to_string()]),
        ("Out".to_string(), vec!["n0 out=1.0000".to_string()]),
    ];
    let lines = diagram_lines(&columns);
    let width = "n0 out=1.0000".len() + 4;
    let pad = |s: &str| format!("{:<width$}", s, width = width);
    assert_eq!(
        lines,
        vec![
            "Network".to_string(),
            "=======".to_string(),
            String::new(),
            format!("{}{}", pad("In"), pad("Out")),
            format!("{}{}", pad("--"), pad("---")),
            format!("{}{}", pad("x0"), pad("n0 out=1.0000")),
            format!("{}{}", pad("x1"), pad("")),
        ]
    );
}

#[test]
fn diagram_of_nothing_has_only_the_title() {
    let lines = diagram_lines(&Vec::new());
    assert_eq!(lines, vec!["Network".to_string(), "=======".to_string(), String::new(), String::new(), String::new()]);
}
