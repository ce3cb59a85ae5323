use lumatone_viz::lumatone::{
    hex_digit_to_num, parse_color, parse_value, Board, Entry, Field, Layout, ParseError, Rgb,
    Section,
};

/// A complete, well-formed layout file: five boards, each with all 56 keys.
fn full_file() -> String {
    let mut s = String::new();
    for b in 0..5 {
        s.push_str(&format!("[Board{b}]\n"));
        for i in 0..56 {
            s.push_str(&format!("Key_{i}={}\n", (b * 7 + i) % 128));
            s.push_str(&format!("Chan_{i}={}\n", b));
            s.push_str(&format!("Col_{i}=00FF{:02X}\n", i));
        }
    }
    s
}

#[test]
fn parses_a_full_layout() {
    let l = Layout::parse(full_file().as_bytes()).unwrap();
    assert_eq!(l.boards.len(), 5);
    for b in 0..5 {
        assert_eq!(l.boards[b].keys.len(), 56);
        for i in 0..56 {
            let k = l.boards[b].keys[i];
            assert_eq!(k.midi_note as usize, (b * 7 + i) % 128);
            assert_eq!(k.midi_chan as usize, b);
            assert_eq!(k.color, Rgb { r: 0, g: 0xff, b: i as u8 });
        }
    }
}

#[test]
fn tolerates_crlf_blank_lines_junk_and_whitespace() {
    let s = full_file()
        .replace("[Board2]\n", "junk line\n\n[Ignored]\nKey_0=99\n[Board2]\r\n")
        .replace("Key_3=", "  Key_3\t = \t")
        .replace("Chan_4=", "Chan_4 = ")
        .replace("Key_9=", "Key_9=\x0b+00")
        .replace("Col_11=", "Col_11= \x0c");
    let l = Layout::parse(s.as_bytes()).unwrap();
    assert_eq!(l.boards[2].keys[3].midi_note, 2 * 7 + 3);
    assert_eq!(l.boards[2].keys[4].midi_chan, 2);
    // "\x0b+00" prefixed every Key_9 value: vertical tab trimmed, plus and
    // zero padding accepted
    assert_eq!(l.boards[0].keys[9].midi_note, 9);
    assert_eq!(l.boards[3].keys[11].color, Rgb { r: 0, g: 0xff, b: 11 });
}

#[test]
fn later_entry_and_later_section_win() {
    let mut s = full_file();
    // a later duplicate entry replaces the earlier one
    s.push_str("[Board1]\n");
    for i in 0..56 {
        s.push_str(&format!("Key_{i}=1\nChan_{i}=1\nCol_{i}=101010\nKey_{i}=2\n"));
    }
    let l = Layout::parse(s.as_bytes()).unwrap();
    assert_eq!(l.boards[1].keys[0].midi_note, 2);
    assert_eq!(l.boards[1].keys[0].color, Rgb { r: 0x10, g: 0x10, b: 0x10 });
    // the other boards are untouched
    assert_eq!(l.boards[0].keys[0].midi_note, 0);
}

#[test]
fn missing_section_is_the_first_error() {
    let s = full_file().replace("[Board3]", "[Board9]");
    assert_eq!(
        Layout::parse(s.as_bytes()),
        Err(ParseError::MissingSection { board: 3 })
    );
}

#[test]
fn missing_entry_names_field_and_index() {
    let s = full_file().replace("Chan_17=4\n", "");
    assert_eq!(
        Layout::parse(s.as_bytes()),
        Err(ParseError::MissingEntry { field: Field::Chan, index: 17 })
    );
}

#[test]
fn non_canonical_index_is_not_recognized() {
    // "Key_07" never matches key 7, so key 7's note is missing
    let s = full_file().replace("Key_7=", "Key_07=");
    assert_eq!(
        Layout::parse(s.as_bytes()),
        Err(ParseError::MissingEntry { field: Field::Note, index: 7 })
    );
}

#[test]
fn out_of_range_note_and_channel_are_rejected() {
    let s = full_file().replace("Key_5=5\n", "Key_5=128\n");
    assert_eq!(
        Layout::parse(s.as_bytes()),
        Err(ParseError::BadNumber { field: Field::Note, index: 5 })
    );
    let s = full_file().replace("Chan_5=0\n", "Chan_5=16\n");
    assert_eq!(
        Layout::parse(s.as_bytes()),
        Err(ParseError::BadNumber { field: Field::Chan, index: 5 })
    );
}

#[test]
fn bad_color_bytes_are_rejected() {
    let s = full_file().replace("Col_9=00FF09\n", "Col_9=00FG09\n");
    assert_eq!(
        Layout::parse(s.as_bytes()),
        Err(ParseError::BadHexDigit { digit: b'G' })
    );
    let s = full_file().replace("Col_9=00FF09\n", "Col_9=00FF0\n");
    assert_eq!(Layout::parse(s.as_bytes()), Err(ParseError::BadColor));
}

#[test]
fn from_section_builds_a_board() {
    let mut entries = Vec::new();
    for i in 0..56 {
        entries.push(Entry { field: Field::Note, index: i, value: b"60".to_vec() });
        entries.push(Entry { field: Field::Chan, index: i, value: b"3".to_vec() });
        entries.push(Entry { field: Field::Col, index: i, value: b"a1B2c3".to_vec() });
    }
    let b = Board::from_section(&Section { entries }).unwrap();
    assert_eq!(b.keys.len(), 56);
    assert_eq!(b.keys[55].midi_note, 60);
    assert_eq!(b.keys[55].midi_chan, 3);
    assert_eq!(b.keys[55].color, Rgb { r: 0xa1, g: 0xb2, b: 0xc3 });
}

#[test]
fn from_section_reports_first_failing_key() {
    let mut entries = Vec::new();
    for i in 1..56 {
        entries.push(Entry { field: Field::Note, index: i, value: b"60".to_vec() });
    }
    assert_eq!(
        Board::from_section(&Section { entries }),
        Err(ParseError::MissingEntry { field: Field::Note, index: 0 })
    );
}

#[test]
fn color_parsing_is_exact() {
    assert_eq!(parse_color(b"000000"), Ok(Rgb { r: 0, g: 0, b: 0 }));
    // whitespace around the six digits is trimmed
    assert_eq!(parse_color(b"FF8000 "), Ok(Rgb { r: 255, g: 128, b: 0 }));
    assert_eq!(parse_color(b" FF8000"), Ok(Rgb { r: 255, g: 128, b: 0 }));
    assert_eq!(parse_color(b"\tFF8000\t "), Ok(Rgb { r: 255, g: 128, b: 0 }));
    // but an eight-byte value drops its alpha pair before the trim
    assert_eq!(parse_color(b" FF8000 "), Err(ParseError::BadColor));
    assert_eq!(parse_color(b"FFffFF"), Ok(Rgb { r: 255, g: 255, b: 255 }));
    assert_eq!(parse_color(b"123abc"), Ok(Rgb { r: 0x12, g: 0x3a, b: 0xbc }));
    // an eight-byte value drops the leading alpha pair
    assert_eq!(parse_color(b"ZZ123abc"), Ok(Rgb { r: 0x12, g: 0x3a, b: 0xbc }));
    assert_eq!(parse_color(b""), Err(ParseError::BadColor));
    assert_eq!(parse_color(b"1234567"), Err(ParseError::BadColor));
    assert_eq!(parse_color(b"12345g"), Err(ParseError::BadHexDigit { digit: b'g' }));
}

#[test]
fn hex_digits_are_exact() {
    assert_eq!(hex_digit_to_num(b'0'), Ok(0));
    assert_eq!(hex_digit_to_num(b'9'), Ok(9));
    assert_eq!(hex_digit_to_num(b'a'), Ok(10));
    assert_eq!(hex_digit_to_num(b'f'), Ok(15));
    assert_eq!(hex_digit_to_num(b'A'), Ok(10));
    assert_eq!(hex_digit_to_num(b'F'), Ok(15));
    assert_eq!(hex_digit_to_num(b'g'), Err(ParseError::BadHexDigit { digit: b'g' }));
    assert_eq!(hex_digit_to_num(b' '), Err(ParseError::BadHexDigit { digit: b' ' }));
}

#[test]
fn decimal_values_respect_their_field_maximum() {
    assert_eq!(parse_value(b"0", 127), Some(0));
    assert_eq!(parse_value(b"060", 127), Some(60));
    // zero padding of any length and one leading plus sign are accepted
    assert_eq!(parse_value(b"0000060", 127), Some(60));
    assert_eq!(parse_value(b"+60", 127), Some(60));
    assert_eq!(parse_value(b"+0015", 15), Some(15));
    assert_eq!(parse_value(b"+", 127), None);
    assert_eq!(parse_value(b"++6", 127), None);
    assert_eq!(parse_value(b"0256", 255), None);
    assert_eq!(parse_value(b"127", 127), Some(127));
    assert_eq!(parse_value(b"128", 127), None);
    assert_eq!(parse_value(b"15", 15), Some(15));
    assert_eq!(parse_value(b"16", 15), None);
    assert_eq!(parse_value(b"", 127), None);
    assert_eq!(parse_value(b"1000", 127), None);
    assert_eq!(parse_value(b"6a", 127), None);
    assert_eq!(parse_value(b"-1", 127), None);
}

#[test]
fn empty_input_misses_board_zero() {
    assert_eq!(
        Layout::parse(b""),
        Err(ParseError::MissingSection { board: 0 })
    );
}
