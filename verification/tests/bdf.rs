use bootcore::bdf::{load_bdf_to_mono_font, read_decimal, read_hex, BdfError, BLACK, GLYPHS_READ, MAX_CHARS, WHITE};
use bootcore::graphics::{CPUFrameBuffer, TextBuffer};

fn glyph(code: usize, size: &str, rows: &[&str]) -> String {
    let mut text = format!("STARTCHAR U+{:04X}\nENCODING {}\nSWIDTH 500 0\nDWIDTH 8 0\nBBX {}\nBITMAP\n", code, code, size);
    for row in rows {
        text.push_str(row);
        text.push('\n');
    }
    text.push_str("ENDCHAR\n");
    text
}

fn file(glyphs: usize) -> String {
    let mut text = String::from("STARTFONT 2.1\nFONT -test-mono\nSIZE 16 75 75\nFONTBOUNDINGBOX 16 2 0 -2\nCHARS 95\n");
    for index in 0..glyphs {
        text.push_str(&glyph(32 + index, "16 2 0 -2", &[&format!("{:04X}", index), "8001"]));
    }
    text.push_str("ENDFONT\n");
    text
}

fn pixels(bits: u16) -> Vec<u32> {
    (0..16).map(|i| if bits & (0x8000 >> i) != 0 { WHITE } else { BLACK }).collect()
}

fn error_of(text: &str) -> BdfError {
    match load_bdf_to_mono_font(text) {
        Ok(_) => panic!("a font was read"),
        Err(e) => e,
    }
}

#[test]
fn font_of_93_glyphs_is_read() {
    let font = load_bdf_to_mono_font(&file(93)).ok().unwrap();
    assert_eq!((font.width, font.height), (16, 2));
    assert_eq!(font.characters.len(), 94);
    assert_eq!(MAX_CHARS, 94);
    assert_eq!(GLYPHS_READ, 93);
    for index in 0..93usize {
        let mut expected = pixels(index as u16);
        expected.extend(pixels(0x8001));
        assert_eq!(font.characters[index], expected);
    }
    assert!(font.characters[93].is_empty());
}

fn many(size: &str, rows: &[&str], count: usize) -> String {
    (0..count).map(|index| glyph(33 + index, size, rows)).collect()
}

#[test]
fn pixels_are_white_where_a_bit_is_set() {
    let text = format!("{}{}", glyph(32, "16 1", &["A005"]), many("16 1", &["0000"], 92));
    let font = load_bdf_to_mono_font(&text).ok().unwrap();
    assert_eq!(
        font.characters[0],
        vec![
            WHITE, BLACK, WHITE, BLACK, BLACK, BLACK, BLACK, BLACK, BLACK, BLACK, BLACK, BLACK, BLACK, WHITE,
            BLACK, WHITE
        ]
    );
    assert_eq!(font.characters[1], vec![BLACK; 16]);
    assert_eq!(WHITE, 0x00ff_ffff);
    assert_eq!(BLACK, 0);
}

#[test]
fn glyphs_after_the_93rd_are_not_read() {
    let mut text = file(93);
    text.push_str("BITMAP\nnot a row\nENDCHAR\nBBX x y\n");
    assert!(load_bdf_to_mono_font(&text).is_ok());
    assert!(load_bdf_to_mono_font(&file(200)).is_ok());
}

#[test]
fn file_that_ends_early_is_incomplete() {
    assert_eq!(error_of(""), BdfError::Incomplete);
    assert_eq!(error_of("\n\n\n"), BdfError::Incomplete);
    assert_eq!(error_of(&file(0)), BdfError::Incomplete);
    assert_eq!(error_of(&file(92)), BdfError::Incomplete);
    let mut text = file(92);
    text.push_str("BBX 16 2\nBITMAP\n0000\n8001\n");
    assert_eq!(error_of(&text), BdfError::Incomplete);
}

#[test]
fn glyphs_of_different_size_are_not_monospaced() {
    let mut text = glyph(32, "16 2 0 -2", &["0000", "0000"]);
    text.push_str(&glyph(33, "16 1 0 -2", &["0000"]));
    assert_eq!(error_of(&text), BdfError::NotMonospaced);
    let mut text = glyph(32, "16 2 0 -2", &["0000", "0000"]);
    text.push_str("BBX 8 2\n");
    assert_eq!(error_of(&text), BdfError::NotMonospaced);
}

#[test]
fn size_must_be_decimal() {
    assert_eq!(error_of("BBX sixteen 2 0 0\n"), BdfError::DimensionNotInt);
    assert_eq!(error_of("BBX 16 0x2 0 0\n"), BdfError::DimensionNotInt);
    assert_eq!(error_of("BBX 16 2.0\n"), BdfError::DimensionNotInt);
    assert_eq!(error_of("BBX 9223372036854775808 2\n"), BdfError::DimensionNotInt);
    assert_eq!(error_of("BBX 16 -\n"), BdfError::DimensionNotInt);
    assert_eq!(error_of("BBX 16 2\u{e9}\n"), BdfError::DimensionNotInt);
}

#[test]
fn size_line_with_fewer_than_three_words_is_passed_over() {
    let mut text = String::from("BBX\nBBX 16\nBBX16 2\n   \n");
    text.push_str(&file(93));
    let font = load_bdf_to_mono_font(&text).ok().unwrap();
    assert_eq!((font.width, font.height), (16, 2));
}

#[test]
fn size_is_the_second_and_third_word_whatever_the_first() {
    let text = format!("BBXYZ\t+16 \x0c 1 trailing words\r\n{}", many("16 1", &["0000"], 93));
    let font = load_bdf_to_mono_font(&text).ok().unwrap();
    assert_eq!((font.width, font.height), (16, 1));
    assert_eq!(error_of(&format!(" BBX 8 1\n{}", many("16 1", &["0000"], 92))), BdfError::Incomplete);
    assert_eq!(error_of(&format!("BBX 8 1\n{}", many("16 1", &["0000"], 92))), BdfError::NotMonospaced);
}

#[test]
fn bitmap_must_have_width_times_height_pixels() {
    assert_eq!(error_of(&glyph(32, "16 2", &["0000"])), BdfError::BitmapWrongSize);
    assert_eq!(error_of(&glyph(32, "16 2", &["0000", "0000", "0000"])), BdfError::BitmapWrongSize);
    assert_eq!(error_of(&glyph(32, "8 2", &["00", "00"])), BdfError::BitmapWrongSize);
    assert_eq!(error_of(&glyph(32, "-16 1", &["0000"])), BdfError::BitmapWrongSize);
    assert_eq!(error_of(&glyph(32, "4294967296 4294967296", &[])), BdfError::BitmapWrongSize);
    assert_eq!(
        error_of(&glyph(32, "9223372036854775807 9223372036854775807", &["0000"])),
        BdfError::BitmapWrongSize
    );
    assert_eq!(error_of("BITMAP\n0000\nENDCHAR\n"), BdfError::BitmapWrongSize);
    assert_eq!(error_of("BITMAP\nENDCHAR\n"), BdfError::BitmapWrongSize);
}

#[test]
fn glyph_without_pixels_is_read() {
    let font = load_bdf_to_mono_font(&many("0 7", &[], 93)).ok().unwrap();
    assert_eq!((font.width, font.height), (0, 7));
    assert!(font.characters.iter().all(|glyph| glyph.is_empty()));
    assert_eq!(font.characters.len(), 94);
}

#[test]
fn sizes_below_zero_wrap_around() {
    let font = load_bdf_to_mono_font(&many("-16 -1", &["0000"], 93)).ok().unwrap();
    assert_eq!(font.width, (-16i64) as usize);
    assert_eq!(font.height, (-1i64) as usize);
    assert_eq!(font.characters[0].len(), 16);
}

#[test]
fn size_of_minus_one_counts_as_not_yet_given() {
    let text = format!("BBX -1 5\n{}", many("16 1", &["0000"], 93));
    let font = load_bdf_to_mono_font(&text).ok().unwrap();
    assert_eq!((font.width, font.height), (16, 1));
}

#[test]
fn bitmap_row_must_be_hexadecimal_of_16_bits() {
    for row in ["", "xyz", "0x10", "10000", " 0000", "0000 ", "-1", "+", "00\u{e9}", "BBX 16 1"] {
        assert_eq!(error_of(&format!("BBX 16 1\nBITMAP\n{}\nENDCHAR\n", row)), BdfError::BadBitmapLine);
    }
    for row in ["0", "ffff", "FFFF", "+00ff", "0000000000000000aBcD"] {
        assert_eq!(error_of(&format!("BBX 16 1\nBITMAP\n{}\nENDCHAR\n", row)), BdfError::Incomplete);
    }
}

#[test]
fn carriage_return_before_a_line_feed_belongs_to_the_line_end() {
    let text = file(93).replace('\n', "\r\n");
    let font = load_bdf_to_mono_font(&text).ok().unwrap();
    assert_eq!(font.characters[5][..16], pixels(5)[..]);
    assert_eq!(error_of("BBX 16 1\nBITMAP\n0000\r\r\nENDCHAR\n"), BdfError::BadBitmapLine);
    assert_eq!(error_of("BBX 16 1\nBITMAP\n0000\r"), BdfError::BadBitmapLine);
    assert_eq!(error_of("BBX 16 1\nBITMAP\n0000"), BdfError::Incomplete);
}

#[test]
fn last_line_needs_no_line_feed() {
    let text = file(93);
    let text = text.trim_end_matches("ENDFONT\n").trim_end_matches('\n');
    assert!(text.ends_with("ENDCHAR"));
    assert!(load_bdf_to_mono_font(text).is_ok());
}

#[test]
fn lines_between_glyphs_are_passed_over() {
    let mut text = String::from("COMMENT BITMAPS follow\nENDCHAR\n0000\nzzzz\n\n");
    text.push_str(&file(93));
    assert!(load_bdf_to_mono_font(&text).is_ok());
    assert_eq!(error_of("BITMAPPED\nENDCHARACTER\n"), BdfError::BitmapWrongSize);
}

#[test]
fn decimal_numbers_are_read_as_std_reads_them() {
    let words = [
        "", "+", "-", "0", "-0", "+0", "7", "+7", "-7", "0007", "16", "-16", "9223372036854775807",
        "9223372036854775808", "-9223372036854775808", "-9223372036854775809", "+9223372036854775807",
        "00000000000000000000000000000000000000012", "99999999999999999999999999", "1_000", "1 ", " 1", "1a",
        "a1", "--1", "+-1", "-+1", "1-", "1.5", "١٢", "é",
    ];
    for word in words {
        assert_eq!(read_decimal(word.as_bytes()), i64::from_str_radix(word, 10).ok(), "{:?}", word);
    }
    assert_eq!(read_decimal(b"-42"), Some(-42));
    assert_eq!(read_decimal(b"+42"), Some(42));
    assert_eq!(read_decimal(&[0xff, 0x31]), None);
}

#[test]
fn hexadecimal_numbers_are_read_as_std_reads_them() {
    let lines = [
        "", "+", "-", "0", "+0", "-0", "f", "F", "ff", "FFFF", "ffff", "10000", "0ffff", "00000000ffff",
        "00000001ffff", "g", "0x10", "+ff", "-ff", "++1", "aBcD", "ABCDE", " ff", "ff ", "f_f", "١", "é",
    ];
    for line in lines {
        assert_eq!(read_hex(line.as_bytes()), u16::from_str_radix(line, 16).ok(), "{:?}", line);
    }
    assert_eq!(read_hex(b"8001"), Some(0x8001));
    assert_eq!(read_hex(b"aF"), Some(0xaf));
}

#[test]
fn text_is_drawn_with_a_font_that_was_read() {
    let font = load_bdf_to_mono_font(&file(93)).ok().unwrap();
    let mut text = TextBuffer::new(1, 2, "  ").unwrap();
    assert_eq!(text.write_str("!#"), Ok(()));
    let mut fb = CPUFrameBuffer { width: 40, height: 4, stride: 40, buffer: vec![7; 160] };
    assert_eq!(text.write_pixels(&mut fb, &font, (2, 1)), Ok(()));
    let mut row_one = vec![7u32; 2];
    row_one.extend(pixels(1));
    row_one.extend(pixels(3));
    row_one.extend(vec![7u32; 6]);
    let mut row_two = vec![7u32; 2];
    row_two.extend(pixels(0x8001));
    row_two.extend(pixels(0x8001));
    row_two.extend(vec![7u32; 6]);
    assert_eq!(fb.buffer[0..40], vec![7u32; 40][..]);
    assert_eq!(fb.buffer[40..80], row_one[..]);
    assert_eq!(fb.buffer[80..120], row_two[..]);
    assert_eq!(fb.buffer[120..160], vec![7u32; 40][..]);
}

#[test]
fn bdf_messages_name_each_failure() {
    assert_eq!(BdfError::DimensionNotInt.message(), "Couldn't parse dimension as int");
    assert_eq!(BdfError::NotMonospaced.message(), "not monospaced");
    assert_eq!(BdfError::BitmapWrongSize.message(), "A bitmap was the wrong size");
    assert_eq!(BdfError::BadBitmapLine.message(), "Failed to parse the bits of this line");
    assert_eq!(BdfError::Incomplete.message(), "For some reason, the font failed to be parsed");
}
