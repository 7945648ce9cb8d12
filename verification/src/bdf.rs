//! Reading a bitmap font in the BDF text format, as far as a monospaced
//! font of 16-bit wide bitmap rows needs it.
//!
//! Of a file only three kinds of lines count. A line that starts with `BBX`
//! gives the width and height of a glyph, a line that starts with `BITMAP`
//! opens the rows of a glyph, one hexadecimal number each, and a line that
//! starts with `ENDCHAR` closes them.

use vstd::prelude::*;
use vstd::slice::slice_subrange;
use vstd::string::StringSliceAdditionalSpecFns;
use crate::graphics::MonoFont;

verus! {

/// A pixel that is set.
pub const WHITE: u32 = 0x00ff_ffff;

/// A pixel that is not set.
pub const BLACK: u32 = 0;

/// Number of glyphs in a font: one for each character from 32 to 125.
pub const MAX_CHARS: usize = 94;

/// Number of glyphs that are read from a file. The last glyph of a font
/// stays empty.
pub const GLYPHS_READ: usize = 93;

/// Why a file gave no font.
#[derive(Clone, Copy, Debug, PartialEq, Eq, Structural)]
pub enum BdfError {
    /// A width or height after `BBX` is not a decimal number.
    DimensionNotInt,
    /// Two glyphs differ in width or height.
    NotMonospaced,
    /// A glyph does not have width times height pixels.
    BitmapWrongSize,
    /// A bitmap row is not a hexadecimal number of 16 bits.
    BadBitmapLine,
    /// The file ended before all glyphs were read.
    Incomplete,
}

impl BdfError {
    /// The text that `message` returns for each variant.
    pub open spec fn message_text(self) -> Seq<char> {
        match self {
            Self::DimensionNotInt => "Couldn't parse dimension as int"@,
            Self::NotMonospaced => "not monospaced"@,
            Self::BitmapWrongSize => "A bitmap was the wrong size"@,
            Self::BadBitmapLine => "Failed to parse the bits of this line"@,
            Self::Incomplete => "For some reason, the font failed to be parsed"@,
        }
    }

    /// A human-readable description of the failure.
    pub fn message(&self) -> (text: &'static str)
        ensures
            text@ == self.message_text(),
    {
        match self {
            Self::DimensionNotInt => "Couldn't parse dimension as int",
            Self::NotMonospaced => "not monospaced",
            Self::BitmapWrongSize => "A bitmap was the wrong size",
            Self::BadBitmapLine => "Failed to parse the bits of this line",
            Self::Incomplete => "For some reason, the font failed to be parsed",
        }
    }
}

/// The index of the first line feed of `bytes` at or after `from`, or the
/// length of `bytes` where there is none.
pub open spec fn line_feed_from(bytes: Seq<u8>, from: int) -> int
    decreases bytes.len() - from,
{
    if from >= bytes.len() {
        bytes.len() as int
    } else if bytes[from] == 10 {
        from
    } else {
        line_feed_from(bytes, from + 1)
    }
}

/// The line that starts at `pos`: what stands before the next line feed,
/// without a carriage return that ends it. The last line of a file needs no
/// line feed, and keeps a carriage return at its end.
pub open spec fn line_at(bytes: Seq<u8>, pos: int) -> Seq<u8> {
    let end = line_feed_from(bytes, pos);
    if end < bytes.len() && pos < end && bytes[end - 1] == 13 {
        bytes.subrange(pos, end - 1)
    } else {
        bytes.subrange(pos, end)
    }
}

/// The position at which the line after the one at `pos` starts.
pub open spec fn after_line(bytes: Seq<u8>, pos: int) -> int {
    let end = line_feed_from(bytes, pos);
    if end < bytes.len() {
        end + 1
    } else {
        end
    }
}

proof fn lemma_line_feed_from(bytes: Seq<u8>, from: int)
    requires
        0 <= from <= bytes.len(),
    ensures
        from <= line_feed_from(bytes, from) <= bytes.len(),
        line_feed_from(bytes, from) < bytes.len() ==> bytes[line_feed_from(bytes, from)] == 10,
        forall|i: int| from <= i < line_feed_from(bytes, from) ==> bytes[i] != 10,
    decreases bytes.len() - from,
{
    if from < bytes.len() && bytes[from] != 10 {
        lemma_line_feed_from(bytes, from + 1);
    }
}

/// If no byte from `from` to `end` is a line feed, and `end` is one or the
/// end of the file, then `end` is where the line feed search stops.
proof fn lemma_line_feed_found(bytes: Seq<u8>, from: int, end: int)
    requires
        0 <= from <= end <= bytes.len(),
        forall|i: int| from <= i < end ==> bytes[i] != 10,
        end < bytes.len() ==> bytes[end] == 10,
    ensures
        line_feed_from(bytes, from) == end,
    decreases end - from,
{
    if from < end {
        lemma_line_feed_found(bytes, from + 1, end);
    }
}

/// The line that starts at `pos`, as the indices between which it lies, and
/// the position of the line after it.
fn read_line(bytes: &[u8], pos: usize) -> (line: (usize, usize, usize))
    requires
        pos < bytes@.len(),
    ensures
        pos == line.0 <= line.1 <= line.2 <= bytes@.len(),
        pos < line.2,
        bytes@.subrange(line.0 as int, line.1 as int) == line_at(bytes@, pos as int),
        line.2 == after_line(bytes@, pos as int),
{
    let mut end: usize = pos;
    while end < bytes.len() && bytes[end] != 10
        invariant
            pos <= end <= bytes@.len(),
            forall|i: int| pos <= i < end ==> bytes@[i] != 10,
        decreases bytes@.len() - end,
    {
        end += 1;
    }
    proof {
        lemma_line_feed_found(bytes@, pos as int, end as int);
    }
    if end < bytes.len() {
        if pos < end && bytes[end - 1] == 13 {
            (pos, end - 1, end + 1)
        } else {
            (pos, end, end + 1)
        }
    } else {
        (pos, end, end)
    }
}

/// Whether `line` starts with the bytes of `prefix`.
pub open spec fn starts_with(line: Seq<u8>, prefix: Seq<u8>) -> bool {
    prefix.len() <= line.len() && line.take(prefix.len() as int) == prefix
}

/// The letters `BBX`.
pub open spec fn bbx() -> Seq<u8> {
    seq![66u8, 66u8, 88u8]
}

/// The letters `BITMAP`.
pub open spec fn bitmap() -> Seq<u8> {
    seq![66u8, 73u8, 84u8, 77u8, 65u8, 80u8]
}

/// The letters `ENDCHAR`.
pub open spec fn endchar() -> Seq<u8> {
    seq![69u8, 78u8, 68u8, 67u8, 72u8, 65u8, 82u8]
}

fn has_prefix(line: &[u8], prefix: &[u8]) -> (found: bool)
    ensures
        found == starts_with(line@, prefix@),
{
    if prefix.len() > line.len() {
        return false;
    }
    let mut i: usize = 0;
    while i < prefix.len()
        invariant
            i <= prefix@.len() <= line@.len(),
            forall|j: int| 0 <= j < i ==> line@[j] == prefix@[j],
        decreases prefix.len() - i,
    {
        if line[i] != prefix[i] {
            assert(line@.take(prefix@.len() as int)[i as int] != prefix@[i as int]);
            return false;
        }
        i += 1;
    }
    assert(line@.take(prefix@.len() as int) =~= prefix@);
    true
}

/// Whether `byte` is ASCII white space: space, tab, line feed, form feed or
/// carriage return.
pub open spec fn is_space(byte: u8) -> bool {
    byte == 32 || byte == 9 || byte == 10 || byte == 12 || byte == 13
}

/// The index of the first byte of `line` at or after `from` that is not
/// white space, or the length of `line`.
pub open spec fn spaces_end(line: Seq<u8>, from: int) -> int
    decreases line.len() - from,
{
    if from >= line.len() {
        line.len() as int
    } else if !is_space(line[from]) {
        from
    } else {
        spaces_end(line, from + 1)
    }
}

/// The index of the first byte of `line` at or after `from` that is white
/// space, or the length of `line`.
pub open spec fn word_end(line: Seq<u8>, from: int) -> int
    decreases line.len() - from,
{
    if from >= line.len() {
        line.len() as int
    } else if is_space(line[from]) {
        from
    } else {
        word_end(line, from + 1)
    }
}

/// The index at which word `n` of `line` starts, counted from zero, or the
/// length of `line` where it has no such word. Words are what white space
/// separates.
pub open spec fn word_start(line: Seq<u8>, n: nat) -> int
    decreases n,
{
    if n == 0 {
        spaces_end(line, 0)
    } else {
        spaces_end(line, word_end(line, word_start(line, (n - 1) as nat)))
    }
}

/// Whether `line` has a word `n`.
pub open spec fn has_word(line: Seq<u8>, n: nat) -> bool {
    word_start(line, n) < line.len()
}

/// Word `n` of `line`.
pub open spec fn word(line: Seq<u8>, n: nat) -> Seq<u8> {
    line.subrange(word_start(line, n), word_end(line, word_start(line, n)))
}

fn skip_spaces(line: &[u8], from: usize) -> (at: usize)
    requires
        from <= line@.len(),
    ensures
        from <= at <= line@.len(),
        at == spaces_end(line@, from as int),
{
    let mut at: usize = from;
    while at < line.len() && (line[at] == 32 || line[at] == 9 || line[at] == 10 || line[at] == 12 || line[at] == 13)
        invariant
            from <= at <= line@.len(),
            spaces_end(line@, from as int) == spaces_end(line@, at as int),
        decreases line@.len() - at,
    {
        at += 1;
    }
    at
}

fn skip_word(line: &[u8], from: usize) -> (at: usize)
    requires
        from <= line@.len(),
    ensures
        from <= at <= line@.len(),
        at == word_end(line@, from as int),
{
    let mut at: usize = from;
    while at < line.len() && !(line[at] == 32 || line[at] == 9 || line[at] == 10 || line[at] == 12 || line[at] == 13)
        invariant
            from <= at <= line@.len(),
            word_end(line@, from as int) == word_end(line@, at as int),
        decreases line@.len() - at,
    {
        at += 1;
    }
    at
}

/// Whether `byte` is a decimal digit.
pub open spec fn is_digit(byte: u8) -> bool {
    48 <= byte <= 57
}

/// Whether every byte of `digits` is a decimal digit.
pub open spec fn all_digits(digits: Seq<u8>) -> bool {
    forall|i: int| 0 <= i < digits.len() ==> is_digit(#[trigger] digits[i])
}

/// The number that the decimal digits `digits` write.
pub open spec fn decimal_value(digits: Seq<u8>) -> int
    decreases digits.len(),
{
    if digits.len() == 0 {
        0
    } else {
        10 * decimal_value(digits.drop_last()) + (digits.last() - 48)
    }
}

/// The number that `word` writes in decimal: an optional sign, `+` or `-`,
/// and then one digit or more, nothing else. A number outside the 64-bit
/// signed range is no number.
pub open spec fn parse_decimal(word: Seq<u8>) -> Option<i64> {
    let negative = word.len() > 0 && word[0] == 45;
    let signed = word.len() > 0 && (word[0] == 45 || word[0] == 43);
    let digits = if signed {
        word.skip(1)
    } else {
        word
    };
    let value = if negative {
        -decimal_value(digits)
    } else {
        decimal_value(digits)
    };
    if digits.len() == 0 || !all_digits(digits) || value < i64::MIN || value > i64::MAX {
        None
    } else {
        Some(value as i64)
    }
}

/// The value of the hexadecimal digit `byte`, in either case.
pub open spec fn hex_digit(byte: u8) -> Option<int> {
    if 48 <= byte <= 57 {
        Some(byte - 48)
    } else if 97 <= byte <= 102 {
        Some(byte - 87)
    } else if 65 <= byte <= 70 {
        Some(byte - 55)
    } else {
        None
    }
}

/// Whether every byte of `digits` is a hexadecimal digit.
pub open spec fn all_hex_digits(digits: Seq<u8>) -> bool {
    forall|i: int| 0 <= i < digits.len() ==> hex_digit(#[trigger] digits[i]) is Some
}

/// The number that the hexadecimal digits `digits` write.
pub open spec fn hex_value(digits: Seq<u8>) -> int
    decreases digits.len(),
{
    if digits.len() == 0 {
        0
    } else {
        16 * hex_value(digits.drop_last()) + hex_digit(digits.last())->Some_0
    }
}

/// The number that `line` writes in hexadecimal: an optional `+` and then
/// one digit or more, nothing else. A number of more than 16 bits is no
/// number.
pub open spec fn parse_hex(line: Seq<u8>) -> Option<u16> {
    let digits = if line.len() > 0 && line[0] == 43 {
        line.skip(1)
    } else {
        line
    };
    if digits.len() == 0 || !all_hex_digits(digits) || hex_value(digits) > 0xffff {
        None
    } else {
        Some(hex_value(digits) as u16)
    }
}

/// More digits never write a smaller number.
proof fn lemma_decimal_grows(digits: Seq<u8>, shorter: int)
    requires
        0 <= shorter <= digits.len(),
        all_digits(digits),
    ensures
        0 <= decimal_value(digits.take(shorter)) <= decimal_value(digits),
    decreases digits.len() - shorter,
{
    assert(all_digits(digits.take(shorter)));
    lemma_decimal_not_negative(digits.take(shorter));
    if shorter < digits.len() {
        lemma_decimal_grows(digits, shorter + 1);
        let longer = digits.take(shorter + 1);
        assert(longer.drop_last() =~= digits.take(shorter));
        assert(is_digit(digits[shorter]));
        assert(longer.last() == digits[shorter]);
    } else {
        assert(digits.take(shorter) =~= digits);
    }
}

proof fn lemma_decimal_not_negative(digits: Seq<u8>)
    requires
        all_digits(digits),
    ensures
        0 <= decimal_value(digits),
    decreases digits.len(),
{
    if digits.len() > 0 {
        assert(all_digits(digits.drop_last()));
        lemma_decimal_not_negative(digits.drop_last());
        assert(is_digit(digits[digits.len() - 1]));
    }
}

/// More hexadecimal digits never write a smaller number.
proof fn lemma_hex_grows(digits: Seq<u8>, shorter: int)
    requires
        0 <= shorter <= digits.len(),
        all_hex_digits(digits),
    ensures
        0 <= hex_value(digits.take(shorter)) <= hex_value(digits),
    decreases digits.len() - shorter,
{
    assert(all_hex_digits(digits.take(shorter)));
    lemma_hex_not_negative(digits.take(shorter));
    if shorter < digits.len() {
        lemma_hex_grows(digits, shorter + 1);
        let longer = digits.take(shorter + 1);
        assert(longer.drop_last() =~= digits.take(shorter));
        assert(hex_digit(digits[shorter]) is Some);
        assert(longer.last() == digits[shorter]);
    } else {
        assert(digits.take(shorter) =~= digits);
    }
}

proof fn lemma_hex_not_negative(digits: Seq<u8>)
    requires
        all_hex_digits(digits),
    ensures
        0 <= hex_value(digits),
    decreases digits.len(),
{
    if digits.len() > 0 {
        assert(all_hex_digits(digits.drop_last()));
        lemma_hex_not_negative(digits.drop_last());
        assert(hex_digit(digits[digits.len() - 1]) is Some);
    }
}

/// Reads `word` as a decimal number of 64 bits with an optional sign.
#[verifier::loop_isolation(false)]
pub fn read_decimal(word: &[u8]) -> (number: Option<i64>)
    ensures
        number == parse_decimal(word@),
{
    let length = word.len();
    let negative = length > 0 && word[0] == 45;
    let first: usize = if length > 0 && (word[0] == 45 || word[0] == 43) {
        1
    } else {
        0
    };
    let ghost digits = if first == 1 {
        word@.skip(1)
    } else {
        word@
    };
    if first == length {
        return None;
    }
    let mut value: i64 = 0;
    let mut at: usize = first;
    while at < length
        invariant
            first <= at <= length,
            length == word@.len(),
            digits.len() == length - first,
            forall|i: int| 0 <= i < digits.len() ==> digits[i] == word@[i + first],
            all_digits(digits.take(at - first)),
            negative ==> value == -decimal_value(digits.take(at - first)),
            !negative ==> value == decimal_value(digits.take(at - first)),
        decreases length - at,
    {
        let byte = word[at];
        let ghost before = digits.take(at - first);
        let ghost after = digits.take(at - first + 1);
        proof {
            assert(after.drop_last() =~= before);
            assert(after.last() == byte);
        }
        if byte < 48 || byte > 57 {
            assert(!is_digit(digits[at - first]));
            return None;
        }
        let digit = (byte - 48) as i64;
        let shifted = match value.checked_mul(10) {
            Some(shifted) => shifted,
            None => {
                proof {
                    if all_digits(digits) {
                        lemma_decimal_grows(digits, at - first + 1);
                    }
                }
                return None;
            },
        };
        let next = if negative {
            shifted.checked_sub(digit)
        } else {
            shifted.checked_add(digit)
        };
        value = match next {
            Some(next) => next,
            None => {
                proof {
                    if all_digits(digits) {
                        lemma_decimal_grows(digits, at - first + 1);
                    }
                }
                return None;
            },
        };
        proof {
            assert forall|i: int| 0 <= i < after.len() implies is_digit(#[trigger] after[i]) by {
                if i < before.len() {
                    assert(after[i] == before[i]);
                }
            }
        }
        at += 1;
    }
    proof {
        assert(digits.take(length - first) =~= digits);
    }
    Some(value)
}

/// Reads `line` as a hexadecimal number of 16 bits.
#[verifier::loop_isolation(false)]
pub fn read_hex(line: &[u8]) -> (number: Option<u16>)
    ensures
        number == parse_hex(line@),
{
    let length = line.len();
    let first: usize = if length > 0 && line[0] == 43 {
        1
    } else {
        0
    };
    let ghost digits = if first == 1 {
        line@.skip(1)
    } else {
        line@
    };
    if first == length {
        return None;
    }
    let mut value: u32 = 0;
    let mut at: usize = first;
    while at < length
        invariant
            first <= at <= length,
            length == line@.len(),
            digits.len() == length - first,
            forall|i: int| 0 <= i < digits.len() ==> digits[i] == line@[i + first],
            all_hex_digits(digits.take(at - first)),
            value == hex_value(digits.take(at - first)),
            value <= 0xffff,
        decreases length - at,
    {
        let byte = line[at];
        let ghost before = digits.take(at - first);
        let ghost after = digits.take(at - first + 1);
        proof {
            assert(after.drop_last() =~= before);
            assert(after.last() == byte);
        }
        let digit: u32 = if 48 <= byte && byte <= 57 {
            (byte - 48) as u32
        } else if 97 <= byte && byte <= 102 {
            (byte - 87) as u32
        } else if 65 <= byte && byte <= 70 {
            (byte - 55) as u32
        } else {
            assert(hex_digit(digits[at - first]) is None);
            return None;
        };
        let next = value * 16 + digit;
        if next > 0xffff {
            proof {
                if all_hex_digits(digits) {
                    lemma_hex_grows(digits, at - first + 1);
                }
            }
            return None;
        }
        value = next;
        proof {
            assert forall|i: int| 0 <= i < after.len() implies hex_digit(#[trigger] after[i]) is Some by {
                if i < before.len() {
                    assert(after[i] == before[i]);
                }
            }
        }
        at += 1;
    }
    proof {
        assert(digits.take(length - first) =~= digits);
    }
    Some(value as u16)
}

/// The 16 pixels of a bitmap row, the highest bit first.
pub open spec fn pixels_of(bits: u16) -> Seq<u32> {
    Seq::new(
        16,
        |i: int|
            if bits & (1u16 << ((15 - i) as u16)) != 0 {
                WHITE
            } else {
                BLACK
            },
    )
}

/// What has been read of a file.
pub struct FontScan {
    /// Whether a `BITMAP` line has opened the rows of a glyph.
    pub in_bitmap: bool,
    /// The width of the glyphs, -1 until a `BBX` line has given it.
    pub font_width: i64,
    /// The height of the glyphs, -1 until a `BBX` line has given it.
    pub font_height: i64,
    /// The glyphs that are complete.
    pub glyphs: Seq<Seq<u32>>,
    /// The pixels of the glyph whose rows are open.
    pub current: Seq<u32>,
}

/// A font as a value: its glyphs and their size.
pub struct FontImage {
    pub characters: Seq<Seq<u32>>,
    pub width: usize,
    pub height: usize,
}

/// What a `BBX` line does: its second and third word are the width and the
/// height of a glyph. The first glyph sets the size of the font and every
/// other glyph must have it. A line with fewer words says nothing.
pub open spec fn measure(scan: FontScan, line: Seq<u8>) -> Result<FontScan, BdfError> {
    if !(has_word(line, 1) && has_word(line, 2)) {
        Ok(scan)
    } else {
        match (parse_decimal(word(line, 1)), parse_decimal(word(line, 2))) {
            (Some(width), Some(height)) => if scan.font_width == -1 {
                Ok(FontScan { font_width: width, font_height: height, ..scan })
            } else if scan.font_width != width || scan.font_height != height {
                Err(BdfError::NotMonospaced)
            } else {
                Ok(scan)
            },
            _ => Err(BdfError::DimensionNotInt),
        }
    }
}

/// What one line does. Before the rows of a glyph, `BBX` lines are measured
/// and a `BITMAP` line opens the rows; every other line is passed over.
/// Among the rows, an `ENDCHAR` line closes the glyph, which must have
/// width times height pixels, and every other line is a row of 16 pixels.
pub open spec fn scan_line(scan: FontScan, line: Seq<u8>) -> Result<FontScan, BdfError> {
    if !scan.in_bitmap {
        let measured = if starts_with(line, bbx()) {
            measure(scan, line)
        } else {
            Ok(scan)
        };
        match measured {
            Err(e) => Err(e),
            Ok(measured) => if starts_with(line, bitmap()) {
                Ok(FontScan { in_bitmap: true, current: Seq::empty(), ..measured })
            } else {
                Ok(measured)
            },
        }
    } else if starts_with(line, endchar()) {
        if scan.font_width * scan.font_height != scan.current.len() {
            Err(BdfError::BitmapWrongSize)
        } else {
            Ok(FontScan { in_bitmap: false, glyphs: scan.glyphs.push(scan.current), current: Seq::empty(), ..scan })
        }
    } else {
        match parse_hex(line) {
            Some(bits) => Ok(FontScan { current: scan.current + pixels_of(bits), ..scan }),
            None => Err(BdfError::BadBitmapLine),
        }
    }
}

/// The font that a finished scan gives: the glyphs that were read and one
/// empty glyph after them.
pub open spec fn font_of(scan: FontScan) -> FontImage {
    FontImage {
        characters: scan.glyphs.push(Seq::empty()),
        width: scan.font_width as usize,
        height: scan.font_height as usize,
    }
}

/// The answer for a file of which the lines before `pos` have been read:
/// the lines are read one after the other until `GLYPHS_READ` glyphs are
/// complete; the first line at fault ends the reading, and so does the end
/// of the file.
pub open spec fn scan_from(bytes: Seq<u8>, pos: int, scan: FontScan) -> Result<FontImage, BdfError>
    decreases bytes.len() - pos,
    via scan_from_decreases
{
    if pos < 0 || pos >= bytes.len() {
        Err(BdfError::Incomplete)
    } else {
        match scan_line(scan, line_at(bytes, pos)) {
            Err(e) => Err(e),
            Ok(next) => if next.glyphs.len() == GLYPHS_READ {
                Ok(font_of(next))
            } else {
                scan_from(bytes, after_line(bytes, pos), next)
            },
        }
    }
}

#[via_fn]
proof fn scan_from_decreases(bytes: Seq<u8>, pos: int, scan: FontScan) {
    if 0 <= pos < bytes.len() {
        lemma_line_feed_from(bytes, pos);
    }
}

/// The state before anything has been read.
pub open spec fn scan_start() -> FontScan {
    FontScan { in_bitmap: false, font_width: -1i64, font_height: -1i64, glyphs: Seq::empty(), current: Seq::empty() }
}

/// The font that the file `bytes` holds, or why it holds none.
pub open spec fn parse_font(bytes: Seq<u8>) -> Result<FontImage, BdfError> {
    scan_from(bytes, 0, scan_start())
}

/// The value of a font.
pub open spec fn image_of(font: MonoFont) -> FontImage {
    FontImage { characters: rows_of(font.characters@), width: font.width, height: font.height }
}

/// The pixels of each glyph of `glyphs`.
pub open spec fn rows_of(glyphs: Seq<Vec<u32>>) -> Seq<Seq<u32>> {
    Seq::new(glyphs.len(), |i: int| glyphs[i]@)
}

/// Appends the 16 pixels of the bitmap row `bits` to `pixels`.
fn push_pixels(pixels: &mut Vec<u32>, bits: u16)
    ensures
        final(pixels)@ == old(pixels)@ + pixels_of(bits),
{
    let mut offset: u16 = 0;
    while offset < 16
        invariant
            offset <= 16,
            pixels@ == old(pixels)@ + pixels_of(bits).take(offset as int),
        decreases 16 - offset,
    {
        let mask: u16 = 1u16 << (15 - offset);
        if bits & mask != 0 {
            pixels.push(WHITE);
        } else {
            pixels.push(BLACK);
        }
        assert(pixels@ =~= old(pixels)@ + pixels_of(bits).take(offset + 1));
        offset += 1;
    }
    assert(pixels_of(bits).take(16) =~= pixels_of(bits));
}

/// Reads a `BBX` line: the width and the height of a glyph, where the line
/// has them.
fn read_size(line: &[u8]) -> (size: Result<Option<(i64, i64)>, BdfError>)
    ensures
        size == if !(has_word(line@, 1) && has_word(line@, 2)) {
            Ok::<Option<(i64, i64)>, BdfError>(None)
        } else {
            match (parse_decimal(word(line@, 1)), parse_decimal(word(line@, 2))) {
                (Some(width), Some(height)) => Ok::<Option<(i64, i64)>, BdfError>(Some((width, height))),
                _ => Err::<Option<(i64, i64)>, BdfError>(BdfError::DimensionNotInt),
            }
        },
{
    let name_start = skip_spaces(line, 0);
    let name_end = skip_word(line, name_start);
    let width_start = skip_spaces(line, name_end);
    let width_end = skip_word(line, width_start);
    let height_start = skip_spaces(line, width_end);
    let height_end = skip_word(line, height_start);
    proof {
        reveal_with_fuel(word_start, 3);
        assert(word_start(line@, 0) == name_start);
        assert(word_start(line@, 1) == width_start);
        assert(word_start(line@, 2) == height_start);
    }
    if height_start >= line.len() {
        return Ok(None);
    }
    let width = match read_decimal(slice_subrange(line, width_start, width_end)) {
        Some(width) => width,
        None => {
            return Err(BdfError::DimensionNotInt);
        },
    };
    let height = match read_decimal(slice_subrange(line, height_start, height_end)) {
        Some(height) => height,
        None => {
            return Err(BdfError::DimensionNotInt);
        },
    };
    Ok(Some((width, height)))
}

/// Reads a font from the text of a BDF file. The font has `MAX_CHARS`
/// glyphs: the first `GLYPHS_READ` glyphs of the file, which must all have
/// the same width and height, and an empty one. A bitmap row is a
/// hexadecimal number of 16 bits and gives 16 pixels, white where a bit is
/// set.
#[verifier::loop_isolation(false)]
#[verifier::rlimit(40)]
pub fn load_bdf_to_mono_font(bdf_file: &str) -> (font: Result<MonoFont, BdfError>)
    ensures
        match parse_font(bdf_file.spec_bytes()) {
            Ok(image) => font matches Ok(read) && image_of(read) == image,
            Err(e) => font matches Err(why) && why == e,
        },
{
    let bytes = bdf_file.as_bytes();
    let mut glyphs: Vec<Vec<u32>> = Vec::new();
    let mut current: Vec<u32> = Vec::new();
    let mut in_bitmap = false;
    let mut font_width: i64 = -1;
    let mut font_height: i64 = -1;
    let mut pos: usize = 0;
    assert(rows_of(glyphs@) =~= Seq::<Seq<u32>>::empty());
    while pos < bytes.len()
        invariant
            pos <= bytes@.len(),
            glyphs@.len() < GLYPHS_READ,
            parse_font(bytes@) == scan_from(
                bytes@,
                pos as int,
                FontScan { in_bitmap, font_width, font_height, glyphs: rows_of(glyphs@), current: current@ },
            ),
        decreases bytes@.len() - pos,
    {
        let ghost scan = FontScan { in_bitmap, font_width, font_height, glyphs: rows_of(glyphs@), current: current@ };
        let (start, end, next) = read_line(bytes, pos);
        let line = slice_subrange(bytes, start, end);
        assert(line@ == line_at(bytes@, pos as int));
        if !in_bitmap {
            let measure_it = has_prefix(line, &[66, 66, 88]);
            assert(seq![66u8, 66u8, 88u8] =~= bbx());
            if measure_it {
                match read_size(line) {
                    Err(e) => {
                        return Err(e);
                    },
                    Ok(None) => {},
                    Ok(Some((width, height))) => {
                        if font_width == -1 {
                            font_width = width;
                            font_height = height;
                        } else if font_width != width || font_height != height {
                            return Err(BdfError::NotMonospaced);
                        }
                    },
                }
            }
            let opens = has_prefix(line, &[66, 73, 84, 77, 65, 80]);
            assert(seq![66u8, 73u8, 84u8, 77u8, 65u8, 80u8] =~= bitmap());
            if opens {
                in_bitmap = true;
                current = Vec::new();
            }
        } else {
            let closes = has_prefix(line, &[69, 78, 68, 67, 72, 65, 82]);
            assert(seq![69u8, 78u8, 68u8, 67u8, 72u8, 65u8, 82u8] =~= endchar());
            if closes {
                assert(-0x4000_0000_0000_0000_0000_0000_0000_0000 <= font_width * font_height
                    <= 0x4000_0000_0000_0000_0000_0000_0000_0000) by (nonlinear_arith)
                    requires
                        -0x8000_0000_0000_0000 <= font_width <= 0x7fff_ffff_ffff_ffff,
                        -0x8000_0000_0000_0000 <= font_height <= 0x7fff_ffff_ffff_ffff,
                ;
                if (font_width as i128) * (font_height as i128) != current.len() as i128 {
                    return Err(BdfError::BitmapWrongSize);
                }
                let ghost before = rows_of(glyphs@);
                glyphs.push(current);
                current = Vec::new();
                in_bitmap = false;
                assert(rows_of(glyphs@) =~= before.push(scan.current));
                if glyphs.len() == GLYPHS_READ {
                    let ghost read = rows_of(glyphs@);
                    glyphs.push(Vec::new());
                    assert(rows_of(glyphs@) =~= read.push(Seq::empty()));
                    return Ok(
                        MonoFont {
                            characters: glyphs,
                            width: #[verifier::truncate] (font_width as usize),
                            height: #[verifier::truncate] (font_height as usize),
                        },
                    );
                }
            } else {
                match read_hex(line) {
                    Some(bits) => {
                        push_pixels(&mut current, bits);
                    },
                    None => {
                        return Err(BdfError::BadBitmapLine);
                    },
                }
            }
        }
        pos = next;
    }
    Err(BdfError::Incomplete)
}

proof fn lemma_scan_shape(bytes: Seq<u8>, pos: int, scan: FontScan)
    requires
        scan.glyphs.len() < GLYPHS_READ,
    ensures
        scan_from(bytes, pos, scan) matches Ok(image) ==> {
            &&& image.characters.len() == MAX_CHARS
            &&& image.characters[GLYPHS_READ as int].len() == 0
        },
    decreases bytes.len() - pos,
{
    if 0 <= pos < bytes.len() {
        lemma_line_feed_from(bytes, pos);
        match scan_line(scan, line_at(bytes, pos)) {
            Ok(next) => {
                if next.glyphs.len() != GLYPHS_READ {
                    lemma_scan_shape(bytes, after_line(bytes, pos), next);
                }
            },
            Err(_) => {},
        }
    }
}

/// Every font that is read has `MAX_CHARS` glyphs, of which the last is
/// empty.
pub proof fn lemma_font_shape(bytes: Seq<u8>)
    ensures
        parse_font(bytes) matches Ok(image) ==> {
            &&& image.characters.len() == MAX_CHARS
            &&& image.characters[GLYPHS_READ as int].len() == 0
        },
{
    lemma_scan_shape(bytes, 0, scan_start());
}

} // verus!
