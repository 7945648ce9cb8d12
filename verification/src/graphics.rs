//! The frame buffer in main memory, a monospaced font, and a buffer of text
//! that is drawn with it.

use vstd::prelude::*;

verus! {

/// Why a drawing or text operation did nothing, or stopped.
#[derive(Clone, Copy, Debug, PartialEq, Eq, Structural)]
pub enum GraphicsError {
    /// The text for a new text buffer holds a character outside ASCII.
    TextNotAscii,
    /// The text for a new text buffer is not `height * width` bytes long.
    TextWrongLength,
    /// The character is not printable ASCII (32 to 126).
    NotPrintable,
    /// The rectangle would pass the right edge of the frame buffer.
    OffScreenX,
    /// The rectangle would pass the lower edge of the frame buffer.
    OffScreenY,
    /// The pixel map does not hold `width * height` pixels.
    PixelMapWrongLength,
    /// A line of text with its padding is as wide as the frame buffer or
    /// wider.
    FrameBufferTooNarrow,
    /// The lines of text with their padding are as high as the frame buffer
    /// or higher.
    FrameBufferTooShort,
    /// The font has no glyph for a character of the text.
    GlyphMissing,
}

impl GraphicsError {
    /// The text that `message` returns for each variant.
    pub open spec fn message_text(self) -> Seq<char> {
        match self {
            Self::TextNotAscii => "The provided string must be ascii"@,
            Self::TextWrongLength => "The provided string must have length equal to height * width"@,
            Self::NotPrintable => "The provided character must be a printable ASCII"@,
            Self::OffScreenX => "The given the x position + pixel map width would go off the screen"@,
            Self::OffScreenY => "The given y position + pixel map height would go off the screen"@,
            Self::PixelMapWrongLength => "The pixel map dimensions do not agree with its linear length"@,
            Self::FrameBufferTooNarrow => "The framebuffer is too small for a line of text"@,
            Self::FrameBufferTooShort => "The framebuffer is too short for the text "@,
            Self::GlyphMissing => "A character was not a printable ascii character"@,
        }
    }

    /// A human-readable description of the failure.
    pub fn message(&self) -> (text: &'static str)
        ensures
            text@ == self.message_text(),
    {
        match self {
            Self::TextNotAscii => "The provided string must be ascii",
            Self::TextWrongLength => "The provided string must have length equal to height * width",
            Self::NotPrintable => "The provided character must be a printable ASCII",
            Self::OffScreenX => "The given the x position + pixel map width would go off the screen",
            Self::OffScreenY => "The given y position + pixel map height would go off the screen",
            Self::PixelMapWrongLength => "The pixel map dimensions do not agree with its linear length",
            Self::FrameBufferTooNarrow => "The framebuffer is too small for a line of text",
            Self::FrameBufferTooShort => "The framebuffer is too short for the text ",
            Self::GlyphMissing => "A character was not a printable ascii character",
        }
    }
}

/// The kernel's frame buffer in main memory: `height` rows of `stride`
/// pixels, of which the first `width` are shown.
pub struct CPUFrameBuffer {
    pub width: usize,
    pub height: usize,
    pub stride: usize,
    pub buffer: Vec<u32>,
}

/// Whether the pixel at index `at` of a buffer with rows of `stride` pixels
/// lies in the rectangle of `width` by `height` pixels whose upper left
/// corner is column `x` of row `y`.
pub open spec fn in_rect(stride: int, width: int, height: int, x: int, y: int, at: int) -> bool {
    &&& stride > 0
    &&& y <= at / stride < y + height
    &&& x <= at % stride < x + width
}

/// `buffer` with the rectangle overwritten by `pixel_map`, row by row.
pub open spec fn blit(
    buffer: Seq<u32>,
    stride: int,
    pixel_map: Seq<u32>,
    width: int,
    height: int,
    x: int,
    y: int,
) -> Seq<u32> {
    Seq::new(
        buffer.len(),
        |at: int|
            if in_rect(stride, width, height, x, y, at) {
                pixel_map[(at / stride - y) * width + (at % stride - x)]
            } else {
                buffer[at]
            },
    )
}

/// Whether a rectangle can be drawn, and why not.
pub open spec fn rect_check(
    buffer_width: int,
    buffer_height: int,
    pixels: int,
    width: int,
    height: int,
    x: int,
    y: int,
) -> Result<(), GraphicsError> {
    if x + width > buffer_width {
        Err(GraphicsError::OffScreenX)
    } else if y + height > buffer_height {
        Err(GraphicsError::OffScreenY)
    } else if pixels != width * height {
        Err(GraphicsError::PixelMapWrongLength)
    } else {
        Ok(())
    }
}

impl CPUFrameBuffer {
    /// The buffer holds `height` rows of `stride` pixels and a row is at
    /// least as long as what is shown of it.
    pub open spec fn wf(&self) -> bool {
        &&& self.width <= self.stride
        &&& self.buffer.len() == self.stride * self.height
    }

    /// Writes `pixel_map`, a rectangle of `width` by `height` pixels stored
    /// row by row, into the buffer with its upper left corner at column `x`
    /// of row `y`. A rectangle that does not fit is not drawn at all.
    #[verifier::rlimit(40)]
    pub fn write_rect_pixel_map(
        &mut self,
        pixel_map: &[u32],
        width: usize,
        height: usize,
        x: usize,
        y: usize,
    ) -> (written: Result<(), GraphicsError>)
        requires
            old(self).wf(),
        ensures
            final(self).wf(),
            final(self).width == old(self).width,
            final(self).height == old(self).height,
            final(self).stride == old(self).stride,
            written == rect_check(
                old(self).width as int,
                old(self).height as int,
                pixel_map@.len() as int,
                width as int,
                height as int,
                x as int,
                y as int,
            ),
            final(self).buffer@ == if written is Ok {
                blit(old(self).buffer@, old(self).stride as int, pixel_map@, width as int, height as int, x as int, y as int)
            } else {
                old(self).buffer@
            },
    {
        if width > self.width || x > self.width - width {
            return Err(GraphicsError::OffScreenX);
        }
        if height > self.height || y > self.height - height {
            return Err(GraphicsError::OffScreenY);
        }
        let stride = self.stride;
        proof {
            lemma_rect_inside(stride as int, self.height as int, width as int, height as int, x as int, y as int);
        }
        if pixel_map.len() != width * height {
            return Err(GraphicsError::PixelMapWrongLength);
        }
        let ghost before = self.buffer@;
        let mut row: usize = 0;
        while row < height
            invariant
                row <= height,
                self.wf(),
                self.width == old(self).width,
                self.height == old(self).height,
                self.stride == old(self).stride,
                stride == self.stride,
                before == old(self).buffer@,
                x + width <= self.width,
                y + height <= self.height,
                pixel_map@.len() == width * height,
                width * height <= usize::MAX,
                self.buffer@ == blit(before, stride as int, pixel_map@, width as int, row as int, x as int, y as int),
            decreases height - row,
        {
            let mut col: usize = 0;
            let ghost row_start = self.buffer@;
            while col < width
                invariant
                    col <= width,
                    row < height,
                    self.wf(),
                    self.width == old(self).width,
                    self.height == old(self).height,
                    self.stride == old(self).stride,
                    stride == self.stride,
                    x + width <= self.width,
                    y + height <= self.height,
                    pixel_map@.len() == width * height,
                    width * height <= usize::MAX,
                    row_start.len() == self.buffer@.len(),
                    forall|at: int|
                        0 <= at < self.buffer@.len() ==> self.buffer@[at] == if at / (stride as int) == y + row && x
                            <= at % (stride as int) < x + col {
                            pixel_map@[row * width + (at % (stride as int) - x)]
                        } else {
                            row_start[at]
                        },
                decreases width - col,
            {
                proof {
                    lemma_cell_index(
                        stride as int,
                        self.height as int,
                        width as int,
                        height as int,
                        x as int,
                        y as int,
                        row as int,
                        col as int,
                    );
                }
                let target = (y + row) * stride + (x + col);
                let source = row * width + col;
                let ghost row_so_far = self.buffer@;
                self.buffer.set(target, pixel_map[source]);
                proof {
                    assert forall|at: int| 0 <= at < self.buffer@.len() implies self.buffer@[at] == if at / (
                    stride as int) == y + row && x <= at % (stride as int) < x + col + 1 {
                        pixel_map@[row * width + (at % (stride as int) - x)]
                    } else {
                        row_start[at]
                    } by {
                        vstd::arithmetic::div_mod::lemma_fundamental_div_mod(at, stride as int);
                        if at != target {
                            assert(self.buffer@[at] == row_so_far[at]);
                            if at / (stride as int) == y + row && at % (stride as int) == x + col {
                                assert(at == (stride as int) * (y + row) + (x + col));
                                assert((stride as int) * (y + row) == (y + row) * stride) by (nonlinear_arith);
                            }
                        }
                    }
                }
                col += 1;
            }
            proof {
                let next = blit(before, stride as int, pixel_map@, width as int, row + 1, x as int, y as int);
                assert(self.buffer@ =~= next);
            }
            row += 1;
        }
        Ok(())
    }
}

/// A rectangle inside the shown part of the buffer has no more pixels than
/// the buffer.
proof fn lemma_rect_inside(stride: int, buffer_height: int, width: int, height: int, x: int, y: int)
    requires
        0 <= x,
        0 <= y,
        0 <= width,
        0 <= height,
        x + width <= stride,
        y + height <= buffer_height,
    ensures
        0 <= width * height <= stride * buffer_height,
{
    assert(width * height <= stride * height) by (nonlinear_arith)
        requires
            0 <= width <= stride,
            0 <= height,
    ;
    assert(stride * height <= stride * buffer_height) by (nonlinear_arith)
        requires
            0 <= stride,
            0 <= height <= buffer_height,
    ;
    assert(0 <= width * height) by (nonlinear_arith)
        requires
            0 <= width,
            0 <= height,
    ;
}

/// The pixel in column `col` of row `row` of a rectangle lies in the buffer,
/// at the row and column the index says, and has its place in the pixel map.
proof fn lemma_cell_index(
    stride: int,
    buffer_height: int,
    width: int,
    height: int,
    x: int,
    y: int,
    row: int,
    col: int,
)
    requires
        0 <= x,
        0 <= y,
        0 <= row < height,
        0 <= col < width,
        x + width <= stride,
        y + height <= buffer_height,
    ensures
        0 <= (y + row) * stride + (x + col) < stride * buffer_height,
        ((y + row) * stride + (x + col)) / stride == y + row,
        ((y + row) * stride + (x + col)) % stride == x + col,
        0 <= row * width <= row * width + col < width * height,
{
    let r = y + row;
    let c = x + col;
    assert(r * stride + stride <= buffer_height * stride) by (nonlinear_arith)
        requires
            0 <= r < buffer_height,
            0 < stride,
    ;
    assert(buffer_height * stride == stride * buffer_height) by (nonlinear_arith);
    assert(0 <= r * stride) by (nonlinear_arith)
        requires
            0 <= r,
            0 < stride,
    ;
    vstd::arithmetic::div_mod::lemma_fundamental_div_mod_converse(r * stride + c, stride, r, c);
    assert(row * width + width <= height * width) by (nonlinear_arith)
        requires
            0 <= row < height,
            0 < width,
    ;
    assert(height * width == width * height) by (nonlinear_arith);
    assert(0 <= row * width) by (nonlinear_arith)
        requires
            0 <= row,
            0 < width,
    ;
}

/// Pixel maps of the printable ASCII characters, one per character from the
/// space (32) on, all `width` by `height` pixels.
pub struct MonoFont {
    pub characters: Vec<Vec<u32>>,
    pub width: usize,
    pub height: usize,
}

/// The ASCII space.
pub const SPACE: u8 = 32;

/// Whether `byte` is a printable ASCII character.
pub open spec fn is_printable(byte: int) -> bool {
    32 <= byte <= 126
}

/// A grid of characters with a cursor. Width and height are in characters;
/// the cursor is a column and a row, both counted from zero.
pub struct TextBuffer {
    width: usize,
    height: usize,
    cursor: (usize, usize),
    text: Vec<u8>,
}

/// The state of a text buffer.
pub struct TextBufferView {
    pub width: nat,
    pub height: nat,
    pub cursor: (nat, nat),
    /// The characters, row by row.
    pub text: Seq<u8>,
}

/// `text` moved up by one row of `width` characters, with a last row of
/// spaces.
pub open spec fn shifted_up(text: Seq<u8>, width: nat) -> Seq<u8> {
    Seq::new(
        text.len(),
        |i: int|
            if i + width < text.len() {
                text[i + width]
            } else {
                SPACE
            },
    )
}

impl TextBufferView {
    /// The text fills the grid, holds printable characters only, and the
    /// cursor is on the grid or just past its right or lower edge.
    pub open spec fn wf(self) -> bool {
        &&& self.text.len() == self.width * self.height
        &&& self.cursor.0 <= self.width
        &&& self.cursor.1 <= self.height
        &&& forall|i: int| 0 <= i < self.text.len() ==> is_printable(#[trigger] self.text[i] as int)
    }

    /// Whether the cursor is past the right edge.
    pub open spec fn at_line_end(self) -> bool {
        self.cursor.0 == self.width
    }

    /// Whether the cursor is past the lower edge.
    pub open spec fn below_last_line(self) -> bool {
        self.cursor.1 == self.height
    }

    /// The index in the text at which the next character is written. Past
    /// the right edge that is the start of the next row; past both edges it
    /// is the start of the last row, once the text has moved up.
    pub open spec fn write_index(self) -> int {
        if self.at_line_end() && self.below_last_line() {
            (self.height - 1) * self.width
        } else {
            (self.cursor.1 * self.width + self.cursor.0) as int
        }
    }

    /// Whether there is a place for the next character.
    pub open spec fn has_room(self) -> bool {
        0 <= self.write_index() < self.text.len()
    }

    /// The state after the cursor has moved on by one character.
    pub open spec fn advanced(self) -> TextBufferView {
        if self.at_line_end() {
            if self.below_last_line() {
                TextBufferView { cursor: (0, self.cursor.1), text: shifted_up(self.text, self.width), ..self }
            } else {
                TextBufferView { cursor: (0, self.cursor.1 + 1), ..self }
            }
        } else {
            TextBufferView { cursor: (self.cursor.0 + 1, self.cursor.1), ..self }
        }
    }

    /// The state after `byte` has been written at the cursor.
    pub open spec fn with_char(self, byte: u8) -> TextBufferView {
        TextBufferView { text: self.advanced().text.update(self.write_index(), byte), ..self.advanced() }
    }
}

/// The number of printable characters at the start of `chars`.
pub open spec fn printable_prefix(chars: Seq<char>) -> nat
    decreases chars.len(),
{
    if chars.len() == 0 || !is_printable(chars[0] as int) {
        0
    } else {
        1 + printable_prefix(chars.drop_first())
    }
}

impl TextBufferView {
    /// The state after the characters of `chars` have been written, one
    /// after the other.
    pub open spec fn with_chars(self, chars: Seq<char>) -> TextBufferView
        decreases chars.len(),
    {
        if chars.len() == 0 {
            self
        } else {
            self.with_chars(chars.drop_last()).with_char(chars.last() as u8)
        }
    }

    /// Whether there is a place for each character of `chars` when they are
    /// written one after the other.
    pub open spec fn has_room_for(self, chars: Seq<char>) -> bool {
        forall|k: int| 0 <= k < chars.len() ==> (#[trigger] self.with_chars(chars.take(k))).has_room()
    }
}

/// The printable prefix of `chars` is `count` characters long when these
/// are printable and the next one, if there is one, is not.
proof fn lemma_printable_prefix(chars: Seq<char>, count: int)
    requires
        0 <= count <= chars.len(),
        forall|i: int| 0 <= i < count ==> is_printable(chars[i] as int),
        count < chars.len() ==> !is_printable(chars[count] as int),
    ensures
        printable_prefix(chars) == count,
    decreases count,
{
    if count > 0 {
        let rest = chars.drop_first();
        assert forall|i: int| 0 <= i < count - 1 implies is_printable(rest[i] as int) by {
            assert(rest[i] == chars[i + 1]);
        }
        lemma_printable_prefix(rest, count - 1);
    }
}

impl View for TextBuffer {
    type V = TextBufferView;

    closed spec fn view(&self) -> TextBufferView {
        TextBufferView {
            width: self.width as nat,
            height: self.height as nat,
            cursor: (self.cursor.0 as nat, self.cursor.1 as nat),
            text: self.text@,
        }
    }
}

impl TextBuffer {
    /// A blank text buffer of `height` rows and `width` columns with the
    /// cursor in the upper left corner. `text` gives the buffer its size: it
    /// must be ASCII and `height * width` bytes long. What it holds is
    /// replaced by spaces.
    pub fn new(height: usize, width: usize, text: &str) -> (buffer: Result<Self, GraphicsError>)
        ensures
            match buffer {
                Ok(buffer) => {
                    &&& text.is_ascii()
                    &&& text@.len() == height * width
                    &&& buffer@.wf()
                    &&& buffer@ == TextBufferView {
                        width: width as nat,
                        height: height as nat,
                        cursor: (0, 0),
                        text: Seq::new((height * width) as nat, |i: int| SPACE),
                    }
                },
                Err(GraphicsError::TextNotAscii) => !text.is_ascii(),
                Err(GraphicsError::TextWrongLength) => text.is_ascii() && text@.len() != height * width,
                Err(_) => false,
            },
    {
        if !text.is_ascii() {
            return Err(GraphicsError::TextNotAscii);
        }
        proof {
            vstd::string::is_ascii_spec_bytes(text);
        }
        let length = text.as_bytes().len();
        let cells = match height.checked_mul(width) {
            Some(cells) => cells,
            None => {
                return Err(GraphicsError::TextWrongLength);
            },
        };
        if length != cells {
            return Err(GraphicsError::TextWrongLength);
        }
        let mut blank: Vec<u8> = Vec::new();
        let mut filled: usize = 0;
        while filled < cells
            invariant
                filled <= cells,
                blank@ == Seq::new(filled as nat, |i: int| SPACE),
            decreases cells - filled,
        {
            blank.push(SPACE);
            filled += 1;
            assert(blank@ =~= Seq::new(filled as nat, |i: int| SPACE));
        }
        assert(width * height == height * width) by (nonlinear_arith);
        let buffer = TextBuffer { height, width, cursor: (0, 0), text: blank };
        assert(buffer@.text =~= Seq::new((height * width) as nat, |i: int| SPACE));
        Ok(buffer)
    }

    /// Moves the text up by one row and blanks the last row.
    fn shift_up(&mut self)
        requires
            old(self)@.wf(),
            old(self).height >= 1,
        ensures
            final(self)@.wf(),
            final(self)@ == (TextBufferView { text: shifted_up(old(self)@.text, old(self)@.width), ..old(self)@ }),
    {
        let length = self.text.len();
        let width = self.width;
        assert(width <= length) by (nonlinear_arith)
            requires
                length == width * self.height,
                self.height >= 1,
        ;
        let kept = length - width;
        let mut at: usize = 0;
        while at < length
            invariant
                at <= length,
                kept == length - width,
                width <= length,
                self.text@.len() == length,
                self.width == old(self).width,
                self.height == old(self).height,
                self.cursor == old(self).cursor,
                old(self).text@.len() == length,
                forall|i: int| 0 <= i < at ==> self.text@[i] == shifted_up(old(self).text@, width as nat)[i],
                forall|i: int| at <= i < length ==> self.text@[i] == old(self).text@[i],
            decreases length - at,
        {
            let byte = if at < kept {
                self.text[at + width]
            } else {
                SPACE
            };
            self.text.set(at, byte);
            at += 1;
        }
        assert(self.text@ =~= shifted_up(old(self).text@, width as nat));
    }

    /// Moves the cursor on by one character and returns the column and row
    /// at which the character is to be written.
    fn next(&mut self) -> (at: (usize, usize))
        requires
            old(self)@.wf(),
            old(self)@.has_room(),
        ensures
            final(self)@.wf(),
            final(self)@ == old(self)@.advanced(),
            at.1 * old(self)@.width + at.0 == old(self)@.write_index(),
    {
        let (x, y) = self.cursor;
        assert(self.height >= 1 && (x == self.width && y == self.height ==> self.width >= 1)) by (nonlinear_arith)
            requires
                self.text@.len() == self.width * self.height,
                x <= self.width,
                y <= self.height,
                x == self.width && y == self.height ==> 0 <= (self.height - 1) * self.width < self.text@.len(),
                !(x == self.width && y == self.height) ==> 0 <= y * self.width + x < self.text@.len(),
        ;
        if x == self.width {
            if y == self.height {
                self.cursor = (0, y);
                self.shift_up();
                return (0, y - 1);
            } else {
                self.cursor = (0, y + 1);
            }
        } else {
            self.cursor = (x + 1, y);
        }
        (x, y)
    }
}

impl TextBuffer {
    /// Writes `character` at the cursor and moves the cursor on. A character
    /// that is not printable ASCII is refused and nothing changes. For a
    /// printable character the buffer must have room: see `has_room`.
    pub fn write_char(&mut self, character: char) -> (written: Result<(), GraphicsError>)
        requires
            old(self)@.wf(),
            is_printable(character as int) ==> old(self)@.has_room(),
        ensures
            final(self)@.wf(),
            is_printable(character as int) ==> written == Ok::<(), GraphicsError>(()) && final(self)@ == old(
                self,
            )@.with_char(character as u8),
            !is_printable(character as int) ==> written == Err::<(), GraphicsError>(GraphicsError::NotPrintable)
                && final(self)@ == old(self)@,
    {
        let code = character as u32;
        if code > 126 || code < 32 {
            return Err(GraphicsError::NotPrintable);
        }
        let at = self.next();
        assert(self.width == old(self)@.width);
        assert(at.1 * self.width + at.0 < self.text.len());
        assert(0 <= at.1 * self.width) by (nonlinear_arith);
        let index = at.1 * self.width + at.0;
        self.text.set(index, code as u8);
        Ok(())
    }

    /// Writes the characters of `string` one after the other, up to the
    /// first that is not printable ASCII, which is refused. The buffer must
    /// have room for the characters that are written: see `has_room_for`.
    pub fn write_str(&mut self, string: &str) -> (written: Result<(), GraphicsError>)
        requires
            old(self)@.wf(),
            old(self)@.has_room_for(string@.take(printable_prefix(string@) as int)),
        ensures
            final(self)@.wf(),
            final(self)@ == old(self)@.with_chars(string@.take(printable_prefix(string@) as int)),
            written == if printable_prefix(string@) == string@.len() {
                Ok::<(), GraphicsError>(())
            } else {
                Err::<(), GraphicsError>(GraphicsError::NotPrintable)
            },
    {
        let ghost accepted = string@.take(printable_prefix(string@) as int);
        for character in it: string.chars()
            invariant
                it.seq() == string@,
                accepted == string@.take(printable_prefix(string@) as int),
                self@.wf(),
                old(self)@.has_room_for(accepted),
                forall|i: int| 0 <= i < it.index() ==> is_printable(string@[i] as int),
                self@ == old(self)@.with_chars(string@.take(it.index() as int)),
        {
            let ghost done = it.index() as int;
            proof {
                assert(character == string@[done]);
                lemma_prefix_is_printable(string@);
                if is_printable(character as int) {
                    assert(accepted.take(done) =~= string@.take(done));
                    assert(old(self)@.with_chars(accepted.take(done)).has_room());
                    assert(string@.take(done + 1).drop_last() =~= string@.take(done));
                } else {
                    lemma_printable_prefix(string@, done);
                }
            }
            match self.write_char(character) {
                Ok(_) => {},
                Err(e) => {
                    return Err(e);
                },
            }
        }
        proof {
            lemma_printable_prefix(string@, string@.len() as int);
            assert(string@.take(string@.len() as int) =~= string@);
        }
        Ok(())
    }
}

/// Every character of the printable prefix is printable and the one after
/// the prefix, if there is one, is not.
proof fn lemma_prefix_is_printable(chars: Seq<char>)
    ensures
        printable_prefix(chars) <= chars.len(),
        forall|i: int| 0 <= i < printable_prefix(chars) ==> is_printable(chars[i] as int),
        printable_prefix(chars) < chars.len() ==> !is_printable(chars[printable_prefix(chars) as int] as int),
    decreases chars.len(),
{
    if chars.len() > 0 && is_printable(chars[0] as int) {
        let rest = chars.drop_first();
        lemma_prefix_is_printable(rest);
        assert forall|i: int| 0 <= i < printable_prefix(chars) implies is_printable(chars[i] as int) by {
            if i > 0 {
                assert(chars[i] == rest[i - 1]);
            }
        }
    }
}

/// Whether the glyph of `byte` can be drawn: the font must have one, of
/// `font.width` by `font.height` pixels.
pub open spec fn glyph_check(font: MonoFont, byte: u8) -> Result<(), GraphicsError> {
    if byte - SPACE >= font.characters@.len() {
        Err(GraphicsError::GlyphMissing)
    } else if font.characters@[byte - SPACE]@.len() != font.width * font.height {
        Err(GraphicsError::PixelMapWrongLength)
    } else {
        Ok(())
    }
}

/// The number of characters at the start of `text` whose glyphs can be
/// drawn.
pub open spec fn drawable_prefix(font: MonoFont, text: Seq<u8>) -> nat
    decreases text.len(),
{
    if text.len() == 0 || glyph_check(font, text[0]) is Err {
        0
    } else {
        1 + drawable_prefix(font, text.drop_first())
    }
}

/// `buffer` after the glyphs of the first `count` characters of `text` have
/// been drawn, each in its cell: the cell of character `i` is
/// `font.width` by `font.height` pixels and lies `i % columns` cells to the
/// right and `i / columns` cells below the padding.
pub open spec fn drawn(
    buffer: Seq<u32>,
    stride: int,
    font: MonoFont,
    text: Seq<u8>,
    columns: int,
    padding: (usize, usize),
    count: int,
) -> Seq<u32>
    decreases count,
{
    if count <= 0 {
        buffer
    } else {
        blit(
            drawn(buffer, stride, font, text, columns, padding, count - 1),
            stride,
            font.characters@[text[count - 1] - SPACE]@,
            font.width as int,
            font.height as int,
            ((count - 1) % columns) * font.width + padding.0,
            ((count - 1) / columns) * font.height + padding.1,
        )
    }
}

/// The answer of `write_pixels`.
pub open spec fn text_check(
    text: TextBufferView,
    buffer_width: int,
    buffer_height: int,
    font: MonoFont,
    padding: (usize, usize),
) -> Result<(), GraphicsError> {
    if text.width * font.width + padding.0 >= buffer_width {
        Err(GraphicsError::FrameBufferTooNarrow)
    } else if text.height * font.height + padding.1 >= buffer_height {
        Err(GraphicsError::FrameBufferTooShort)
    } else if drawable_prefix(font, text.text) < text.text.len() {
        glyph_check(font, text.text[drawable_prefix(font, text.text) as int])
    } else {
        Ok(())
    }
}

/// The drawable prefix of `text` is `count` characters long when the glyphs
/// of these can be drawn and the glyph of the next one, if there is one,
/// cannot.
proof fn lemma_drawable_prefix(font: MonoFont, text: Seq<u8>, count: int)
    requires
        0 <= count <= text.len(),
        forall|i: int| 0 <= i < count ==> glyph_check(font, text[i]) is Ok,
        count < text.len() ==> glyph_check(font, text[count]) is Err,
    ensures
        drawable_prefix(font, text) == count,
    decreases count,
{
    if count > 0 {
        let rest = text.drop_first();
        assert forall|i: int| 0 <= i < count - 1 implies glyph_check(font, rest[i]) is Ok by {
            assert(rest[i] == text[i + 1]);
        }
        lemma_drawable_prefix(font, rest, count - 1);
    }
}

/// The cell of character `index` lies inside the frame buffer where a line
/// of text and the lines of text fit.
proof fn lemma_cell_inside(
    columns: int,
    rows: int,
    glyph_width: int,
    glyph_height: int,
    index: int,
)
    requires
        0 <= index < columns * rows,
        0 <= glyph_width,
        0 <= glyph_height,
        0 <= columns,
        0 <= rows,
    ensures
        0 < columns,
        0 <= index % columns < columns,
        0 <= index / columns < rows,
        0 <= (index % columns) * glyph_width,
        (index % columns) * glyph_width + glyph_width <= columns * glyph_width,
        0 <= (index / columns) * glyph_height,
        (index / columns) * glyph_height + glyph_height <= rows * glyph_height,
{
    assert(0 < columns) by (nonlinear_arith)
        requires
            0 <= index < columns * rows,
            0 <= columns,
            0 <= rows,
    ;
    let column = index % columns;
    let row = index / columns;
    vstd::arithmetic::div_mod::lemma_fundamental_div_mod(index, columns);
    assert(0 <= row < rows) by (nonlinear_arith)
        requires
            index == columns * row + column,
            0 <= column < columns,
            0 <= index < columns * rows,
    ;
    assert(0 <= column * glyph_width && column * glyph_width + glyph_width <= columns * glyph_width)
        by (nonlinear_arith)
        requires
            0 <= column < columns,
            0 <= glyph_width,
    ;
    assert(0 <= row * glyph_height && row * glyph_height + glyph_height <= rows * glyph_height)
        by (nonlinear_arith)
        requires
            0 <= row < rows,
            0 <= glyph_height,
    ;
}

impl TextBuffer {
    /// Draws the text into `frame_buffer` with `font`, leaving `padding.0`
    /// pixels free on the left and `padding.1` pixels at the top. The
    /// characters are drawn in order; the first whose glyph is missing or of
    /// the wrong size ends the drawing, and what was drawn before it stays.
    #[verifier::rlimit(40)]
    pub fn write_pixels(&self, frame_buffer: &mut CPUFrameBuffer, font: &MonoFont, padding: (usize, usize)) -> (written:
        Result<(), GraphicsError>)
        requires
            self@.wf(),
            old(frame_buffer).wf(),
        ensures
            final(frame_buffer).wf(),
            final(frame_buffer).width == old(frame_buffer).width,
            final(frame_buffer).height == old(frame_buffer).height,
            final(frame_buffer).stride == old(frame_buffer).stride,
            written == text_check(
                self@,
                old(frame_buffer).width as int,
                old(frame_buffer).height as int,
                *font,
                padding,
            ),
            final(frame_buffer).buffer@ == if written is Err && (written->Err_0 == GraphicsError::FrameBufferTooNarrow
                || written->Err_0 == GraphicsError::FrameBufferTooShort) {
                old(frame_buffer).buffer@
            } else {
                drawn(
                    old(frame_buffer).buffer@,
                    old(frame_buffer).stride as int,
                    *font,
                    self@.text,
                    self@.width as int,
                    padding,
                    drawable_prefix(*font, self@.text) as int,
                )
            },
    {
        let line = match self.width.checked_mul(font.width) {
            Some(glyphs) => match glyphs.checked_add(padding.0) {
                Some(line) => line,
                None => {
                    return Err(GraphicsError::FrameBufferTooNarrow);
                },
            },
            None => {
                return Err(GraphicsError::FrameBufferTooNarrow);
            },
        };
        if line >= frame_buffer.width {
            return Err(GraphicsError::FrameBufferTooNarrow);
        }
        let lines = match self.height.checked_mul(font.height) {
            Some(glyphs) => match glyphs.checked_add(padding.1) {
                Some(lines) => lines,
                None => {
                    return Err(GraphicsError::FrameBufferTooShort);
                },
            },
            None => {
                return Err(GraphicsError::FrameBufferTooShort);
            },
        };
        if lines >= frame_buffer.height {
            return Err(GraphicsError::FrameBufferTooShort);
        }
        let ghost before = frame_buffer.buffer@;
        let ghost stride = frame_buffer.stride as int;
        let mut index: usize = 0;
        while index < self.text.len()
            invariant
                index <= self.text.len(),
                self@.wf(),
                frame_buffer.wf(),
                frame_buffer.width == old(frame_buffer).width,
                frame_buffer.height == old(frame_buffer).height,
                frame_buffer.stride == old(frame_buffer).stride,
                stride == frame_buffer.stride,
                before == old(frame_buffer).buffer@,
                self.width * font.width + padding.0 < frame_buffer.width,
                self.height * font.height + padding.1 < frame_buffer.height,
                forall|i: int| 0 <= i < index ==> glyph_check(*font, self.text@[i]) is Ok,
                frame_buffer.buffer@ == drawn(before, stride, *font, self.text@, self.width as int, padding, index as int),
            decreases self.text.len() - index,
        {
            let byte = self.text[index];
            assert(is_printable(self@.text[index as int] as int));
            let glyph_index = (byte - SPACE) as usize;
            if glyph_index >= font.characters.len() {
                proof {
                    lemma_drawable_prefix(*font, self.text@, index as int);
                }
                return Err(GraphicsError::GlyphMissing);
            }
            proof {
                lemma_cell_inside(
                    self.width as int,
                    self.height as int,
                    font.width as int,
                    font.height as int,
                    index as int,
                );
            }
            let x = (index % self.width) * font.width + padding.0;
            let y = (index / self.width) * font.height + padding.1;
            match frame_buffer.write_rect_pixel_map(font.characters[glyph_index].as_slice(), font.width, font.height, x, y) {
                Ok(_) => {},
                Err(e) => {
                    proof {
                        lemma_drawable_prefix(*font, self.text@, index as int);
                    }
                    return Err(e);
                },
            }
            index += 1;
        }
        proof {
            lemma_drawable_prefix(*font, self.text@, self.text@.len() as int);
        }
        Ok(())
    }
}

impl TextBuffer {
    /// The number of columns.
    pub fn width(&self) -> (width: usize)
        ensures
            width == self@.width,
    {
        self.width
    }

    /// The number of rows.
    pub fn height(&self) -> (height: usize)
        ensures
            height == self@.height,
    {
        self.height
    }

    /// The column and the row of the cursor.
    pub fn cursor(&self) -> (cursor: (usize, usize))
        ensures
            cursor.0 == self@.cursor.0,
            cursor.1 == self@.cursor.1,
    {
        self.cursor
    }

    /// The characters, row by row.
    pub fn text(&self) -> (text: &[u8])
        ensures
            text@ == self@.text,
    {
        self.text.as_slice()
    }

    /// Whether there is a place for one more character.
    pub fn has_room(&self) -> (room: bool)
        requires
            self@.wf(),
        ensures
            room == self@.has_room(),
    {
        let cells = self.text.len();
        assert(self.width * self.height == cells);
        cursor_has_room(self.width, self.height, self.cursor)
    }

    /// Whether there is a place for each character of `string` up to the
    /// first that is not printable.
    #[verifier::rlimit(40)]
    pub fn has_room_for(&self, string: &str) -> (room: bool)
        requires
            self@.wf(),
        ensures
            room == self@.has_room_for(string@.take(printable_prefix(string@) as int)),
    {
        let ghost accepted = string@.take(printable_prefix(string@) as int);
        let mut cursor = self.cursor;
        let cells = self.text.len();
        proof {
            lemma_prefix_is_printable(string@);
        }
        for character in it: string.chars()
            invariant
                it.seq() == string@,
                accepted == string@.take(printable_prefix(string@) as int),
                self@.wf(),
                self.width * self.height == cells,
                it.index() <= printable_prefix(string@) <= string@.len(),
                forall|k: int| 0 <= k < it.index() ==> (#[trigger] self@.with_chars(accepted.take(k))).has_room(),
                self@.with_chars(accepted.take(it.index() as int)).wf(),
                self@.with_chars(accepted.take(it.index() as int)).width == self.width,
                self@.with_chars(accepted.take(it.index() as int)).height == self.height,
                self@.with_chars(accepted.take(it.index() as int)).cursor == (cursor.0 as nat, cursor.1 as nat),
        {
            let ghost done = it.index() as int;
            let ghost state = self@.with_chars(accepted.take(done));
            proof {
                assert(character == string@[done]);
                lemma_prefix_is_printable(string@);
            }
            if !char_is_printable(character) {
                proof {
                    lemma_printable_prefix(string@, done);
                }
                return true;
            }
            proof {
                assert(printable_prefix(string@) > done);
                assert(accepted.take(done + 1).drop_last() =~= accepted.take(done));
                assert(accepted.take(done + 1).last() == character);
            }
            if !cursor_has_room(self.width, self.height, cursor) {
                assert(!state.has_room());
                return false;
            }
            cursor = if cursor.0 == self.width {
                if cursor.1 == self.height {
                    (0, cursor.1)
                } else {
                    (0, cursor.1 + 1)
                }
            } else {
                (cursor.0 + 1, cursor.1)
            };
        }
        proof {
            lemma_printable_prefix(string@, string@.len() as int);
        }
        true
    }
}

/// Whether `character` is printable ASCII.
pub fn char_is_printable(character: char) -> (printable: bool)
    ensures
        printable == is_printable(character as int),
{
    let code = character as u32;
    32 <= code && code <= 126
}

/// Whether a grid of `width` by `height` characters has a place for one
/// more character at `cursor`.
fn cursor_has_room(width: usize, height: usize, cursor: (usize, usize)) -> (room: bool)
    requires
        cursor.0 <= width,
        cursor.1 <= height,
        width * height <= usize::MAX,
    ensures
        room == (TextBufferView {
            width: width as nat,
            height: height as nat,
            cursor: (cursor.0 as nat, cursor.1 as nat),
            text: Seq::new((width * height) as nat, |i: int| SPACE),
        }).has_room(),
{
    if width == 0 || height == 0 {
        assert(width * height == 0) by (nonlinear_arith)
            requires
                width == 0 || height == 0,
        ;
        return false;
    }
    if cursor.0 == width {
        if cursor.1 == height {
            assert(0 <= (height - 1) * width < width * height) by (nonlinear_arith)
                requires
                    width >= 1,
                    height >= 1,
            ;
            true
        } else {
            assert(cursor.1 * width + width < width * height <==> cursor.1 + 1 < height) by (nonlinear_arith)
                requires
                    width >= 1,
                    0 <= cursor.1 < height,
            ;
            cursor.1 + 1 < height
        }
    } else {
        assert(cursor.1 * width + cursor.0 < width * height <==> cursor.1 < height) by (nonlinear_arith)
            requires
                width >= 1,
                0 <= cursor.0 < width,
                0 <= cursor.1 <= height,
        ;
        cursor.1 < height
    }
}

/// The cell of the text grid in which the pixel at index `at` lies, counted
/// row by row from zero, where it lies in one: cells are `font_width` by
/// `font_height` pixels, `columns` of them stand side by side, and the first
/// starts `padding.0` pixels from the left and `padding.1` pixels from the
/// top of a buffer with rows of `stride` pixels.
pub open spec fn cell_of(
    stride: int,
    columns: int,
    font_width: int,
    font_height: int,
    padding: (usize, usize),
    at: int,
) -> Option<int> {
    let column = at % stride - padding.0;
    let row = at / stride - padding.1;
    if stride > 0 && font_width > 0 && font_height > 0 && column >= 0 && row >= 0 && column / font_width < columns {
        Some((row / font_height) * columns + column / font_width)
    } else {
        None
    }
}

/// Whether `value` lies in part `part` of a line that is cut into parts of
/// `size`.
proof fn lemma_part(value: int, size: int, part: int)
    requires
        size > 0,
        part >= 0,
    ensures
        part * size <= value < part * size + size <==> value >= 0 && value / size == part,
        value >= 0 && value / size == part ==> value % size == value - part * size,
{
    vstd::arithmetic::div_mod::lemma_fundamental_div_mod(value, size);
    if part * size <= value < part * size + size {
        vstd::arithmetic::div_mod::lemma_fundamental_div_mod_converse(value, size, part, value - part * size);
    }
    if value >= 0 && value / size == part {
        assert(size * part == part * size) by (nonlinear_arith);
    }
    if value < 0 {
        assert(part * size >= 0) by (nonlinear_arith)
            requires
                part >= 0,
                size > 0,
        ;
    }
}

/// A cell of a grid is numbered by its row and its column.
proof fn lemma_cell_number(columns: int, row: int, column: int, cell: int)
    requires
        columns > 0,
        0 <= column < columns,
        0 <= row,
        0 <= cell,
    ensures
        row * columns + column == cell <==> row == cell / columns && column == cell % columns,
{
    vstd::arithmetic::div_mod::lemma_fundamental_div_mod(cell, columns);
    assert(columns * (cell / columns) == (cell / columns) * columns) by (nonlinear_arith);
    if row * columns + column == cell {
        vstd::arithmetic::div_mod::lemma_fundamental_div_mod_converse(cell, columns, row, column);
    }
}

/// The rectangle of cell `cell` holds exactly the pixels that lie in that
/// cell, each at its place in the glyph.
#[verifier::rlimit(40)]
proof fn lemma_cell_rect(
    stride: int,
    columns: int,
    font_width: int,
    font_height: int,
    padding: (usize, usize),
    cell: int,
    at: int,
)
    requires
        columns > 0,
        font_width >= 0,
        font_height >= 0,
        cell >= 0,
        at >= 0,
    ensures
        in_rect(
            stride,
            font_width,
            font_height,
            (cell % columns) * font_width + padding.0,
            (cell / columns) * font_height + padding.1,
            at,
        ) <==> cell_of(stride, columns, font_width, font_height, padding, at) == Some(cell),
        cell_of(stride, columns, font_width, font_height, padding, at) == Some(cell) ==> {
            &&& at / stride - ((cell / columns) * font_height + padding.1) == (at / stride - padding.1) % font_height
            &&& at % stride - ((cell % columns) * font_width + padding.0) == (at % stride - padding.0) % font_width
        },
{
    if stride > 0 && font_width > 0 && font_height > 0 {
        let column = at % stride - padding.0;
        let row = at / stride - padding.1;
        let cell_column = cell % columns;
        let cell_row = cell / columns;
        vstd::arithmetic::div_mod::lemma_fundamental_div_mod(cell, columns);
        assert(cell_row >= 0) by (nonlinear_arith)
            requires
                cell >= 0,
                columns > 0,
                cell == columns * cell_row + cell_column,
                0 <= cell_column < columns,
        ;
        lemma_part(column, font_width, cell_column);
        lemma_part(row, font_height, cell_row);
        if column >= 0 && row >= 0 && column / font_width < columns {
            vstd::arithmetic::div_mod::lemma_fundamental_div_mod(column, font_width);
            vstd::arithmetic::div_mod::lemma_fundamental_div_mod(row, font_height);
            assert(column / font_width >= 0 && row / font_height >= 0) by (nonlinear_arith)
                requires
                    column >= 0,
                    row >= 0,
                    font_width > 0,
                    font_height > 0,
                    column == font_width * (column / font_width) + column % font_width,
                    row == font_height * (row / font_height) + row % font_height,
                    0 <= column % font_width < font_width,
                    0 <= row % font_height < font_height,
            ;
            lemma_cell_number(columns, row / font_height, column / font_width, cell);
        }
    }
}

/// What `write_pixels` leaves in each pixel: a pixel in the cell of one of
/// the first `count` characters shows the pixel of that character's glyph
/// at the same place in the cell, and every other pixel is as it was.
pub proof fn lemma_drawn_pixel(
    buffer: Seq<u32>,
    stride: int,
    font: MonoFont,
    text: Seq<u8>,
    columns: int,
    padding: (usize, usize),
    count: int,
    at: int,
)
    requires
        columns > 0,
        0 <= count <= text.len(),
        0 <= at < buffer.len(),
    ensures
        drawn(buffer, stride, font, text, columns, padding, count).len() == buffer.len(),
        drawn(buffer, stride, font, text, columns, padding, count)[at] == match cell_of(
            stride,
            columns,
            font.width as int,
            font.height as int,
            padding,
            at,
        ) {
            Some(cell) => if cell < count {
                font.characters@[text[cell] - SPACE]@[((at / stride - padding.1) % (font.height as int)) * font.width
                    + (at % stride - padding.0) % (font.width as int)]
            } else {
                buffer[at]
            },
            None => buffer[at],
        },
    decreases count,
{
    if count > 0 {
        lemma_drawn_pixel(buffer, stride, font, text, columns, padding, count - 1, at);
        lemma_cell_rect(stride, columns, font.width as int, font.height as int, padding, count - 1, at);
    }
}

} // verus!
