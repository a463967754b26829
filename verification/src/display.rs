use vstd::prelude::*;
use vstd::string::StringSliceAdditionalSpecFns;

use crate::font::{FONT5X7, glyph_column, has_glyph};
use crate::wire::{
    Line, Signal, all_control_wave, bytes_wave, control_frame, dot_frame, repeat_wave, reset_wave,
    shift_out_prefix, shift_out_wave, simultaneous_mode_word,
};

verus! {

/// Largest number of characters a chain of displays can have.
pub const LEDDISPLAY_MAXCHARS: u8 = 32;

/// What a display holds, as plain values.
#[verifier::ext_equal]
pub struct HcmsModel {
    /// Number of characters of the display (at most 32).
    pub display_length: u8,
    /// Text written character by character with `write` (37 bytes).
    pub string_buffer: Seq<u8>,
    /// Text set with `set_string` and shown by `scroll` (37 bytes).
    pub display_string: Seq<u8>,
    /// Display position at which the next character is written or at which
    /// the text starts; may lie off the display.
    pub cursor: i8,
    /// Dot columns, five per character (160 bytes); the first
    /// `5 * display_length` are what the display shows.
    pub dots: Seq<u8>,
}

impl HcmsModel {
    /// The invariant of every display.
    pub open spec fn wf(self) -> bool {
        &&& self.display_length <= 32
        &&& self.string_buffer.len() == 37
        &&& self.display_string.len() == 37
        &&& self.dots.len() == 160
    }

    /// Number of dot columns that the display shows.
    pub open spec fn shown_columns(self) -> int {
        self.display_length * 5
    }

    /// The bytes that a load of the dot register sends.
    pub open spec fn dot_bytes(self) -> Seq<u8> {
        self.dots.take(self.shown_columns())
    }

    /// Number of chips: one chip drives four characters.
    pub open spec fn chips(self) -> nat {
        (self.display_length / 4) as nat
    }
}

/// A freshly made display of `displaylen` characters (cut down to 32).
pub open spec fn initial_model(displaylen: u8) -> HcmsModel {
    HcmsModel {
        display_length: if displaylen > 32 {
            32
        } else {
            displaylen
        },
        string_buffer: Seq::new(37, |i: int| 32u8),
        display_string: Seq::new(37, |i: int| 32u8),
        cursor: 0,
        dots: Seq::new(160, |i: int| 0u8),
    }
}

/// Everything that `begin` sends: the reset sequence, the dot register, then
/// control word 0 at full brightness without sleep mode.
pub open spec fn begin_wave(m: HcmsModel) -> Seq<Signal> {
    reset_wave() + dot_frame(m.dot_bytes()) + all_control_wave(m.chips(), 0b0111_1111u8)
}

/// The control word for brightness `bright`, limited to 15.
pub open spec fn brightness_word(bright: u8) -> u8 {
    (0b0111_0000u8 + if bright > 15 {
        15u8
    } else {
        bright
    }) as u8
}

/// The code a character is drawn with: its code point cut to 16 bits.
pub open spec fn char_code(c: char) -> int {
    (c as int) % 65536
}

/// The byte a character is stored as: its code point cut to 8 bits.
pub open spec fn char_byte(c: char) -> u8 {
    ((c as int) % 256) as u8
}

/// `dots` with the glyph of `code` in the five columns of position `pos`.
pub open spec fn stamp_glyph(dots: Seq<u8>, code: int, pos: int) -> Seq<u8> {
    Seq::new(
        dots.len(),
        |j: int|
            if pos * 5 <= j < pos * 5 + 5 {
                glyph_column(code, j - pos * 5)
            } else {
                dots[j]
            },
    )
}

/// `dots` with the first `len` positions showing the glyphs of `code_at(0)`
/// to `code_at(len - 1)`, the other columns unchanged.
pub open spec fn render(dots: Seq<u8>, len: int, code_at: spec_fn(int) -> int) -> Seq<u8> {
    Seq::new(
        dots.len(),
        |j: int|
            if 0 <= j < len * 5 {
                glyph_column(code_at(j / 5), j % 5)
            } else {
                dots[j]
            },
    )
}

/// Number of bytes of `text` above 32 (visible characters, not blanks or fill).
pub open spec fn visible_count(text: Seq<u8>) -> nat
    decreases text.len(),
{
    if text.len() == 0 {
        0
    } else {
        visible_count(text.drop_last()) + if text.last() > 32 {
            1nat
        } else {
            0nat
        }
    }
}

/// The character code shown at display position `pos` when the first `end`
/// bytes of `text` start at position `cursor`: a byte of the text, or a space.
pub open spec fn shown_code(text: Seq<u8>, cursor: int, end: int, pos: int) -> int {
    let k = pos - cursor;
    if 0 <= k < end {
        text[k] as int
    } else {
        32
    }
}

/// Whether every character that the window shows has a glyph.
pub open spec fn window_printable(text: Seq<u8>, cursor: int, end: int, len: int) -> bool {
    forall|p: int| 0 <= p < len ==> has_glyph(#[trigger] shown_code(text, cursor, end, p))
}

/// The display redrawn from its text, starting at its cursor.
pub open spec fn window_model(m: HcmsModel) -> HcmsModel {
    HcmsModel {
        dots: render(
            m.dots,
            m.display_length as int,
            |p: int| shown_code(m.display_string, m.cursor as int, visible_count(m.display_string) as int, p),
        ),
        ..m
    }
}

/// `write_character`: the glyph of `c` put at position `pos`.
pub open spec fn write_character_model(m: HcmsModel, c: char, pos: int) -> HcmsModel {
    HcmsModel { dots: stamp_glyph(m.dots, char_code(c), pos), ..m }
}

/// `clear`: the text buffer blanked and every shown position drawn as a space.
pub open spec fn clear_model(m: HcmsModel) -> HcmsModel {
    HcmsModel {
        string_buffer: Seq::new(37, |i: int| 32u8),
        dots: render(m.dots, m.display_length as int, |p: int| 32),
        ..m
    }
}

/// Whether `write` puts its character on the display: the cursor is on it.
pub open spec fn cursor_on_display(m: HcmsModel) -> bool {
    0 <= m.cursor < m.display_length
}

/// `write` with the cursor on the display: the glyph drawn at the cursor, the
/// byte recorded in the text buffer while no other text is set, the cursor
/// moved one to the right.
pub open spec fn write_model(m: HcmsModel, c: char) -> HcmsModel {
    let m1 = write_character_model(m, c, m.cursor as int);
    HcmsModel {
        string_buffer: if m.display_string == m.string_buffer && m.cursor < 32 {
            m.string_buffer.update(m.cursor as int, char_byte(c))
        } else {
            m.string_buffer
        },
        cursor: (m.cursor + 1) as i8,
        ..m1
    }
}

/// `set_string`: the text replaced by `bytes`, padded with zero bytes.
pub open spec fn set_string_model(m: HcmsModel, bytes: Seq<u8>) -> HcmsModel {
    HcmsModel { display_string: bytes + Seq::new((37 - bytes.len()) as nat, |i: int| 0u8), ..m }
}

/// The cursor after a scroll to the right (`direction`) or to the left.
pub open spec fn scrolled_cursor(m: HcmsModel, direction: bool) -> int {
    if direction {
        m.cursor + 1
    } else {
        m.cursor - 1
    }
}

/// `scroll`: the cursor moved by one and the display redrawn.
pub open spec fn scroll_model(m: HcmsModel, direction: bool) -> HcmsModel {
    window_model(HcmsModel { cursor: scrolled_cursor(m, direction) as i8, ..m })
}

/// Whether `scroll` can run: the redrawn positions lie in the dot register,
/// the cursor stays an `i8`, and every shown byte has a glyph.
pub open spec fn can_scroll(m: HcmsModel, direction: bool) -> bool {
    &&& m.display_length <= 25
    &&& i8::MIN <= scrolled_cursor(m, direction) <= i8::MAX
    &&& window_printable(
        m.display_string,
        scrolled_cursor(m, direction),
        visible_count(m.display_string) as int,
        m.display_length as int,
    )
}

/// `show_display_length_worth`: the text set to `bytes` and drawn right-aligned,
/// its visible bytes ending at the last position.
pub open spec fn show_model(m: HcmsModel, bytes: Seq<u8>) -> HcmsModel {
    let m1 = set_string_model(m, bytes);
    window_model(
        HcmsModel {
            cursor: (m1.display_length - visible_count(m1.display_string)) as i8,
            ..m1
        },
    )
}

/// Whether `show_display_length_worth` can run on `bytes`.
pub open spec fn can_show(m: HcmsModel, bytes: Seq<u8>) -> bool {
    let text = set_string_model(m, bytes).display_string;
    let end = visible_count(text) as int;
    &&& m.display_length <= 25
    &&& bytes.len() <= 37
    &&& window_printable(text, m.display_length - end, end, m.display_length as int)
}

/// An Avago HCMS-29xx/39xx display: its dot register, its text and its cursor.
pub struct Hcms {
    display_length: u8,
    string_buffer: [u8; 37],
    display_string: [u8; 37],
    cursor_pos: i8,
    dot_register: [u8; 160],
}

impl View for Hcms {
    type V = HcmsModel;

    closed spec fn view(&self) -> HcmsModel {
        HcmsModel {
            display_length: self.display_length,
            string_buffer: self.string_buffer@,
            display_string: self.display_string@,
            cursor: self.cursor_pos,
            dots: self.dot_register@,
        }
    }
}

impl Hcms {
    /// A display of `displaylen` characters, at most 32: blank text, cursor at
    /// home, all dots off.
    pub fn new_display(displaylen: u8) -> (display: Self)
        ensures
            display@ == initial_model(displaylen),
            display@.wf(),
    {
        let mut display = Hcms {
            display_length: displaylen,
            string_buffer: [32u8; 37],
            display_string: [32u8; 37],
            cursor_pos: 0,
            dot_register: [0b0000_0000u8; 160],
        };
        if display.display_length > LEDDISPLAY_MAXCHARS {
            display.display_length = LEDDISPLAY_MAXCHARS;
        }
        assert(display@.string_buffer =~= Seq::new(37, |i: int| 32u8));
        assert(display@.display_string =~= Seq::new(37, |i: int| 32u8));
        assert(display@.dots =~= Seq::new(160, |i: int| 0u8));
        display
    }

    /// Initializes the display: resets it, loads the dot register, and sets
    /// full brightness.
    pub fn begin(&self, wire: &mut Vec<Signal>)
        requires
            self@.wf(),
        ensures
            final(wire)@ == old(wire)@ + begin_wave(self@),
    {
        wire.push(Signal::Low(Line::Reset));
        wire.push(Signal::DelayMs(10));
        wire.push(Signal::High(Line::Reset));
        wire.push(Signal::Low(Line::RegisterSelect));
        wire.push(Signal::Low(Line::Clock));
        let ghost after_reset = wire@;
        self.load_dot_register(wire);
        self.load_all_control_registers(0b01111111, wire);
        assert(after_reset =~= old(wire)@ + reset_wave());
        assert(wire@ =~= old(wire)@ + begin_wave(self@));
    }

    /// Sends the shown part of the dot register to the display.
    pub fn load_dot_register(&self, wire: &mut Vec<Signal>)
        requires
            self@.wf(),
        ensures
            final(wire)@ == old(wire)@ + dot_frame(self@.dot_bytes()),
    {
        let max_data: u8 = self.display_length * 5;
        wire.push(Signal::Low(Line::RegisterSelect));
        wire.push(Signal::Low(Line::Enable));
        let ghost start = wire@;
        for number in 0..max_data
            invariant
                self@.wf(),
                max_data == self@.shown_columns(),
                wire@ == start + bytes_wave(self@.dots.take(number as int)),
        {
            let ghost before = wire@;
            self.shift_out(self.dot_register[number as usize], wire);
            proof {
                let taken = self@.dots.take(number + 1);
                assert(taken.drop_last() =~= self@.dots.take(number as int));
                assert(wire@ =~= start + bytes_wave(taken));
            }
        }
        wire.push(Signal::High(Line::Enable));
        assert(wire@ =~= old(wire)@ + dot_frame(self@.dot_bytes()));
    }

    /// Shifts out the eight bits of `value`, most significant first, each set
    /// on the data line and taken by a clock pulse.
    pub fn shift_out(&self, value: u8, wire: &mut Vec<Signal>)
        ensures
            final(wire)@ == old(wire)@ + shift_out_wave(value),
    {
        for i in 0..8u8
            invariant
                wire@ == old(wire)@ + shift_out_prefix(value, i as nat),
        {
            if value & (1u8 << (7 - i)) > 0 {
                wire.push(Signal::High(Line::Data));
            } else {
                wire.push(Signal::Low(Line::Data));
            }
            wire.push(Signal::High(Line::Clock));
            wire.push(Signal::Low(Line::Clock));
            assert(wire@ =~= old(wire)@ + shift_out_prefix(value, (i + 1) as nat));
        }
    }

    /// Sends `data_byte` to the control registers of all chips at once, by
    /// putting each chip into simultaneous mode first and back into serial
    /// mode after.
    pub fn load_all_control_registers(&self, data_byte: u8, wire: &mut Vec<Signal>)
        requires
            self@.wf(),
        ensures
            final(wire)@ == old(wire)@ + all_control_wave(self@.chips(), data_byte),
    {
        // One chip drives four characters.
        let chip_count = self.display_length / 4;
        for i in 0..chip_count
            invariant
                chip_count == self@.chips(),
                wire@ == old(wire)@ + repeat_wave(
                    control_frame(simultaneous_mode_word()),
                    i as nat,
                ),
        {
            self.load_control_registers(0b1000_0001, wire);
            assert(wire@ =~= old(wire)@ + repeat_wave(
                control_frame(simultaneous_mode_word()),
                (i + 1) as nat,
            ));
        }
        self.load_control_registers(data_byte, wire);
        self.load_control_registers(0b1000_0000, wire);
        assert(wire@ =~= old(wire)@ + all_control_wave(self@.chips(), data_byte));
    }

    /// Sends `data_byte` to one control register.
    fn load_control_registers(&self, data_byte: u8, wire: &mut Vec<Signal>)
        ensures
            final(wire)@ == old(wire)@ + control_frame(data_byte),
    {
        wire.push(Signal::High(Line::RegisterSelect));
        wire.push(Signal::Low(Line::Enable));
        self.shift_out(data_byte, wire);
        wire.push(Signal::High(Line::Enable));
        assert(wire@ =~= old(wire)@ + control_frame(data_byte));
    }

    /// Sets the brightness, from 0 to 15 (larger values give 15).
    pub fn set_brightness(&self, bright: u8, wire: &mut Vec<Signal>)
        requires
            self@.wf(),
        ensures
            final(wire)@ == old(wire)@ + all_control_wave(self@.chips(), brightness_word(bright)),
    {
        let mut brightness = bright;
        if brightness > 15 {
            brightness = 15;
        }
        self.load_all_control_registers(0b01110000 + brightness, wire);
    }
    /// Blanks the text buffer and every shown position, then loads the dot register.
    pub fn clear(&mut self, wire: &mut Vec<Signal>)
        requires
            old(self)@.wf(),
            old(self)@.display_length <= 25,
        ensures
            final(self)@ == clear_model(old(self)@),
            final(self)@.wf(),
            final(wire)@ == old(wire)@ + dot_frame(final(self)@.dot_bytes()),
    {
        let ghost m = self@;
        let ghost blank = |p: int| 32int;
        self.string_buffer = [32u8; 37];
        let len = self.display_length;
        for display_pos in 0..len
            invariant
                len == m.display_length,
                self@.wf(),
                self@.display_length == m.display_length <= 25,
                self@.string_buffer =~= Seq::new(37, |i: int| 32u8),
                self@.display_string == m.display_string,
                self@.cursor == m.cursor,
                forall|p: int| #[trigger] blank(p) == 32,
                self@.dots =~= render(m.dots, display_pos as int, blank),
        {
            assert(char_code(' ') == blank(display_pos as int));
            self.write_character(' ', display_pos as i8);
            proof {
                lemma_render_step(m.dots, display_pos as int, blank);
            }
        }
        assert(self@ =~= clear_model(m));
        self.load_dot_register(wire);
    }

    /// Draws the glyph of `what_char` at display position `what_position`.
    pub fn write_character(&mut self, what_char: char, what_position: i8)
        requires
            old(self)@.wf(),
            0 <= what_position <= 24,
            has_glyph(char_code(what_char)),
        ensures
            final(self)@ == write_character_model(old(self)@, what_char, what_position as int),
            final(self)@.wf(),
    {
        let ghost m = self@;
        // Every character has 5 columns of 8 bits.
        let this_position: i8 = what_position * 5;
        let code: u32 = (what_char as u32) % 65536;
        for i in 0..5u16
            invariant
                self@.wf(),
                this_position == what_position * 5,
                0 <= what_position <= 24,
                code == char_code(what_char),
                has_glyph(code as int),
                self@.display_length == m.display_length,
                self@.string_buffer == m.string_buffer,
                self@.display_string == m.display_string,
                self@.cursor == m.cursor,
                forall|j: int|
                    0 <= j < 160 ==> #[trigger] self@.dots[j] == if this_position <= j
                        < this_position + i {
                        glyph_column(code as int, j - this_position)
                    } else {
                        m.dots[j]
                    },
        {
            let actual_position: i8 = i as i8 + this_position;
            self.dot_register[actual_position as usize] = FONT5X7[(((code as u16) - 32) * 5
                + i) as usize];
        }
        assert(self@.dots =~= stamp_glyph(m.dots, char_code(what_char), what_position as int));
        assert(self@ =~= write_character_model(m, what_char, what_position as int));
    }

    /// Puts the cursor at position 0.
    pub fn home(&mut self)
        ensures
            final(self)@ == (HcmsModel { cursor: 0, ..old(self)@ }),
    {
        self.set_cursor(0);
    }

    /// Puts the cursor at `which_position`.
    fn set_cursor(&mut self, which_position: i8)
        ensures
            final(self)@ == (HcmsModel { cursor: which_position, ..old(self)@ }),
    {
        self.cursor_pos = which_position;
    }

    /// Writes `byte` at the cursor and moves the cursor right, if the cursor is
    /// on the display; otherwise does nothing.
    pub fn write(&mut self, byte: char, wire: &mut Vec<Signal>)
        requires
            old(self)@.wf(),
            cursor_on_display(old(self)@) ==> old(self)@.cursor <= 24 && has_glyph(
                char_code(byte),
            ),
        ensures
            final(self)@.wf(),
            cursor_on_display(old(self)@) ==> final(self)@ == write_model(old(self)@, byte)
                && final(wire)@ == old(wire)@ + dot_frame(final(self)@.dot_bytes()),
            !cursor_on_display(old(self)@) ==> final(self)@ == old(self)@ && final(wire)@
                == old(wire)@,
    {
        let ghost m = self@;
        // The cursor must be on the display.
        if self.cursor_pos >= 0 && self.cursor_pos < self.display_length as i8 {
            self.write_character(byte, self.cursor_pos);
            // Record the byte, unless a text set by `set_string` is in place.
            if same_text(&self.display_string, &self.string_buffer) && self.cursor_pos
                < LEDDISPLAY_MAXCHARS as i8 {
                self.string_buffer[self.cursor_pos as usize] = ((byte as u32) % 256) as u8;
            }
            self.cursor_pos += 1;
            assert(self@ =~= write_model(m, byte));
            self.load_dot_register(wire);
        }
    }

    /// Sets the text to the bytes of `string_to_show`, padded with zero bytes.
    pub fn set_string(&mut self, string_to_show: &str)
        requires
            old(self)@.wf(),
            string_to_show.spec_bytes().len() <= 37,
        ensures
            final(self)@ == set_string_model(old(self)@, string_to_show.spec_bytes()),
            final(self)@.wf(),
    {
        let ghost m = self@;
        let bytes = string_to_show.as_bytes();
        let mut i: usize = 0;
        while i < bytes.len()
            invariant
                self@.wf(),
                bytes@ == string_to_show.spec_bytes(),
                bytes@.len() <= 37,
                i <= bytes@.len(),
                self@ == (HcmsModel { display_string: self@.display_string, ..m }),
                forall|j: int| 0 <= j < i ==> self@.display_string[j] == bytes@[j],
            decreases bytes@.len() - i,
        {
            self.display_string[i] = bytes[i];
            i += 1;
        }
        let fill = self.display_string.len() - i;
        for _blank in 0..fill
            invariant
                self@.wf(),
                bytes@ == string_to_show.spec_bytes(),
                fill == 37 - bytes@.len(),
                bytes@.len() <= i <= 37,
                i == bytes@.len() + _blank,
                self@ == (HcmsModel { display_string: self@.display_string, ..m }),
                forall|j: int| 0 <= j < bytes@.len() ==> self@.display_string[j] == bytes@[j],
                forall|j: int| bytes@.len() <= j < i ==> self@.display_string[j] == 0,
        {
            self.display_string[i] = 0;
            i += 1;
        }
        assert(self@.display_string =~= bytes@ + Seq::new((37 - bytes@.len()) as nat, |k: int| 0u8));
        assert(self@ =~= set_string_model(m, bytes@));
    }

    /// Number of visible characters of the text: its bytes above 32.
    pub fn get_string_length(&self) -> (len: usize)
        requires
            self@.wf(),
        ensures
            len == visible_count(self@.display_string),
            len <= 37,
    {
        let mut len: usize = 0;
        for k in 0..37usize
            invariant
                self@.wf(),
                len == visible_count(self@.display_string.take(k as int)),
                len <= k,
        {
            let letter = self.display_string[k];
            if letter > 32 {
                len += 1;
            }
            assert(self@.display_string.take(k + 1).drop_last() =~= self@.display_string.take(
                k as int,
            ));
        }
        assert(self@.display_string.take(37) =~= self@.display_string);
        len
    }

    /// The text, all 37 bytes.
    pub fn get_string_in_u8(&self) -> (text: [u8; 37])
        ensures
            text@ == self@.display_string,
    {
        self.display_string
    }

    /// Moves the text one position to the right (`direction`) or to the left
    /// by moving the cursor, redraws the display, and loads the dot register.
    pub fn scroll(&mut self, direction: bool, wire: &mut Vec<Signal>)
        requires
            old(self)@.wf(),
            can_scroll(old(self)@, direction),
        ensures
            final(self)@ == scroll_model(old(self)@, direction),
            final(self)@.wf(),
            final(wire)@ == old(wire)@ + dot_frame(final(self)@.dot_bytes()),
    {
        if direction {
            self.cursor_pos += 1;
        } else {
            self.cursor_pos -= 1;
        }
        // Length of the string to display.
        let string_end = self.get_string_length();
        self.show_window(string_end);
        self.load_dot_register(wire);
    }

    /// The cursor.
    pub fn get_cursor(&self) -> (cursor: i8)
        ensures
            cursor == self@.cursor,
    {
        self.cursor_pos
    }

    /// Sets the text to `string_to_show` and draws it right-aligned: its
    /// visible bytes end at the last position. Then loads the dot register.
    pub fn show_display_length_worth(&mut self, string_to_show: &str, wire: &mut Vec<Signal>)
        requires
            old(self)@.wf(),
            can_show(old(self)@, string_to_show.spec_bytes()),
        ensures
            final(self)@ == show_model(old(self)@, string_to_show.spec_bytes()),
            final(self)@.wf(),
            final(wire)@ == old(wire)@ + dot_frame(final(self)@.dot_bytes()),
    {
        self.set_string(string_to_show);
        // Length of the string to display.
        let string_end = self.get_string_length();
        self.cursor_pos = self.display_length as i8 - string_end as i8;
        self.show_window(string_end);
        self.load_dot_register(wire);
    }

    /// Draws the first `string_end` bytes of the text starting at the cursor,
    /// spaces elsewhere, on every position of the display.
    fn show_window(&mut self, string_end: usize)
        requires
            old(self)@.wf(),
            old(self)@.display_length <= 25,
            string_end == visible_count(old(self)@.display_string),
            window_printable(
                old(self)@.display_string,
                old(self)@.cursor as int,
                string_end as int,
                old(self)@.display_length as int,
            ),
        ensures
            final(self)@ == window_model(old(self)@),
            final(self)@.wf(),
    {
        let ghost m = self@;
        let ghost code_at = |p: int|
            shown_code(m.display_string, m.cursor as int, string_end as int, p);
        proof {
            lemma_visible_count_bound(m.display_string);
        }
        // Loop over the display and take display_length characters of the text.
        let len = self.display_length as usize;
        for display_pos in 0..len
            invariant
                len == m.display_length,
                self@.wf(),
                self@.display_length == m.display_length <= 25,
                self@.string_buffer == m.string_buffer,
                self@.display_string == m.display_string,
                self@.cursor == m.cursor,
                string_end <= 37,
                window_printable(m.display_string, m.cursor as int, string_end as int, m.display_length as int),
                forall|p: int|
                    #[trigger] code_at(p) == shown_code(
                        m.display_string,
                        m.cursor as int,
                        string_end as int,
                        p,
                    ),
                self@.dots =~= render(m.dots, display_pos as int, code_at),
        {
            // Which character of the text is wanted here.
            let which_character: i16 = display_pos as i16 - self.cursor_pos as i16;
            let char_to_show = if which_character >= 0 && which_character < string_end as i16 {
                self.display_string[which_character as usize] as char
            } else {
                ' '
            };
            assert(has_glyph(
                shown_code(m.display_string, m.cursor as int, string_end as int, display_pos as int),
            ));
            assert(char_code(char_to_show) == code_at(display_pos as int));
            self.write_character(char_to_show, display_pos as i8);
            proof {
                lemma_render_step(m.dots, display_pos as int, code_at);
            }
        }
        assert(self@ =~= window_model(m));
    }
}

/// Whether two texts are equal, byte for byte.
fn same_text(a: &[u8; 37], b: &[u8; 37]) -> (same: bool)
    ensures
        same == (a@ == b@),
{
    for k in 0..37usize
        invariant
            forall|j: int| 0 <= j < k ==> a@[j] == b@[j],
    {
        if a[k] != b[k] {
            return false;
        }
    }
    assert(a@ =~= b@);
    true
}

/// Drawing position `pos` after positions `0..pos` gives positions `0..pos + 1`.
proof fn lemma_render_step(dots: Seq<u8>, pos: int, code_at: spec_fn(int) -> int)
    requires
        0 <= pos,
        (pos + 1) * 5 <= dots.len(),
    ensures
        stamp_glyph(render(dots, pos, code_at), code_at(pos), pos) =~= render(dots, pos + 1, code_at),
{
    assert forall|j: int| 0 <= j < dots.len() implies #[trigger] stamp_glyph(render(dots, pos, code_at), code_at(pos), pos)[j]
        == render(dots, pos + 1, code_at)[j] by {
        if pos * 5 <= j < pos * 5 + 5 {
            assert(j / 5 == pos && j % 5 == j - pos * 5) by (nonlinear_arith)
                requires
                    pos * 5 <= j < pos * 5 + 5,
            ;
        } else if 0 <= j < pos * 5 {
            assert(j / 5 < pos) by (nonlinear_arith)
                requires
                    0 <= j < pos * 5,
            ;
        }
    }
}

/// At most as many bytes are visible as there are bytes.
pub proof fn lemma_visible_count_bound(text: Seq<u8>)
    ensures
        visible_count(text) <= text.len(),
    decreases text.len(),
{
    if text.len() > 0 {
        lemma_visible_count_bound(text.drop_last());
    }
}

/// Counting visible bytes distributes over concatenation.
pub proof fn lemma_visible_count_append(a: Seq<u8>, b: Seq<u8>)
    ensures
        visible_count(a + b) == visible_count(a) + visible_count(b),
    decreases b.len(),
{
    if b.len() == 0 {
        assert(a + b =~= a);
    } else {
        assert((a + b).drop_last() =~= a + b.drop_last());
        lemma_visible_count_append(a, b.drop_last());
    }
}

/// A text of visible bytes has all its bytes counted; one of blanks and
/// fill bytes has none.
pub proof fn lemma_visible_count_uniform(text: Seq<u8>)
    ensures
        (forall|i: int| 0 <= i < text.len() ==> #[trigger] text[i] > 32) ==> visible_count(text)
            == text.len(),
        (forall|i: int| 0 <= i < text.len() ==> #[trigger] text[i] <= 32) ==> visible_count(text)
            == 0,
    decreases text.len(),
{
    if text.len() > 0 {
        lemma_visible_count_uniform(text.drop_last());
        assert(forall|i: int| 0 <= i < text.len() - 1 ==> text.drop_last()[i] == #[trigger] text[i]);
    }
}

/// A text of at most 37 bytes, each with a glyph and above 32, can always be
/// shown: it fills the right end of the display.
pub proof fn lemma_printable_text_can_show(m: HcmsModel, bytes: Seq<u8>)
    requires
        m.wf(),
        m.display_length <= 25,
        bytes.len() <= 37,
        forall|i: int| 0 <= i < bytes.len() ==> 32 < #[trigger] bytes[i] < 128,
    ensures
        can_show(m, bytes),
        visible_count(set_string_model(m, bytes).display_string) == bytes.len(),
{
    let fill = Seq::new((37 - bytes.len()) as nat, |i: int| 0u8);
    let text = set_string_model(m, bytes).display_string;
    lemma_visible_count_append(bytes, fill);
    lemma_visible_count_uniform(bytes);
    lemma_visible_count_uniform(fill);
    let end = visible_count(text) as int;
    assert(end == bytes.len());
    assert forall|p: int| 0 <= p < m.display_length implies has_glyph(
        #[trigger] shown_code(text, m.display_length - end, end, p),
    ) by {
        let k = p - (m.display_length - end);
        if 0 <= k < end {
            assert(text[k] == bytes[k]);
        }
    }
}

} // verus!
