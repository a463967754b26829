//! Properties of the display as a whole: what the display receives, and how
//! the operations combine.

use vstd::prelude::*;

use crate::display::{
    HcmsModel, begin_wave, brightness_word, can_scroll, char_code, clear_model, can_show,
    cursor_on_display, initial_model, lemma_visible_count_bound, render, scroll_model,
    set_string_model, show_model, shown_code, stamp_glyph, visible_count, window_model,
    window_printable,
    write_character_model, write_model,
};
use crate::font::{FONT5X7, glyph_column, has_glyph};
use crate::reading::{
    IR_THRESHOLD, decimal_bytes, decimal_chars, decimal_value, digit_char, lemma_decimal_digits,
    led_on,
};
use crate::wire::{
    Line, Signal, control_frame, shift_out_prefix, all_control_wave, byte_bits, bytes_bits, constant_levels, control_words, decode_bytes,
    dot_frame, lemma_all_control_sampled, lemma_bytes_bits_append, lemma_decode_bytes_bits,
    lemma_dot_frame_sampled, lemma_reset_sampled, lemma_sampled_append, lemma_shift_out_sampled,
    level_after, reset_wave, sampled, shift_out_wave,
};

verus! {

/// A byte is shifted out most significant bit first: the data levels at its
/// eight clock edges read back as the byte, whatever the data line was before.
pub proof fn law_shift_out_sends_byte(value: u8, data: bool)
    ensures
        decode_bytes(sampled(shift_out_wave(value), Line::Data, data)) == seq![value],
{
    lemma_shift_out_sampled(value, Line::Data, data);
    lemma_decode_bytes_bits(seq![value]);
    assert(seq![value].drop_last() =~= Seq::<u8>::empty());
    assert(bytes_bits(Seq::<u8>::empty()) =~= Seq::<bool>::empty());
    assert(bytes_bits(seq![value]) =~= byte_bits(value));
}

/// Loading the dot register sends exactly the shown dot columns, in order,
/// each bit taken with the dot register selected and the chip enabled.
pub proof fn law_dot_register_transfer(m: HcmsModel, data: bool, select: bool, enable: bool)
    requires
        m.wf(),
    ensures
        m.dot_bytes().len() == 5 * m.display_length,
        decode_bytes(sampled(dot_frame(m.dot_bytes()), Line::Data, data)) == m.dot_bytes(),
        sampled(dot_frame(m.dot_bytes()), Line::RegisterSelect, select) == constant_levels(
            8 * m.dot_bytes().len(),
            false,
        ),
        sampled(dot_frame(m.dot_bytes()), Line::Enable, enable) == constant_levels(
            8 * m.dot_bytes().len(),
            false,
        ),
{
    lemma_dot_frame_sampled(m.dot_bytes(), Line::Data, data);
    lemma_dot_frame_sampled(m.dot_bytes(), Line::RegisterSelect, select);
    lemma_dot_frame_sampled(m.dot_bytes(), Line::Enable, enable);
    lemma_decode_bytes_bits(m.dot_bytes());
}

/// Loading all control registers sends one simultaneous-mode word per chip,
/// then the word, then the serial-mode word, each bit taken with the control
/// registers selected and the chip enabled: the word reaches every chip of
/// the chain at once.
pub proof fn law_control_broadcast(chips: nat, word: u8, data: bool, select: bool, enable: bool)
    ensures
        decode_bytes(sampled(all_control_wave(chips, word), Line::Data, data)) == control_words(
            chips,
            word,
        ),
        control_words(chips, word).len() == chips + 2,
        control_words(chips, word)[chips as int] == word,
        sampled(all_control_wave(chips, word), Line::RegisterSelect, select) == constant_levels(
            8 * (chips + 2),
            true,
        ),
        sampled(all_control_wave(chips, word), Line::Enable, enable) == constant_levels(
            8 * (chips + 2),
            false,
        ),
{
    lemma_all_control_sampled(chips, word, Line::Data, data);
    lemma_all_control_sampled(chips, word, Line::RegisterSelect, select);
    lemma_all_control_sampled(chips, word, Line::Enable, enable);
    lemma_decode_bytes_bits(control_words(chips, word));
}

/// `begin` sends the shown dot columns to the dot register, then control
/// word 0 with full brightness to every chip.
pub proof fn law_begin_sends(m: HcmsModel, data: bool, select: bool, enable: bool)
    requires
        m.wf(),
    ensures
        decode_bytes(sampled(begin_wave(m), Line::Data, data)) == m.dot_bytes() + control_words(
            m.chips(),
            0b0111_1111u8,
        ),
        sampled(begin_wave(m), Line::RegisterSelect, select) == constant_levels(
            8 * m.dot_bytes().len(),
            false,
        ) + constant_levels(8 * (m.chips() + 2), true),
        sampled(begin_wave(m), Line::Enable, enable) == constant_levels(
            8 * m.dot_bytes().len(),
            false,
        ) + constant_levels(8 * (m.chips() + 2), false),
{
    let words = control_words(m.chips(), 0b0111_1111u8);
    assert(words.len() == m.chips() + 2);
    let dot = dot_frame(m.dot_bytes());
    let ctl = all_control_wave(m.chips(), 0b0111_1111u8);
    assert(begin_wave(m) == reset_wave() + dot + ctl);
    assert forall|line: Line, level: bool|
        #![trigger sampled(begin_wave(m), line, level)]
        sampled(begin_wave(m), line, level) == sampled(dot, line, level_after(reset_wave(), line, level))
            + sampled(ctl, line, level_after(reset_wave() + dot, line, level)) by {
        lemma_sampled_append(reset_wave() + dot, ctl, line, level);
        lemma_sampled_append(reset_wave(), dot, line, level);
        lemma_reset_sampled(line, level);
        assert(Seq::<bool>::empty() + sampled(dot, line, level_after(reset_wave(), line, level))
            =~= sampled(dot, line, level_after(reset_wave(), line, level)));
    }
    lemma_dot_frame_sampled(m.dot_bytes(), Line::Data, level_after(reset_wave(), Line::Data, data));
    lemma_all_control_sampled(
        m.chips(),
        0b0111_1111u8,
        Line::Data,
        level_after(reset_wave() + dot, Line::Data, data),
    );
    lemma_dot_frame_sampled(
        m.dot_bytes(),
        Line::RegisterSelect,
        level_after(reset_wave(), Line::RegisterSelect, select),
    );
    lemma_all_control_sampled(
        m.chips(),
        0b0111_1111u8,
        Line::RegisterSelect,
        level_after(reset_wave() + dot, Line::RegisterSelect, select),
    );
    lemma_dot_frame_sampled(m.dot_bytes(), Line::Enable, level_after(reset_wave(), Line::Enable, enable));
    lemma_all_control_sampled(
        m.chips(),
        0b0111_1111u8,
        Line::Enable,
        level_after(reset_wave() + dot, Line::Enable, enable),
    );
    lemma_bytes_bits_append(m.dot_bytes(), words);
    lemma_decode_bytes_bits(m.dot_bytes() + words);
}

/// The brightness word selects control word 0 without sleep mode (high
/// nibble 0b0111) and carries the brightness limited to 15 (low nibble);
/// brighter requests never give a dimmer word.
pub proof fn law_brightness_word(bright: u8, other: u8)
    ensures
        brightness_word(bright) >> 4u8 == 7,
        brightness_word(bright) & 0x0fu8 == if bright > 15 {
            15
        } else {
            bright
        },
        bright <= other ==> brightness_word(bright) <= brightness_word(other),
{
    let level: u8 = if bright > 15 {
        15
    } else {
        bright
    };
    let w = brightness_word(bright);
    assert(w == 0x70u8 + level);
    assert(level <= 15 ==> (0x70u8 + level) as u8 >> 4u8 == 7 && (0x70u8 + level) as u8 & 0x0fu8
        == level) by (bit_vector);
}

/// Redrawing covers the whole window: a second drawing over the first gives
/// what the second alone gives.
pub proof fn lemma_render_twice(dots: Seq<u8>, len: int, f: spec_fn(int) -> int, g: spec_fn(int) -> int)
    ensures
        render(render(dots, len, f), len, g) =~= render(dots, len, g),
{
}

/// Redrawing the display from its text twice is the same as once.
pub proof fn law_redraw_idempotent(m: HcmsModel)
    ensures
        window_model(window_model(m)) == window_model(m),
{
    let w = window_model(m);
    lemma_render_twice(
        m.dots,
        m.display_length as int,
        |p: int| crate::display::shown_code(m.display_string, m.cursor as int, visible_count(m.display_string) as int, p),
        |p: int| crate::display::shown_code(m.display_string, m.cursor as int, visible_count(m.display_string) as int, p),
    );
    assert(window_model(w) =~= w);
}

/// Scrolling right then left puts the cursor back, and the display shows the
/// window at the first cursor again.
pub proof fn law_scroll_round_trip(m: HcmsModel)
    requires
        m.wf(),
        m.display_length <= 25,
        m.cursor < 127,
        window_printable(
            m.display_string,
            m.cursor + 1,
            visible_count(m.display_string) as int,
            m.display_length as int,
        ),
        window_printable(
            m.display_string,
            m.cursor as int,
            visible_count(m.display_string) as int,
            m.display_length as int,
        ),
    ensures
        can_scroll(m, true),
        can_scroll(scroll_model(m, true), false),
        scroll_model(scroll_model(m, true), false) == window_model(m),
        scroll_model(scroll_model(m, true), false).cursor == m.cursor,
{
    let r = scroll_model(m, true);
    assert(r.cursor == m.cursor + 1);
    assert(r.display_string == m.display_string);
    let back = scroll_model(r, false);
    assert(back.dots =~= window_model(m).dots);
    assert(back =~= window_model(m));
}

/// `show_display_length_worth` right-aligns its text: the last visible byte
/// is at the last position and each position shows the byte that many places
/// before it (a space left of the text); columns beyond the display keep
/// their dots.
pub proof fn law_show_right_aligned(m: HcmsModel, bytes: Seq<u8>)
    requires
        m.wf(),
        can_show(m, bytes),
    ensures
        ({
            let r = show_model(m, bytes);
            let text = r.display_string;
            let end = visible_count(text) as int;
            let len = m.display_length as int;
            &&& r.wf()
            &&& r.cursor == len - end
            &&& text == set_string_model(m, bytes).display_string
            &&& forall|p: int, col: int|
                0 <= p < len && 0 <= col < 5 ==> #[trigger] r.dots[p * 5 + col] == glyph_column(
                    if len - end <= p {
                        text[p - (len - end)] as int
                    } else {
                        32
                    },
                    col,
                )
            &&& forall|j: int| len * 5 <= j < 160 ==> r.dots[j] == m.dots[j]
        }),
{
    let m1 = set_string_model(m, bytes);
    lemma_visible_count_bound(m1.display_string);
    assert(m1.display_string.len() == 37);
    let r = show_model(m, bytes);
    let end = visible_count(m1.display_string) as int;
    let len = m.display_length as int;
    assert(r.cursor == len - end);
    assert forall|p: int, col: int| 0 <= p < len && 0 <= col < 5 implies #[trigger] r.dots[p * 5
        + col] == glyph_column(
        if len - end <= p {
            m1.display_string[p - (len - end)] as int
        } else {
            32
        },
        col,
    ) by {
        assert((p * 5 + col) / 5 == p && (p * 5 + col) % 5 == col) by (nonlinear_arith)
            requires
                0 <= col < 5,
        ;
    }
}

/// Showing the same text twice gives the same display as showing it once.
pub proof fn law_show_idempotent(m: HcmsModel, bytes: Seq<u8>)
    requires
        m.wf(),
        can_show(m, bytes),
    ensures
        can_show(show_model(m, bytes), bytes),
        show_model(show_model(m, bytes), bytes) == show_model(m, bytes),
{
    let r = show_model(m, bytes);
    let r2 = show_model(r, bytes);
    assert(set_string_model(r, bytes).display_string == set_string_model(m, bytes).display_string);
    lemma_render_twice(
        m.dots,
        m.display_length as int,
        |p: int|
            crate::display::shown_code(
                r.display_string,
                r.cursor as int,
                visible_count(r.display_string) as int,
                p,
            ),
        |p: int|
            crate::display::shown_code(
                r.display_string,
                r.cursor as int,
                visible_count(r.display_string) as int,
                p,
            ),
    );
    assert(r2.dots =~= r.dots);
    assert(r2 =~= r);
}

/// What `set_string` stores reads back: the bytes, then zero bytes up to 37.
pub proof fn law_set_string_read_back(m: HcmsModel, bytes: Seq<u8>)
    requires
        bytes.len() <= 37,
    ensures
        set_string_model(m, bytes).display_string.len() == 37,
        set_string_model(m, bytes).display_string.take(bytes.len() as int) == bytes,
        forall|i: int|
            bytes.len() <= i < 37 ==> #[trigger] set_string_model(m, bytes).display_string[i] == 0,
{
    assert(set_string_model(m, bytes).display_string.take(bytes.len() as int) =~= bytes);
}

/// After `clear` the display is dark: a space has no dots lit, so every shown
/// column is zero; the text buffer is all spaces.
pub proof fn law_clear_blanks(m: HcmsModel)
    requires
        m.wf(),
    ensures
        clear_model(m).dot_bytes() == Seq::new((5 * m.display_length) as nat, |j: int| 0u8),
        clear_model(m).string_buffer == Seq::new(37, |i: int| 32u8),
        clear_model(m).wf(),
{
    assert forall|col: int| 0 <= col < 5 implies #[trigger] glyph_column(32, col) == 0 by {
        assert(crate::font::FONT5X7@[0] == 0);
        assert(crate::font::FONT5X7@[1] == 0);
        assert(crate::font::FONT5X7@[2] == 0);
        assert(crate::font::FONT5X7@[3] == 0);
        assert(crate::font::FONT5X7@[4] == 0);
    }
    assert forall|j: int| 0 <= j < 5 * m.display_length implies clear_model(m).dots[j] == 0 by {
        assert(0 <= j % 5 < 5) by (nonlinear_arith)
            requires
                0 <= j,
        ;
    }
    assert(clear_model(m).dot_bytes() =~= Seq::new((5 * m.display_length) as nat, |j: int| 0u8));
}

/// Drawing a character changes only the five columns of its position.
pub proof fn law_write_character_local(m: HcmsModel, c: char, pos: int)
    requires
        m.wf(),
        0 <= pos <= 24,
    ensures
        ({
            let r = write_character_model(m, c, pos);
            &&& r.wf()
            &&& forall|col: int|
                0 <= col < 5 ==> #[trigger] r.dots[pos * 5 + col] == glyph_column(char_code(c), col)
            &&& forall|j: int| 0 <= j < 160 && !(pos * 5 <= j < pos * 5 + 5) ==> r.dots[j] == m.dots[j]
            &&& r.display_string == m.display_string && r.string_buffer == m.string_buffer
            &&& r.cursor == m.cursor
        }),
{
}

/// `write` with the cursor on the display draws the character at the cursor
/// and moves the cursor one to the right; the text set by `set_string` is
/// kept.
pub proof fn law_write_advances(m: HcmsModel, c: char)
    requires
        m.wf(),
        cursor_on_display(m),
        m.cursor <= 24,
    ensures
        ({
            let r = write_model(m, c);
            &&& r.wf()
            &&& r.cursor == m.cursor + 1
            &&& r.dots == stamp_glyph(m.dots, char_code(c), m.cursor as int)
            &&& r.display_string == m.display_string
        }),
{
}

/// A new display is well formed, at most 32 characters long, dark, with an
/// empty text and the cursor at home.
pub proof fn law_new_display(displaylen: u8)
    ensures
        initial_model(displaylen).wf(),
        initial_model(displaylen).display_length <= 32,
        displaylen <= 32 ==> initial_model(displaylen).display_length == displaylen,
        initial_model(displaylen).dot_bytes() == Seq::new(
            (5 * initial_model(displaylen).display_length) as nat,
            |j: int| 0u8,
        ),
        visible_count(initial_model(displaylen).display_string) == 0,
        initial_model(displaylen).cursor == 0,
{
    let m = initial_model(displaylen);
    assert(m.dot_bytes() =~= Seq::new((5 * m.display_length) as nat, |j: int| 0u8));
    crate::display::lemma_visible_count_uniform(m.display_string);
}

/// The decimal numeral of a number reads back as the number.
pub proof fn law_decimal_round_trip(n: nat)
    ensures
        decimal_value(decimal_chars(n)) == n,
    decreases n,
{
    if n < 10 {
        let d = decimal_chars(n);
        assert(d.drop_last() =~= Seq::<char>::empty());
        assert(decimal_value(Seq::<char>::empty()) == 0);
        assert(digit_char(n as int) as int == 48 + n);
        assert(d.last() == digit_char(n as int));
    } else {
        law_decimal_round_trip(n / 10);
        assert(decimal_chars(n).drop_last() =~= decimal_chars(n / 10));
        assert(digit_char((n % 10) as int) as int == 48 + n % 10);
        assert(decimal_chars(n).last() == digit_char((n % 10) as int));
        assert(n == (n / 10) * 10 + n % 10);
    }
}


// The laws below state each operation in plain terms: the font table, the
// bytes of the text, and literal control words.

/// The LED goes on exactly for readings above 100.
pub proof fn law_led_threshold(reading: u16)
    ensures
        led_on(reading) <==> reading > 100,
        IR_THRESHOLD == 100,
{
}

/// Column `k` of the glyph of code `c` is entry `(c - 32) * 5 + k` of the font table.
pub proof fn law_glyph_from_font(c: int, k: int)
    requires
        32 <= c < 128,
        0 <= k < 5,
    ensures
        glyph_column(c, k) == FONT5X7@[(c - 32) * 5 + k],
{
}

/// Counting visible bytes counts the bytes above 32.
pub proof fn law_visible_count_counts(text: Seq<u8>)
    ensures
        visible_count(text) == text.filter(|b: u8| b > 32u8).len(),
    decreases text.len(),
{
    let pred = |b: u8| b > 32u8;
    reveal_with_fuel(Seq::<_>::filter, 1);
    if text.len() > 0 {
        law_visible_count_counts(text.drop_last());
        let sub = text.drop_last().filter(pred);
        if pred(text.last()) {
            assert(text.filter(pred) == sub.push(text.last()));
        } else {
            assert(text.filter(pred) == sub);
        }
    }
}

/// `write_character(ch, pos)` puts the font table's five columns of the
/// character's code (its code point cut to 16 bits) at columns `5 * pos` to
/// `5 * pos + 4`, and changes nothing else.
pub proof fn law_write_character_draws(m: HcmsModel, ch: char, pos: int)
    requires
        m.wf(),
        0 <= pos <= 24,
        32 <= (ch as int) % 65536 < 128,
    ensures
        ({
            let r = write_character_model(m, ch, pos);
            &&& r.dots.len() == 160
            &&& forall|k: int|
                0 <= k < 5 ==> #[trigger] r.dots[pos * 5 + k] == FONT5X7@[((ch as int) % 65536 - 32)
                    * 5 + k]
            &&& forall|j: int|
                0 <= j < 160 && !(pos * 5 <= j < pos * 5 + 5) ==> #[trigger] r.dots[j] == m.dots[j]
            &&& r.display_length == m.display_length
            &&& r.display_string == m.display_string
            &&& r.string_buffer == m.string_buffer
            &&& r.cursor == m.cursor
        }),
{
}

/// `write` acts exactly when the cursor is on the display: then it draws the
/// character's glyph from the font table at the cursor, records its byte (the
/// code point cut to 8 bits) while the text equals the buffer, and moves the
/// cursor one to the right.
pub proof fn law_write_on_display(m: HcmsModel, ch: char)
    requires
        m.wf(),
    ensures
        cursor_on_display(m) <==> 0 <= m.cursor < m.display_length,
        0 <= m.cursor < m.display_length && m.cursor <= 24 && 32 <= (ch as int) % 65536 < 128
            ==> ({
            let r = write_model(m, ch);
            let at = m.cursor as int;
            &&& r.cursor == m.cursor + 1
            &&& r.display_length == m.display_length
            &&& r.display_string == m.display_string
            &&& r.dots.len() == 160
            &&& forall|k: int|
                0 <= k < 5 ==> #[trigger] r.dots[at * 5 + k] == FONT5X7@[((ch as int) % 65536 - 32)
                    * 5 + k]
            &&& forall|j: int|
                0 <= j < 160 && !(at * 5 <= j < at * 5 + 5) ==> #[trigger] r.dots[j] == m.dots[j]
            &&& r.string_buffer.len() == 37
            &&& forall|i: int|
                0 <= i < 37 ==> #[trigger] r.string_buffer[i] == if i == at && m.display_string
                    == m.string_buffer {
                    ((ch as int) % 256) as u8
                } else {
                    m.string_buffer[i]
                }
        }),
{
}

/// After `scroll`, the cursor is one to the right (`direction`) or to the
/// left, and each shown position `p` displays, from the font table, the text
/// byte `p - cursor` when it is among the first visible-count bytes, a space
/// otherwise; columns beyond the display and the text are unchanged.
pub proof fn law_scroll_draws_window(m: HcmsModel, direction: bool)
    requires
        m.wf(),
        can_scroll(m, direction),
    ensures
        ({
            let r = scroll_model(m, direction);
            let c = if direction {
                m.cursor + 1
            } else {
                m.cursor - 1
            };
            let text = m.display_string;
            let end = text.filter(|b: u8| b > 32u8).len() as int;
            let len = m.display_length as int;
            &&& r.cursor == c
            &&& r.display_length == m.display_length
            &&& r.display_string == m.display_string
            &&& r.string_buffer == m.string_buffer
            &&& r.dots.len() == 160
            &&& forall|p: int, k: int|
                0 <= p < len && 0 <= k < 5 ==> #[trigger] r.dots[p * 5 + k] == FONT5X7@[((if 0
                    <= p - c < end {
                    text[p - c] as int
                } else {
                    32
                }) - 32) * 5 + k]
            &&& forall|j: int| len * 5 <= j < 160 ==> #[trigger] r.dots[j] == m.dots[j]
        }),
{
    let r = scroll_model(m, direction);
    let c = if direction {
        m.cursor + 1
    } else {
        m.cursor - 1
    };
    let text = m.display_string;
    law_visible_count_counts(text);
    let end = visible_count(text) as int;
    let len = m.display_length as int;
    assert forall|p: int, k: int| 0 <= p < len && 0 <= k < 5 implies #[trigger] r.dots[p * 5 + k]
        == FONT5X7@[((if 0 <= p - c < end {
        text[p - c] as int
    } else {
        32
    }) - 32) * 5 + k] by {
        assert((p * 5 + k) / 5 == p && (p * 5 + k) % 5 == k) by (nonlinear_arith)
            requires
                0 <= k < 5,
        ;
        assert(window_printable(text, c, end, len));
        assert(has_glyph(shown_code(text, c, end, p)));
    }
}

/// `show_display_length_worth(s)` stores the bytes of `s` padded with zero
/// bytes, puts the cursor at the display length minus the number of bytes
/// above 32, and draws from the font table the text byte `p - cursor` at
/// each position `p` where it is one of those, a space elsewhere.
pub proof fn law_show_draws_text(m: HcmsModel, bytes: Seq<u8>)
    requires
        m.wf(),
        can_show(m, bytes),
    ensures
        ({
            let r = show_model(m, bytes);
            let text = bytes + Seq::new((37 - bytes.len()) as nat, |i: int| 0u8);
            let end = text.filter(|b: u8| b > 32u8).len() as int;
            let len = m.display_length as int;
            let c = len - end;
            &&& r.display_string == text
            &&& r.cursor == c
            &&& r.display_length == m.display_length
            &&& r.string_buffer == m.string_buffer
            &&& r.dots.len() == 160
            &&& forall|p: int, k: int|
                0 <= p < len && 0 <= k < 5 ==> #[trigger] r.dots[p * 5 + k] == FONT5X7@[((if 0
                    <= p - c < end {
                    text[p - c] as int
                } else {
                    32
                }) - 32) * 5 + k]
            &&& forall|j: int| len * 5 <= j < 160 ==> #[trigger] r.dots[j] == m.dots[j]
        }),
{
    let text = bytes + Seq::new((37 - bytes.len()) as nat, |i: int| 0u8);
    law_visible_count_counts(text);
    law_show_right_aligned(m, bytes);
    let r = show_model(m, bytes);
    let end = visible_count(text) as int;
    let len = m.display_length as int;
    let c = len - end;
    assert forall|p: int, k: int| 0 <= p < len && 0 <= k < 5 implies #[trigger] r.dots[p * 5 + k]
        == FONT5X7@[((if 0 <= p - c < end {
        text[p - c] as int
    } else {
        32
    }) - 32) * 5 + k] by {
        assert((p * 5 + k) / 5 == p && (p * 5 + k) % 5 == k) by (nonlinear_arith)
            requires
                0 <= k < 5,
        ;
        assert(window_printable(text, c, end, len));
        assert(has_glyph(shown_code(text, c, end, p)));
    }
}

/// Loading all control registers sends `display_length / 4` words 0x81 (one
/// per chip, into simultaneous mode), then the word, then 0x80 (back to
/// serial mode).
pub proof fn law_control_words_per_chip(m: HcmsModel, word: u8, data: bool)
    requires
        m.wf(),
    ensures
        decode_bytes(sampled(all_control_wave(m.chips(), word), Line::Data, data)) == Seq::new(
            (m.display_length / 4) as nat,
            |i: int| 0x81u8,
        ) + seq![word, 0x80u8],
{
    law_control_broadcast(m.chips(), word, data, false, false);
    assert(control_words(m.chips(), word) =~= Seq::new(
        (m.display_length / 4) as nat,
        |i: int| 0x81u8,
    ) + seq![word, 0x80u8]);
}

/// `set_brightness(b)` sends 0x81 once per chip, then 0x70 plus `b` limited
/// to 15, then 0x80.
pub proof fn law_set_brightness_words(m: HcmsModel, bright: u8, data: bool)
    requires
        m.wf(),
    ensures
        decode_bytes(sampled(all_control_wave(m.chips(), brightness_word(bright)), Line::Data, data))
            == Seq::new((m.display_length / 4) as nat, |i: int| 0x81u8) + seq![
            (0x70 + if bright > 15 {
                15
            } else {
                bright
            }) as u8,
            0x80u8,
        ],
{
    law_control_words_per_chip(m, brightness_word(bright), data);
}

/// `begin` sends the first `5 * display_length` dot columns, then 0x81 once
/// per chip, 0x7F and 0x80.
pub proof fn law_begin_words(m: HcmsModel, data: bool)
    requires
        m.wf(),
    ensures
        decode_bytes(sampled(begin_wave(m), Line::Data, data)) == m.dots.subrange(
            0,
            5 * m.display_length,
        ) + Seq::new((m.display_length / 4) as nat, |i: int| 0x81u8) + seq![0x7Fu8, 0x80u8],
{
    law_begin_sends(m, data, false, false);
    assert(m.dot_bytes() =~= m.dots.subrange(0, 5 * m.display_length));
    assert(control_words(m.chips(), 0b0111_1111u8) =~= Seq::new(
        (m.display_length / 4) as nat,
        |i: int| 0x81u8,
    ) + seq![0x7Fu8, 0x80u8]);
    assert(m.dots.subrange(0, 5 * m.display_length) + Seq::new(
        (m.display_length / 4) as nat,
        |i: int| 0x81u8,
    ) + seq![0x7Fu8, 0x80u8] =~= m.dots.subrange(0, 5 * m.display_length) + (Seq::new(
        (m.display_length / 4) as nat,
        |i: int| 0x81u8,
    ) + seq![0x7Fu8, 0x80u8]));
}

/// Loading the dot register sends the first `5 * display_length` dot columns.
pub proof fn law_dot_register_columns(m: HcmsModel, data: bool)
    requires
        m.wf(),
    ensures
        decode_bytes(sampled(dot_frame(m.dot_bytes()), Line::Data, data)) == m.dots.subrange(
            0,
            5 * m.display_length,
        ),
{
    law_dot_register_transfer(m, data, false, false);
    assert(m.dot_bytes() =~= m.dots.subrange(0, 5 * m.display_length));
}

/// `new_display(n)` has `min(n, 32)` characters, texts of 37 spaces, the
/// cursor at 0 and all 160 dot columns dark.
pub proof fn law_new_display_plain(n: u8)
    ensures
        ({
            let m = initial_model(n);
            &&& m.display_length == if n > 32 {
                32
            } else {
                n
            }
            &&& m.cursor == 0
            &&& m.string_buffer.len() == 37 && m.display_string.len() == 37 && m.dots.len() == 160
            &&& forall|i: int| 0 <= i < 37 ==> #[trigger] m.string_buffer[i] == 32
            &&& forall|i: int| 0 <= i < 37 ==> #[trigger] m.display_string[i] == 32
            &&& forall|j: int| 0 <= j < 160 ==> #[trigger] m.dots[j] == 0
        }),
{
}

/// `clear` darkens the first `5 * display_length` dot columns, fills the
/// buffer with spaces and keeps everything else.
pub proof fn law_clear_plain(m: HcmsModel)
    requires
        m.wf(),
    ensures
        ({
            let r = clear_model(m);
            &&& r.dots.len() == 160
            &&& forall|j: int| 0 <= j < 5 * m.display_length ==> #[trigger] r.dots[j] == 0
            &&& forall|j: int| 5 * m.display_length <= j < 160 ==> #[trigger] r.dots[j] == m.dots[j]
            &&& r.string_buffer.len() == 37
            &&& forall|i: int| 0 <= i < 37 ==> #[trigger] r.string_buffer[i] == 32
            &&& r.display_string == m.display_string
            &&& r.cursor == m.cursor
            &&& r.display_length == m.display_length
        }),
{
    law_clear_blanks(m);
    assert forall|j: int| 0 <= j < 5 * m.display_length implies #[trigger] clear_model(m).dots[j]
        == 0 by {
        assert(clear_model(m).dot_bytes()[j] == 0);
    }
}

/// `set_string` changes only the text.
pub proof fn law_set_string_keeps_rest(m: HcmsModel, bytes: Seq<u8>)
    ensures
        set_string_model(m, bytes).dots == m.dots,
        set_string_model(m, bytes).cursor == m.cursor,
        set_string_model(m, bytes).string_buffer == m.string_buffer,
        set_string_model(m, bytes).display_length == m.display_length,
        set_string_model(m, bytes).display_string == bytes + Seq::new(
            (37 - bytes.len()) as nat,
            |i: int| 0u8,
        ),
{
}

/// The text shown for a reading is its canonical decimal numeral: ASCII
/// digits, no leading zero (a single "0" for zero), at most five of them,
/// standing for the reading.
pub proof fn law_reading_numeral(reading: u16)
    ensures
        ({
            let d = decimal_bytes(reading as nat);
            &&& 1 <= d.len() <= 5
            &&& forall|i: int| 0 <= i < d.len() ==> 48 <= #[trigger] d[i] <= 57
            &&& d.len() == decimal_chars(reading as nat).len()
            &&& forall|i: int| 0 <= i < d.len() ==> #[trigger] d[i] as int == decimal_chars(
                reading as nat,
            )[i] as int
            &&& (d[0] == 48 ==> reading == 0 && d.len() == 1)
            &&& decimal_value(decimal_chars(reading as nat)) == reading
        }),
{
    let n = reading as nat;
    lemma_decimal_digits(n);
    law_decimal_round_trip(n);
    lemma_first_digit(n);
}

proof fn lemma_first_digit(n: nat)
    ensures
        decimal_chars(n)[0] as int == 48 ==> n == 0 && decimal_chars(n).len() == 1,
        n >= 10 ==> decimal_chars(n).len() >= 2,
    decreases n,
{
    if n >= 10 {
        lemma_first_digit(n / 10);
        lemma_decimal_digits(n / 10);
        assert(decimal_chars(n)[0] == decimal_chars(n / 10)[0]);
    } else {
        assert(digit_char(n as int) as int == 48 + n);
    }
}


/// `begin` starts by pulling reset low for 10 ms, releasing it, and setting
/// register select and clock low.
pub proof fn law_begin_resets_first(m: HcmsModel)
    ensures
        begin_wave(m).len() >= 5,
        begin_wave(m).subrange(0, 5) == seq![
            Signal::Low(Line::Reset),
            Signal::DelayMs(10),
            Signal::High(Line::Reset),
            Signal::Low(Line::RegisterSelect),
            Signal::Low(Line::Clock),
        ],
{
    assert(begin_wave(m).subrange(0, 5) =~= reset_wave());
}

/// A dot-register load selects the dot register (register select low),
/// enables the chip, and latches with enable high at the end; a control
/// register load does the same with register select high.
pub proof fn law_frames_latch(bytes: Seq<u8>, word: u8)
    ensures
        dot_frame(bytes).len() >= 3,
        dot_frame(bytes)[0] == Signal::Low(Line::RegisterSelect),
        dot_frame(bytes)[1] == Signal::Low(Line::Enable),
        dot_frame(bytes).last() == Signal::High(Line::Enable),
        control_frame(word).len() == 27,
        control_frame(word)[0] == Signal::High(Line::RegisterSelect),
        control_frame(word)[1] == Signal::Low(Line::Enable),
        control_frame(word)[26] == Signal::High(Line::Enable),
{
    lemma_shift_out_len(word);
}

proof fn lemma_shift_out_len(word: u8)
    ensures
        shift_out_wave(word).len() == 24,
{
    reveal_with_fuel(shift_out_prefix, 9);
}

/// The numeral of a number ends with the digit of `n % 10`, after the
/// numeral of `n / 10` when `n` has more than one digit.
pub proof fn law_numeral_last_digit(n: nat)
    ensures
        decimal_chars(n).last() as int == 48 + n % 10,
        n >= 10 ==> decimal_chars(n).drop_last() == decimal_chars(n / 10),
        n < 10 ==> decimal_chars(n).len() == 1,
{
    assert(digit_char((n % 10) as int) as int == 48 + n % 10);
    if n >= 10 {
        assert(decimal_chars(n).drop_last() =~= decimal_chars(n / 10));
    } else {
        assert(digit_char(n as int) as int == 48 + n);
    }
}

} // verus!
