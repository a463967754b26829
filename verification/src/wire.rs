use vstd::prelude::*;

verus! {

/// The display's input lines.
#[derive(Clone, Copy, Debug, PartialEq, Eq, Structural)]
pub enum Line {
    /// Serial data in.
    Data,
    /// Register select: low for the dot register, high for the control registers.
    RegisterSelect,
    /// Serial clock; data is taken on its rising edge.
    Clock,
    /// Chip enable (active low); a rising edge latches what was shifted in.
    Enable,
    /// Reset (active low).
    Reset,
}

/// One step of what the display receives: a line driven high or low, or a pause.
#[derive(Clone, Copy, Debug, PartialEq, Eq, Structural)]
pub enum Signal {
    High(Line),
    Low(Line),
    DelayMs(u32),
}

/// Whether bit `7 - i` of `value` is set: the `i`-th bit sent, most significant first.
pub open spec fn msb_bit(value: u8, i: int) -> bool {
    value & (1u8 << ((7 - i) as u8)) != 0
}

/// The data line driven to `bit`.
pub open spec fn data_level(bit: bool) -> Signal {
    if bit {
        Signal::High(Line::Data)
    } else {
        Signal::Low(Line::Data)
    }
}

/// Sending the `i`-th bit of `value`: set the data line, then pulse the clock.
pub open spec fn bit_wave(value: u8, i: int) -> Seq<Signal> {
    seq![data_level(msb_bit(value, i)), Signal::High(Line::Clock), Signal::Low(Line::Clock)]
}

/// The first `n` bits of `value`, most significant first.
pub open spec fn shift_out_prefix(value: u8, n: nat) -> Seq<Signal>
    decreases n,
{
    if n == 0 {
        seq![]
    } else {
        shift_out_prefix(value, (n - 1) as nat) + bit_wave(value, n - 1)
    }
}

/// A whole byte shifted out, most significant bit first.
pub open spec fn shift_out_wave(value: u8) -> Seq<Signal> {
    shift_out_prefix(value, 8)
}

/// Bytes shifted out one after another.
pub open spec fn bytes_wave(bytes: Seq<u8>) -> Seq<Signal>
    decreases bytes.len(),
{
    if bytes.len() == 0 {
        seq![]
    } else {
        bytes_wave(bytes.drop_last()) + shift_out_wave(bytes.last())
    }
}

/// `w` repeated `n` times.
pub open spec fn repeat_wave(w: Seq<Signal>, n: nat) -> Seq<Signal>
    decreases n,
{
    if n == 0 {
        seq![]
    } else {
        repeat_wave(w, (n - 1) as nat) + w
    }
}

/// A write of `bytes` into the dot register: register select low, enable low,
/// the bytes, enable high.
pub open spec fn dot_frame(bytes: Seq<u8>) -> Seq<Signal> {
    seq![Signal::Low(Line::RegisterSelect), Signal::Low(Line::Enable)] + bytes_wave(bytes) + seq![
        Signal::High(Line::Enable),
    ]
}

/// A write of `word` into a control register: register select high, enable
/// low, the word, enable high.
pub open spec fn control_frame(word: u8) -> Seq<Signal> {
    seq![Signal::High(Line::RegisterSelect), Signal::Low(Line::Enable)] + shift_out_wave(word)
        + seq![Signal::High(Line::Enable)]
}

/// Control word that puts a chip into simultaneous mode.
pub open spec fn simultaneous_mode_word() -> u8 {
    0b1000_0001u8
}

/// Control word that puts the chips back into serial mode.
pub open spec fn serial_mode_word() -> u8 {
    0b1000_0000u8
}

/// Loading `word` into the control registers of all `chips` chips at once:
/// one simultaneous-mode word per chip, the word itself, then the serial-mode word.
pub open spec fn all_control_wave(chips: nat, word: u8) -> Seq<Signal> {
    repeat_wave(control_frame(simultaneous_mode_word()), chips) + control_frame(word)
        + control_frame(serial_mode_word())
}

/// The reset sequence: reset pulsed low for 10 ms, register select and clock low.
pub open spec fn reset_wave() -> Seq<Signal> {
    seq![
        Signal::Low(Line::Reset),
        Signal::DelayMs(10),
        Signal::High(Line::Reset),
        Signal::Low(Line::RegisterSelect),
        Signal::Low(Line::Clock),
    ]
}

/// The level of `line` after signal `s`, when it was `level` before.
pub open spec fn line_after(s: Signal, line: Line, level: bool) -> bool {
    match s {
        Signal::High(l) => if l == line {
            true
        } else {
            level
        },
        Signal::Low(l) => if l == line {
            false
        } else {
            level
        },
        Signal::DelayMs(_) => level,
    }
}

/// The level of `line` at each rising edge of the clock in `wave`, when
/// `line` is at `level` before the wave starts.
pub open spec fn sampled(wave: Seq<Signal>, line: Line, level: bool) -> Seq<bool>
    decreases wave.len(),
{
    if wave.len() == 0 {
        seq![]
    } else {
        (if wave[0] == Signal::High(Line::Clock) {
            seq![level]
        } else {
            seq![]
        }) + sampled(wave.drop_first(), line, line_after(wave[0], line, level))
    }
}

/// The level of `line` at the end of `wave`, when it is `level` before.
pub open spec fn level_after(wave: Seq<Signal>, line: Line, level: bool) -> bool
    decreases wave.len(),
{
    if wave.len() == 0 {
        level
    } else {
        level_after(wave.drop_first(), line, line_after(wave[0], line, level))
    }
}

/// The eight bits of `value`, most significant first.
pub open spec fn byte_bits(value: u8) -> Seq<bool> {
    Seq::new(8, |i: int| msb_bit(value, i))
}

/// The bits of `bytes`, one byte after another, each most significant bit first.
pub open spec fn bytes_bits(bytes: Seq<u8>) -> Seq<bool>
    decreases bytes.len(),
{
    if bytes.len() == 0 {
        seq![]
    } else {
        bytes_bits(bytes.drop_last()) + byte_bits(bytes.last())
    }
}

/// The number whose binary digits, most significant first, are `bits`.
pub open spec fn bits_value(bits: Seq<bool>) -> nat
    decreases bits.len(),
{
    if bits.len() == 0 {
        0
    } else {
        bits_value(bits.drop_last()) * 2 + if bits.last() {
            1nat
        } else {
            0nat
        }
    }
}

/// The bytes that `bits` carry, eight bits each, most significant first; a
/// shorter rest at the start is left out.
pub open spec fn decode_bytes(bits: Seq<bool>) -> Seq<u8>
    decreases bits.len(),
{
    if bits.len() < 8 {
        seq![]
    } else {
        decode_bytes(bits.take(bits.len() - 8)).push(bits_value(bits.skip(bits.len() - 8)) as u8)
    }
}

/// `n` copies of `level`.
pub open spec fn constant_levels(n: nat, level: bool) -> Seq<bool> {
    Seq::new(n, |i: int| level)
}

/// The control words of `all_control_wave(chips, word)`.
pub open spec fn control_words(chips: nat, word: u8) -> Seq<u8> {
    Seq::new(chips, |i: int| simultaneous_mode_word()) + seq![word, serial_mode_word()]
}

/// Sampling a concatenation: the second part starts from the level the first
/// part leaves.
pub proof fn lemma_sampled_append(a: Seq<Signal>, b: Seq<Signal>, line: Line, level: bool)
    ensures
        sampled(a + b, line, level) == sampled(a, line, level) + sampled(
            b,
            line,
            level_after(a, line, level),
        ),
        level_after(a + b, line, level) == level_after(b, line, level_after(a, line, level)),
    decreases a.len(),
{
    if a.len() == 0 {
        assert(a + b =~= b);
        assert(sampled(a, line, level) =~= seq![]);
    } else {
        assert((a + b)[0] == a[0]);
        assert((a + b).drop_first() =~= a.drop_first() + b);
        lemma_sampled_append(a.drop_first(), b, line, line_after(a[0], line, level));
        let head = if a[0] == Signal::High(Line::Clock) {
            seq![level]
        } else {
            seq![]
        };
        assert(head + (sampled(a.drop_first(), line, line_after(a[0], line, level)) + sampled(
            b,
            line,
            level_after(a, line, level),
        )) =~= (head + sampled(a.drop_first(), line, line_after(a[0], line, level))) + sampled(
            b,
            line,
            level_after(a, line, level),
        ));
    }
}

/// Sending one bit: the data line carries the bit at the clock edge; the
/// register select and enable lines keep their level.
proof fn lemma_bit_wave(value: u8, i: int, line: Line, level: bool)
    ensures
        line == Line::Data ==> sampled(bit_wave(value, i), line, level) =~= seq![
            msb_bit(value, i),
        ] && level_after(bit_wave(value, i), line, level) == msb_bit(value, i),
        line == Line::RegisterSelect || line == Line::Enable ==> sampled(
            bit_wave(value, i),
            line,
            level,
        ) =~= seq![level] && level_after(bit_wave(value, i), line, level) == level,
{
    let w = bit_wave(value, i);
    reveal_with_fuel(sampled, 4);
    reveal_with_fuel(level_after, 4);
    assert(w.drop_first() =~= seq![Signal::High(Line::Clock), Signal::Low(Line::Clock)]);
    assert(w.drop_first().drop_first() =~= seq![Signal::Low(Line::Clock)]);
    assert(w.drop_first().drop_first().drop_first() =~= Seq::<Signal>::empty());
}

/// Shifting out a byte puts its bits on the data line, most significant
/// first, one per clock edge, with register select and enable unchanged.
pub proof fn lemma_shift_out_sampled(value: u8, line: Line, level: bool)
    ensures
        line == Line::Data ==> sampled(shift_out_wave(value), line, level) == byte_bits(value),
        line == Line::RegisterSelect || line == Line::Enable ==> sampled(
            shift_out_wave(value),
            line,
            level,
        ) == constant_levels(8, level) && level_after(shift_out_wave(value), line, level)
            == level,
{
    lemma_shift_out_prefix_sampled(value, 8, line, level);
    assert(Seq::new(8, |i: int| msb_bit(value, i)) =~= byte_bits(value));
}

proof fn lemma_shift_out_prefix_sampled(value: u8, n: nat, line: Line, level: bool)
    ensures
        line == Line::Data ==> sampled(shift_out_prefix(value, n), line, level) =~= Seq::new(
            n,
            |i: int| msb_bit(value, i),
        ),
        line == Line::RegisterSelect || line == Line::Enable ==> sampled(
            shift_out_prefix(value, n),
            line,
            level,
        ) =~= constant_levels(n, level) && level_after(shift_out_prefix(value, n), line, level)
            == level,
    decreases n,
{
    if n > 0 {
        let prev = shift_out_prefix(value, (n - 1) as nat);
        lemma_shift_out_prefix_sampled(value, (n - 1) as nat, line, level);
        lemma_sampled_append(prev, bit_wave(value, n - 1), line, level);
        lemma_bit_wave(value, n - 1, line, level_after(prev, line, level));
    } else {
        assert(sampled(shift_out_prefix(value, n), line, level) =~= seq![]);
    }
}

/// Shifting out bytes puts all their bits on the data line in order, with
/// register select and enable unchanged.
pub proof fn lemma_bytes_sampled(bytes: Seq<u8>, line: Line, level: bool)
    ensures
        line == Line::Data ==> sampled(bytes_wave(bytes), line, level) == bytes_bits(bytes),
        line == Line::RegisterSelect || line == Line::Enable ==> sampled(
            bytes_wave(bytes),
            line,
            level,
        ) == constant_levels(8 * bytes.len(), level) && level_after(bytes_wave(bytes), line, level)
            == level,
    decreases bytes.len(),
{
    if bytes.len() == 0 {
        assert(sampled(bytes_wave(bytes), line, level) =~= seq![]);
        assert(constant_levels(0, level) =~= seq![]);
    } else {
        let prev = bytes_wave(bytes.drop_last());
        lemma_bytes_sampled(bytes.drop_last(), line, level);
        lemma_sampled_append(prev, shift_out_wave(bytes.last()), line, level);
        lemma_shift_out_sampled(bytes.last(), line, level_after(prev, line, level));
        if line == Line::RegisterSelect || line == Line::Enable {
            assert(constant_levels(8 * (bytes.len() - 1) as nat, level) + constant_levels(
                8,
                level,
            ) =~= constant_levels(8 * bytes.len(), level));
        }
    }
}

/// A byte's bits give back the byte.
pub proof fn lemma_byte_bits_value(value: u8)
    ensures
        bits_value(byte_bits(value)) == value,
{
    let b = byte_bits(value);
    reveal_with_fuel(bits_value, 9);
    assert(b.drop_last() =~= b.take(7));
    assert(b.take(7).drop_last() =~= b.take(6));
    assert(b.take(6).drop_last() =~= b.take(5));
    assert(b.take(5).drop_last() =~= b.take(4));
    assert(b.take(4).drop_last() =~= b.take(3));
    assert(b.take(3).drop_last() =~= b.take(2));
    assert(b.take(2).drop_last() =~= b.take(1));
    assert(b.take(1).drop_last() =~= b.take(0));
    let v = value;
    assert((if v & 128u8 != 0 { 1int } else { 0int }) * 128 + (if v & 64u8 != 0 { 1int } else { 0int }) * 64
        + (if v & 32u8 != 0 { 1int } else { 0int }) * 32 + (if v & 16u8 != 0 { 1int } else { 0int }) * 16
        + (if v & 8u8 != 0 { 1int } else { 0int }) * 8 + (if v & 4u8 != 0 { 1int } else { 0int }) * 4
        + (if v & 2u8 != 0 { 1int } else { 0int }) * 2 + (if v & 1u8 != 0 { 1int } else { 0int }) == v)
        by (bit_vector);
    assert(1u8 << 7u8 == 128u8 && 1u8 << 6u8 == 64u8 && 1u8 << 5u8 == 32u8 && 1u8 << 4u8 == 16u8
        && 1u8 << 3u8 == 8u8 && 1u8 << 2u8 == 4u8 && 1u8 << 1u8 == 2u8 && 1u8 << 0u8 == 1u8)
        by (bit_vector);
}

/// Decoding the bits of bytes gives back the bytes.
pub proof fn lemma_decode_bytes_bits(bytes: Seq<u8>)
    ensures
        bytes_bits(bytes).len() == 8 * bytes.len(),
        decode_bytes(bytes_bits(bytes)) == bytes,
    decreases bytes.len(),
{
    if bytes.len() == 0 {
        assert(decode_bytes(bytes_bits(bytes)) =~= bytes);
    } else {
        let prev = bytes_bits(bytes.drop_last());
        lemma_decode_bytes_bits(bytes.drop_last());
        let bits = bytes_bits(bytes);
        assert(bits.take(bits.len() - 8) =~= prev);
        assert(bits.skip(bits.len() - 8) =~= byte_bits(bytes.last()));
        lemma_byte_bits_value(bytes.last());
        assert(decode_bytes(bits) =~= bytes);
    }
}

/// Sampling two signals that are not clock edges: nothing is sampled, and the
/// line ends at the level the two signals leave.
proof fn lemma_edge_pair(x: Signal, y: Signal, line: Line, level: bool)
    requires
        x != Signal::High(Line::Clock),
        y != Signal::High(Line::Clock),
    ensures
        sampled(seq![x, y], line, level) =~= Seq::<bool>::empty(),
        level_after(seq![x, y], line, level) == line_after(y, line, line_after(x, line, level)),
        sampled(seq![y], line, level) =~= Seq::<bool>::empty(),
        level_after(seq![y], line, level) == line_after(y, line, level),
{
    reveal_with_fuel(sampled, 3);
    reveal_with_fuel(level_after, 3);
    assert(seq![x, y].drop_first() =~= seq![y]);
    assert(seq![y].drop_first() =~= Seq::<Signal>::empty());
}

/// A frame: `select` then enable low, the bytes, enable high. At every clock
/// edge the data line carries the bytes' bits, register select is at
/// `select_level` and enable is low.
proof fn lemma_frame(select: Signal, select_level: bool, bytes: Seq<u8>, line: Line, level: bool)
    requires
        select == Signal::High(Line::RegisterSelect) || select == Signal::Low(Line::RegisterSelect),
        select_level == (select == Signal::High(Line::RegisterSelect)),
    ensures
        line == Line::Data ==> sampled(
            seq![select, Signal::Low(Line::Enable)] + bytes_wave(bytes) + seq![
                Signal::High(Line::Enable),
            ],
            line,
            level,
        ) == bytes_bits(bytes),
        line == Line::RegisterSelect ==> sampled(
            seq![select, Signal::Low(Line::Enable)] + bytes_wave(bytes) + seq![
                Signal::High(Line::Enable),
            ],
            line,
            level,
        ) == constant_levels(8 * bytes.len(), select_level),
        line == Line::Enable ==> sampled(
            seq![select, Signal::Low(Line::Enable)] + bytes_wave(bytes) + seq![
                Signal::High(Line::Enable),
            ],
            line,
            level,
        ) == constant_levels(8 * bytes.len(), false),
{
    let head = seq![select, Signal::Low(Line::Enable)];
    let body = bytes_wave(bytes);
    let tail = seq![Signal::High(Line::Enable)];
    lemma_edge_pair(select, Signal::Low(Line::Enable), line, level);
    lemma_sampled_append(head, body, line, level);
    let mid = level_after(head, line, level);
    lemma_sampled_append(head + body, tail, line, level);
    lemma_bytes_sampled(bytes, line, mid);
    lemma_edge_pair(select, Signal::High(Line::Enable), line, level_after(head + body, line, level));
    assert(sampled(head, line, level) + sampled(body, line, mid) =~= sampled(body, line, mid));
    assert(sampled(body, line, mid) + Seq::<bool>::empty() =~= sampled(body, line, mid));
}

/// Loading the dot register: at every clock edge the data line carries the
/// bits of the bytes, the dot register is selected and the chip enabled.
pub proof fn lemma_dot_frame_sampled(bytes: Seq<u8>, line: Line, level: bool)
    ensures
        line == Line::Data ==> sampled(dot_frame(bytes), line, level) == bytes_bits(bytes),
        line == Line::RegisterSelect || line == Line::Enable ==> sampled(
            dot_frame(bytes),
            line,
            level,
        ) == constant_levels(8 * bytes.len(), false),
{
    lemma_frame(Signal::Low(Line::RegisterSelect), false, bytes, line, level);
}

/// Loading a control register: at every clock edge the data line carries the
/// bits of the word, the control registers are selected and the chip enabled.
pub proof fn lemma_control_frame_sampled(word: u8, line: Line, level: bool)
    ensures
        line == Line::Data ==> sampled(control_frame(word), line, level) == byte_bits(word),
        line == Line::RegisterSelect ==> sampled(control_frame(word), line, level)
            == constant_levels(8, true),
        line == Line::Enable ==> sampled(control_frame(word), line, level) == constant_levels(
            8,
            false,
        ),
{
    lemma_frame(Signal::High(Line::RegisterSelect), true, seq![word], line, level);
    assert(seq![word].drop_last() =~= Seq::<u8>::empty());
    assert(bytes_wave(Seq::<u8>::empty()) =~= Seq::<Signal>::empty());
    assert(bytes_bits(Seq::<u8>::empty()) =~= Seq::<bool>::empty());
    assert(bytes_wave(seq![word]) =~= shift_out_wave(word));
    assert(bytes_bits(seq![word]) =~= byte_bits(word));
}

/// Control frames one after another: the data line carries the words' bits,
/// the control registers are selected and the chip enabled at every edge.
proof fn lemma_control_frames(words: Seq<u8>, wave: Seq<Signal>, line: Line, level: bool)
    requires
        words.len() == 0 ==> wave == Seq::<Signal>::empty(),
        words.len() > 0 ==> wave == control_frames(words),
    ensures
        line == Line::Data ==> sampled(wave, line, level) == bytes_bits(words),
        line == Line::RegisterSelect ==> sampled(wave, line, level) == constant_levels(
            8 * words.len(),
            true,
        ),
        line == Line::Enable ==> sampled(wave, line, level) == constant_levels(
            8 * words.len(),
            false,
        ),
    decreases words.len(),
{
    if words.len() == 0 {
        assert(sampled(wave, line, level) =~= seq![]);
        assert(constant_levels(0, true) =~= seq![]);
        assert(constant_levels(0, false) =~= seq![]);
    } else {
        let rest = words.drop_last();
        let prev = if rest.len() == 0 {
            Seq::<Signal>::empty()
        } else {
            control_frames(rest)
        };
        lemma_control_frames(rest, prev, line, level);
        assert(wave =~= prev + control_frame(words.last()));
        lemma_sampled_append(prev, control_frame(words.last()), line, level);
        lemma_control_frame_sampled(words.last(), line, level_after(prev, line, level));
        assert(constant_levels(8 * rest.len(), true) + constant_levels(8, true) =~= constant_levels(
            8 * words.len(),
            true,
        ));
        assert(constant_levels(8 * rest.len(), false) + constant_levels(8, false)
            =~= constant_levels(8 * words.len(), false));
    }
}

/// One control frame per word.
pub open spec fn control_frames(words: Seq<u8>) -> Seq<Signal>
    decreases words.len(),
{
    if words.len() <= 1 {
        if words.len() == 0 {
            seq![]
        } else {
            control_frame(words[0])
        }
    } else {
        control_frames(words.drop_last()) + control_frame(words.last())
    }
}

/// Loading all control registers sends, in order, one simultaneous-mode word
/// per chip, the word, and the serial-mode word; every bit is taken with the
/// control registers selected and the chip enabled.
pub proof fn lemma_all_control_sampled(chips: nat, word: u8, line: Line, level: bool)
    ensures
        line == Line::Data ==> sampled(all_control_wave(chips, word), line, level) == bytes_bits(
            control_words(chips, word),
        ),
        line == Line::RegisterSelect ==> sampled(all_control_wave(chips, word), line, level)
            == constant_levels(8 * control_words(chips, word).len(), true),
        line == Line::Enable ==> sampled(all_control_wave(chips, word), line, level)
            == constant_levels(8 * control_words(chips, word).len(), false),
{
    let words = control_words(chips, word);
    lemma_all_control_frames(chips, word);
    lemma_control_frames(words, all_control_wave(chips, word), line, level);
}

proof fn lemma_repeat_frames(chips: nat)
    ensures
        chips > 0 ==> repeat_wave(control_frame(simultaneous_mode_word()), chips)
            == control_frames(Seq::new(chips, |i: int| simultaneous_mode_word())),
        chips == 0 ==> repeat_wave(control_frame(simultaneous_mode_word()), chips)
            == Seq::<Signal>::empty(),
    decreases chips,
{
    if chips > 0 {
        lemma_repeat_frames((chips - 1) as nat);
        let words = Seq::new(chips, |i: int| simultaneous_mode_word());
        assert(words.drop_last() =~= Seq::new((chips - 1) as nat, |i: int| simultaneous_mode_word()));
        if chips == 1 {
            assert(repeat_wave(control_frame(simultaneous_mode_word()), 0) =~= Seq::<Signal>::empty());
            assert(Seq::<Signal>::empty() + control_frame(simultaneous_mode_word()) =~= control_frame(simultaneous_mode_word()));
        }
    }
}

proof fn lemma_all_control_frames(chips: nat, word: u8)
    ensures
        all_control_wave(chips, word) == control_frames(control_words(chips, word)),
{
    let words = control_words(chips, word);
    let prefix = Seq::new(chips, |i: int| simultaneous_mode_word());
    lemma_repeat_frames(chips);
    assert(words.drop_last() =~= prefix.push(word));
    assert(words.drop_last().drop_last() =~= prefix);
    assert(words.last() == serial_mode_word());
    assert(words.drop_last().last() == word);
    if chips == 0 {
        assert(prefix.push(word).drop_last() =~= prefix);
        assert(control_frames(prefix.push(word)) == control_frame(word));
        assert(all_control_wave(chips, word) =~= control_frame(word) + control_frame(serial_mode_word()));
    } else {
        assert(prefix.push(word).drop_last() =~= prefix);
        assert(control_frames(prefix.push(word)) == control_frames(prefix) + control_frame(word));
        assert(all_control_wave(chips, word) =~= (control_frames(prefix) + control_frame(word))
            + control_frame(serial_mode_word()));
    }
    assert(control_frames(words) == control_frames(prefix.push(word)) + control_frame(
        serial_mode_word(),
    ));
}

/// The bits of bytes one after another are the bits of each part in turn.
pub proof fn lemma_bytes_bits_append(a: Seq<u8>, b: Seq<u8>)
    ensures
        bytes_bits(a + b) == bytes_bits(a) + bytes_bits(b),
    decreases b.len(),
{
    if b.len() == 0 {
        assert(a + b =~= a);
        assert(bytes_bits(b) =~= Seq::<bool>::empty());
        assert(bytes_bits(a) + bytes_bits(b) =~= bytes_bits(a));
    } else {
        assert((a + b).drop_last() =~= a + b.drop_last());
        assert((a + b).last() == b.last());
        lemma_bytes_bits_append(a, b.drop_last());
        assert(bytes_bits(a) + bytes_bits(b) =~= (bytes_bits(a) + bytes_bits(b.drop_last()))
            + byte_bits(b.last()));
    }
}

/// The reset sequence has no clock edge and leaves the data line as it was.
pub proof fn lemma_reset_sampled(line: Line, level: bool)
    ensures
        sampled(reset_wave(), line, level) == Seq::<bool>::empty(),
{
    let w = reset_wave();
    reveal_with_fuel(sampled, 6);
    assert(w.drop_first() =~= seq![
        Signal::DelayMs(10),
        Signal::High(Line::Reset),
        Signal::Low(Line::RegisterSelect),
        Signal::Low(Line::Clock),
    ]);
    assert(w.drop_first().drop_first() =~= seq![
        Signal::High(Line::Reset),
        Signal::Low(Line::RegisterSelect),
        Signal::Low(Line::Clock),
    ]);
    assert(w.drop_first().drop_first().drop_first() =~= seq![
        Signal::Low(Line::RegisterSelect),
        Signal::Low(Line::Clock),
    ]);
    assert(w.drop_first().drop_first().drop_first().drop_first() =~= seq![
        Signal::Low(Line::Clock),
    ]);
    assert(w.drop_first().drop_first().drop_first().drop_first().drop_first()
        =~= Seq::<Signal>::empty());
    assert(sampled(w, line, level) =~= Seq::<bool>::empty());
}

} // verus!
