use vstd::prelude::*;
use vstd::string::StringSliceAdditionalSpecFns;

use crate::display::{Hcms, lemma_printable_text_can_show, show_model};
use crate::wire::{Signal, dot_frame};

verus! {

/// Readings above this value turn the indicator LED on.
pub const IR_THRESHOLD: u16 = 100;

/// The character of the decimal digit `d` (0 to 9).
pub open spec fn digit_char(d: int) -> char {
    (48 + d) as char
}

/// The decimal numeral of `n`: its digits, most significant first, without
/// leading zeros ("0" for zero).
pub open spec fn decimal_chars(n: nat) -> Seq<char>
    decreases n,
{
    if n < 10 {
        seq![digit_char(n as int)]
    } else {
        decimal_chars(n / 10).push(digit_char((n % 10) as int))
    }
}

/// The number that decimal digits stand for.
pub open spec fn decimal_value(digits: Seq<char>) -> nat
    decreases digits.len(),
{
    if digits.len() == 0 {
        0
    } else {
        decimal_value(digits.drop_last()) * 10 + (digits.last() as int - 48) as nat
    }
}

/// The bytes of the decimal numeral of `n`.
pub open spec fn decimal_bytes(n: nat) -> Seq<u8> {
    decimal_chars(n).map_values(|c: char| c as u8)
}

/// Whether the LED shows a reading: above the threshold.
pub open spec fn led_on(reading: u16) -> bool {
    reading > IR_THRESHOLD
}

/// `heapless::String::<16>::from(u16)`, copied into a `String`.
/// heapless writes the number with `write!(s, "{}", n)`, that is in decimal,
/// most significant digit first, with no sign, padding or leading zeros; the
/// five digits of a `u16` fit in the 16 bytes.
#[verifier::external_body]
fn reading_text(reading: u16) -> (text: String)
    ensures
        text@ == decimal_chars(reading as nat),
{
    let text: heapless::String<16> = heapless::String::from(reading);
    String::from(text.as_str())
}

impl Hcms {
    /// Shows an infrared reading on the display, in decimal and right-aligned,
    /// and says whether the indicator LED is to be on.
    pub fn show_reading(&mut self, reading: u16, wire: &mut Vec<Signal>) -> (led: bool)
        requires
            old(self)@.wf(),
            old(self)@.display_length <= 25,
        ensures
            final(self)@ == show_model(old(self)@, decimal_bytes(reading as nat)),
            final(self)@.wf(),
            final(wire)@ == old(wire)@ + dot_frame(final(self)@.dot_bytes()),
            led == led_on(reading),
    {
        let text = reading_text(reading);
        let shown = text.as_str();
        proof {
            let n = reading as nat;
            lemma_decimal_digits(n);
            vstd::utf8::is_ascii_chars_encode_utf8(decimal_chars(n));
            assert(shown.spec_bytes() =~= decimal_bytes(n));
            lemma_printable_text_can_show(self@, decimal_bytes(n));
        }
        self.show_display_length_worth(shown, wire);
        reading > IR_THRESHOLD
    }
}

/// The numeral of `n` has at least one digit, at most 5 when `n` fits a
/// `u16`, and only the characters '0' to '9'.
pub proof fn lemma_decimal_digits(n: nat)
    ensures
        1 <= decimal_chars(n).len(),
        n < 65536 ==> decimal_chars(n).len() <= 5,
        n < 10000 ==> decimal_chars(n).len() <= 4,
        n < 1000 ==> decimal_chars(n).len() <= 3,
        n < 100 ==> decimal_chars(n).len() <= 2,
        forall|i: int|
            0 <= i < decimal_chars(n).len() ==> 48 <= #[trigger] (decimal_chars(n)[i] as int) <= 57,
    decreases n,
{
    if n >= 10 {
        lemma_decimal_digits(n / 10);
        let d = decimal_chars(n / 10);
        assert forall|i: int| 0 <= i < decimal_chars(n).len() implies 48 <= #[trigger] (
        decimal_chars(n)[i] as int) <= 57 by {
            if i < d.len() {
                assert(decimal_chars(n)[i] == d[i]);
            }
        }
    }
}
} // verus!
