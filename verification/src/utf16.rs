//! Text in UTF-16 code units, the form in which Windows stores and exchanges names.
use crate::text::to_chars;
use vstd::prelude::*;

verus! {

/// `char::from_u32` gives the character with the given code, or nothing where no character has
/// that code: above `0x10FFFF` and from `0xD800` to `0xDFFF`.
pub assume_specification[ char::from_u32 ](code: u32) -> (result: Option<char>)
    ensures
        code <= 0x10FFFF && !(0xD800 <= code <= 0xDFFF) ==> result == Some(code as char),
        code > 0x10FFFF || 0xD800 <= code <= 0xDFFF ==> result is None,
;

/// The character that stands for code units that are no character.
pub const REPLACEMENT: char = '\u{FFFD}';

/// Whether a code unit is the first of a pair.
pub open spec fn is_high(unit: u16) -> bool {
    0xD800 <= unit <= 0xDBFF
}

/// Whether a code unit is the second of a pair.
pub open spec fn is_low(unit: u16) -> bool {
    0xDC00 <= unit <= 0xDFFF
}

/// The character of a pair of code units.
pub open spec fn pair_char(high: u16, low: u16) -> char {
    (0x10000 + (high - 0xD800) * 0x400 + (low - 0xDC00)) as char
}

/// The code units of a character.
pub open spec fn char_units(ch: char) -> Seq<u16> {
    let code = ch as u32;
    if code < 0x10000 {
        seq![code as u16]
    } else {
        let offset = code - 0x10000;
        seq![(0xD800 + offset / 0x400) as u16, (0xDC00 + offset % 0x400) as u16]
    }
}

/// The code units of a text.
pub open spec fn units_of(text: Seq<char>) -> Seq<u16>
    decreases text.len(),
{
    if text.len() == 0 {
        Seq::empty()
    } else {
        units_of(text.drop_last()) + char_units(text.last())
    }
}

/// The text of a sequence of code units. A unit of a pair that stands without the other one
/// becomes the replacement character.
pub open spec fn text_of(units: Seq<u16>) -> Seq<char>
    decreases units.len(),
{
    if units.len() == 0 {
        Seq::empty()
    } else if is_high(units[0]) && units.len() >= 2 && is_low(units[1]) {
        seq![pair_char(units[0], units[1])] + text_of(units.skip(2))
    } else if is_high(units[0]) || is_low(units[0]) {
        seq![REPLACEMENT] + text_of(units.skip(1))
    } else {
        seq![units[0] as char] + text_of(units.skip(1))
    }
}

/// The code units of a text.
pub fn encode(text: &str) -> (units: Vec<u16>)
    ensures
        units@ == units_of(text@),
{
    let chars = to_chars(text);
    let mut units: Vec<u16> = Vec::new();
    let mut i: usize = 0;
    while i < chars.len()
        invariant
            i <= chars.len(),
            chars@ == text@,
            units@ == units_of(text@.take(i as int)),
        decreases chars.len() - i,
    {
        let code: u32 = chars[i] as u32;
        assert(text@.take(i + 1).drop_last() =~= text@.take(i as int));
        if code < 0x10000 {
            units.push(code as u16);
        } else {
            let offset: u32 = code - 0x10000;
            units.push((0xD800 + offset / 0x400) as u16);
            units.push((0xDC00 + offset % 0x400) as u16);
        }
        assert(units@ =~= units_of(text@.take(i as int)) + char_units(text@[i as int]));
        i += 1;
    }
    assert(text@.take(i as int) =~= text@);
    units
}

/// The code units of a text, with a zero behind them.
pub fn wide_null(value: &str) -> (units: Vec<u16>)
    ensures
        units@ == units_of(value@).push(0),
{
    let mut units = encode(value);
    units.push(0);
    units
}

/// The text of a sequence of code units.
pub fn decode(units: &[u16]) -> (text: String)
    ensures
        text@ == text_of(units@),
{
    let mut text = String::new();
    let mut i: usize = 0;
    assert(units@.skip(0) =~= units@);
    while i < units.len()
        invariant
            i <= units.len(),
            text_of(units@) == text@ + text_of(units@.skip(i as int)),
        decreases units.len() - i,
    {
        let ghost rest = units@.skip(i as int);
        let ghost before = text@;
        let unit: u16 = units[i];
        assert(rest[0] == unit);
        assert(rest.skip(1) =~= units@.skip(i + 1));
        if unit < 0xD800 || unit > 0xDFFF {
            if let Some(ch) = char::from_u32(unit as u32) {
                text.push(ch);
                assert(before + (seq![ch] + text_of(rest.skip(1))) =~= text@ + text_of(
                    rest.skip(1),
                ));
            }
            i += 1;
        } else if unit <= 0xDBFF && units.len() - i >= 2 && 0xDC00 <= units[i + 1] && units[i + 1]
            <= 0xDFFF {
            let low: u16 = units[i + 1];
            assert(rest[1] == low);
            assert(rest.skip(2) =~= units@.skip(i + 2));
            let code: u32 = 0x10000 + (unit as u32 - 0xD800) * 0x400 + (low as u32 - 0xDC00);
            if let Some(ch) = char::from_u32(code) {
                text.push(ch);
                assert(before + (seq![ch] + text_of(rest.skip(2))) =~= text@ + text_of(
                    rest.skip(2),
                ));
            }
            i += 2;
        } else {
            proof {
                if rest.len() >= 2 {
                    assert(rest[1] == units@[i + 1]);
                }
            }
            text.push(REPLACEMENT);
            assert(before + (seq![REPLACEMENT] + text_of(rest.skip(1))) =~= text@ + text_of(
                rest.skip(1),
            ));
            i += 1;
        }
    }
    assert(units@.skip(i as int) =~= Seq::<u16>::empty());
    assert(text@ + Seq::<char>::empty() =~= text@);
    text
}

/// Decoding the code units of one character that stand before others gives that character.
proof fn lemma_text_of_char(ch: char, rest: Seq<u16>)
    ensures
        text_of(char_units(ch) + rest) == seq![ch] + text_of(rest),
{
    let units = char_units(ch) + rest;
    let code = ch as u32;
    if code < 0x10000 {
        assert(units[0] == code as u16);
        assert(units.skip(1) =~= rest);
    } else {
        let offset = code - 0x10000;
        assert(units[0] == (0xD800 + offset / 0x400) as u16);
        assert(units[1] == (0xDC00 + offset % 0x400) as u16);
        assert(units.skip(2) =~= rest);
        assert(pair_char(units[0], units[1]) == ch);
    }
}

/// Decoding code units that begin with those of a text gives that text first.
proof fn lemma_text_of_units_of(text: Seq<char>, rest: Seq<u16>)
    ensures
        text_of(units_of(text) + rest) == text + text_of(rest),
    decreases text.len(),
{
    if text.len() == 0 {
        assert(units_of(text) + rest =~= rest);
        assert(text + text_of(rest) =~= text_of(rest));
    } else {
        let tail = char_units(text.last()) + rest;
        assert(units_of(text) + rest =~= units_of(text.drop_last()) + tail);
        lemma_text_of_units_of(text.drop_last(), tail);
        lemma_text_of_char(text.last(), rest);
        assert(text.drop_last() + (seq![text.last()] + text_of(rest)) =~= text + text_of(rest));
    }
}

/// Decoding gives back every text that was encoded.
pub proof fn law_decode_gives_back_what_was_encoded(text: Seq<char>)
    ensures
        text_of(units_of(text)) == text,
{
    lemma_text_of_units_of(text, Seq::empty());
    assert(units_of(text) + Seq::<u16>::empty() =~= units_of(text));
    assert(text + Seq::<char>::empty() =~= text);
}

/// Units outside the surrogates are characters by themselves, a high and a low surrogate are one
/// character together, and a surrogate alone is the replacement character.
pub proof fn law_units_are_read_one_by_one(unit: u16, low: u16, rest: Seq<u16>)
    ensures
        !(0xD800 <= unit <= 0xDFFF) ==> text_of(seq![unit] + rest) == seq![unit as char] + text_of(
            rest,
        ),
        0xD800 <= unit <= 0xDBFF && 0xDC00 <= low <= 0xDFFF ==> text_of(seq![unit, low] + rest)
            == seq![(0x10000 + (unit - 0xD800) * 0x400 + (low - 0xDC00)) as char] + text_of(rest),
        0xDC00 <= unit <= 0xDFFF ==> text_of(seq![unit] + rest) == seq!['\u{FFFD}'] + text_of(rest),
        0xD800 <= unit <= 0xDBFF && !(0xDC00 <= low <= 0xDFFF) ==> text_of(seq![unit, low] + rest)
            == seq!['\u{FFFD}'] + text_of(seq![low] + rest),
        0xD800 <= unit <= 0xDBFF ==> text_of(seq![unit]) == seq!['\u{FFFD}'],
        text_of(Seq::empty()) == Seq::<char>::empty(),
{
    assert((seq![unit] + rest).skip(1) =~= rest);
    assert((seq![unit, low] + rest).skip(2) =~= rest);
    assert((seq![unit, low] + rest).skip(1) =~= seq![low] + rest);
    assert(seq![unit].skip(1) =~= Seq::<u16>::empty());
    assert(text_of(Seq::empty()) =~= Seq::<char>::empty());
    assert(seq![unit][0] == unit);
    assert(seq!['\u{FFFD}'] + text_of(Seq::empty()) =~= seq!['\u{FFFD}']);
}

/// The units of two texts one behind the other are their units one behind the other, and a
/// character below 0x10000 is its own unit.
pub proof fn law_units_are_written_one_by_one(a: Seq<char>, ch: char)
    ensures
        (ch as u32) < 0x10000 ==> units_of(a.push(ch)) == units_of(a).push(ch as u16),
        (ch as u32) >= 0x10000 ==> units_of(a.push(ch)).len() == units_of(a).len() + 2,
        units_of(Seq::empty()).len() == 0,
{
    assert(a.push(ch).drop_last() =~= a);
    if (ch as u32) < 0x10000 {
        assert(units_of(a) + seq![ch as u16] =~= units_of(a).push(ch as u16));
    }
}

} // verus!
