//! What holds of texts.
use vstd::prelude::*;

verus! {

// ---------------------------------------------------------------------------
// Characters
// ---------------------------------------------------------------------------

/// Upper and lower case of the English letters lie 32 apart, each letter is one of the two, and no
/// other character has a case.
pub proof fn law_case_of_letters(ch: char)
    ensures
        crate::text::ascii_letter(ch) ==> {
            &&& 'a' <= crate::text::ascii_lower(ch) <= 'z'
            &&& 'A' <= crate::text::ascii_upper(ch) <= 'Z'
            &&& crate::text::ascii_lower(ch) as int - crate::text::ascii_upper(ch) as int == 32
            &&& ch == crate::text::ascii_lower(ch) || ch == crate::text::ascii_upper(ch)
        },
        !crate::text::ascii_letter(ch) ==> crate::text::ascii_lower(ch) == ch
            && crate::text::ascii_upper(ch) == ch,
        'a' <= ch <= 'z' ==> crate::text::ascii_letter(ch),
        'A' <= ch <= 'Z' ==> crate::text::ascii_letter(ch),
        !('A' <= ch <= 'Z') && !('a' <= ch <= 'z') ==> !crate::text::ascii_letter(ch),
{
}

/// Words are parted by spaces of any width, tabs and ends of lines, and by no letter, digit or
/// other visible ASCII character, nor by an ideograph.
pub proof fn law_what_parts_words(ch: char)
    ensures
        crate::text::whitespace(' '),
        crate::text::whitespace('\t'),
        crate::text::whitespace('\n'),
        crate::text::whitespace('\r'),
        crate::text::whitespace('\u{A0}'),
        crate::text::whitespace('\u{2003}'),
        crate::text::whitespace('\u{2028}'),
        crate::text::whitespace('\u{3000}'),
        '!' <= ch <= '~' ==> !crate::text::whitespace(ch),
        '\u{A1}' <= ch <= '\u{167F}' ==> !crate::text::whitespace(ch),
        '\u{1681}' <= ch <= '\u{1FFF}' ==> !crate::text::whitespace(ch),
        ch > '\u{3000}' ==> !crate::text::whitespace(ch),
        ch < '\t' ==> !crate::text::whitespace(ch),
{
}

/// Case is taken from a text character by character, once and for all.
pub proof fn law_case_is_taken_from_each_character(a: Seq<char>, b: Seq<char>, ch: char)
    ensures
        crate::text::fold(a + b) == crate::text::fold(a) + crate::text::fold(b),
        crate::text::fold(crate::text::fold(a)) == crate::text::fold(a),
        crate::text::fold(seq![ch]) == seq![crate::text::ascii_lower(ch)],
        crate::text::fold(Seq::empty()) == Seq::<char>::empty(),
        crate::text::ascii_lower(crate::text::ascii_upper(ch)) == crate::text::ascii_lower(ch),
{
    assert(crate::text::fold(a + b) =~= crate::text::fold(a) + crate::text::fold(b));
    assert(crate::text::fold(crate::text::fold(a)) =~= crate::text::fold(a));
    assert(crate::text::fold(seq![ch]) =~= seq![crate::text::ascii_lower(ch)]);
    assert(crate::text::fold(Seq::empty()) =~= Seq::<char>::empty());
}

// ---------------------------------------------------------------------------
// Parts
// ---------------------------------------------------------------------------

/// A text has a part exactly if it is that part with something before and something behind it; it
/// starts with the part if there is nothing before, and ends with it if there is nothing behind.
pub proof fn law_part_has_something_around_it(text: Seq<char>, part: Seq<char>)
    ensures
        crate::text::contains(text, part) <==> exists|before: Seq<char>, behind: Seq<char>|
            text == #[trigger] (before + part + behind),
        crate::text::starts_with(text, part) <==> exists|behind: Seq<char>|
            text == #[trigger] (part + behind),
        crate::text::ends_with(text, part) <==> exists|before: Seq<char>|
            text == #[trigger] (before + part),
{
    if crate::text::contains(text, part) {
        let at = choose|at: int| crate::text::occurs_at(text, part, at);
        assert(text =~= text.take(at) + part + text.skip(at + part.len())) by {
            assert(text =~= text.take(at) + text.subrange(at, at + part.len()) + text.skip(
                at + part.len(),
            ));
        }
    }
    if crate::text::starts_with(text, part) {
        assert(text =~= text.subrange(0, part.len() as int) + text.skip(part.len() as int));
    }
    if crate::text::ends_with(text, part) {
        let at = text.len() - part.len();
        assert(text =~= text.take(at) + text.subrange(at, text.len() as int));
    }
    assert forall|before: Seq<char>, behind: Seq<char>|
        text == #[trigger] (before + part + behind) implies crate::text::contains(text, part) by {
        let at = before.len() as int;
        assert(text.subrange(at, at + part.len()) =~= part);
        assert(crate::text::occurs_at(text, part, at));
    }
    assert forall|behind: Seq<char>|
        text == #[trigger] (part + behind) implies crate::text::starts_with(text, part) by {
        assert(text.subrange(0, part.len() as int) =~= part);
    }
    assert forall|before: Seq<char>|
        text == #[trigger] (before + part) implies crate::text::ends_with(text, part) by {
        assert(text.subrange(text.len() - part.len(), text.len() as int) =~= part);
    }
}

/// What stands before the first NUL character is all of a text without one, and whatever follows
/// the first does not matter.
pub proof fn law_text_ends_at_the_first_nul(front: Seq<char>, rest: Seq<char>)
    requires
        !front.contains('\0'),
    ensures
        crate::text::before_nul(front) == front,
        crate::text::before_nul(front + seq!['\0'] + rest) == front,
{
    crate::text::lemma_before_nul(front);
    let whole = front + seq!['\0'] + rest;
    let stop = crate::text::equals('\0');
    assert forall|i: int| 0 <= i < front.len() implies !stop(#[trigger] whole[i]) by {
        assert(whole[i] == front[i]);
        assert(front.contains(front[i]));
    }
    assert(stop(whole[front.len() as int]));
    crate::text::lemma_span_is(whole, stop, front.len());
    assert(whole.take(front.len() as int) =~= front);
}

/// Taking a leading character away takes away all that lead and no more.
pub proof fn law_leading_characters_are_taken_away(count: nat, rest: Seq<char>, ch: char)
    requires
        rest.len() == 0 || rest[0] != ch,
    ensures
        crate::text::without_leading(Seq::new(count, |i: int| ch) + rest, ch) == rest,
{
    let whole = Seq::new(count, |i: int| ch) + rest;
    let stop = crate::text::differs_from(ch);
    assert forall|i: int| 0 <= i < count implies !stop(#[trigger] whole[i]) by {}
    if rest.len() > 0 {
        assert(whole[count as int] == rest[0]);
    }
    crate::text::lemma_span_is(whole, stop, count);
    assert(whole.skip(count as int) =~= rest);
}

/// Replacing a character changes that character, wherever it stands, and no other.
pub proof fn law_replacing_changes_one_character(a: Seq<char>, b: Seq<char>, from: char, to: char)
    ensures
        crate::text::replaced(a + b, from, to) == crate::text::replaced(a, from, to)
            + crate::text::replaced(b, from, to),
        crate::text::replaced(seq![from], from, to) == seq![to],
        !a.contains(from) ==> crate::text::replaced(a, from, to) == a,
        from != to ==> !crate::text::replaced(a, from, to).contains(from),
{
    assert(crate::text::replaced(a + b, from, to) =~= crate::text::replaced(a, from, to)
        + crate::text::replaced(b, from, to));
    assert(crate::text::replaced(seq![from], from, to) =~= seq![to]);
    if !a.contains(from) {
        assert forall|i: int| 0 <= i < a.len() implies a[i] != from by {
            assert(a.contains(a[i]));
        }
        assert(crate::text::replaced(a, from, to) =~= a);
    }
}

// ---------------------------------------------------------------------------
// Words and pieces
// ---------------------------------------------------------------------------

/// No word is empty, and none has a space in it.
pub proof fn law_words_have_no_space(text: Seq<char>)
    ensures
        forall|i: int|
            0 <= i < crate::text::words(text).len() ==> (#[trigger] crate::text::words(
                text,
            )[i]).len() > 0,
        forall|i: int, k: int|
            0 <= i < crate::text::words(text).len() && 0 <= k < crate::text::words(text)[i].len()
                ==> !crate::text::whitespace(#[trigger] crate::text::words(text)[i][k]),
    decreases text.len(),
{
    if text.len() > 0 && crate::text::whitespace(text[0]) {
        law_words_have_no_space(text.drop_first());
        assert(crate::text::words(text) == crate::text::words(text.drop_first()));
    } else if text.len() > 0 {
        let stop = |ch: char| crate::text::whitespace(ch);
        let n = crate::text::span(text, stop);
        crate::text::lemma_span(text, stop);
        let rest = text.skip(n as int);
        law_words_have_no_space(rest);
        assert(crate::text::words(text) == seq![text.take(n as int)] + crate::text::words(rest));
        assert forall|i: int, k: int|
            0 <= i < crate::text::words(text).len() && 0 <= k < crate::text::words(
                text,
            )[i].len() implies !crate::text::whitespace(
            #[trigger] crate::text::words(text)[i][k],
        ) by {
            if i > 0 {
                assert(crate::text::words(text)[i] == crate::text::words(rest)[i - 1]);
                assert(!crate::text::whitespace(crate::text::words(rest)[i - 1][k]));
            } else {
                assert(!stop(text[k]));
            }
        }
        assert forall|i: int| 0 <= i < crate::text::words(text).len() implies (
        #[trigger] crate::text::words(text)[i]).len() > 0 by {
            if i > 0 {
                assert(crate::text::words(text)[i] == crate::text::words(rest)[i - 1]);
            }
        }
    }
}

/// A text without spaces is one word, an empty one has none, and a space of any kind parts the
/// words before it from those behind it.
pub proof fn law_spaces_part_words(a: Seq<char>, space: char, b: Seq<char>)
    requires
        crate::text::whitespace(space),
    ensures
        crate::text::words(a + seq![space] + b) == crate::text::words(a) + crate::text::words(b),
        a.len() > 0 && (forall|i: int| 0 <= i < a.len() ==> !crate::text::whitespace(#[trigger] a[i]))
            ==> crate::text::words(a) == seq![a],
        crate::text::words(Seq::empty()) == Seq::<Seq<char>>::empty(),
    decreases a.len(),
{
    let whole = a + seq![space] + b;
    let stop = |ch: char| crate::text::whitespace(ch);
    if a.len() == 0 {
        assert(whole[0] == space);
        assert(whole.drop_first() =~= b);
        assert(crate::text::words(a) + crate::text::words(b) =~= crate::text::words(b));
    } else if crate::text::whitespace(a[0]) {
        law_spaces_part_words(a.drop_first(), space, b);
        assert(whole.drop_first() =~= a.drop_first() + seq![space] + b);
    } else {
        let n = crate::text::span(a, stop);
        crate::text::lemma_span(a, stop);
        assert forall|i: int| 0 <= i < n implies !stop(#[trigger] whole[i]) by {
            assert(whole[i] == a[i]);
        }
        crate::text::lemma_span_is(whole, stop, n);
        assert(whole.take(n as int) =~= a.take(n as int));
        law_spaces_part_words(a.skip(n as int), space, b);
        assert(whole.skip(n as int) =~= a.skip(n as int) + seq![space] + b);
        assert(crate::text::words(whole) =~= crate::text::words(a) + crate::text::words(b));
        if forall|i: int| 0 <= i < a.len() ==> !crate::text::whitespace(#[trigger] a[i]) {
            crate::text::lemma_span_is(a, stop, a.len());
            assert(a.take(n as int) =~= a);
            assert(a.skip(n as int) =~= Seq::<char>::empty());
            assert(crate::text::words(a) =~= seq![a]);
        }
    }
}

/// Trimming takes the spaces away at both ends and nothing else.
pub proof fn law_trimming_takes_spaces_at_the_ends(text: Seq<char>, space: char)
    requires
        crate::text::whitespace(space),
    ensures
        crate::text::trimmed(seq![space] + text) == crate::text::trimmed(text),
        crate::text::trimmed(text.push(space)) == crate::text::trimmed(text),
        text.len() > 0 && !crate::text::whitespace(text[0]) && !crate::text::whitespace(text.last())
            ==> crate::text::trimmed(text) == text,
        crate::text::trimmed(text).len() > 0 ==> !crate::text::whitespace(
            crate::text::trimmed(text)[0],
        ) && !crate::text::whitespace(crate::text::trimmed(text).last()),
    decreases text.len(),
{
    assert((seq![space] + text).drop_first() =~= text);
    let longer = text.push(space);
    if text.len() > 0 && crate::text::whitespace(text[0]) {
        law_trimming_takes_spaces_at_the_ends(text.drop_first(), space);
        assert(longer.drop_first() =~= text.drop_first().push(space));
    } else if text.len() > 0 {
        assert(longer[0] == text[0]);
        assert(longer.drop_last() =~= text);
        if crate::text::whitespace(text.last()) {
            law_trimming_takes_spaces_at_the_ends(text.drop_last(), space);
        }
    } else {
        assert(longer.drop_first() =~= text);
    }
}

/// Texts without a separator that are joined with it are the pieces that it parts.
pub proof fn law_pieces_are_what_was_joined(parts: Seq<Seq<char>>, separator: char)
    requires
        parts.len() > 0,
        forall|i: int| 0 <= i < parts.len() ==> !(#[trigger] parts[i]).contains(separator),
    ensures
        crate::text::pieces(crate::text::joined(parts, seq![separator]), separator) == parts,
        crate::text::joined(seq![parts[0]], seq![separator]) == parts[0],
        crate::text::joined(Seq::empty(), seq![separator]) == Seq::<char>::empty(),
    decreases parts.len(),
{
    let last = parts.last();
    let stop = crate::text::equals(separator);
    assert forall|i: int| 0 <= i < last.len() implies !stop(#[trigger] last[i]) by {
        assert(parts[parts.len() - 1].contains(last[i]));
    }
    crate::text::lemma_span_is(last, stop, last.len());
    assert(crate::text::pieces(last, separator) == seq![last]);
    if parts.len() == 1 {
        assert(parts =~= seq![last]);
    } else {
        let front = parts.drop_last();
        law_pieces_are_what_was_joined(front, separator);
        let head = crate::text::joined(front, seq![separator]);
        crate::text::lemma_pieces_of_both(head, last, separator);
        assert(crate::text::joined(parts, seq![separator]) =~= head.push(separator) + last);
        assert(front + seq![last] =~= parts);
    }
}

// ---------------------------------------------------------------------------
// Order
// ---------------------------------------------------------------------------

/// The first character in which two texts differ decides which comes first, and a text comes
/// before every longer one that starts with it.
pub proof fn law_first_difference_decides(
    front: Seq<char>,
    left: char,
    right: char,
    x: Seq<char>,
    y: Seq<char>,
)
    requires
        left != right,
    ensures
        crate::text::precedes(front + seq![left] + x, front + seq![right] + y) <==> left < right,
        crate::text::precedes(front, front + seq![left] + x),
        !crate::text::precedes(front + seq![left] + x, front),
    decreases front.len(),
{
    let one = front + seq![left] + x;
    let other = front + seq![right] + y;
    if front.len() > 0 {
        let rest = front.drop_first();
        law_first_difference_decides(rest, left, right, x, y);
        assert(one.drop_first() =~= rest + seq![left] + x);
        assert(other.drop_first() =~= rest + seq![right] + y);
    }
}

// ---------------------------------------------------------------------------
// Numbers
// ---------------------------------------------------------------------------

/// A number is written in the digits alone, the first of them not zero where the number is not, and
/// each digit further to the left counts for ten times as much.
pub proof fn law_numbers_are_written_in_digits(value: nat)
    ensures
        crate::text::decimal(value).len() > 0,
        forall|i: int|
            0 <= i < crate::text::decimal(value).len() ==> '0' <= #[trigger] crate::text::decimal(
                value,
            )[i] <= '9',
        value > 0 ==> crate::text::decimal(value)[0] != '0',
        value < 10 ==> crate::text::decimal(value) == seq![('0' as int + value) as char],
        forall|last: nat|
            last < 10 && value > 0 ==> #[trigger] crate::text::decimal(value * 10 + last)
                == crate::text::decimal(value).push(('0' as int + last) as char),
    decreases value,
{
    crate::text::lemma_decimal(value);
    if value >= 10 {
        law_numbers_are_written_in_digits(value / 10);
        let front = crate::text::decimal(value / 10);
        assert(crate::text::decimal(value) == front.push(crate::text::digit(value % 10)));
    }
    assert forall|last: nat| last < 10 && value > 0 implies #[trigger] crate::text::decimal(
        value * 10 + last,
    ) == crate::text::decimal(value).push(('0' as int + last) as char) by {
        assert((value * 10 + last) / 10 == value);
        assert((value * 10 + last) % 10 == last);
    }
}

/// Only digits make a number, with at most a sign before them.
pub proof fn law_only_digits_make_a_number(text: Seq<char>)
    ensures
        crate::text::digits_value(text) is Some <==> text.len() > 0 && forall|i: int|
            0 <= i < text.len() ==> '0' <= #[trigger] text[i] <= '9',
    decreases text.len(),
{
    if text.len() > 1 {
        let front = text.drop_last();
        law_only_digits_make_a_number(front);
        if crate::text::digits_value(text) is Some {
            assert forall|i: int| 0 <= i < text.len() implies '0' <= #[trigger] text[i] <= '9' by {
                if i < front.len() {
                    assert(text[i] == front[i]);
                }
            }
        }
    }
}

/// A number may be negative only where it is signed, and is none where it does not fit.
pub proof fn law_numbers_fit_or_are_none(digits: Seq<char>, value: nat)
    requires
        crate::text::digits_value(digits) == Some(value),
    ensures
        crate::text::unsigned_of(digits) == (if value <= 0xffff_ffff_ffff_ffff {
            Some(value as u64)
        } else {
            None
        }),
        crate::text::unsigned_of(seq!['+'] + digits) == crate::text::unsigned_of(digits),
        crate::text::unsigned_of(seq!['-'] + digits) is None,
        crate::text::signed_of(digits) == (if value <= 0x7fff_ffff_ffff_ffff {
            Some(value as i64)
        } else {
            None
        }),
        crate::text::signed_of(seq!['+'] + digits) == crate::text::signed_of(digits),
        crate::text::signed_of(seq!['-'] + digits) == (if value <= 0x8000_0000_0000_0000 {
            Some((-(value as int)) as i64)
        } else {
            None
        }),
{
    law_only_digits_make_a_number(digits);
    assert('0' <= digits[0] <= '9');
    assert((seq!['+'] + digits).skip(1) =~= digits);
    assert((seq!['-'] + digits).skip(1) =~= digits);
}

/// A text is ASCII exactly if each of its characters is.
pub proof fn law_which_texts_are_ascii(a: Seq<char>, b: Seq<char>, ch: char)
    ensures
        crate::text::ascii(a + b) <==> crate::text::ascii(a) && crate::text::ascii(b),
        crate::text::ascii(seq![ch]) <==> ch <= '\u{7f}',
        crate::text::ascii(Seq::empty()),
{
    let both = a + b;
    if crate::text::ascii(both) {
        assert forall|i: int| 0 <= i < a.len() implies (#[trigger] a[i] as u32) < 128 by {
            assert((both[i] as u32) < 128);
        }
        assert forall|i: int| 0 <= i < b.len() implies (#[trigger] b[i] as u32) < 128 by {
            assert((both[a.len() + i] as u32) < 128);
        }
    }
    assert(seq![ch][0] == ch);
}

} // verus!
