//! Text as sequences of characters: comparison, search, splitting and rendering.
use vstd::prelude::*;

verus! {

/// `String::push` appends one character to the end of the text.
pub assume_specification[ String::push ](text: &mut String, ch: char)
    ensures
        final(text)@ == old(text)@.push(ch),
;

/// How one value compares with another.
#[derive(Clone, Copy, Debug, PartialEq, Eq, Structural)]
pub enum Order {
    Less,
    Equal,
    Greater,
}

// ---------------------------------------------------------------------------
// Characters
// ---------------------------------------------------------------------------

/// The lower-case form of an ASCII letter; every other character stands for itself.
pub open spec fn ascii_lower(ch: char) -> char {
    if 'A' <= ch <= 'Z' {
        ((ch as u32) + 32) as char
    } else {
        ch
    }
}

/// The upper-case form of an ASCII letter; every other character stands for itself.
pub open spec fn ascii_upper(ch: char) -> char {
    if 'a' <= ch <= 'z' {
        ((ch as u32) - 32) as char
    } else {
        ch
    }
}

/// Whether a character is one of the letters `A` to `Z` and `a` to `z`.
pub open spec fn ascii_letter(ch: char) -> bool {
    'A' <= ch <= 'Z' || 'a' <= ch <= 'z'
}

/// The characters with the Unicode property `White_Space`.
pub open spec fn whitespace(ch: char) -> bool {
    let code = ch as u32;
    ||| 0x9 <= code <= 0xD
    ||| code == 0x20
    ||| code == 0x85
    ||| code == 0xA0
    ||| code == 0x1680
    ||| 0x2000 <= code <= 0x200A
    ||| code == 0x2028
    ||| code == 0x2029
    ||| code == 0x202F
    ||| code == 0x205F
    ||| code == 0x3000
}

/// The decimal digit of a number below ten.
pub open spec fn digit(value: nat) -> char {
    ((48 + value) as u8) as char
}

pub fn to_ascii_lower(ch: char) -> (lower: char)
    ensures
        lower == ascii_lower(ch),
{
    if 'A' <= ch && ch <= 'Z' {
        (ch as u8 + 32) as char
    } else {
        ch
    }
}

pub fn to_ascii_upper(ch: char) -> (upper: char)
    ensures
        upper == ascii_upper(ch),
{
    if 'a' <= ch && ch <= 'z' {
        (ch as u8 - 32) as char
    } else {
        ch
    }
}

pub fn is_ascii_letter(ch: char) -> (yes: bool)
    ensures
        yes == ascii_letter(ch),
{
    ('A' <= ch && ch <= 'Z') || ('a' <= ch && ch <= 'z')
}

pub fn is_whitespace(ch: char) -> (yes: bool)
    ensures
        yes == whitespace(ch),
{
    let code: u32 = ch as u32;
    (0x9 <= code && code <= 0xD) || code == 0x20 || code == 0x85 || code == 0xA0 || code == 0x1680
        || (0x2000 <= code && code <= 0x200A) || code == 0x2028 || code == 0x2029 || code == 0x202F
        || code == 0x205F || code == 0x3000
}

// ---------------------------------------------------------------------------
// Characters of a text, and back
// ---------------------------------------------------------------------------

/// The characters of a text, in order.
pub fn to_chars(text: &str) -> (chars: Vec<char>)
    ensures
        chars@ == text@,
{
    let mut chars: Vec<char> = Vec::new();
    for ch in it: text.chars()
        invariant
            it.seq() == text@,
            chars@ == it.seq().take(it.index() as int),
    {
        chars.push(ch);
    }
    chars
}

/// The text that consists of the given characters.
pub fn from_chars(chars: &[char]) -> (text: String)
    ensures
        text@ == chars@,
{
    let mut text = String::new();
    let mut i: usize = 0;
    while i < chars.len()
        invariant
            i <= chars.len(),
            text@ == chars@.take(i as int),
        decreases chars.len() - i,
    {
        text.push(chars[i]);
        i += 1;
    }
    text
}

/// Whether two texts hold the same characters.
pub fn same_text(left: &str, right: &str) -> (same: bool)
    ensures
        same == (left@ == right@),
{
    broadcast use vstd::utf8::encode_utf8_decode_utf8;

    let a = left.as_bytes();
    let b = right.as_bytes();
    proof {
        assert(vstd::utf8::decode_utf8(vstd::utf8::encode_utf8(left@)) == left@);
        assert(vstd::utf8::decode_utf8(vstd::utf8::encode_utf8(right@)) == right@);
    }
    if a.len() != b.len() {
        return false;
    }
    let mut i: usize = 0;
    while i < a.len()
        invariant
            i <= a.len(),
            a.len() == b.len(),
            a@ == vstd::utf8::encode_utf8(left@),
            b@ == vstd::utf8::encode_utf8(right@),
            forall|j: int| 0 <= j < i ==> a@[j] == b@[j],
        decreases a.len() - i,
    {
        if a[i] != b[i] {
            return false;
        }
        i += 1;
    }
    assert(a@ == b@);
    true
}

/// The texts, one after the other.
pub fn concat(left: &str, right: &str) -> (text: String)
    ensures
        text@ == left@ + right@,
{
    let mut text = left.to_owned();
    text.append(right);
    text
}

// ---------------------------------------------------------------------------
// Parts of a text
// ---------------------------------------------------------------------------

/// A text with its ASCII letters in lower case.
pub open spec fn fold(text: Seq<char>) -> Seq<char> {
    Seq::new(text.len(), |i: int| ascii_lower(text[i]))
}

/// Whether a text consists of ASCII characters.
pub open spec fn ascii(text: Seq<char>) -> bool {
    forall|i: int| 0 <= i < text.len() ==> (#[trigger] text[i] as u32) < 128
}

/// Whether `part` stands in `text` at position `at`.
pub open spec fn occurs_at(text: Seq<char>, part: Seq<char>, at: int) -> bool {
    &&& 0 <= at
    &&& at + part.len() <= text.len()
    &&& text.subrange(at, at + part.len()) == part
}

/// Whether `part` stands anywhere in `text`.
pub open spec fn contains(text: Seq<char>, part: Seq<char>) -> bool {
    exists|at: int| occurs_at(text, part, at)
}

/// Whether `text` begins with `prefix`.
pub open spec fn starts_with(text: Seq<char>, prefix: Seq<char>) -> bool {
    occurs_at(text, prefix, 0)
}

/// Whether `text` ends with `suffix`.
pub open spec fn ends_with(text: Seq<char>, suffix: Seq<char>) -> bool {
    occurs_at(text, suffix, text.len() - suffix.len())
}

/// Whether `part` stands in `text` at position `at`, ASCII letters compared without case.
pub fn occurs_folded_at(text: &[char], part: &[char], at: usize) -> (found: bool)
    requires
        at <= text@.len(),
    ensures
        found == occurs_at(fold(text@), fold(part@), at as int),
{
    let ghost t = fold(text@);
    let ghost p = fold(part@);
    if part.len() > text.len() - at {
        return false;
    }
    let mut i: usize = 0;
    while i < part.len()
        invariant
            i <= part.len(),
            at + part.len() <= text.len(),
            t == fold(text@),
            p == fold(part@),
            forall|j: int| 0 <= j < i ==> t[at + j] == p[j],
        decreases part.len() - i,
    {
        if to_ascii_lower(text[at + i]) != to_ascii_lower(part[i]) {
            assert(t.subrange(at as int, at + p.len())[i as int] == t[at + i]);
            return false;
        }
        i += 1;
    }
    assert(t.subrange(at as int, at + p.len()) =~= p);
    true
}

/// Whether `part` stands anywhere in `text`, ASCII letters compared without case.
pub fn contains_folded(text: &[char], part: &[char]) -> (found: bool)
    ensures
        found == contains(fold(text@), fold(part@)),
{
    if part.len() > text.len() {
        return false;
    }
    let last: usize = text.len() - part.len();
    let mut at: usize = 0;
    loop
        invariant
            at <= last,
            last == text.len() - part.len(),
            forall|j: int| 0 <= j < at ==> !occurs_at(fold(text@), fold(part@), j),
        decreases last - at,
    {
        if occurs_folded_at(text, part, at) {
            return true;
        }
        if at == last {
            return false;
        }
        at += 1;
    }
}

/// Whether `part` stands in `text` at position `at`.
pub fn occurs_here(text: &[char], part: &[char], at: usize) -> (found: bool)
    requires
        at <= text@.len(),
    ensures
        found == occurs_at(text@, part@, at as int),
{
    if part.len() > text.len() - at {
        return false;
    }
    let mut i: usize = 0;
    while i < part.len()
        invariant
            i <= part.len(),
            at + part.len() <= text.len(),
            forall|j: int| 0 <= j < i ==> text@[at + j] == part@[j],
        decreases part.len() - i,
    {
        if text[at + i] != part[i] {
            assert(text@.subrange(at as int, at + part@.len())[i as int] == text@[at + i]);
            return false;
        }
        i += 1;
    }
    assert(text@.subrange(at as int, at + part@.len()) =~= part@);
    true
}

/// Whether `text` begins with `prefix`.
pub fn has_prefix(text: &[char], prefix: &[char]) -> (found: bool)
    ensures
        found == starts_with(text@, prefix@),
{
    occurs_here(text, prefix, 0)
}

/// The text with every `from` replaced by `to`.
pub open spec fn replaced(text: Seq<char>, from: char, to: char) -> Seq<char> {
    Seq::new(
        text.len(),
        |i: int|
            if text[i] == from {
                to
            } else {
                text[i]
            },
    )
}

pub fn replace_char(text: &str, from: char, to: char) -> (result: String)
    ensures
        result@ == replaced(text@, from, to),
{
    let chars = to_chars(text);
    let mut result = String::new();
    let mut i: usize = 0;
    while i < chars.len()
        invariant
            i <= chars.len(),
            chars@ == text@,
            result@ == replaced(text@, from, to).take(i as int),
        decreases chars.len() - i,
    {
        if chars[i] == from {
            result.push(to);
        } else {
            result.push(chars[i]);
        }
        i += 1;
    }
    assert(replaced(text@, from, to).take(i as int) =~= replaced(text@, from, to));
    result
}

// ---------------------------------------------------------------------------
// Splitting
// ---------------------------------------------------------------------------

/// The property of being the given character.
pub open spec fn equals(ch: char) -> spec_fn(char) -> bool {
    |other: char| other == ch
}

/// The property of not being the given character.
pub open spec fn differs_from(ch: char) -> spec_fn(char) -> bool {
    |other: char| other != ch
}

/// The number of leading characters of `text` on which `stop` does not hold.
pub open spec fn span(text: Seq<char>, stop: spec_fn(char) -> bool) -> nat
    decreases text.len(),
{
    if text.len() == 0 || stop(text[0]) {
        0
    } else {
        1 + span(text.drop_first(), stop)
    }
}

/// A span ends at the first character on which `stop` holds, or at the end of the text.
pub proof fn lemma_span(text: Seq<char>, stop: spec_fn(char) -> bool)
    ensures
        span(text, stop) <= text.len(),
        forall|i: int| 0 <= i < span(text, stop) ==> !stop(#[trigger] text[i]),
        span(text, stop) < text.len() ==> stop(text[span(text, stop) as int]),
    decreases text.len(),
{
    if text.len() != 0 && !stop(text[0]) {
        let rest = text.drop_first();
        lemma_span(rest, stop);
        assert forall|i: int| 0 <= i < span(text, stop) implies !stop(#[trigger] text[i]) by {
            if i > 0 {
                assert(rest[i - 1] == text[i]);
            }
        }
        if span(text, stop) < text.len() {
            assert(rest[span(rest, stop) as int] == text[span(text, stop) as int]);
        }
    }
}

/// The only length with the properties of a span is the span.
pub proof fn lemma_span_is(text: Seq<char>, stop: spec_fn(char) -> bool, length: nat)
    requires
        length <= text.len(),
        forall|i: int| 0 <= i < length ==> !stop(#[trigger] text[i]),
        length < text.len() ==> stop(text[length as int]),
    ensures
        span(text, stop) == length,
{
    lemma_span(text, stop);
    let n = span(text, stop);
    if n < length {
        assert(!stop(text[n as int]));
    }
    if length < n {
        assert(!stop(text[length as int]));
    }
}

/// How many characters stand before the first occurrence of a character.
pub fn length_before(text: &[char], ch: char) -> (length: usize)
    ensures
        length == span(text@, equals(ch)),
        length <= text@.len(),
{
    let mut length: usize = 0;
    while length < text.len() && text[length] != ch
        invariant
            length <= text.len(),
            forall|i: int| 0 <= i < length ==> #[trigger] text@[i] != ch,
        decreases text.len() - length,
    {
        length += 1;
    }
    proof {
        lemma_span_is(text@, equals(ch), length as nat);
    }
    length
}

/// The text before the first NUL.
pub open spec fn before_nul(text: Seq<char>) -> Seq<char> {
    text.take(span(text, equals('\0')) as int)
}

/// A text without a NUL stands before its first NUL as a whole.
pub proof fn lemma_before_nul(text: Seq<char>)
    ensures
        text.contains('\0') <==> span(text, equals('\0')) < text.len(),
        !text.contains('\0') ==> before_nul(text) == text,
        !before_nul(text).contains('\0'),
{
    lemma_span(text, equals('\0'));
    let n = span(text, equals('\0'));
    if text.contains('\0') {
        let k = choose|k: int| 0 <= k < text.len() && text[k] == '\0';
        assert(equals('\0')(text[k]));
    } else {
        if n < text.len() {
            assert(text.contains(text[n as int]));
        }
        assert(before_nul(text) =~= text);
    }
    assert forall|i: int| 0 <= i < n implies before_nul(text)[i] != '\0' by {
        assert(!equals('\0')(text[i]));
    }
}

/// The maximal runs of characters that are not white space, in order.
pub open spec fn words(text: Seq<char>) -> Seq<Seq<char>>
    decreases text.len(),
{
    if text.len() == 0 {
        Seq::empty()
    } else if whitespace(text[0]) {
        words(text.drop_first())
    } else {
        let n = span(text, |ch: char| whitespace(ch));
        if 0 < n <= text.len() {
            seq![text.take(n as int)] + words(text.skip(n as int))
        } else {
            Seq::empty()
        }
    }
}

/// The words of two texts with a space between them are those of the one and then those of the
/// other.
pub proof fn lemma_words_of_both(a: Seq<char>, b: Seq<char>)
    ensures
        words(a + seq![' '] + b) == words(a) + words(b),
    decreases a.len(),
{
    let whole = a + seq![' '] + b;
    if a.len() == 0 {
        assert(whole[0] == ' ');
        assert(whole.drop_first() =~= b);
        assert(words(a) + words(b) =~= words(b));
    } else if whitespace(a[0]) {
        lemma_words_of_both(a.drop_first(), b);
        assert(whole.drop_first() =~= a.drop_first() + seq![' '] + b);
    } else {
        let stop = |ch: char| whitespace(ch);
        let n = span(a, stop);
        lemma_span(a, stop);
        assert forall|i: int| 0 <= i < n implies !stop(#[trigger] whole[i]) by {
            assert(whole[i] == a[i]);
        }
        lemma_span_is(whole, stop, n);
        assert(whole.take(n as int) =~= a.take(n as int));
        lemma_words_of_both(a.skip(n as int), b);
        assert(whole.skip(n as int) =~= a.skip(n as int) + seq![' '] + b);
        assert(words(whole) =~= words(a) + words(b));
    }
}

/// The views of a list of texts.
pub open spec fn views(texts: Seq<String>) -> Seq<Seq<char>> {
    Seq::new(texts.len(), |i: int| texts[i]@)
}

/// The texts between the occurrences of white space, empty ones left out.
pub fn split_words(text: &str) -> (result: Vec<String>)
    ensures
        views(result@) == words(text@),
{
    let chars = to_chars(text);
    let mut result: Vec<String> = Vec::new();
    let ghost stop = |ch: char| whitespace(ch);
    let mut i: usize = 0;
    assert(chars@.skip(0) =~= chars@);
    while i < chars.len()
        invariant
            i <= chars.len(),
            chars@ == text@,
            stop == (|ch: char| whitespace(ch)),
            words(text@) == views(result@) + words(chars@.skip(i as int)),
        decreases chars.len() - i,
    {
        let ghost rest = chars@.skip(i as int);
        if is_whitespace(chars[i]) {
            assert(rest.drop_first() =~= chars@.skip(i + 1));
            i += 1;
        } else {
            let start: usize = i;
            while i < chars.len() && !is_whitespace(chars[i])
                invariant
                    start <= i <= chars.len(),
                    rest == chars@.skip(start as int),
                    forall|j: int| 0 <= j < i - start ==> !whitespace(#[trigger] rest[j]),
                decreases chars.len() - i,
            {
                assert(rest[i - start] == chars@[i as int]);
                i += 1;
            }
            proof {
                if i < chars.len() {
                    assert(rest[i - start] == chars@[i as int]);
                }
                lemma_span_is(rest, stop, (i - start) as nat);
                assert(rest[0] == chars@[start as int]);
                assert(i > start) by {
                    if i == start {
                        assert(stop(rest[0]));
                    }
                }
                assert(rest.skip(i - start) =~= chars@.skip(i as int));
                assert(rest.take(i - start) =~= chars@.subrange(start as int, i as int));
            }
            let ghost before = result@;
            let word = from_chars(vstd::slice::slice_subrange(chars.as_slice(), start, i));
            result.push(word);
            proof {
                assert(views(result@) =~= views(before) + seq![word@]);
                assert(words(rest) == seq![word@] + words(rest.skip(i - start)));
                assert(views(before) + (seq![word@] + words(rest.skip(i - start))) =~= views(
                    result@,
                ) + words(rest.skip(i - start)));
            }
        }
    }
    assert(chars@.skip(i as int) =~= Seq::<char>::empty());
    assert(views(result@) + Seq::<Seq<char>>::empty() =~= views(result@));
    result
}

/// The parts of a text between the occurrences of a separator, empty ones kept.
pub open spec fn pieces(text: Seq<char>, separator: char) -> Seq<Seq<char>>
    decreases text.len(),
{
    let n = span(text, equals(separator));
    if n < text.len() {
        seq![text.take(n as int)] + pieces(text.skip((n + 1) as int), separator)
    } else {
        seq![text]
    }
}

/// No piece holds the separator, and there is at least one.
pub proof fn lemma_pieces(text: Seq<char>, separator: char)
    ensures
        pieces(text, separator).len() > 0,
        pieces(text, separator)[0] == text.take(span(text, equals(separator)) as int),
        text.len() > 0 ==> (pieces(text, separator)[0].len() == 0 <==> text[0] == separator),
        forall|i: int|
            0 <= i < pieces(text, separator).len() ==> !(#[trigger] pieces(
                text,
                separator,
            )[i]).contains(separator),
    decreases text.len(),
{
    let n = span(text, equals(separator));
    let parts = pieces(text, separator);
    lemma_span(text, equals(separator));
    if n < text.len() {
        let rest = text.skip((n + 1) as int);
        lemma_pieces(rest, separator);
        assert forall|i: int| 0 <= i < parts.len() implies !(#[trigger] parts[i]).contains(
            separator,
        ) by {
            if i > 0 {
                assert(parts[i] == pieces(rest, separator)[i - 1]);
            }
        }
    } else {
        assert(text.take(n as int) =~= text);
    }
}

/// The pieces of two texts with the separator between them.
pub proof fn lemma_pieces_of_both(a: Seq<char>, b: Seq<char>, separator: char)
    ensures
        pieces(a.push(separator) + b, separator) == pieces(a, separator) + pieces(b, separator),
    decreases a.len(),
{
    let stop = equals(separator);
    let whole = a.push(separator) + b;
    let n = span(a, stop);
    lemma_span(a, stop);
    assert forall|i: int| 0 <= i < n implies !stop(#[trigger] whole[i]) by {
        assert(whole[i] == a[i]);
    }
    lemma_span_is(whole, stop, n);
    assert(whole.take(n as int) =~= a.take(n as int));
    if n < a.len() {
        let rest = a.skip((n + 1) as int);
        lemma_pieces_of_both(rest, b, separator);
        assert(whole.skip((n + 1) as int) =~= rest.push(separator) + b);
        assert(pieces(whole, separator) =~= pieces(a, separator) + pieces(b, separator));
    } else {
        assert(a.take(n as int) =~= a);
        assert(whole.skip((n + 1) as int) =~= b);
    }
}

/// A character that stands in no piece, and is not the separator, does not stand in the text.
pub proof fn lemma_in_no_piece(text: Seq<char>, separator: char, ch: char)
    requires
        ch != separator,
        forall|i: int|
            0 <= i < pieces(text, separator).len() ==> !(#[trigger] pieces(
                text,
                separator,
            )[i]).contains(ch),
    ensures
        !text.contains(ch),
    decreases text.len(),
{
    let n = span(text, equals(separator));
    let parts = pieces(text, separator);
    lemma_span(text, equals(separator));
    if n < text.len() {
        let rest = text.skip((n + 1) as int);
        assert forall|i: int| 0 <= i < pieces(rest, separator).len() implies !(#[trigger] pieces(
            rest,
            separator,
        )[i]).contains(ch) by {
            assert(parts[i + 1] == pieces(rest, separator)[i]);
        }
        lemma_in_no_piece(rest, separator, ch);
        assert(!parts[0].contains(ch));
        if text.contains(ch) {
            let k = choose|k: int| 0 <= k < text.len() && text[k] == ch;
            if k < n {
                assert(text.take(n as int)[k] == ch);
            } else if k > n {
                assert(rest[k - n - 1] == ch);
            }
        }
    } else {
        assert(parts[0] == text);
    }
}

/// The texts between the occurrences of a separator, in order.
pub fn split_pieces(text: &[char], separator: char) -> (result: Vec<String>)
    ensures
        views(result@) == pieces(text@, separator),
{
    let ghost all = pieces(text@, separator);
    let mut result: Vec<String> = Vec::new();
    let mut start: usize = 0;
    assert(text@.skip(0) =~= text@);
    assert(views(result@) + all =~= all);
    loop
        invariant
            start <= text.len(),
            all == pieces(text@, separator),
            all == views(result@) + pieces(text@.skip(start as int), separator),
        decreases text.len() - start,
    {
        let ghost rest = text@.skip(start as int);
        let ghost before = result@;
        assert(rest =~= text@.subrange(start as int, text@.len() as int));
        let length: usize = length_before(
            vstd::slice::slice_subrange(text, start, text.len()),
            separator,
        );
        let end: usize = start + length;
        assert(rest.take(end - start) =~= text@.subrange(start as int, end as int));
        result.push(from_chars(vstd::slice::slice_subrange(text, start, end)));
        assert(views(result@) =~= views(before).push(rest.take(end - start)));
        if end == text.len() {
            assert(rest.take(end - start) =~= rest);
            assert(views(result@) =~= all);
            return result;
        }
        proof {
            assert(rest.skip(end - start + 1) =~= text@.skip(end + 1));
            assert(views(result@) + pieces(text@.skip(end + 1), separator) =~= all);
        }
        start = end + 1;
    }
}

/// The text without the white space at its two ends.
pub open spec fn trimmed(text: Seq<char>) -> Seq<char>
    decreases text.len(),
{
    if text.len() == 0 {
        text
    } else if whitespace(text[0]) {
        trimmed(text.drop_first())
    } else if whitespace(text.last()) {
        trimmed(text.drop_last())
    } else {
        text
    }
}

/// The text without the white space at its two ends.
pub fn trim(text: &str) -> (result: String)
    ensures
        result@ == trimmed(text@),
{
    let chars = to_chars(text);
    let mut start: usize = 0;
    let mut end: usize = chars.len();
    assert(chars@.subrange(0, end as int) =~= chars@);
    while start < end && is_whitespace(chars[start])
        invariant
            start <= end == chars.len(),
            chars@ == text@,
            trimmed(text@) == trimmed(chars@.subrange(start as int, end as int)),
        decreases end - start,
    {
        assert(chars@.subrange(start as int, end as int).drop_first() =~= chars@.subrange(
            start + 1,
            end as int,
        ));
        start += 1;
    }
    while start < end && is_whitespace(chars[end - 1])
        invariant
            start <= end <= chars.len(),
            chars@ == text@,
            start < end ==> !whitespace(chars@[start as int]),
            trimmed(text@) == trimmed(chars@.subrange(start as int, end as int)),
        decreases end - start,
    {
        assert(chars@.subrange(start as int, end as int).drop_last() =~= chars@.subrange(
            start as int,
            end - 1,
        ));
        end -= 1;
    }
    from_chars(vstd::slice::slice_subrange(chars.as_slice(), start, end))
}

/// The text without its leading occurrences of a character.
pub open spec fn without_leading(text: Seq<char>, ch: char) -> Seq<char> {
    text.skip(span(text, differs_from(ch)) as int)
}

/// The text without its leading occurrences of a character.
pub fn trim_leading(text: &str, ch: char) -> (result: String)
    ensures
        result@ == without_leading(text@, ch),
{
    let chars = to_chars(text);
    let mut start: usize = 0;
    while start < chars.len() && chars[start] == ch
        invariant
            start <= chars.len(),
            forall|j: int| 0 <= j < start ==> chars@[j] == ch,
        decreases chars.len() - start,
    {
        start += 1;
    }
    proof {
        lemma_span_is(chars@, differs_from(ch), start as nat);
        assert(chars@.skip(start as int) =~= chars@.subrange(start as int, chars@.len() as int));
    }
    from_chars(vstd::slice::slice_subrange(chars.as_slice(), start, chars.len()))
}

// ---------------------------------------------------------------------------
// Joining and rendering
// ---------------------------------------------------------------------------

/// The parts, one after the other, with `separator` between two of them.
pub open spec fn joined(parts: Seq<Seq<char>>, separator: Seq<char>) -> Seq<char>
    decreases parts.len(),
{
    if parts.len() == 0 {
        Seq::empty()
    } else if parts.len() == 1 {
        parts[0]
    } else {
        joined(parts.drop_last(), separator) + separator + parts.last()
    }
}

/// Two lists of parts, joined one after the other.
pub proof fn lemma_joined_both(a: Seq<Seq<char>>, b: Seq<Seq<char>>, separator: Seq<char>)
    requires
        b.len() > 0,
    ensures
        joined(a + b, separator) == (if a.len() == 0 {
            joined(b, separator)
        } else {
            joined(a, separator) + separator + joined(b, separator)
        }),
    decreases b.len(),
{
    let both = a + b;
    if a.len() == 0 {
        assert(both =~= b);
    } else if b.len() == 1 {
        assert(both.drop_last() =~= a);
    } else {
        lemma_joined_both(a, b.drop_last(), separator);
        assert(both.drop_last() =~= a + b.drop_last());
        assert(joined(both, separator) =~= joined(a, separator) + separator + joined(b, separator));
    }
}

/// Joined parts end as the last of them does.
pub proof fn lemma_joined_ends(parts: Seq<Seq<char>>, separator: Seq<char>)
    requires
        parts.len() > 0,
        parts.last().len() > 0,
    ensures
        joined(parts, separator).len() > 0,
        joined(parts, separator).last() == parts.last().last(),
{
}

/// The pieces of a text, joined by the separator, are the text.
pub proof fn lemma_pieces_joined(text: Seq<char>, separator: char)
    ensures
        joined(pieces(text, separator), seq![separator]) == text,
    decreases text.len(),
{
    let n = span(text, equals(separator));
    lemma_span(text, equals(separator));
    if n < text.len() {
        let rest = text.skip((n + 1) as int);
        lemma_pieces_joined(rest, separator);
        lemma_pieces(rest, separator);
        lemma_joined_both(
            seq![text.take(n as int)],
            pieces(rest, separator),
            seq![separator],
        );
        assert(text =~= text.take(n as int) + seq![separator] + rest);
    }
}

/// The parts, one after the other, with `separator` between two of them.
pub fn join(parts: &[String], separator: &str) -> (result: String)
    ensures
        result@ == joined(views(parts@), separator@),
{
    let mut result = String::new();
    let mut i: usize = 0;
    while i < parts.len()
        invariant
            i <= parts.len(),
            result@ == joined(views(parts@).take(i as int), separator@),
        decreases parts.len() - i,
    {
        if i > 0 {
            result.append(separator);
        }
        result.append(parts[i].as_str());
        proof {
            let all = views(parts@);
            assert(all.take(i + 1).drop_last() =~= all.take(i as int));
            assert(Seq::<char>::empty() + all[0] =~= all[0]);
        }
        i += 1;
    }
    assert(views(parts@).take(i as int) =~= views(parts@));
    result
}

/// A number in decimal digits.
pub open spec fn decimal(value: nat) -> Seq<char>
    decreases value,
{
    if value < 10 {
        seq![digit(value)]
    } else {
        decimal(value / 10).push(digit(value % 10))
    }
}

/// A number in decimal digits.
pub fn to_decimal(value: u64) -> (text: String)
    ensures
        text@ == decimal(value as nat),
    decreases value,
{
    let last: char = (48u8 + (value % 10) as u8) as char;
    let mut text = if value < 10 {
        String::new()
    } else {
        to_decimal(value / 10)
    };
    text.push(last);
    text
}

/// A signed number in decimal digits.
pub open spec fn signed_decimal(value: int) -> Seq<char> {
    if value < 0 {
        seq!['-'] + decimal((-value) as nat)
    } else {
        decimal(value as nat)
    }
}

/// A signed number in decimal digits.
pub fn to_signed_decimal(value: i64) -> (text: String)
    ensures
        text@ == signed_decimal(value as int),
{
    if value < 0 {
        let mut text = String::new();
        text.push('-');
        let magnitude: u64 = (-(value as i128)) as u64;
        text.append(to_decimal(magnitude).as_str());
        assert(text@ =~= signed_decimal(value as int));
        text
    } else {
        to_decimal(value as u64)
    }
}

/// Whether a character is a decimal digit.
pub open spec fn is_digit(ch: char) -> bool {
    '0' <= ch <= '9'
}

/// The number that decimal digits stand for. A text without digits, and one with another
/// character, stands for none.
pub open spec fn digits_value(text: Seq<char>) -> Option<nat>
    decreases text.len(),
{
    if text.len() == 0 {
        None
    } else if !is_digit(text.last()) {
        None
    } else if text.len() == 1 {
        Some((text.last() as u32 - 48) as nat)
    } else {
        match digits_value(text.drop_last()) {
            None => None,
            Some(front) => Some((front * 10 + (text.last() as u32 - 48)) as nat),
        }
    }
}

/// The number that a text stands for: decimal digits, with a sign before them or none.
pub open spec fn number_of(text: Seq<char>) -> Option<int> {
    if text.len() > 0 && text[0] == '+' {
        match digits_value(text.skip(1)) {
            Some(value) => Some(value as int),
            None => None,
        }
    } else if text.len() > 0 && text[0] == '-' {
        match digits_value(text.skip(1)) {
            Some(value) => Some(-(value as int)),
            None => None,
        }
    } else {
        match digits_value(text) {
            Some(value) => Some(value as int),
            None => None,
        }
    }
}

/// The unsigned number that a text stands for. A minus sign is not read.
pub open spec fn unsigned_of(text: Seq<char>) -> Option<u64> {
    match number_of(text) {
        Some(value) if value <= u64::MAX && text[0] != '-' => Some(value as u64),
        _ => None,
    }
}

/// The signed number that a text stands for.
pub open spec fn signed_of(text: Seq<char>) -> Option<i64> {
    match number_of(text) {
        Some(value) if i64::MIN <= value <= i64::MAX => Some(value as i64),
        _ => None,
    }
}

/// The value of decimal digits, as far as it stays below 2^64.
fn parse_digits(chars: &[char]) -> (value: Option<u64>)
    ensures
        match digits_value(chars@) {
            Some(number) if number <= u64::MAX => value == Some(number as u64),
            _ => value is None,
        },
{
    if chars.len() == 0 {
        return None;
    }
    let mut value: u64 = 0;
    let mut i: usize = 0;
    while i < chars.len()
        invariant
            i <= chars.len(),
            i == 0 ==> value == 0,
            i > 0 ==> digits_value(chars@.take(i as int)) == Some(value as nat),
        decreases chars.len() - i,
    {
        let ghost here = chars@.take(i + 1);
        assert(here.drop_last() =~= chars@.take(i as int));
        assert(here.last() == chars@[i as int]);
        if !('0' <= chars[i] && chars[i] <= '9') {
            proof {
                lemma_digits_of_front(chars@, i + 1);
            }
            return None;
        }
        let next: u128 = value as u128 * 10 + (chars[i] as u32 - 48) as u128;
        assert(digits_value(here) == Some(next as nat));
        if next > u64::MAX as u128 {
            proof {
                lemma_digits_of_front(chars@, i + 1);
            }
            return None;
        }
        value = next as u64;
        i += 1;
    }
    assert(chars@.take(i as int) =~= chars@);
    Some(value)
}

/// The value of digits is at least that of the digits before them, and there is none where there
/// is none before.
proof fn lemma_digits_of_front(text: Seq<char>, count: int)
    requires
        0 < count <= text.len(),
    ensures
        digits_value(text.take(count)) is None ==> digits_value(text) is None,
        digits_value(text) is Some ==> digits_value(text)->0 >= digits_value(text.take(count))->0,
    decreases text.len() - count,
{
    if count < text.len() {
        assert(text.take(count + 1).drop_last() =~= text.take(count));
        lemma_digits_of_front(text, count + 1);
    } else {
        assert(text.take(count) =~= text);
    }
}

/// Reads an unsigned number.
pub fn parse_unsigned(text: &str) -> (value: Option<u64>)
    ensures
        value == unsigned_of(text@),
{
    let chars = to_chars(text);
    if chars.len() > 0 && chars[0] == '+' {
        assert(chars@.skip(1) =~= chars@.subrange(1, chars@.len() as int));
        return parse_digits(vstd::slice::slice_subrange(chars.as_slice(), 1, chars.len()));
    }
    if chars.len() > 0 && chars[0] == '-' {
        return None;
    }
    parse_digits(chars.as_slice())
}

/// Reads a signed number.
pub fn parse_signed(text: &str) -> (value: Option<i64>)
    ensures
        value == signed_of(text@),
{
    let chars = to_chars(text);
    let signed: bool = chars.len() > 0 && (chars[0] == '+' || chars[0] == '-');
    let negative: bool = chars.len() > 0 && chars[0] == '-';
    let start: usize = if signed {
        1
    } else {
        0
    };
    let ghost body = chars@.skip(start as int);
    assert(body =~= chars@.subrange(start as int, chars@.len() as int));
    assert(start == 0 ==> body =~= text@);
    match parse_digits(vstd::slice::slice_subrange(chars.as_slice(), start, chars.len())) {
        None => None,
        Some(magnitude) => {
            let value: i128 = if negative {
                -(magnitude as i128)
            } else {
                magnitude as i128
            };
            if value < i64::MIN as i128 || value > i64::MAX as i128 {
                None
            } else {
                Some(value as i64)
            }
        },
    }
}

pub(crate) proof fn lemma_decimal(value: nat)
    ensures
        digits_value(decimal(value)) == Some(value),
        decimal(value).len() > 0,
        is_digit(decimal(value)[0]),
    decreases value,
{
    if value >= 10 {
        lemma_decimal(value / 10);
        assert(decimal(value).drop_last() =~= decimal(value / 10));
    }
}

/// A number that was written in decimal digits is read back as it was.
pub proof fn law_numbers_are_read_back(unsigned: u64, signed: i64)
    ensures
        unsigned_of(decimal(unsigned as nat)) == Some(unsigned),
        signed_of(signed_decimal(signed as int)) == Some(signed),
{
    lemma_decimal(unsigned as nat);
    if signed < 0 {
        lemma_decimal((-signed) as nat);
        assert(signed_decimal(signed as int).skip(1) =~= decimal((-signed) as nat));
    } else {
        lemma_decimal(signed as nat);
    }
}

// ---------------------------------------------------------------------------
// Lexical order
// ---------------------------------------------------------------------------

/// Whether `left` comes before `right` in the order of the first character that differs, a
/// proper prefix before what it begins.
pub open spec fn precedes(left: Seq<char>, right: Seq<char>) -> bool
    decreases left.len(),
{
    if right.len() == 0 {
        false
    } else if left.len() == 0 {
        true
    } else if left[0] != right[0] {
        left[0] < right[0]
    } else {
        precedes(left.drop_first(), right.drop_first())
    }
}

/// No text comes before itself.
pub proof fn lemma_precedes_irreflexive(text: Seq<char>)
    ensures
        !precedes(text, text),
    decreases text.len(),
{
    if text.len() != 0 {
        lemma_precedes_irreflexive(text.drop_first());
    }
}

/// Of two texts that differ, one comes before the other.
pub proof fn lemma_precedes_total(left: Seq<char>, right: Seq<char>)
    ensures
        left == right || precedes(left, right) || precedes(right, left),
    decreases left.len(),
{
    if left.len() == 0 || right.len() == 0 {
        if left.len() == 0 && right.len() == 0 {
            assert(left =~= right);
        }
    } else if left[0] == right[0] {
        lemma_precedes_total(left.drop_first(), right.drop_first());
        if left.drop_first() == right.drop_first() {
            assert(left =~= seq![left[0]] + left.drop_first());
            assert(right =~= seq![right[0]] + right.drop_first());
        }
    }
}

/// The order is transitive.
pub proof fn lemma_precedes_transitive(a: Seq<char>, b: Seq<char>, c: Seq<char>)
    requires
        precedes(a, b),
        precedes(b, c),
    ensures
        precedes(a, c),
    decreases a.len(),
{
    if a.len() != 0 && b.len() != 0 && c.len() != 0 && a[0] == b[0] && b[0] == c[0] {
        lemma_precedes_transitive(a.drop_first(), b.drop_first(), c.drop_first());
    }
}

/// The order of two texts.
pub fn lexical_order(left: &[char], right: &[char]) -> (order: Order)
    ensures
        order == Order::Less <==> precedes(left@, right@),
        order == Order::Equal <==> left@ == right@,
        order == Order::Greater <==> precedes(right@, left@),
{
    let mut i: usize = 0;
    assert(left@.skip(0) =~= left@);
    assert(right@.skip(0) =~= right@);
    while i < left.len() && i < right.len()
        invariant
            i <= left.len(),
            i <= right.len(),
            left@.take(i as int) =~= right@.take(i as int),
            precedes(left@, right@) == precedes(left@.skip(i as int), right@.skip(i as int)),
            precedes(right@, left@) == precedes(right@.skip(i as int), left@.skip(i as int)),
        decreases left.len() - i,
    {
        if left[i] != right[i] {
            assert(left@.skip(i as int)[0] == left@[i as int]);
            assert(right@.skip(i as int)[0] == right@[i as int]);
            if left[i] < right[i] {
                return Order::Less;
            }
            return Order::Greater;
        }
        assert(left@.skip(i as int).drop_first() =~= left@.skip(i + 1));
        assert(right@.skip(i as int).drop_first() =~= right@.skip(i + 1));
        i += 1;
    }
    if left.len() == right.len() {
        assert(left@.take(i as int) =~= left@);
        assert(right@.take(i as int) =~= right@);
        proof {
            lemma_precedes_irreflexive(left@);
        }
        Order::Equal
    } else if left.len() < right.len() {
        Order::Less
    } else {
        Order::Greater
    }
}

} // verus!
