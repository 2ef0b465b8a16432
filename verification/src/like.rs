//! Patterns of the SQL operator `LIKE`, and texts that stand for themselves in them.
use crate::text::to_chars;
use vstd::prelude::*;

verus! {

/// Whether two characters match: ASCII letters do without case.
pub open spec fn same_letter(left: char, right: char) -> bool {
    crate::text::ascii_lower(left) == crate::text::ascii_lower(right)
}

/// Whether a text matches a pattern with the escape character `\`: `%` stands for any characters,
/// `_` for any one, a character behind `\` for itself, and any other character for itself. ASCII
/// letters match without case.
pub open spec fn like(pattern: Seq<char>, text: Seq<char>) -> bool
    decreases pattern.len(), text.len(),
{
    if pattern.len() == 0 {
        text.len() == 0
    } else if pattern[0] == '%' {
        like(pattern.skip(1), text) || (text.len() > 0 && like(pattern, text.skip(1)))
    } else if text.len() == 0 {
        false
    } else if pattern[0] == '_' {
        like(pattern.skip(1), text.skip(1))
    } else if pattern[0] == '\\' {
        pattern.len() >= 2 && same_letter(pattern[1], text[0]) && like(
            pattern.skip(2),
            text.skip(1),
        )
    } else {
        same_letter(pattern[0], text[0]) && like(pattern.skip(1), text.skip(1))
    }
}

/// Whether a text matches a pattern where both end at their first NUL, as the database reads them.
pub open spec fn like_before_nul(pattern: Seq<char>, text: Seq<char>) -> bool {
    like(crate::text::before_nul(pattern), crate::text::before_nul(text))
}

/// A character as it stands for itself in a pattern.
pub open spec fn escaped_char(ch: char) -> Seq<char> {
    if ch == '\\' || ch == '%' || ch == '_' {
        seq!['\\', ch]
    } else {
        seq![ch]
    }
}

/// A text as it stands for itself in a pattern.
pub open spec fn escaped(text: Seq<char>) -> Seq<char>
    decreases text.len(),
{
    if text.len() == 0 {
        Seq::empty()
    } else {
        escaped_char(text[0]) + escaped(text.skip(1))
    }
}

/// A text as it stands for itself in a pattern.
pub fn escape_like(value: &str) -> (pattern: String)
    ensures
        pattern@ == escaped(value@),
{
    let chars = to_chars(value);
    let mut pattern = String::new();
    let mut i: usize = 0;
    assert(chars@.skip(0) =~= chars@);
    while i < chars.len()
        invariant
            i <= chars.len(),
            chars@ == value@,
            escaped(value@) == pattern@ + escaped(chars@.skip(i as int)),
        decreases chars.len() - i,
    {
        let ch: char = chars[i];
        let ghost before = pattern@;
        let ghost rest = chars@.skip(i as int);
        if ch == '\\' || ch == '%' || ch == '_' {
            pattern.push('\\');
        }
        pattern.push(ch);
        proof {
            assert(rest[0] == ch);
            assert(rest.skip(1) =~= chars@.skip(i + 1));
            assert(pattern@ =~= before + escaped_char(ch));
            assert(before + (escaped_char(ch) + escaped(rest.skip(1))) =~= pattern@ + escaped(
                rest.skip(1),
            ));
        }
        i += 1;
    }
    assert(chars@.skip(i as int) =~= Seq::<char>::empty());
    assert(pattern@ + Seq::<char>::empty() =~= pattern@);
    pattern
}

/// The pattern of a text that stands anywhere.
pub open spec fn anywhere_pattern(text: Seq<char>) -> Seq<char> {
    seq!['%'] + escaped(text) + seq!['%']
}

/// The pattern of an ending behind a dot.
pub open spec fn extension_pattern(text: Seq<char>) -> Seq<char> {
    seq!['%', '.'] + escaped(text)
}

/// The pattern of the paths below a path.
pub open spec fn below_pattern(path: Seq<char>) -> Seq<char> {
    escaped(path) + seq!['/', '%']
}

/// The pattern of a search term that stands anywhere.
pub fn term_pattern(term: &str) -> (pattern: String)
    ensures
        pattern@ == anywhere_pattern(term@),
{
    let mut pattern = String::new();
    pattern.push('%');
    pattern.append(escape_like(term).as_str());
    pattern.push('%');
    assert(pattern@ =~= anywhere_pattern(term@));
    pattern
}

/// The pattern of an ending behind a dot.
pub fn ending_pattern(ending: &str) -> (pattern: String)
    ensures
        pattern@ == extension_pattern(ending@),
{
    let mut pattern = String::new();
    pattern.push('%');
    pattern.push('.');
    pattern.append(escape_like(ending).as_str());
    assert(pattern@ =~= extension_pattern(ending@));
    pattern
}

/// The pattern of the paths below a path.
pub fn ntfs_path_prefix_pattern(path: &str) -> (pattern: String)
    ensures
        pattern@ == below_pattern(path@),
{
    let mut pattern = escape_like(path);
    pattern.push('/');
    pattern.push('%');
    assert(pattern@ =~= below_pattern(path@));
    pattern
}

/// `%` alone matches everything.
proof fn lemma_like_any(text: Seq<char>)
    ensures
        like(seq!['%'], text),
    decreases text.len(),
{
    reveal_with_fuel(like, 2);
    assert(seq!['%'].skip(1) =~= Seq::<char>::empty());
    if text.len() > 0 {
        lemma_like_any(text.skip(1));
    }
}

/// A leading `%` matches any number of leading characters.
proof fn lemma_like_leading_any(pattern: Seq<char>, text: Seq<char>)
    ensures
        like(seq!['%'] + pattern, text) <==> exists|at: int|
            0 <= at <= text.len() && like(pattern, #[trigger] text.skip(at)),
    decreases text.len(),
{
    let whole = seq!['%'] + pattern;
    assert(whole.skip(1) =~= pattern);
    assert(text.skip(0) =~= text);
    if text.len() > 0 {
        let rest = text.skip(1);
        lemma_like_leading_any(pattern, rest);
        if like(whole, rest) {
            let at = choose|at: int| 0 <= at <= rest.len() && like(pattern, #[trigger] rest.skip(at));
            assert(rest.skip(at) =~= text.skip(at + 1));
        }
        if exists|at: int| 0 <= at <= text.len() && like(pattern, #[trigger] text.skip(at)) {
            let at = choose|at: int| 0 <= at <= text.len() && like(pattern, #[trigger] text.skip(at));
            if at > 0 {
                assert(rest.skip(at - 1) =~= text.skip(at));
            }
        }
    } else {
        if exists|at: int| 0 <= at <= text.len() && like(pattern, #[trigger] text.skip(at)) {
            let at = choose|at: int| 0 <= at <= text.len() && like(pattern, #[trigger] text.skip(at));
            assert(text.skip(at) =~= text);
        }
    }
}

/// An escaped text at the front of a pattern matches that text and nothing else.
proof fn lemma_like_escaped(literal: Seq<char>, pattern: Seq<char>, text: Seq<char>)
    ensures
        like(escaped(literal) + pattern, text) <==> crate::text::starts_with(
            crate::text::fold(text),
            crate::text::fold(literal),
        ) && like(
            pattern,
            text.skip(literal.len() as int),
        ),
    decreases literal.len(),
{
    let whole = escaped(literal) + pattern;
    if literal.len() == 0 {
        assert(whole =~= pattern);
        assert(text.skip(0) =~= text);
        assert(crate::text::fold(text).subrange(0, 0) =~= crate::text::fold(literal));
    } else if text.len() == 0 {
        assert(whole[0] == escaped_char(literal[0])[0]);
    } else {
        let first = literal[0];
        let rest = literal.skip(1);
        lemma_like_escaped(rest, pattern, text.skip(1));
        if literal.len() <= text.len() {
            assert(text.skip(1).skip(rest.len() as int) =~= text.skip(literal.len() as int));
        }
        let tail = escaped(rest) + pattern;
        if escaped_char(first).len() == 2 {
            assert(whole[0] == '\\' && whole[1] == first);
            assert(whole.skip(2) =~= tail);
        } else {
            assert(whole[0] == first);
            assert(whole.skip(1) =~= tail);
        }
        assert(like(whole, text) <==> same_letter(first, text[0]) && like(
            tail,
            text.skip(1),
        ));
        lemma_starts_with_front(crate::text::fold(text), crate::text::fold(literal));
        assert(crate::text::fold(text).skip(1) =~= crate::text::fold(text.skip(1)));
        assert(crate::text::fold(literal).skip(1) =~= crate::text::fold(rest));
    }
}

/// A text begins with another where both begin with the same character and the rest does.
proof fn lemma_starts_with_front(text: Seq<char>, prefix: Seq<char>)
    requires
        text.len() > 0,
        prefix.len() > 0,
    ensures
        crate::text::starts_with(text, prefix) <==> text[0] == prefix[0] && crate::text::starts_with(
            text.skip(1),
            prefix.skip(1),
        ),
{
    if crate::text::starts_with(text, prefix) {
        assert(text.subrange(0, prefix.len() as int)[0] == text[0]);
        assert(text.skip(1).subrange(0, prefix.len() - 1) =~= text.subrange(
            0,
            prefix.len() as int,
        ).skip(1));
    }
    if text[0] == prefix[0] && crate::text::starts_with(text.skip(1), prefix.skip(1)) {
        assert forall|i: int| 0 <= i < prefix.len() implies text[i] == prefix[i] by {
            if i > 0 {
                assert(text.skip(1).subrange(0, prefix.len() - 1)[i - 1] == prefix.skip(1)[i - 1]);
            }
        }
        assert(text.subrange(0, prefix.len() as int) =~= prefix);
    }
}

/// A part stands at a position where the text from there on begins with it.
proof fn lemma_occurs_at_skip(text: Seq<char>, part: Seq<char>, at: int)
    requires
        0 <= at <= text.len(),
    ensures
        crate::text::occurs_at(text, part, at) <==> crate::text::starts_with(text.skip(at), part),
{
    if at + part.len() <= text.len() {
        assert(text.skip(at).subrange(0, part.len() as int) =~= text.subrange(at, at + part.len()));
    }
}

/// An escaped text behind `%` matches the texts that end with it.
proof fn lemma_like_ending(literal: Seq<char>, text: Seq<char>)
    ensures
        like(seq!['%'] + escaped(literal), text) <==> crate::text::ends_with(
            crate::text::fold(text),
            crate::text::fold(literal),
        ),
{
    let empty = Seq::<char>::empty();
    assert(escaped(literal) + empty =~= escaped(literal));
    lemma_like_leading_any(escaped(literal), text);
    assert forall|at: int| 0 <= at <= text.len() implies (like(
        escaped(literal),
        #[trigger] text.skip(at),
    ) <==> crate::text::occurs_at(crate::text::fold(text), crate::text::fold(literal), at) && at
        + literal.len() == text.len()) by {
        lemma_like_escaped(literal, empty, text.skip(at));
        assert(crate::text::fold(text.skip(at)) =~= crate::text::fold(text).skip(at));
        lemma_occurs_at_skip(crate::text::fold(text), crate::text::fold(literal), at);
    }
    if crate::text::ends_with(crate::text::fold(text), crate::text::fold(literal)) {
        assert(like(escaped(literal), text.skip(text.len() - literal.len())));
    }
}

/// An escaped text behind `%` and before `%` matches the texts in which it stands.
proof fn lemma_like_anywhere(literal: Seq<char>, text: Seq<char>)
    ensures
        like(anywhere_pattern(literal), text) <==> crate::text::contains(
            crate::text::fold(text),
            crate::text::fold(literal),
        ),
{
    let tail = escaped(literal) + seq!['%'];
    assert(anywhere_pattern(literal) =~= seq!['%'] + tail);
    lemma_like_leading_any(tail, text);
    assert forall|at: int| 0 <= at <= text.len() implies (like(tail, #[trigger] text.skip(at))
        <==> crate::text::occurs_at(crate::text::fold(text), crate::text::fold(literal), at)) by {
        lemma_like_escaped(literal, seq!['%'], text.skip(at));
        if literal.len() <= text.skip(at).len() {
            lemma_like_any(text.skip(at).skip(literal.len() as int));
        }
        assert(crate::text::fold(text.skip(at)) =~= crate::text::fold(text).skip(at));
        lemma_occurs_at_skip(crate::text::fold(text), crate::text::fold(literal), at);
    }
    if crate::text::contains(crate::text::fold(text), crate::text::fold(literal)) {
        let at = choose|at: int|
            crate::text::occurs_at(crate::text::fold(text), crate::text::fold(literal), at);
        assert(like(tail, text.skip(at)));
    }
}

/// What is seen of a text in which the first NUL comes later.
proof fn lemma_before_later_nul(front: Seq<char>, text: Seq<char>)
    requires
        !front.contains('\0'),
    ensures
        crate::text::before_nul(front + text) == front + crate::text::before_nul(text),
{
    let stop = crate::text::equals('\0');
    let n = crate::text::span(text, stop);
    let whole = front + text;
    crate::text::lemma_span(text, stop);
    assert forall|i: int| 0 <= i < front.len() + n implies !stop(#[trigger] whole[i]) by {
        if i < front.len() {
            assert(front.contains(front[i]));
        } else {
            assert(!stop(text[i - front.len()]));
        }
    }
    crate::text::lemma_span_is(whole, stop, front.len() + n);
    assert(whole.take((front.len() + n) as int) =~= front + text.take(n as int));
}

/// What is seen of an escaped text and a pattern behind it.
proof fn lemma_before_nul_of_escaped(literal: Seq<char>, pattern: Seq<char>)
    ensures
        crate::text::before_nul(escaped(literal) + pattern) == (if literal.contains('\0') {
            escaped(crate::text::before_nul(literal))
        } else {
            escaped(literal) + crate::text::before_nul(pattern)
        }),
    decreases literal.len(),
{
    let whole = escaped(literal) + pattern;
    let stop = crate::text::equals('\0');
    crate::text::lemma_before_nul(literal);
    if literal.len() == 0 {
        assert(whole =~= pattern);
        assert(escaped(literal) + crate::text::before_nul(pattern) =~= crate::text::before_nul(
            pattern,
        ));
    } else if literal[0] == '\0' {
        assert(whole[0] == '\0');
        assert(crate::text::before_nul(whole) =~= Seq::<char>::empty());
        assert(crate::text::before_nul(literal) =~= Seq::<char>::empty());
        assert(literal.contains('\0'));
    } else {
        let first = escaped_char(literal[0]);
        let rest = literal.skip(1);
        lemma_before_nul_of_escaped(rest, pattern);
        crate::text::lemma_before_nul(rest);
        assert(whole =~= first + (escaped(rest) + pattern));
        assert(!first.contains('\0'));
        lemma_before_later_nul(first, escaped(rest) + pattern);
        assert(literal =~= seq![literal[0]] + rest);
        assert(!seq![literal[0]].contains('\0'));
        lemma_before_later_nul(seq![literal[0]], rest);
        if rest.contains('\0') {
            let k = choose|k: int| 0 <= k < rest.len() && rest[k] == '\0';
            assert(literal[k + 1] == '\0');
        }
        if literal.contains('\0') {
            let k = choose|k: int| 0 <= k < literal.len() && literal[k] == '\0';
            assert(rest[k - 1] == '\0');
            let seen = crate::text::before_nul(literal);
            assert(seen.skip(1) =~= crate::text::before_nul(rest));
            assert(seen[0] == literal[0]);
        } else {
            assert(first + (escaped(rest) + crate::text::before_nul(pattern)) =~= escaped(literal)
                + crate::text::before_nul(pattern));
        }
    }
}

/// The pattern of a term matches the texts in which the term itself is found, whatever characters
/// it holds.
pub proof fn law_term_pattern_is_literal(term: Seq<char>, text: Seq<char>)
    ensures
        like_before_nul(anywhere_pattern(term), text) <==> crate::search::has_term(text, term),
{
    let seen = crate::text::before_nul(text);
    let any = seq!['%'];
    assert(!any.contains('\0'));
    assert(anywhere_pattern(term) =~= any + (escaped(term) + any));
    lemma_before_later_nul(any, escaped(term) + any);
    lemma_before_nul_of_escaped(term, any);
    crate::text::lemma_before_nul(any);
    if term.contains('\0') {
        lemma_like_ending(crate::text::before_nul(term), seen);
    } else {
        assert(any + (escaped(term) + any) =~= anywhere_pattern(term));
        lemma_like_anywhere(term, seen);
    }
}

/// The pattern of an ending matches the names that have it as their extension, whatever characters
/// it holds.
pub proof fn law_ending_pattern_is_literal(query: Seq<char>, text: Seq<char>)
    ensures
        like_before_nul(
            extension_pattern(crate::text::without_leading(query, '.')),
            text,
        ) <==> crate::text::ends_with(
            crate::text::fold(crate::text::before_nul(text)),
            crate::text::fold(crate::search::extension_of(query)),
        ),
{
    let ending = crate::text::without_leading(query, '.');
    let seen_ending = crate::text::before_nul(ending);
    let dotted = crate::search::extension_of(query);
    let front = seq!['%', '.'];
    let empty = Seq::<char>::empty();
    assert(dotted.skip(1) =~= seen_ending);
    assert(escaped(dotted) =~= seq!['.'] + escaped(seen_ending));
    assert(escaped(ending) + empty =~= escaped(ending));
    assert(!front.contains('\0'));
    lemma_before_later_nul(front, escaped(ending));
    lemma_before_nul_of_escaped(ending, empty);
    crate::text::lemma_before_nul(ending);
    crate::text::lemma_before_nul(empty);
    assert(crate::text::before_nul(extension_pattern(ending)) =~= seq!['%'] + escaped(dotted));
    lemma_like_ending(dotted, crate::text::before_nul(text));
}

/// The pattern of a subtree matches the paths that lie below its top, whatever other characters the
/// top holds. Paths hold no NUL.
pub proof fn law_prefix_pattern_is_literal(top: Seq<char>, path: Seq<char>)
    requires
        !top.contains('\0'),
        !path.contains('\0'),
    ensures
        like_before_nul(below_pattern(top), path) <==> crate::paths::below(path, top),
{
    let slashed = top.push('/');
    let behind = seq!['/', '%'];
    assert(!behind.contains('\0'));
    lemma_before_nul_of_escaped(top, behind);
    crate::text::lemma_before_nul(behind);
    crate::text::lemma_before_nul(path);
    lemma_like_escaped(top, seq!['/', '%'], path);
    let rest = path.skip(top.len() as int);
    if top.len() <= path.len() {
        assert(seq!['/', '%'].skip(1) =~= seq!['%']);
        if rest.len() > 0 {
            lemma_like_any(rest.skip(1));
        }
        assert(like(seq!['/', '%'], rest) <==> rest.len() > 0 && same_letter(
            '/',
            rest[0],
        ));
    }
    let p = crate::text::fold(path);
    let t = crate::text::fold(top);
    let s = crate::text::fold(slashed);
    assert(s =~= t.push('/'));
    if crate::text::starts_with(p, s) {
        assert forall|i: int| 0 <= i < t.len() implies p[i] == t[i] by {
            assert(p.subrange(0, s.len() as int)[i] == s[i]);
        }
        assert(p.subrange(0, t.len() as int) =~= t);
        assert(p.subrange(0, s.len() as int)[t.len() as int] == '/');
        assert(p[t.len() as int] == '/');
    }
    if crate::text::starts_with(p, t) && rest.len() > 0 && crate::text::ascii_lower(rest[0]) == '/' {
        assert(p[t.len() as int] == '/');
        assert forall|i: int| 0 <= i < s.len() implies p[i] == s[i] by {
            if i < t.len() {
                assert(p.subrange(0, t.len() as int)[i] == t[i]);
            }
        }
        assert(p.subrange(0, s.len() as int) =~= s);
    }
}

/// A percent sign stands for any text and an underscore for any one character; every other
/// character stands for itself, ASCII case aside, and each of the three special ones does behind a
/// backslash.
pub proof fn law_what_patterns_stand_for(text: Seq<char>, ch: char, other: char)
    ensures
        like(seq!['%'], text),
        like(seq!['_'], text) <==> text.len() == 1,
        ch != '%' && ch != '_' && ch != '\\' ==> (like(seq![ch], seq![other])
            <==> crate::text::ascii_lower(ch) == crate::text::ascii_lower(other)),
        like(seq!['\\', ch], seq![other]) <==> crate::text::ascii_lower(ch)
            == crate::text::ascii_lower(other),
        like(Seq::empty(), text) <==> text.len() == 0,
        escaped(seq!['%']) == seq!['\\', '%'],
        escaped(seq!['_']) == seq!['\\', '_'],
        escaped(seq!['\\']) == seq!['\\', '\\'],
        ch != '%' && ch != '_' && ch != '\\' ==> escaped(seq![ch]) == seq![ch],
        escaped(seq![ch] + text) == escaped(seq![ch]) + escaped(text),
{
    lemma_like_any(text);
    let none = Seq::<char>::empty();
    assert(seq!['_'].skip(1) =~= none);
    assert(seq![ch].skip(1) =~= none);
    assert(seq![other].skip(1) =~= none);
    assert(seq!['\\', ch].skip(2) =~= none);
    assert(like(none, none));
    if text.len() > 0 {
        assert(like(none, text.skip(1)) <==> text.len() == 1);
    }
    assert(like(seq!['\\', ch], seq![other]) == (crate::text::ascii_lower(ch)
        == crate::text::ascii_lower(other)));
    assert forall|one: char| #[trigger] escaped(seq![one]) == escaped_char(one) by {
        assert(seq![one].skip(1) =~= none);
        assert(escaped(none) =~= none);
        assert(escaped_char(one) + none =~= escaped_char(one));
    }
    assert((seq![ch] + text).skip(1) =~= text);
}

} // verus!
