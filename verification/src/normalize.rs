//! The form of names and queries in which they are compared.
use crate::text::to_chars;
use unicode_normalization::UnicodeNormalization;
use vstd::prelude::*;

verus! {

/// The canonical composition of a text, as `UnicodeNormalization::nfc` computes it.
pub uninterp spec fn nfc_text(text: Seq<char>) -> Seq<char>;

/// The lower-case mapping of a character, as `char::to_lowercase` computes it.
pub uninterp spec fn lowercase_of(ch: char) -> Seq<char>;

/// Calls `UnicodeNormalization::nfc`. What is claimed is that the characters of its result depend
/// on those of the text alone, and that a text of ASCII characters is its own composition.
#[verifier::external_body]
fn nfc(text: &str) -> (result: String)
    ensures
        result@ == nfc_text(text@),
        crate::text::ascii(text@) ==> result@ == text@,
{
    text.nfc().collect()
}

/// Calls `char::to_lowercase`. What is claimed is that the characters it yields depend on the
/// given one alone, that there is at least one, and that an ASCII character yields the one that it
/// is in lower case.
#[verifier::external_body]
fn lowercase(ch: char) -> (result: Vec<char>)
    ensures
        result@ == lowercase_of(ch),
        result@.len() >= 1,
        (ch as u32) < 128 ==> result@ == seq![crate::text::ascii_lower(ch)],
{
    ch.to_lowercase().collect()
}

/// A composed text with every character in lower case.
pub open spec fn lowered(text: Seq<char>) -> Seq<char>
    decreases text.len(),
{
    if text.len() == 0 {
        Seq::empty()
    } else {
        lowered(text.drop_last()) + lowercase_of(text.last())
    }
}

/// A text in the form in which names and queries are compared.
pub open spec fn normalized(text: Seq<char>) -> Seq<char> {
    lowered(nfc_text(text))
}

/// A composed text with every character in lower case.
pub fn lower(text: &str) -> (result: String)
    ensures
        result@ == lowered(text@),
        crate::text::ascii(text@) ==> result@ == crate::text::fold(text@),
{
    let chars = to_chars(text);
    let mut result = String::new();
    let mut i: usize = 0;
    while i < chars.len()
        invariant
            i <= chars.len(),
            chars@ == text@,
            result@ == lowered(text@.take(i as int)),
            crate::text::ascii(text@) ==> result@ == crate::text::fold(text@).take(i as int),
        decreases chars.len() - i,
    {
        let mapped = lowercase(chars[i]);
        let ghost before = result@;
        let mut k: usize = 0;
        while k < mapped.len()
            invariant
                k <= mapped.len(),
                result@ == before + mapped@.take(k as int),
            decreases mapped.len() - k,
        {
            result.push(mapped[k]);
            assert(before + mapped@.take(k + 1) =~= (before + mapped@.take(k as int)).push(
                mapped@[k as int],
            ));
            k += 1;
        }
        assert(mapped@.take(k as int) =~= mapped@);
        assert(text@.take(i + 1).drop_last() =~= text@.take(i as int));
        proof {
            if crate::text::ascii(text@) {
                let folded = crate::text::fold(text@);
                assert((text@[i as int] as u32) < 128);
                assert(folded.take(i + 1) =~= folded.take(i as int) + seq![folded[i as int]]);
            }
        }
        i += 1;
    }
    assert(text@.take(i as int) =~= text@);
    assert(crate::text::fold(text@).take(i as int) =~= crate::text::fold(text@));
    result
}

/// A text in the form in which names and queries are compared. For ASCII characters that is the
/// text in lower case.
pub fn normalize_for_search(value: &str) -> (result: String)
    ensures
        result@ == normalized(value@),
        crate::text::ascii(value@) ==> result@ == crate::text::fold(value@),
{
    lower(nfc(value).as_str())
}

/// Case is taken from a text character by character, and texts that are composed alike are
/// normalized alike.
pub proof fn law_composed_text_is_lowered_by_characters(a: Seq<char>, b: Seq<char>, ch: char)
    ensures
        lowered(a + b) == lowered(a) + lowered(b),
        lowered(seq![ch]) == lowercase_of(ch),
        lowered(Seq::empty()) == Seq::<char>::empty(),
        nfc_text(a) == nfc_text(b) ==> normalized(a) == normalized(b),
        nfc_text(a) == a ==> normalized(a) == lowered(a),
    decreases b.len(),
{
    assert(seq![ch].drop_last() =~= Seq::<char>::empty());
    assert(lowered(Seq::empty()) =~= Seq::<char>::empty());
    assert(lowered(seq![ch]) =~= lowercase_of(ch));
    if b.len() == 0 {
        assert(a + b =~= a);
        assert(lowered(a) + lowered(b) =~= lowered(a));
    } else {
        law_composed_text_is_lowered_by_characters(a, b.drop_last(), ch);
        assert((a + b).drop_last() =~= a + b.drop_last());
        assert(lowered(a + b) =~= lowered(a) + lowered(b));
    }
}

} // verus!
