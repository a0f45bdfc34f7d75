//! Invariant casing: one character at a time, without context or locale.

use vstd::prelude::*;

use crate::text;

verus! {

/// The lower-case mapping of one character, which may be several characters.
pub uninterp spec fn char_lowercase(c: char) -> Seq<char>;

/// Calls `char::to_lowercase` and collects what it yields. The result is the
/// Unicode lower-case mapping of `c`, named [`char_lowercase`]; of an ASCII
/// character it is the one character with `A` to `Z` in lower case.
#[verifier::external_body]
fn lowercase_of_char(c: char) -> (mapped: Vec<char>)
    ensures
        mapped@ == char_lowercase(c),
        (c as int) < 128 ==> mapped@ == seq![text::lower_char(c)],
{
    c.to_lowercase().collect()
}

/// The lower-case form of a whole text, sensitive to context.
pub uninterp spec fn text_lowercase(text: Seq<char>) -> Seq<char>;

/// Whether a text holds ASCII characters only.
pub open spec fn is_ascii_text(text: Seq<char>) -> bool {
    forall|i: int| 0 <= i < text.len() ==> (#[trigger] text[i] as int) < 128
}

/// Whether `lower` is as long as `text`, and has its ASCII characters in lower
/// case at their places.
pub open spec fn lowers_ascii(text: Seq<char>, lower: Seq<char>) -> bool {
    &&& lower.len() == text.len()
    &&& forall|i: int|
        0 <= i < text.len() && (#[trigger] text[i] as int) < 128 ==> lower[i] == text::lower_char(
            text[i],
        )
}

/// Calls `str::to_lowercase`. The result is the full, contextual Unicode lower
/// case of the text, named [`text_lowercase`]; of an ASCII text it is the text
/// with `A` to `Z` in lower case.
#[verifier::external_body]
pub(crate) fn lowercase_of_text(text: &str) -> (lower: String)
    ensures
        lower@ == text_lowercase(text@),
        is_ascii_text(text@) ==> lowers_ascii(text@, lower@),
{
    text.to_lowercase()
}

/// `c` in invariant lower case: its lower-case mapping where that is a single
/// character, else `c` itself (so a dotted capital I stays as it is).
pub open spec fn lower_invariant_char(c: char) -> char {
    if char_lowercase(c).len() == 1 {
        char_lowercase(c)[0]
    } else {
        c
    }
}

/// `text` in invariant lower case, character by character.
pub open spec fn invariant_lower(text: Seq<char>) -> Seq<char> {
    Seq::new(text.len(), |i: int| lower_invariant_char(text[i]))
}

/// Lower-cases each character on its own: no diacritic folding, no trimming,
/// no contextual forms, no change of length. ASCII letters are lower-cased as
/// such.
pub fn lower_invariant(value: &str) -> (lower: String)
    ensures
        lower@ == invariant_lower(value@),
        lowers_ascii(value@, lower@),
{
    let chars: Vec<char> = text::chars_of(value);
    let mut lower: String = String::new();
    for i in 0..chars.len()
        invariant
            chars@ == value@,
            lower@ == invariant_lower(value@).take(i as int),
            forall|j: int|
                0 <= j < i && (#[trigger] value@[j] as int) < 128 ==> lower@[j]
                    == text::lower_char(value@[j]),
    {
        let mapped: Vec<char> = lowercase_of_char(chars[i]);
        let c: char = if mapped.len() == 1 {
            mapped[0]
        } else {
            chars[i]
        };
        lower.push(c);
        assert(invariant_lower(value@).take(i + 1) =~= invariant_lower(value@).take(i as int).push(
            lower_invariant_char(value@[i as int]),
        ));
    }
    assert(invariant_lower(value@).take(value@.len() as int) =~= invariant_lower(value@));
    lower
}

/// The clean key as it was derived from a name before keys became invariant:
/// a blank name as it is, else the name, stripped of diacritics by the caller,
/// in full lower case.
pub open spec fn previous_clean(value: Seq<char>, stripped: Seq<char>) -> Seq<char> {
    if text::is_blank(value) {
        value
    } else {
        text_lowercase(stripped)
    }
}

/// Executable [`previous_clean`]; `stripped` is `value` without diacritics.
pub fn previous_clean_value(value: &str, stripped: &str) -> (clean: String)
    ensures
        clean@ == previous_clean(value@, stripped@),
        !text::is_blank(value@) && is_ascii_text(stripped@) ==> lowers_ascii(stripped@, clean@),
{
    if text::blank(value) {
        value.to_owned()
    } else {
        lowercase_of_text(stripped)
    }
}

/// Invariant casing keeps the length of a text, and treats every character
/// alike wherever it stands: the case of a concatenation is the concatenation
/// of the cases.
pub proof fn law_invariant_lower_has_no_context(a: Seq<char>, b: Seq<char>)
    ensures
        invariant_lower(a).len() == a.len(),
        invariant_lower(a + b) == invariant_lower(a) + invariant_lower(b),
{
    assert(invariant_lower(a + b) =~= invariant_lower(a) + invariant_lower(b));
}

/// Texts that differ in the case of ASCII letters only are the same in
/// invariant lower case.
pub proof fn lemma_ascii_case_is_lost(a: Seq<char>, b: Seq<char>)
    requires
        text::same_ignoring_case(a, b),
        lowers_ascii(a, invariant_lower(a)),
        lowers_ascii(b, invariant_lower(b)),
    ensures
        invariant_lower(a) == invariant_lower(b),
{
    assert forall|i: int| 0 <= i < a.len() implies #[trigger] invariant_lower(a)[i]
        == invariant_lower(b)[i] by {
        assert(text::lower_char(a[i]) == text::lower_char(b[i]));
        if (a[i] as int) < 128 && (b[i] as int) < 128 {
            assert(invariant_lower(a)[i] == text::lower_char(a[i]));
            assert(invariant_lower(b)[i] == text::lower_char(b[i]));
        } else {
            assert(a[i] == b[i]);
        }
    }
    assert(invariant_lower(a) =~= invariant_lower(b));
}

/// A character is lower-cased where its lower case is a single character, and
/// stays as it is where it is not.
pub proof fn law_only_single_characters_are_lowered(text: Seq<char>, i: int)
    requires
        0 <= i < text.len(),
    ensures
        char_lowercase(text[i]).len() == 1 ==> seq![invariant_lower(text)[i]] == char_lowercase(text[i]),
        char_lowercase(text[i]).len() != 1 ==> invariant_lower(text)[i] == text[i],
{
    if char_lowercase(text[i]).len() == 1 {
        assert(seq![invariant_lower(text)[i]] =~= char_lowercase(text[i]));
    }
}

/// A blank name is its own clean key; any other has the lower case of its
/// stripped form, whatever it was before that.
pub proof fn law_blank_name_is_its_own_key(value: Seq<char>, other: Seq<char>, stripped: Seq<char>)
    ensures
        text::is_blank(value) ==> previous_clean(value, stripped) == value,
        !text::is_blank(value) ==> previous_clean(value, stripped) == text_lowercase(stripped),
        !text::is_blank(value) && !text::is_blank(other) ==> previous_clean(value, stripped)
            == previous_clean(other, stripped),
{
}

} // verus!
