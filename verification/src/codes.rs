//! Referral codes: up to 32 characters of `[a-z0-9_-]`, whatever their case.

use crate::constants::MAX_CODE_LEN;
use crate::error::{ContractError, ErrorView};
use vstd::prelude::*;
use vstd::string::*;
use vstd::utf8::encode_utf8;

verus! {

/// The characters of a referral code, in either case.
pub open spec fn code_char(c: char) -> bool {
    ('a' <= c && c <= 'z') || ('A' <= c && c <= 'Z') || ('0' <= c && c <= '9') || c == '_' || c
        == '-'
}

/// Text that consists of code characters alone.
pub open spec fn code_text(text: Seq<char>) -> bool {
    forall|i: int| 0 <= i < text.len() ==> code_char(#[trigger] text[i])
}

/// A code character in lower case.
pub open spec fn lower_char(c: char) -> char {
    if 'A' <= c && c <= 'Z' {
        (c as u32 + 32) as char
    } else {
        c
    }
}

/// Code text in lower case.
pub open spec fn lower_text(text: Seq<char>) -> Seq<char> {
    Seq::new(text.len(), |i: int| lower_char(text[i]))
}

/// The characters with the Unicode property White_Space.
pub open spec fn white_space(c: char) -> bool {
    ('\u{9}' <= c && c <= '\u{d}') || c == '\u{20}' || c == '\u{85}' || c == '\u{a0}' || c
        == '\u{1680}' || ('\u{2000}' <= c && c <= '\u{200a}') || c == '\u{2028}' || c == '\u{2029}'
        || c == '\u{202f}' || c == '\u{205f}' || c == '\u{3000}'
}

/// Text without leading and trailing white space.
pub open spec fn trimmed(text: Seq<char>) -> Seq<char>
    decreases text.len(),
{
    if text.len() == 0 {
        text
    } else if white_space(text[0]) {
        trimmed(text.drop_first())
    } else if white_space(text.last()) {
        trimmed(text.drop_last())
    } else {
        text
    }
}

/// Text in lower case, as `str::to_lowercase` gives it.
pub uninterp spec fn lowercased(text: Seq<char>) -> Seq<char>;

/// Removes leading and trailing white space.
///
/// Calls `str::trim`, which drops the characters with the Unicode property
/// White_Space at both ends.
#[verifier::external_body]
fn trim(text: &str) -> (result: &str)
    ensures
        result@ == trimmed(text@),
{
    text.trim()
}

/// Turns text into lower case.
///
/// Calls `str::to_lowercase`. Its result is a function of the text alone and holds
/// no capital letter of ASCII, and in text that consists of code characters it
/// replaces each capital letter by the small one. What it does to other characters
/// is not said.
#[verifier::external_body]
fn to_lowercase(text: &str) -> (result: String)
    ensures
        result@ == lowercased(text@),
        forall|i: int|
            0 <= i < result@.len() ==> !('A' <= #[trigger] result@[i] && result@[i] <= 'Z'),
        code_text(text@) ==> result@ == lower_text(text@),
{
    text.to_lowercase()
}

/// The form under which a referral code is registered and looked up.
pub open spec fn normalized(code: Seq<char>) -> Seq<char> {
    lowercased(trimmed(code))
}

/// Brings a referral code into the form under which it is registered, so that
/// white space around it and the case of its letters do not matter.
pub fn normalize_code(code: &str) -> (result: String)
    ensures
        result@ == normalized(code@),
        forall|i: int|
            0 <= i < result@.len() ==> !('A' <= #[trigger] result@[i] && result@[i] <= 'Z'),
        code_text(trimmed(code@)) ==> result@ == lower_text(trimmed(code@)),
        code_text(code@) ==> result@ == lower_text(code@),
{
    proof {
        lemma_code_text_is_trimmed(code@);
    }
    to_lowercase(trim(code))
}

proof fn lemma_code_text_is_trimmed(text: Seq<char>)
    ensures
        code_text(text) ==> trimmed(text) == text,
{
    if code_text(text) && text.len() > 0 {
        assert(code_char(text[0]));
        assert(code_char(text[text.len() - 1]));
    }
}

/// White space around a code does not matter: neither to its normal form nor, by
/// that, to anything that goes by the normal form.
pub proof fn law_white_space_does_not_matter(before: Seq<char>, code: Seq<char>, after: Seq<char>)
    requires
        forall|i: int| 0 <= i < before.len() ==> white_space(#[trigger] before[i]),
        forall|i: int| 0 <= i < after.len() ==> white_space(#[trigger] after[i]),
    ensures
        normalized(before + code + after) == normalized(code),
{
    lemma_trimmed_around(before, code, after);
}

proof fn lemma_trimmed_around(before: Seq<char>, code: Seq<char>, after: Seq<char>)
    requires
        forall|i: int| 0 <= i < before.len() ==> white_space(#[trigger] before[i]),
        forall|i: int| 0 <= i < after.len() ==> white_space(#[trigger] after[i]),
    ensures
        trimmed(before + code + after) == trimmed(code),
    decreases before.len() + code.len() + after.len(),
{
    let whole = before + code + after;
    if before.len() > 0 {
        assert(whole[0] == before[0]);
        assert(whole.drop_first() =~= before.drop_first() + code + after);
        lemma_trimmed_around(before.drop_first(), code, after);
    } else if after.len() == 0 {
        assert(whole =~= code);
    } else if code.len() > 0 && white_space(code[0]) {
        assert(whole[0] == code[0]);
        assert(whole.drop_first() =~= before + code.drop_first() + after);
        lemma_trimmed_around(before, code.drop_first(), after);
    } else {
        assert(whole.last() == after.last());
        assert(white_space(after[after.len() - 1]));
        assert(whole.drop_last() =~= before + code + after.drop_last());
        lemma_trimmed_around(before, code, after.drop_last());
        if code.len() == 0 {
            assert(whole =~= after);
            lemma_all_white(after);
            assert(trimmed(code) =~= Seq::<char>::empty());
        }
    }
}

proof fn lemma_all_white(text: Seq<char>)
    requires
        forall|i: int| 0 <= i < text.len() ==> white_space(#[trigger] text[i]),
    ensures
        trimmed(text) == Seq::<char>::empty(),
    decreases text.len(),
{
    if text.len() > 0 {
        assert(white_space(text[0]));
        lemma_all_white(text.drop_first());
    } else {
        assert(text =~= Seq::<char>::empty());
    }
}

/// The characters of a code in its normal form: `[a-z0-9_-]`.
pub open spec fn normal_char(c: char) -> bool {
    ('a' <= c && c <= 'z') || ('0' <= c && c <= '9') || c == '_' || c == '-'
}

/// Text that consists of such characters alone.
pub open spec fn normal_text(text: Seq<char>) -> bool {
    forall|i: int| 0 <= i < text.len() ==> normal_char(#[trigger] text[i])
}

/// Why a code in its normal form is refused.
pub open spec fn normal_code_refusal(code: Seq<char>) -> Option<ErrorView> {
    if code.len() == 0 || encode_utf8(code).len() > MAX_CODE_LEN {
        Some(ContractError::InvalidConfig { reason: "code length must be 1..=32"@ })
    } else if !normal_text(code) {
        Some(ContractError::InvalidConfig { reason: "code may only contain [a-z0-9_-]"@ })
    } else {
        None
    }
}

fn is_normal_char(c: char) -> (yes: bool)
    ensures
        yes == normal_char(c),
{
    ('a' <= c && c <= 'z') || ('0' <= c && c <= '9') || c == '_' || c == '-'
}

/// Checks a code that is in its normal form.
pub fn check_normal_code(code: &str) -> (result: Result<(), ContractError>)
    ensures
        match normal_code_refusal(code@) {
            Some(e) => result matches Err(error) && error@ == e,
            None => result is Ok,
        },
{
    if code.is_empty() || code.as_bytes().len() > MAX_CODE_LEN {
        return Err(ContractError::invalid_config("code length must be 1..=32"));
    }
    let len: usize = code.unicode_len();
    let mut i: usize = 0;
    while i < len
        invariant
            len == code@.len(),
            i <= len,
            forall|j: int| 0 <= j < i ==> normal_char(#[trigger] code@[j]),
            code@.len() > 0,
            encode_utf8(code@).len() <= MAX_CODE_LEN,
        decreases len - i,
    {
        if !is_normal_char(code.get_char(i)) {
            assert(!normal_char(code@[i as int]));
            return Err(ContractError::invalid_config("code may only contain [a-z0-9_-]"));
        }
        i = i + 1;
    }
    Ok(())
}

/// Checks a referral code: after normalization it has 1 to 32 characters of
/// `[a-z0-9_-]`.
pub fn validate_code(code: &str) -> (result: Result<(), ContractError>)
    ensures
        match normal_code_refusal(normalized(code@)) {
            Some(e) => result matches Err(error) && error@ == e,
            None => result is Ok,
        },
{
    let normal = normalize_code(code);
    check_normal_code(normal.as_str())
}

/// Trimming drops white space at both ends and nothing else: what is dropped is white
/// space, and what is left does not start or end with any.
pub proof fn law_trimming_drops_white_space_alone(text: Seq<char>) -> (ends: (
    Seq<char>,
    Seq<char>,
))
    ensures
        text == ends.0 + trimmed(text) + ends.1,
        forall|i: int| 0 <= i < ends.0.len() ==> white_space(#[trigger] ends.0[i]),
        forall|i: int| 0 <= i < ends.1.len() ==> white_space(#[trigger] ends.1[i]),
        trimmed(text).len() > 0 ==> !white_space(trimmed(text)[0]) && !white_space(
            trimmed(text).last(),
        ),
    decreases text.len(),
{
    let none = Seq::<char>::empty();
    if text.len() == 0 {
        assert(text =~= none + trimmed(text) + none);
        (none, none)
    } else if white_space(text[0]) {
        let (a, b) = law_trimming_drops_white_space_alone(text.drop_first());
        let front = seq![text[0]] + a;
        assert(text =~= seq![text[0]] + text.drop_first());
        assert(text =~= front + trimmed(text) + b);
        assert forall|i: int| 0 <= i < front.len() implies white_space(#[trigger] front[i]) by {
            if i > 0 {
                assert(front[i] == a[i - 1]);
            }
        }
        (front, b)
    } else if white_space(text.last()) {
        let (a, b) = law_trimming_drops_white_space_alone(text.drop_last());
        let back = b.push(text.last());
        assert(text =~= text.drop_last().push(text.last()));
        assert(text =~= a + trimmed(text) + back);
        (a, back)
    } else {
        assert(text =~= none + trimmed(text) + none);
        (none, none)
    }
}

} // verus!
