//! Invariant casing inside SQL: what the casing functions do with an argument,
//! and how they are registered on a connection.
//!
//! None of the names is a built-in function of SQLite: indexes that other
//! builds wrote keep their meaning.

use vstd::prelude::*;

use crate::outside;

verus! {

/// What is to be done with the argument of a casing function.
#[derive(Debug, Clone, Copy, PartialEq, Eq, Structural)]
pub enum Argument {
    /// It is NULL, and so is the result.
    Null,
    /// Its text could not be had: out of memory.
    OutOfMemory,
    /// Its length makes no sense: [`INVALID_LENGTH`].
    InvalidLength,
    /// It is a text of this many bytes.
    Text(usize),
}

pub const INVALID_LENGTH: &'static str = "invalid text length";

pub const INVALID_TEXT: &'static str = "invalid UTF-8 in casing input";

pub const CASING_FAILED: &'static str = "Unicode casing failed";

/// What is to be done with an argument, by whether it is NULL, whether there is
/// a text, and how many bytes that is said to have.
pub open spec fn spec_argument(is_null: bool, has_text: bool, length: i32) -> Argument {
    if is_null {
        Argument::Null
    } else if !has_text {
        Argument::OutOfMemory
    } else if length < 0 {
        Argument::InvalidLength
    } else {
        Argument::Text(length as usize)
    }
}

/// Executable [`spec_argument`].
pub fn argument(is_null: bool, has_text: bool, length: i32) -> (argument: Argument)
    ensures
        argument == spec_argument(is_null, has_text, length),
{
    if is_null {
        Argument::Null
    } else if !has_text {
        Argument::OutOfMemory
    } else if length < 0 {
        Argument::InvalidLength
    } else {
        Argument::Text(length as usize)
    }
}

/// What a casing function answers.
#[derive(Debug)]
pub enum Outcome {
    /// A text of `length` bytes.
    Text { text: String, length: i32 },
    /// The text is too long for a result.
    TooBig,
    /// The mapping failed: [`CASING_FAILED`].
    Failed,
}

/// The text of an argument; where its bytes are no text, an error with
/// [`INVALID_TEXT`] rather than a replacement.
pub fn casing_input(bytes: &[u8]) -> (input: Result<String, &'static str>)
    ensures
        match input {
            Ok(text) => vstd::utf8::valid_utf8(bytes@) && text@ == vstd::utf8::decode_utf8(bytes@),
            Err(message) => !vstd::utf8::valid_utf8(bytes@) && message@ == INVALID_TEXT@,
        },
{
    match outside::text_of_bytes(bytes) {
        Some(text) => Ok(text),
        None => Err(INVALID_TEXT),
    }
}

/// The answer from what a mapping made of the text: the whole of it with its
/// explicit length, embedded NULs and all, unless the length is no `i32`; and
/// an error where the mapping failed.
pub open spec fn spec_casing_result(output: Option<String>) -> Outcome {
    match output {
        None => Outcome::Failed,
        Some(mapped) => {
            let size = vstd::utf8::encode_utf8(mapped@).len();
            if size > i32::MAX {
                Outcome::TooBig
            } else {
                Outcome::Text { text: mapped, length: size as i32 }
            }
        },
    }
}

/// Executable [`spec_casing_result`].
pub fn casing_result(output: Option<String>) -> (outcome: Outcome)
    ensures
        outcome == spec_casing_result(output),
{
    match output {
        None => Outcome::Failed,
        Some(mapped) => {
            let size: usize = mapped.as_str().as_bytes().len();
            if size > i32::MAX as usize {
                Outcome::TooBig
            } else {
                Outcome::Text { text: mapped, length: size as i32 }
            }
        },
    }
}

/// The mappings that are registered.
#[derive(Debug, Clone, Copy, PartialEq, Eq, Structural)]
pub enum Mapping {
    Sort,
    PreviousSort,
    ForcedSort,
    PreviousForcedSort,
    Lower,
    Upper,
    Clean,
    PreviousClean,
}

impl Mapping {
    /// The name of the SQL function.
    pub open spec fn spec_name(self) -> Seq<char> {
        match self {
            Mapping::Sort => "ferrofin_sort_name"@,
            Mapping::PreviousSort => "ferrofin_previous_sort_name"@,
            Mapping::ForcedSort => "ferrofin_forced_sort_key"@,
            Mapping::PreviousForcedSort => "ferrofin_previous_forced_sort_key"@,
            Mapping::Lower => "ferrofin_lower_invariant"@,
            Mapping::Upper => "ferrofin_upper_invariant"@,
            Mapping::Clean => "ferrofin_clean_value"@,
            Mapping::PreviousClean => "ferrofin_previous_clean_value"@,
        }
    }

    /// Executable [`Mapping::spec_name`].
    pub fn name(self) -> (name: &'static str)
        ensures
            name@ == self.spec_name(),
    {
        match self {
            Mapping::Sort => "ferrofin_sort_name",
            Mapping::PreviousSort => "ferrofin_previous_sort_name",
            Mapping::ForcedSort => "ferrofin_forced_sort_key",
            Mapping::PreviousForcedSort => "ferrofin_previous_forced_sort_key",
            Mapping::Lower => "ferrofin_lower_invariant",
            Mapping::Upper => "ferrofin_upper_invariant",
            Mapping::Clean => "ferrofin_clean_value",
            Mapping::PreviousClean => "ferrofin_previous_clean_value",
        }
    }

    /// The mapping that is registered behind this one.
    pub open spec fn spec_next(self) -> Option<Mapping> {
        match self {
            Mapping::Sort => Some(Mapping::PreviousSort),
            Mapping::PreviousSort => Some(Mapping::ForcedSort),
            Mapping::ForcedSort => Some(Mapping::PreviousForcedSort),
            Mapping::PreviousForcedSort => Some(Mapping::Lower),
            Mapping::Lower => Some(Mapping::Upper),
            Mapping::Upper => Some(Mapping::Clean),
            Mapping::Clean => Some(Mapping::PreviousClean),
            Mapping::PreviousClean => None,
        }
    }
}

/// The result code of SQLite for success.
pub const SQLITE_OK: i32 = 0;

/// What the registration of the functions does next.
#[derive(Debug, Clone, Copy, PartialEq, Eq, Structural)]
pub enum Registration {
    /// Register this mapping, as a deterministic function of one UTF-8 argument
    /// that only a statement itself may call.
    Register(Mapping),
    /// Return this result code.
    Return(i32),
}

/// The first step of the registration.
pub fn register_first() -> (step: Registration)
    ensures
        step == Registration::Register(Mapping::Sort),
{
    Registration::Register(Mapping::Sort)
}

/// What follows the registration of a mapping with this result code: the next
/// mapping, or the end, at the first failure or once all are registered.
pub open spec fn spec_register_next(registered: Mapping, code: i32) -> Registration {
    if code != SQLITE_OK {
        Registration::Return(code)
    } else {
        match registered.spec_next() {
            Some(mapping) => Registration::Register(mapping),
            None => Registration::Return(SQLITE_OK),
        }
    }
}

/// Executable [`spec_register_next`].
pub fn register_next(registered: Mapping, code: i32) -> (step: Registration)
    ensures
        step == spec_register_next(registered, code),
{
    if code != SQLITE_OK {
        return Registration::Return(code);
    }
    match registered {
        Mapping::Sort => Registration::Register(Mapping::PreviousSort),
        Mapping::PreviousSort => Registration::Register(Mapping::ForcedSort),
        Mapping::ForcedSort => Registration::Register(Mapping::PreviousForcedSort),
        Mapping::PreviousForcedSort => Registration::Register(Mapping::Lower),
        Mapping::Lower => Registration::Register(Mapping::Upper),
        Mapping::Upper => Registration::Register(Mapping::Clean),
        Mapping::Clean => Registration::Register(Mapping::PreviousClean),
        Mapping::PreviousClean => Registration::Return(SQLITE_OK),
    }
}

/// A NULL stays one whatever else is said of the argument; of any other the text
/// has to be there and its length to be none below zero, and then all of it is
/// taken.
pub proof fn law_argument_is_taken_whole(has_text: bool, length: i32)
    ensures
        spec_argument(true, has_text, length) is Null,
        spec_argument(false, false, length) is OutOfMemory,
        spec_argument(false, true, length) is InvalidLength <==> length < 0,
        length >= 0 ==> spec_argument(false, true, length) == Argument::Text(length as usize),
{
}

/// A mapped text is answered whole, with the number of its bytes, just where an
/// `i32` holds that number; nothing else is said to be too big, and only a
/// mapping that failed is said to have failed.
pub proof fn law_answer_is_the_whole_text(mapped: String)
    ensures
        ({
            let size = vstd::utf8::encode_utf8(mapped@).len();
            let outcome = spec_casing_result(Some(mapped));
            &&& size <= 0x7fff_ffff <==> outcome is Text
            &&& size > 0x7fff_ffff <==> outcome is TooBig
            &&& outcome matches Outcome::Text { text, length } ==> text == mapped && length == size
        }),
        spec_casing_result(None) is Failed,
{
}

impl Mapping {
    /// How many mappings are registered before this one.
    pub open spec fn place(self) -> int {
        match self {
            Mapping::Sort => 0,
            Mapping::PreviousSort => 1,
            Mapping::ForcedSort => 2,
            Mapping::PreviousForcedSort => 3,
            Mapping::Lower => 4,
            Mapping::Upper => 5,
            Mapping::Clean => 6,
            Mapping::PreviousClean => 7,
        }
    }
}

/// Every mapping is registered once, one behind the other, as long as each
/// registration succeeds; the first failure is what is returned.
pub proof fn law_every_mapping_is_registered_once(registered: Mapping, code: i32)
    ensures
        code != 0 ==> spec_register_next(registered, code) == Registration::Return(code),
        match spec_register_next(registered, 0) {
            Registration::Register(mapping) => mapping.place() == registered.place() + 1,
            Registration::Return(result) => registered.place() == 7 && result == 0,
        },
{
}

/// The functions are told apart by their names, and none is named like one of
/// SQLite's own, which know no such prefix.
pub proof fn law_functions_are_told_apart(a: Mapping, b: Mapping)
    ensures
        a.spec_name() == b.spec_name() <==> a == b,
        "ferrofin_"@.is_prefix_of(a.spec_name()),
{
    reveal_strlit("ferrofin_");
    reveal_strlit("ferrofin_sort_name");
    reveal_strlit("ferrofin_previous_sort_name");
    reveal_strlit("ferrofin_forced_sort_key");
    reveal_strlit("ferrofin_previous_forced_sort_key");
    reveal_strlit("ferrofin_lower_invariant");
    reveal_strlit("ferrofin_upper_invariant");
    reveal_strlit("ferrofin_clean_value");
    reveal_strlit("ferrofin_previous_clean_value");
    assert("ferrofin_lower_invariant"@[9] == 'l');
    assert("ferrofin_upper_invariant"@[9] == 'u');
    assert("ferrofin_forced_sort_key"@[9] == 'f');
    assert("ferrofin_sort_name"@.len() == 18);
    assert("ferrofin_clean_value"@.len() == 20);
    assert("ferrofin_previous_sort_name"@.len() == 27);
    assert("ferrofin_previous_clean_value"@.len() == 29);
    assert("ferrofin_previous_forced_sort_key"@.len() == 33);
}

} // verus!
