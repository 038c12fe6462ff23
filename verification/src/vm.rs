//! Reading the texts of the virtual machine: programs, identifiers, and values.
use snarkvm::prelude::{Identifier, PrivateKey, Program, ProgramID, TestnetV0, Value};
use std::str::FromStr;
use vstd::prelude::*;

use crate::literals::{is_readable_program, literals_fit};
use crate::text::{optional_text, result_text};

verus! {

/// A function of a program.
#[derive(Clone, Debug, PartialEq, Eq)]
pub struct FunctionOutline {
    pub name: String,
    pub has_finalize: bool,
}

/// What the debugger needs to know of a program: its ID, and its functions.
#[derive(Clone, Debug, PartialEq, Eq)]
pub struct ProgramOutline {
    pub id: String,
    pub functions: Vec<FunctionOutline>,
}

/// What a `FunctionOutline` says.
pub struct FunctionView {
    pub name: Seq<char>,
    pub has_finalize: bool,
}

/// What a `ProgramOutline` says.
pub struct OutlineView {
    pub id: Seq<char>,
    pub functions: Seq<FunctionView>,
}

impl View for FunctionOutline {
    type V = FunctionView;

    open spec fn view(&self) -> FunctionView {
        FunctionView { name: self.name@, has_finalize: self.has_finalize }
    }
}

impl View for ProgramOutline {
    type V = OutlineView;

    open spec fn view(&self) -> OutlineView {
        OutlineView {
            id: self.id@,
            functions: Seq::new(self.functions@.len(), |i: int| self.functions@[i]@),
        }
    }
}

/// The outline of the program that a bytecode text holds, or the text of the parser's error.
pub uninterp spec fn outline_of(bytecode: Seq<char>) -> Result<OutlineView, Seq<char>>;

/// The program ID that a text holds, or the text of the parser's error.
pub uninterp spec fn program_id_of(text: Seq<char>) -> Result<Seq<char>, Seq<char>>;

/// The identifier that a text holds, or the text of the parser's error.
pub uninterp spec fn identifier_of(text: Seq<char>) -> Result<Seq<char>, Seq<char>>;

/// The text of the error with which the parser of values refuses a text, if it does.
pub uninterp spec fn value_error_of(text: Seq<char>) -> Option<Seq<char>>;

/// Whether a text holds a private key.
pub uninterp spec fn is_private_key_text(text: Seq<char>) -> bool;

/// snarkVM's `Program::from_str`: parses a bytecode text. Of the program, its ID and, for each
/// function in the order of the text, the name and whether it has finalize logic are kept; of an
/// error its text. A string literal that is too long makes the parser halt, unless the whole text is too
/// long to be parsed.
#[verifier::external_body]
pub(crate) fn read_program(bytecode: &str) -> (outline: Result<ProgramOutline, String>)
    requires
        is_readable_program(bytecode@),
    ensures
        outline_of(bytecode@) == (match outline {
            Ok(program) => Ok(program@),
            Err(text) => Err::<OutlineView, Seq<char>>(text@),
        }),
{
    match Program::<TestnetV0>::from_str(bytecode) {
        Ok(program) => Ok(
            ProgramOutline {
                id: program.id().to_string(),
                functions: program.functions().iter().map(
                    |(name, function)|
                        FunctionOutline {
                            name: name.to_string(),
                            has_finalize: function.finalize_logic().is_some(),
                        },
                ).collect(),
            },
        ),
        Err(error) => Err(error.to_string()),
    }
}

/// snarkVM's `ProgramID::from_str`: parses a text of the form `name.network`. A program ID prints as
/// the text that it was read from; of an error the text is kept.
#[verifier::external_body]
pub(crate) fn read_program_id(text: &str) -> (id: Result<String, String>)
    ensures
        result_text(id) == program_id_of(text@),
        id matches Ok(read) ==> read@ == text@,
{
    match ProgramID::<TestnetV0>::from_str(text) {
        Ok(id) => Ok(id.to_string()),
        Err(error) => Err(error.to_string()),
    }
}

/// snarkVM's `Identifier::from_str`: parses a name. An identifier prints as the text that it was
/// read from; of an error the text is kept.
#[verifier::external_body]
pub(crate) fn read_identifier(text: &str) -> (name: Result<String, String>)
    ensures
        result_text(name) == identifier_of(text@),
        name matches Ok(read) ==> read@ == text@,
{
    match Identifier::<TestnetV0>::from_str(text) {
        Ok(name) => Ok(name.to_string()),
        Err(error) => Err(error.to_string()),
    }
}

/// snarkVM's `Value::from_str`: parses a value. Whether the text holds one is kept, and of an error
/// its text. A string literal that is too long makes the parser halt.
#[verifier::external_body]
pub(crate) fn value_error(text: &str) -> (error: Option<String>)
    requires
        literals_fit(text@),
    ensures
        optional_text(error) == value_error_of(text@),
{
    match Value::<TestnetV0>::from_str(text) {
        Ok(_) => None,
        Err(error) => Some(error.to_string()),
    }
}

/// snarkVM's `PrivateKey::from_str`: parses a private key. Whether the text holds one is all that is
/// kept.
#[verifier::external_body]
pub(crate) fn is_private_key(text: &str) -> (valid: bool)
    ensures
        valid == is_private_key_text(text@),
{
    PrivateKey::<TestnetV0>::from_str(text).is_ok()
}

} // verus!
