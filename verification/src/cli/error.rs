//! Errors of the command-line tool and their messages.
use vstd::prelude::*;

use crate::text::push_str;

verus! {

#[derive(Debug, PartialEq)]
pub enum PastelError {
    ColorParseError(String),
    ColorInvalidUTF8,
    CouldNotReadFromStdin,
    ColorArgRequired,
    CouldNotParseNumber(String),
}

/// The message shown for an error.
pub open spec fn message_text(e: PastelError) -> Seq<char> {
    match e {
        PastelError::ColorParseError(color) => "Could not parse color '"@ + color@ + "'"@,
        PastelError::ColorInvalidUTF8 => "Color input contains invalid UTF8"@,
        PastelError::CouldNotReadFromStdin => "could not read color from standard input"@,
        PastelError::ColorArgRequired => "A color argument needs to be provided on the command line or via a pipe. Call the same command with '-h' or '--help' to get more information."@,
        PastelError::CouldNotParseNumber(number) => "Could not parse number '"@ + number@ + "'"@,
    }
}

impl PastelError {
    pub fn message(&self) -> (m: String)
        ensures
            m@ == message_text(*self),
    {
        match self {
            PastelError::ColorParseError(color) => {
                let mut m = String::from_str("Could not parse color '");
                push_str(&mut m, color.as_str());
                push_str(&mut m, "'");
                m
            },
            PastelError::ColorInvalidUTF8 => String::from_str("Color input contains invalid UTF8"),
            PastelError::CouldNotReadFromStdin => String::from_str(
                "could not read color from standard input",
            ),
            PastelError::ColorArgRequired => String::from_str(
                "A color argument needs to be provided on the command line or via a pipe. Call the same command with '-h' or '--help' to get more information.",
            ),
            PastelError::CouldNotParseNumber(number) => {
                let mut m = String::from_str("Could not parse number '");
                push_str(&mut m, number.as_str());
                push_str(&mut m, "'");
                m
            },
        }
    }
}

} // verus!
