//! The error that a failed call of the system leaves behind.

use vstd::prelude::*;
use vstd::slice::slice_subrange;
use vstd::string::StringExecFns;
use crate::str_util::{
    decimal, lemma_text_len, lemma_text_len_unique, text_len, u32_to_decimal, unit_char,
    unit_to_char, utf16_len, utf16_to_utf8, wide_text,
};

verus! {

/// Whether a character is white space, as `char::is_whitespace` tells it.
pub uninterp spec fn char_is_whitespace(c: char) -> bool;

/// `char::is_whitespace` depends on the character alone: it tells whether
/// the character has the Unicode property `White_Space`.
pub assume_specification[ char::is_whitespace ](c: char) -> (b: bool)
    ensures
        b == char_is_whitespace(c),
;

/// An error code of the system, with the system's message for it.
#[derive(Debug, PartialEq, Eq)]
pub struct Error {
    code: u32,
    msg: String,
}

/// What an [`Error`] holds.
pub struct ErrorModel {
    pub code: u32,
    pub msg: Seq<char>,
}

impl View for Error {
    type V = ErrorModel;

    closed spec fn view(&self) -> ErrorModel {
        ErrorModel { code: self.code, msg: self.msg@ }
    }
}

impl Clone for Error {
    fn clone(&self) -> (copy: Error)
        ensures
            copy@ == self@,
    {
        Error { code: self.code, msg: self.msg.clone() }
    }
}

/// The length of `text` without the white space at its end.
pub open spec fn trimmed_len(text: Seq<char>) -> int
    decreases text.len(),
{
    if text.len() > 0 && char_is_whitespace(text.last()) {
        trimmed_len(text.drop_last())
    } else {
        text.len() as int
    }
}

/// The message for an error, from what the system's message lookup wrote:
/// `written` units into `buffer`, or nothing, with `written` zero, where it
/// knows no message. The message is the buffer's text without the white
/// space at its end.
pub open spec fn error_message(written: u32, buffer: Seq<u16>) -> Seq<char> {
    if written == 0 {
        "<error message unavailable>"@
    } else {
        wide_text(buffer).take(trimmed_len(wide_text(buffer)))
    }
}

/// An error as it is shown: the code in decimal within brackets, then the
/// message.
pub open spec fn error_text(error: ErrorModel) -> Seq<char> {
    seq!['('] + decimal(error.code as nat) + seq![')', ' '] + error.msg
}

impl Error {
    /// The error with the code `code` that the system reported last.
    /// `written` and `buffer` are what the system's message lookup gave for
    /// the code.
    pub fn last_error(code: u32, written: u32, buffer: &[u16]) -> (error: Error)
        ensures
            error@ == (ErrorModel { code, msg: error_message(written, buffer@) }),
    {
        Error { code, msg: Error::build_error_message(written, buffer) }
    }

    /// The error that a failed call returned: its result code, taken as an
    /// unsigned number, and its message.
    pub fn from_win_error(code: i32, message: &str) -> (error: Error)
        ensures
            error@ == (ErrorModel { code: code as u32, msg: message@ }),
    {
        Error { code: code as u32, msg: message.to_owned() }
    }

    /// Makes the message for an error from what the system's message lookup
    /// wrote.
    pub fn build_error_message(written: u32, buffer: &[u16]) -> (msg: String)
        ensures
            msg@ == error_message(written, buffer@),
    {
        if written == 0 {
            return "<error message unavailable>".to_owned();
        }
        let len: usize = utf16_len(buffer);
        let ghost text = wide_text(buffer@);
        proof {
            lemma_text_len(buffer@, 0u16);
            assert(text.take(len as int) == text);
        }
        let mut end: usize = len;
        while end > 0 && is_whitespace_unit(buffer[end - 1])
            invariant
                len == text_len(buffer@, 0u16),
                len <= buffer@.len(),
                text == wide_text(buffer@),
                0 <= end <= len,
                trimmed_len(text) == trimmed_len(text.take(end as int)),
            decreases end,
        {
            proof {
                assert(text.take(end as int).drop_last() == text.take(end - 1));
            }
            end -= 1;
        }
        let kept = slice_subrange(buffer, 0, end);
        proof {
            lemma_text_len_unique(kept@, 0u16, end as int);
            assert(wide_text(kept@) == text.take(end as int));
            if end > 0 {
                assert(text.take(end as int).last() == unit_char(buffer@[end - 1]));
            }
        }
        utf16_to_utf8(kept)
    }

    /// The error's code.
    pub fn code(&self) -> (code: u32)
        ensures
            code == self@.code,
    {
        self.code
    }

    /// The error's message.
    pub fn message(&self) -> (msg: &str)
        ensures
            msg@ == self@.msg,
    {
        self.msg.as_str()
    }

    /// The error as it is shown.
    pub fn to_string(&self) -> (text: String)
        ensures
            text@ == error_text(self@),
    {
        let mut text = String::new();
        text.push('(');
        let code = u32_to_decimal(self.code);
        text.append(code.as_str());
        text.push(')');
        text.push(' ');
        text.append(self.msg.as_str());
        proof {
            assert(text@ == error_text(self@));
        }
        text
    }
}

/// Tells whether the character of one 16-bit unit is white space.
fn is_whitespace_unit(unit: u16) -> (b: bool)
    ensures
        b == char_is_whitespace(unit_char(unit)),
{
    unit_to_char(unit).is_whitespace()
}

} // verus!
