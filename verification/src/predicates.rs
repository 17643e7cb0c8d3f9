//! Simple predicates for characters.
//!
//! This module contains some useful functions in order to analize ASCII and Unicode characters.
//!
//! The ASCII predicates are stated by their definitions. The Unicode ones are the properties of
//! the Unicode Character Database that the methods of `char` compute; they are named here and
//! left unstated.
use vstd::prelude::*;
use crate::atoms::{Atom, Match};
use crate::text::{first_char, char_len, lemma_prefix_len_one};

verus! {

/// `c` has the Unicode `Alphabetic` property, as `char::is_alphabetic` tells.
pub uninterp spec fn unicode_alphabetic(c: char) -> bool;

/// `c` has one of the Unicode general categories for numbers, as `char::is_numeric` tells.
pub uninterp spec fn unicode_numeric(c: char) -> bool;

/// `c` has the Unicode `White_Space` property, as `char::is_whitespace` tells.
pub uninterp spec fn unicode_white_space(c: char) -> bool;

/// `c` has the Unicode `Uppercase` property, as `char::is_uppercase` tells.
pub uninterp spec fn unicode_uppercase(c: char) -> bool;

/// `c` has the Unicode `Lowercase` property, as `char::is_lowercase` tells.
pub uninterp spec fn unicode_lowercase(c: char) -> bool;

/// `c` is in the ASCII range.
pub open spec fn ascii(c: char) -> bool {
    (c as u32) < 128
}

/// `c` is an ASCII decimal digit, `'0'` to `'9'`.
pub open spec fn ascii_digit(c: char) -> bool {
    '0' <= c <= '9'
}

/// `c` is an ASCII letter, `'A'` to `'Z'` or `'a'` to `'z'`.
pub open spec fn ascii_alphabetic(c: char) -> bool {
    ('A' <= c <= 'Z') || ('a' <= c <= 'z')
}

/// `c` is an ASCII letter or decimal digit.
pub open spec fn ascii_alphanumeric(c: char) -> bool {
    ascii_alphabetic(c) || ascii_digit(c)
}

/// Tests whether `c` has the `Alphabetic` property.
///
/// Calls `char::is_alphabetic`; the contract only names its result.
#[verifier::external_body]
pub(crate) fn alphabetic(c: char) -> (b: bool)
    ensures
        b == unicode_alphabetic(c),
{
    c.is_alphabetic()
}

/// Tests whether `c` has a numeric general category.
///
/// Calls `char::is_numeric`; the contract only names its result.
#[verifier::external_body]
pub(crate) fn numeric(c: char) -> (b: bool)
    ensures
        b == unicode_numeric(c),
{
    c.is_numeric()
}

/// Tests whether `c` is alphabetic or numeric.
///
/// Calls `char::is_alphanumeric`; the contract claims what its documentation states: the
/// result is that of `is_alphabetic` or that of `is_numeric`.
#[verifier::external_body]
pub(crate) fn alphanumeric(c: char) -> (b: bool)
    ensures
        b == (unicode_alphabetic(c) || unicode_numeric(c)),
{
    c.is_alphanumeric()
}

/// Tests whether `c` has the `White_Space` property.
///
/// Calls `char::is_whitespace`; the contract only names its result.
#[verifier::external_body]
pub(crate) fn white_space(c: char) -> (b: bool)
    ensures
        b == unicode_white_space(c),
{
    c.is_whitespace()
}

/// Tests whether `c` has the `Uppercase` property.
///
/// Calls `char::is_uppercase`; the contract only names its result.
#[verifier::external_body]
fn uppercase(c: char) -> (b: bool)
    ensures
        b == unicode_uppercase(c),
{
    c.is_uppercase()
}

/// Tests whether `c` has the `Lowercase` property.
///
/// Calls `char::is_lowercase`; the contract only names its result.
#[verifier::external_body]
fn lowercase(c: char) -> (b: bool)
    ensures
        b == unicode_lowercase(c),
{
    c.is_lowercase()
}

fn test_ascii(c: char) -> (b: bool)
    ensures
        b == ascii(c),
{
    c <= '\u{7f}'
}

fn test_ascii_digit(c: char) -> (b: bool)
    ensures
        b == ascii_digit(c),
{
    '0' <= c && c <= '9'
}

fn test_ascii_alphabetic(c: char) -> (b: bool)
    ensures
        b == ascii_alphabetic(c),
{
    ('A' <= c && c <= 'Z') || ('a' <= c && c <= 'z')
}

fn test_ascii_alphanumeric(c: char) -> (b: bool)
    ensures
        b == ascii_alphanumeric(c),
{
    test_ascii_alphabetic(c) || test_ascii_digit(c)
}

/// Matches a character for which [`char::is_ascii`] is true.
#[derive(Copy, Clone, Debug, Default)]
pub struct AsciiTool;

impl Atom for AsciiTool {
    open spec fn spec_parse(&self, st: Seq<char>) -> Option<nat> {
        if st.len() > 0 && {
            let c = st[0];
            ascii(c)
        } {
            Some(1)
        } else {
            None
        }
    }

    fn parse(&self, st: &str) -> (r: Option<Match>) {
        match first_char(st) {
            None => None,
            Some(c) => {
                if test_ascii(c) {
                    proof {
                        lemma_prefix_len_one(st@);
                    }
                    Some(Match { len: char_len(c) })
                } else {
                    None
                }
            },
        }
    }
}

/// Matches a character for which [`char::is_alphabetic`] is true.
#[derive(Copy, Clone, Debug, Default)]
pub struct AlphabeticTool;

impl Atom for AlphabeticTool {
    open spec fn spec_parse(&self, st: Seq<char>) -> Option<nat> {
        if st.len() > 0 && {
            let c = st[0];
            unicode_alphabetic(c)
        } {
            Some(1)
        } else {
            None
        }
    }

    fn parse(&self, st: &str) -> (r: Option<Match>) {
        match first_char(st) {
            None => None,
            Some(c) => {
                if alphabetic(c) {
                    proof {
                        lemma_prefix_len_one(st@);
                    }
                    Some(Match { len: char_len(c) })
                } else {
                    None
                }
            },
        }
    }
}

/// Matches a character for which [`char::is_alphanumeric`] is true.
#[derive(Copy, Clone, Debug, Default)]
pub struct AlphanumericTool;

impl Atom for AlphanumericTool {
    open spec fn spec_parse(&self, st: Seq<char>) -> Option<nat> {
        if st.len() > 0 && {
            let c = st[0];
            unicode_alphabetic(c) || unicode_numeric(c)
        } {
            Some(1)
        } else {
            None
        }
    }

    fn parse(&self, st: &str) -> (r: Option<Match>) {
        match first_char(st) {
            None => None,
            Some(c) => {
                if alphanumeric(c) {
                    proof {
                        lemma_prefix_len_one(st@);
                    }
                    Some(Match { len: char_len(c) })
                } else {
                    None
                }
            },
        }
    }
}

/// Matches a character for which [`char::is_ascii_alphabetic`] is true.
#[derive(Copy, Clone, Debug, Default)]
pub struct AsciiAlphabeticTool;

impl Atom for AsciiAlphabeticTool {
    open spec fn spec_parse(&self, st: Seq<char>) -> Option<nat> {
        if st.len() > 0 && {
            let c = st[0];
            ascii_alphabetic(c)
        } {
            Some(1)
        } else {
            None
        }
    }

    fn parse(&self, st: &str) -> (r: Option<Match>) {
        match first_char(st) {
            None => None,
            Some(c) => {
                if test_ascii_alphabetic(c) {
                    proof {
                        lemma_prefix_len_one(st@);
                    }
                    Some(Match { len: char_len(c) })
                } else {
                    None
                }
            },
        }
    }
}

/// Matches a character for which [`char::is_ascii_alphanumeric`] is true.
#[derive(Copy, Clone, Debug, Default)]
pub struct AsciiAlphanumericTool;

impl Atom for AsciiAlphanumericTool {
    open spec fn spec_parse(&self, st: Seq<char>) -> Option<nat> {
        if st.len() > 0 && {
            let c = st[0];
            ascii_alphanumeric(c)
        } {
            Some(1)
        } else {
            None
        }
    }

    fn parse(&self, st: &str) -> (r: Option<Match>) {
        match first_char(st) {
            None => None,
            Some(c) => {
                if test_ascii_alphanumeric(c) {
                    proof {
                        lemma_prefix_len_one(st@);
                    }
                    Some(Match { len: char_len(c) })
                } else {
                    None
                }
            },
        }
    }
}

/// Matches a character for which [`char::is_ascii_digit`] is true.
#[derive(Copy, Clone, Debug, Default)]
pub struct AsciiDigitTool;

impl Atom for AsciiDigitTool {
    open spec fn spec_parse(&self, st: Seq<char>) -> Option<nat> {
        if st.len() > 0 && {
            let c = st[0];
            ascii_digit(c)
        } {
            Some(1)
        } else {
            None
        }
    }

    fn parse(&self, st: &str) -> (r: Option<Match>) {
        match first_char(st) {
            None => None,
            Some(c) => {
                if test_ascii_digit(c) {
                    proof {
                        lemma_prefix_len_one(st@);
                    }
                    Some(Match { len: char_len(c) })
                } else {
                    None
                }
            },
        }
    }
}

/// Matches a character for which [`char::is_numeric`] is true.
#[derive(Copy, Clone, Debug, Default)]
pub struct NumericTool;

impl Atom for NumericTool {
    open spec fn spec_parse(&self, st: Seq<char>) -> Option<nat> {
        if st.len() > 0 && {
            let c = st[0];
            unicode_numeric(c)
        } {
            Some(1)
        } else {
            None
        }
    }

    fn parse(&self, st: &str) -> (r: Option<Match>) {
        match first_char(st) {
            None => None,
            Some(c) => {
                if numeric(c) {
                    proof {
                        lemma_prefix_len_one(st@);
                    }
                    Some(Match { len: char_len(c) })
                } else {
                    None
                }
            },
        }
    }
}

/// Matches a character for which [`char::is_whitespace`] is true.
#[derive(Copy, Clone, Debug, Default)]
pub struct WhitespaceTool;

impl Atom for WhitespaceTool {
    open spec fn spec_parse(&self, st: Seq<char>) -> Option<nat> {
        if st.len() > 0 && {
            let c = st[0];
            unicode_white_space(c)
        } {
            Some(1)
        } else {
            None
        }
    }

    fn parse(&self, st: &str) -> (r: Option<Match>) {
        match first_char(st) {
            None => None,
            Some(c) => {
                if white_space(c) {
                    proof {
                        lemma_prefix_len_one(st@);
                    }
                    Some(Match { len: char_len(c) })
                } else {
                    None
                }
            },
        }
    }
}

/// Tests if a character is a newline character (U+000A, `\n`). Carriage return (U+000D, `\r`) is
/// not detected by this function because it is usually followed by the newline character.
pub fn is_newline(c: char) -> (b: bool)
    ensures
        b == (c == '\n'),
{
    c == '\n'
}

/// Unicode lowercase/uppercase letter.
pub fn is_lu_letter(c: char) -> (b: bool)
    ensures
        b == (unicode_uppercase(c) || unicode_lowercase(c)),
{
    uppercase(c) || lowercase(c)
}

/// The character-class atoms match exactly the first character where it is in their class,
/// and miss otherwise: the ASCII classes by the ranges of code points, the Unicode ones by the
/// properties that `char` tells; a class made of two is matched where either one matches.
pub proof fn law_class_atoms(st: Seq<char>)
    ensures
        AsciiTool.spec_parse(st) == (if st.len() > 0 && (st[0] as u32) < 128 { Some(1nat) } else { None }),
        AsciiDigitTool.spec_parse(st) == (if st.len() > 0 && '0' <= st[0] <= '9' { Some(1nat) } else { None }),
        AsciiAlphabeticTool.spec_parse(st)
            == (if st.len() > 0 && (('A' <= st[0] <= 'Z') || ('a' <= st[0] <= 'z')) { Some(1nat) } else { None }),
        AsciiAlphanumericTool.spec_parse(st) is Some
            <==> AsciiAlphabeticTool.spec_parse(st) is Some || AsciiDigitTool.spec_parse(st) is Some,
        AsciiAlphanumericTool.spec_parse(st) matches Some(k) ==> k == 1,
        AlphabeticTool.spec_parse(st) == (if st.len() > 0 && unicode_alphabetic(st[0]) { Some(1nat) } else { None }),
        NumericTool.spec_parse(st) == (if st.len() > 0 && unicode_numeric(st[0]) { Some(1nat) } else { None }),
        AlphanumericTool.spec_parse(st) is Some <==> AlphabeticTool.spec_parse(st) is Some || NumericTool.spec_parse(st) is Some,
        AlphanumericTool.spec_parse(st) matches Some(k) ==> k == 1,
        WhitespaceTool.spec_parse(st) == (if st.len() > 0 && unicode_white_space(st[0]) { Some(1nat) } else { None }),
{
}

} // verus!
