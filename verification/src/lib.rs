//! Conversion of bank account statements between a tag-delimited wire text
//! (MT940 style) and a nested statement document (CAMT.053 style).
//!
//! The wire text is split into its bracketed blocks, block four is cut into
//! tags, and each tag body is decoded by a fixed grammar into a typed
//! statement. Two mappings carry a statement into the nested document model
//! and back. Every function states what it computes over sequences of
//! characters, and the statements are proved.

use vstd::prelude::*;
use vstd::string::StringExecFns;

pub mod text;
pub mod dates;
pub mod amount;
pub mod decimal;
pub mod mt940;
pub mod camt053;
pub mod converter;
pub mod errors;

pub use errors::ParserError;
pub use camt053::format::Camt053;
pub use mt940::format::Mt940;

verus! {

/// The formats a payload can be in.
#[derive(Debug, Clone, Copy, PartialEq, Eq, Structural)]
pub enum SupportedFormats {
    /// Delimiter separated table.
    Csv,
    /// Generic markup document.
    Xml,
    /// Nested statement document.
    Camt053,
    /// Tag-delimited statement text.
    Mt940,
}

/// The lower case form of an upper case letter `A` to `Z`; any other
/// character is itself.
pub open spec fn lower_case(c: char) -> char {
    if 'A' <= c && c <= 'Z' {
        ((c as u8) + 32u8) as char
    } else {
        c
    }
}

/// `s` is `name`, whatever the case of its letters.
pub open spec fn is_name(s: Seq<char>, name: Seq<char>) -> bool {
    s.len() == name.len() && forall|i: int| 0 <= i < s.len() ==> lower_case(#[trigger] s[i])
        == name[i]
}

/// The name of a format.
pub open spec fn format_name(f: SupportedFormats) -> Seq<char> {
    match f {
        SupportedFormats::Mt940 => seq!['m', 't', '9', '4', '0'],
        SupportedFormats::Camt053 => seq!['c', 'a', 'm', 't', '0', '5', '3'],
        SupportedFormats::Xml => seq!['x', 'm', 'l'],
        SupportedFormats::Csv => seq!['c', 's', 'v'],
    }
}

/// The format that a name stands for, whatever the case of its letters.
pub open spec fn format_named(s: Seq<char>) -> Option<SupportedFormats> {
    if is_name(s, format_name(SupportedFormats::Mt940)) {
        Some(SupportedFormats::Mt940)
    } else if is_name(s, format_name(SupportedFormats::Camt053)) {
        Some(SupportedFormats::Camt053)
    } else if is_name(s, format_name(SupportedFormats::Xml)) {
        Some(SupportedFormats::Xml)
    } else if is_name(s, format_name(SupportedFormats::Csv)) {
        Some(SupportedFormats::Csv)
    } else {
        None
    }
}

/// The lower case form of a character.
fn to_lower(c: char) -> (r: char)
    ensures
        r == lower_case(c),
{
    if 'A' <= c && c <= 'Z' {
        ((c as u8) + 32u8) as char
    } else {
        c
    }
}

/// Tells whether `s` is `name`, whatever the case of its letters.
fn matches_name(s: &[char], name: &[char]) -> (r: bool)
    ensures
        r == is_name(s@, name@),
{
    let n: usize = s.len();
    if n != name.len() {
        return false;
    }
    let mut i: usize = 0;
    while i < n
        invariant
            n == s@.len(),
            n == name@.len(),
            i <= n,
            forall|k: int| 0 <= k < i ==> lower_case(#[trigger] s@[k]) == name@[k],
        decreases n - i,
    {
        if to_lower(s[i]) != name[i] {
            return false;
        }
        i += 1;
    }
    true
}

impl SupportedFormats {
    /// The characters of the name of the format.
    pub fn name_chars(&self) -> (r: Vec<char>)
        ensures
            r@ == format_name(*self),
    {
        let r = match self {
            SupportedFormats::Mt940 => vec!['m', 't', '9', '4', '0'],
            SupportedFormats::Camt053 => vec!['c', 'a', 'm', 't', '0', '5', '3'],
            SupportedFormats::Xml => vec!['x', 'm', 'l'],
            SupportedFormats::Csv => vec!['c', 's', 'v'],
        };
        proof {
            assert(r@ =~= format_name(*self));
        }
        r
    }

    /// The name of the format: `mt940`, `camt053`, `xml` or `csv`.
    pub fn to_string(&self) -> (r: String)
        ensures
            r@ == format_name(*self),
    {
        let chars = self.name_chars();
        text::string_of(chars.as_slice())
    }

    /// The format that a name stands for, whatever the case of its letters;
    /// none for any other text.
    pub fn from_name(s: &str) -> (r: Option<SupportedFormats>)
        ensures
            r == format_named(s@),
    {
        let chars = text::chars_of(s);
        let c: &[char] = chars.as_slice();
        if matches_name(c, SupportedFormats::Mt940.name_chars().as_slice()) {
            Some(SupportedFormats::Mt940)
        } else if matches_name(c, SupportedFormats::Camt053.name_chars().as_slice()) {
            Some(SupportedFormats::Camt053)
        } else if matches_name(c, SupportedFormats::Xml.name_chars().as_slice()) {
            Some(SupportedFormats::Xml)
        } else if matches_name(c, SupportedFormats::Csv.name_chars().as_slice()) {
            Some(SupportedFormats::Csv)
        } else {
            None
        }
    }
}

impl std::str::FromStr for SupportedFormats {
    type Err = String;

    /// The format that a name stands for, or a message that lists the names.
    fn from_str(s: &str) -> (r: Result<SupportedFormats, String>)
        ensures
            match r {
                Ok(f) => format_named(s@) == Some(f),
                Err(m) => format_named(s@) is None && m@ == "Unknown format: "@ + s@
                    + ". Use 'mt940', 'camt053', 'xml' or 'csv'"@,
            },
    {
        match SupportedFormats::from_name(s) {
            Some(f) => Ok(f),
            None => {
                let mut message: String = "Unknown format: ".to_owned();
                message.append(s);
                message.append(". Use 'mt940', 'camt053', 'xml' or 'csv'");
                Err(message)
            },
        }
    }
}

/// The name of a format stands for that format.
pub proof fn law_format_name_round_trip(f: SupportedFormats)
    ensures
        format_named(format_name(f)) == Some(f),
{
    let n = format_name(f);
    assert(is_name(n, n));
    assert(format_name(SupportedFormats::Camt053)[0] == 'c');
    assert(format_name(SupportedFormats::Mt940)[0] == 'm');
    assert(format_name(SupportedFormats::Xml)[0] == 'x');
    assert(format_name(SupportedFormats::Csv)[1] == 's');
    assert(format_name(SupportedFormats::Camt053)[1] == 'a');
}

} // verus!
