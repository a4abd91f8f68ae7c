//! The choice of a conversion by the two formats, and the two conversions
//! from text to document and from document to text.

use vstd::prelude::*;
use crate::camt053::format::Camt053;
use crate::converter::to_camt053::{is_camt_of, to_camt053};
use crate::converter::to_mt940::{mt940_views, mt940s_of, to_mt940};
use crate::errors::{Fault, ParserError};
use crate::mt940::format::{Mt940, Mt940View};
use crate::mt940::reader::decode_mt940;
use crate::mt940::writer::render_mt940;
use crate::text::string_of;
use crate::SupportedFormats;

verus! {

/// What is handed to a conversion and what comes out of it: a text as it was
/// read or is to be written, or a nested document.
#[derive(Debug, Clone, PartialEq, Eq)]
pub enum Payload {
    /// The characters of a file, in whatever format.
    Text(String),
    /// A nested statement document.
    Document(Camt053),
}

/// The statement texts up to the `n`th, written one after the other with a
/// blank line between two of them.
pub open spec fn joined_texts(ms: Seq<Mt940View>, n: int) -> Seq<char>
    decreases n,
{
    if n <= 0 {
        Seq::empty()
    } else if n == 1 {
        render_mt940(ms[0])
    } else {
        joined_texts(ms, n - 1) + seq!['\n', '\n'] + render_mt940(ms[n - 1])
    }
}

/// Writes statement texts one after the other, with a blank line between two
/// of them.
pub fn join_statements(ms: &Vec<Mt940>) -> (r: String)
    ensures
        r@ == joined_texts(mt940_views(ms@), ms@.len() as int),
{
    let n: usize = ms.len();
    let ghost all = mt940_views(ms@);
    let mut out: Vec<char> = Vec::new();
    let mut i: usize = 0;
    while i < n
        invariant
            n == ms@.len(),
            all == mt940_views(ms@),
            i <= n,
            out@ == joined_texts(all, i as int),
        decreases n - i,
    {
        let ghost before = out@;
        if i > 0 {
            out.push('\n');
            out.push('\n');
        }
        assert(all[i as int] == ms@[i as int]@);
        ms[i].write_chars(&mut out);
        proof {
            if i > 0 {
                assert(out@ =~= before + seq!['\n', '\n'] + render_mt940(all[i as int]));
            } else {
                assert(out@ =~= render_mt940(all[0]));
            }
        }
        i += 1;
    }
    string_of(out.as_slice())
}

/// Decodes a statement text and converts it into a nested document. It
/// fails as the decoder fails, or else as the conversion of the decoded
/// statement fails.
pub fn convert_mt940_to_camt053(input: &str) -> (r: Result<Camt053, ParserError>)
    ensures
        match r {
            Ok(c) => decode_mt940(input@) is Ok && is_camt_of(
                c,
                (decode_mt940(input@)->Ok_0).statement,
            ),
            Err(e) => decode_mt940(input@) == Err::<Mt940View, Fault>(e@),
        },
        r is Ok <==> decode_mt940(input@) is Ok,
{
    proof {
        if decode_mt940(input@) is Ok {
            crate::converter::round_trip::law_decoded_text_converts(input@);
        }
    }
    let mt940: Mt940 = match Mt940::from_string(input) {
        Ok(m) => m,
        Err(e) => {
            return Err(e);
        },
    };
    to_camt053(&mt940)
}

/// Converts a nested document into statement texts and writes them one after
/// the other, with a blank line between two of them. Where the conversion
/// fails nothing is written.
pub fn convert_camt053_to_mt940(camt: &Camt053) -> (r: Result<String, ParserError>)
    ensures
        match r {
            Ok(text) => mt940s_of(*camt) is Ok && text@ == joined_texts(
                mt940s_of(*camt)->Ok_0,
                (mt940s_of(*camt)->Ok_0).len() as int,
            ),
            Err(e) => mt940s_of(*camt) == Err::<Seq<Mt940View>, Fault>(e@),
        },
{
    let statements: Vec<Mt940> = match to_mt940(camt) {
        Ok(v) => v,
        Err(e) => {
            return Err(e);
        },
    };
    Ok(join_statements(&statements))
}

/// Hands the input on as it is: the output of a conversion between equal
/// formats.
pub fn copy_input_to_output(input: Payload) -> (r: Payload)
    ensures
        r == input,
{
    input
}

/// What is to be done to get from one format to another.
#[derive(Debug, Clone, Copy, PartialEq, Eq, Structural)]
pub enum Route {
    /// The formats are equal: the input is the output.
    Copy,
    /// A statement text is decoded and converted into a nested document.
    TextToDocument,
    /// A nested document is converted into statement texts.
    DocumentToText,
}

/// The route from one format to another: a copy between equal formats, one
/// of the two conversions between statement text and nested document, and
/// none for any other pair.
pub open spec fn route_of(input_format: SupportedFormats, output_format: SupportedFormats) -> Option<
    Route,
> {
    if input_format == output_format {
        Some(Route::Copy)
    } else if input_format == SupportedFormats::Mt940 && output_format
        == SupportedFormats::Camt053 {
        Some(Route::TextToDocument)
    } else if input_format == SupportedFormats::Camt053 && output_format
        == SupportedFormats::Mt940 {
        Some(Route::DocumentToText)
    } else {
        None
    }
}

/// Chooses the route from one format to another; a pair of formats without a
/// route is an unsupported conversion.
pub fn choose_route(input_format: SupportedFormats, output_format: SupportedFormats) -> (r: Result<
    Route,
    ParserError,
>)
    ensures
        match r {
            Ok(route) => route_of(input_format, output_format) == Some(route),
            Err(e) => route_of(input_format, output_format) is None && e@
                == Fault::UnsupportedConversion(input_format, output_format),
        },
{
    if input_format == output_format {
        return Ok(Route::Copy);
    }
    match (input_format, output_format) {
        (SupportedFormats::Mt940, SupportedFormats::Camt053) => Ok(Route::TextToDocument),
        (SupportedFormats::Camt053, SupportedFormats::Mt940) => Ok(Route::DocumentToText),
        _ => Err(ParserError::UnsupportedConversion(input_format, output_format)),
    }
}

/// Converts a payload from one format into another.
///
/// Between equal formats the payload is handed back as it came, whatever it
/// holds: nothing is decoded and nothing is written anew. From statement
/// text to nested document a text is decoded and converted; from nested
/// document to statement text a document is converted and written. A payload
/// of the other kind is refused as invalid input. Every other pair of
/// formats is an unsupported conversion.
pub fn convert_streams(
    input: Payload,
    input_format: SupportedFormats,
    output_format: SupportedFormats,
) -> (r: Result<Payload, ParserError>)
    ensures
        input_format == output_format ==> r == Ok::<Payload, ParserError>(input),
        match (route_of(input_format, output_format), input) {
            (Some(Route::Copy), _) => r == Ok::<Payload, ParserError>(input),
            (Some(Route::TextToDocument), Payload::Text(text)) => match r {
                Ok(Payload::Document(c)) => decode_mt940(text@) is Ok && is_camt_of(
                    c,
                    (decode_mt940(text@)->Ok_0).statement,
                ),
                Ok(Payload::Text(_)) => false,
                Err(e) => decode_mt940(text@) == Err::<Mt940View, Fault>(e@),
            },
            (Some(Route::DocumentToText), Payload::Document(c)) => match r {
                Ok(Payload::Text(text)) => mt940s_of(c) is Ok && text@ == joined_texts(
                    mt940s_of(c)->Ok_0,
                    (mt940s_of(c)->Ok_0).len() as int,
                ),
                Ok(Payload::Document(_)) => false,
                Err(e) => mt940s_of(c) == Err::<Seq<Mt940View>, Fault>(e@),
            },
            (Some(_), _) => r is Err && r->Err_0@ == Fault::InvalidInput,
            (None, _) => r is Err && r->Err_0@ == Fault::UnsupportedConversion(
                input_format,
                output_format,
            ),
        },
{
    let route = match choose_route(input_format, output_format) {
        Ok(route) => route,
        Err(e) => {
            return Err(e);
        },
    };
    match route {
        Route::Copy => Ok(copy_input_to_output(input)),
        Route::TextToDocument => match input {
            Payload::Text(text) => match convert_mt940_to_camt053(text.as_str()) {
                Ok(c) => Ok(Payload::Document(c)),
                Err(e) => Err(e),
            },
            Payload::Document(_) => Err(ParserError::InvalidInput),
        },
        Route::DocumentToText => match input {
            Payload::Document(c) => match convert_camt053_to_mt940(&c) {
                Ok(text) => Ok(Payload::Text(text)),
                Err(e) => Err(e),
            },
            Payload::Text(_) => Err(ParserError::InvalidInput),
        },
    }
}

} // verus!
