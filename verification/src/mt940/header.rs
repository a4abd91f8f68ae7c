//! Block one: a record of five fields of fixed width.

use vstd::prelude::*;
use vstd::slice::slice_subrange;
use crate::errors::ParserError;
use crate::mt940::format::{BasicHeaderBlock, BasicHeaderView};
use crate::text::{chars_of, push_all, string_of};

verus! {

/// The number of characters of a basic header.
pub const BASIC_HEADER_LEN: usize = 25;

impl BasicHeaderView {
    /// Each field has its fixed width.
    pub open spec fn is_well_formed(self) -> bool {
        &&& self.application_identifier.len() == 1
        &&& self.service_identifier.len() == 2
        &&& self.lt_identifier.len() == 12
        &&& self.session_number.len() == 4
        &&& self.sequence_number.len() == 6
    }

    /// The fields one after the other.
    pub open spec fn render(self) -> Seq<char> {
        self.application_identifier + self.service_identifier + self.lt_identifier
            + self.session_number + self.sequence_number
    }
}

/// The record that twenty-five characters are cut into.
pub open spec fn cut_basic_header(data: Seq<char>) -> BasicHeaderView {
    BasicHeaderView {
        application_identifier: data.subrange(0, 1),
        service_identifier: data.subrange(1, 3),
        lt_identifier: data.subrange(3, 15),
        session_number: data.subrange(15, 19),
        sequence_number: data.subrange(19, 25),
    }
}

/// What decoding a basic header gives: the record where the text has
/// twenty-five characters, and no record otherwise.
pub open spec fn decode_basic_header(data: Seq<char>) -> Option<BasicHeaderView> {
    if data.len() == 25 {
        Some(cut_basic_header(data))
    } else {
        None
    }
}

/// Cuts the characters of a basic header into its record.
pub fn basic_header_from_chars(data: &[char]) -> (r: Result<BasicHeaderBlock, ParserError>)
    ensures
        match r {
            Ok(h) => decode_basic_header(data@) == Some(h@),
            Err(e) => decode_basic_header(data@) is None && e == ParserError::MalformedEnvelope,
        },
{
    if data.len() != BASIC_HEADER_LEN {
        return Err(ParserError::MalformedEnvelope);
    }
    Ok(
        BasicHeaderBlock {
            application_identifier: string_of(slice_subrange(data, 0, 1)),
            service_identifier: string_of(slice_subrange(data, 1, 3)),
            lt_identifier: string_of(slice_subrange(data, 3, 15)),
            session_number: string_of(slice_subrange(data, 15, 19)),
            sequence_number: string_of(slice_subrange(data, 19, 25)),
        },
    )
}

impl BasicHeaderBlock {
    /// Decodes a basic header. A text of twenty-five characters is cut into
    /// the five fields; any other length is refused.
    pub fn from_string(data: &str) -> (r: Result<BasicHeaderBlock, ParserError>)
        ensures
            match r {
                Ok(h) => decode_basic_header(data@) == Some(h@),
                Err(e) => decode_basic_header(data@) is None && e == ParserError::MalformedEnvelope,
            },
            data@.len() != 25 ==> r == Err::<BasicHeaderBlock, ParserError>(
                ParserError::MalformedEnvelope,
            ),
            data@.len() == 25 ==> r is Ok,
    {
        let chars = chars_of(data);
        basic_header_from_chars(chars.as_slice())
    }

    /// Appends the five fields to `out`.
    pub fn write_chars(&self, out: &mut Vec<char>)
        ensures
            final(out)@ == old(out)@ + self@.render(),
    {
        let a = chars_of(self.application_identifier.as_str());
        let b = chars_of(self.service_identifier.as_str());
        let c = chars_of(self.lt_identifier.as_str());
        let d = chars_of(self.session_number.as_str());
        let e = chars_of(self.sequence_number.as_str());
        push_all(out, a.as_slice());
        push_all(out, b.as_slice());
        push_all(out, c.as_slice());
        push_all(out, d.as_slice());
        push_all(out, e.as_slice());
        proof {
            assert(final(out)@ =~= old(out)@ + self@.render());
        }
    }

    /// Writes the header as one text: the five fields one after the other.
    pub fn to_string(&self) -> (r: String)
        ensures
            r@ == self@.render(),
    {
        let mut out: Vec<char> = Vec::new();
        self.write_chars(&mut out);
        proof {
            assert(out@ =~= self@.render());
        }
        string_of(out.as_slice())
    }
}

impl Default for BasicHeaderBlock {
    /// The header with five empty fields.
    fn default() -> (r: BasicHeaderBlock)
        ensures
            r@.render() == Seq::<char>::empty(),
            r@.application_identifier.len() == 0,
            r@.service_identifier.len() == 0,
            r@.lt_identifier.len() == 0,
            r@.session_number.len() == 0,
            r@.sequence_number.len() == 0,
    {
        let r = BasicHeaderBlock {
            application_identifier: String::new(),
            service_identifier: String::new(),
            lt_identifier: String::new(),
            session_number: String::new(),
            sequence_number: String::new(),
        };
        proof {
            assert(r@.render() =~= Seq::<char>::empty());
        }
        r
    }
}

/// A header whose fields have their widths is written in twenty-five
/// characters, and decoding them gives the header back.
pub proof fn law_basic_header_round_trip(h: BasicHeaderView)
    requires
        h.is_well_formed(),
    ensures
        h.render().len() == 25,
        decode_basic_header(h.render()) == Some(h),
{
    let d = h.render();
    assert(d.subrange(0, 1) =~= h.application_identifier);
    assert(d.subrange(1, 3) =~= h.service_identifier);
    assert(d.subrange(3, 15) =~= h.lt_identifier);
    assert(d.subrange(15, 19) =~= h.session_number);
    assert(d.subrange(19, 25) =~= h.sequence_number);
}

/// Decoding twenty-five characters and writing the record gives them back.
pub proof fn lemma_basic_header_render(data: Seq<char>)
    requires
        data.len() == 25,
    ensures
        cut_basic_header(data).is_well_formed(),
        cut_basic_header(data).render() == data,
{
    assert(cut_basic_header(data).render() =~= data);
}

} // verus!
