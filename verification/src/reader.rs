//! The character reader that the scanners of this crate walk over their input with.

use text_reader::TextReader;
use vstd::prelude::*;

verus! {

/// `text_reader::TextReader`, known here by the two names below and nothing else.
#[verifier::external_type_specification]
#[verifier::external_body]
pub struct ExTextReader(TextReader);

/// The characters that a reader was made over.
pub uninterp spec fn reader_text(reader: TextReader) -> Seq<char>;

/// How many of its characters a reader has handed out and not taken back.
pub uninterp spec fn reader_position(reader: TextReader) -> nat;

/// A reader never stands beyond the end of its text.
pub open spec fn reader_wf(reader: TextReader) -> bool {
    reader_position(reader) <= reader_text(reader).len()
}

/// `TextReader::new`, called on a string slice: the reader holds the characters of `text`
/// and stands before the first of them.
#[verifier::external_body]
pub(crate) fn reader_new(text: &str) -> (reader: TextReader)
    ensures
        reader_text(reader) == text@,
        reader_position(reader) == 0,
{
    TextReader::new(text)
}

/// `TextReader::has_next`: whether the position is before the end of the text.
pub assume_specification[ TextReader::has_next ](reader: &TextReader) -> (more: bool)
    ensures
        more == (reader_position(*reader) < reader_text(*reader).len()),
;

/// `TextReader::next`: before the end of the text it hands out the character at the
/// position and moves one further; at the end it hands out nothing and stays. The text
/// is never changed.
pub assume_specification[ TextReader::next ](reader: &mut TextReader) -> (ch: Option<char>)
    ensures
        reader_text(*final(reader)) == reader_text(*old(reader)),
        reader_position(*old(reader)) < reader_text(*old(reader)).len() ==> {
            &&& ch == Some(reader_text(*old(reader))[reader_position(*old(reader)) as int])
            &&& reader_position(*final(reader)) == reader_position(*old(reader)) + 1
        },
        reader_position(*old(reader)) >= reader_text(*old(reader)).len() ==> {
            &&& ch.is_none()
            &&& reader_position(*final(reader)) == reader_position(*old(reader))
        },
;

/// Whether the reader would step back over the second of two line breaks in a row.
pub open spec fn reader_behind_blank_line(reader: TextReader) -> bool {
    let at = reader_position(reader) as int;
    at >= 2 && reader_text(reader)[at - 1] == '\n' && reader_text(reader)[at - 2] == '\n'
}

/// `TextReader::back`: moves one character back, and stays where it is at the start of
/// the text. The text is never changed. The line and column counts of the reader are
/// not modelled: it recounts them when it steps back over a line break, by walking to
/// the start of that line, and calls itself where that walk begins with a line break
/// again, once for each line break of such a run. That case is left out.
#[verifier::external_body]
pub(crate) fn reader_back(reader: &mut TextReader)
    requires
        reader_wf(*old(reader)),
        !reader_behind_blank_line(*old(reader)),
    ensures
        reader_text(*final(reader)) == reader_text(*old(reader)),
        reader_position(*old(reader)) == 0 ==> reader_position(*final(reader)) == 0,
        reader_position(*old(reader)) > 0 ==> reader_position(*final(reader))
            == reader_position(*old(reader)) - 1,
{
    reader.back();
}

} // verus!
