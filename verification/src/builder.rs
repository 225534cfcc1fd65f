//! The character buffer in which the scanners of this crate collect one word at a time.

use rstring_builder::StringBuilder;
use vstd::prelude::*;

verus! {

/// `rstring_builder::StringBuilder`, known here by the name below and nothing else.
#[verifier::external_type_specification]
#[verifier::external_body]
pub struct ExStringBuilder(StringBuilder);

/// The characters that a buffer holds, in the order in which they were added.
pub uninterp spec fn builder_chars(builder: StringBuilder) -> Seq<char>;

/// `StringBuilder::new`: a buffer that holds nothing.
pub assume_specification[ StringBuilder::new ]() -> (builder: StringBuilder)
    ensures
        builder_chars(builder) == Seq::<char>::empty(),
;

/// `StringBuilder::append`, called on one character: the character is added at the end.
#[verifier::external_body]
pub(crate) fn builder_push(builder: &mut StringBuilder, ch: char)
    ensures
        builder_chars(*final(builder)) == builder_chars(*old(builder)).push(ch),
{
    builder.append(ch);
}

/// `StringBuilder::clear`: the buffer holds nothing afterwards.
#[verifier::external_body]
pub(crate) fn builder_clear(builder: &mut StringBuilder)
    ensures
        builder_chars(*final(builder)) == Seq::<char>::empty(),
{
    builder.clear();
}

/// `StringBuilder::string`: a string of the characters held; the buffer keeps them.
pub assume_specification[ StringBuilder::string ](builder: &StringBuilder) -> (text: String)
    ensures
        text@ == builder_chars(*builder),
;

/// `StringBuilder::is_empty`: whether the buffer holds no character.
pub assume_specification[ StringBuilder::is_empty ](builder: &StringBuilder) -> (empty: bool)
    ensures
        empty == (builder_chars(*builder).len() == 0),
;

} // verus!
