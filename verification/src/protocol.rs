use vstd::prelude::*;

use crate::text::{is_white_space_spec, trim_end, trim_end_spec};

verus! {

/// The line that carries one encoded message: the encoding, then a newline.
pub open spec fn framed_spec(payload: Seq<char>) -> Seq<char> {
    payload + "\n"@
}

/// Frames an encoded message as one line.
pub fn frame(payload: &str) -> (line: String)
    ensures
        line@ == framed_spec(payload@),
{
    payload.to_owned().concat("\n")
}

/// The encoded message that a received line carries: the line without its
/// trailing whitespace, the newline among it.
pub fn payload(line: &str) -> (p: &str)
    ensures
        p@ == trim_end_spec(line@),
{
    trim_end(line)
}

/// A framed message comes back whole: an encoding that does not end in
/// whitespace is the payload of its own line.
pub proof fn law_payload_of_frame(p: Seq<char>)
    requires
        p.len() == 0 || !is_white_space_spec(p.last()),
    ensures
        trim_end_spec(framed_spec(p)) == p,
{
    reveal_strlit("\n");
    let l = framed_spec(p);
    assert(l.last() == '\n');
    assert(l.drop_last() =~= p);
    assert(is_white_space_spec('\n'));
    assert(trim_end_spec(l) == trim_end_spec(p));
    assert(trim_end_spec(p) == p);
}

} // verus!
