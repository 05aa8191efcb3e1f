//! The files with chunking warnings, as they are kept from one crawl to the next.

use vstd::prelude::*;

#[allow(unused_imports)]
use crate::text::texts;

verus! {

/// The strings that a JSON text lists, if it is a list of strings.
pub uninterp spec fn listed_in(json: Seq<char>) -> Option<Seq<Seq<char>>>;

/// A list of strings as an indented JSON text.
pub uninterp spec fn pretty_list(list: Seq<Seq<char>>) -> Seq<char>;

/// The strings that `serde_json::from_str` reads from a JSON text, or `None` where it
/// refuses the text: a function of the text alone.
#[verifier::external_body]
fn parse_list(json: &str) -> (r: Option<Vec<String>>)
    ensures
        match r {
            Some(list) => listed_in(json@) == Some(texts(list@)),
            None => listed_in(json@) is None,
        },
{
    serde_json::from_str::<Vec<String>>(json).ok()
}

/// The JSON text that `serde_json::to_string_pretty` makes of a list of strings. It is a
/// function of the list alone, and `serde_json::from_str` reads the same list back from
/// it. Strings can always be written, and so can a list of them: nothing that the
/// serializer may fail on occurs in one.
#[verifier::external_body]
fn print_list(list: &Vec<String>) -> (r: Option<String>)
    ensures
        match r {
            Some(json) => json@ == pretty_list(texts(list@)) && listed_in(json@) == Some(
                texts(list@),
            ),
            None => false,
        },
{
    serde_json::to_string_pretty(list).ok()
}

/// The files with warnings, from the content of the file that keeps them. Where there is
/// no such file, or it holds something else, there are none.
pub fn read_warnings(content: Option<&str>) -> (r: Vec<String>)
    ensures
        texts(r@) == match content {
            Some(json) => match listed_in(json@) {
                Some(list) => list,
                None => Seq::empty(),
            },
            None => Seq::empty(),
        },
{
    match content {
        Some(json) => warnings_or_none(parse_list(json)),
        None => warnings_or_none(None),
    }
}

/// The files with warnings that were read, or none where they could not be read
pub fn warnings_or_none(list: Option<Vec<String>>) -> (r: Vec<String>)
    ensures
        texts(r@) == match list {
            Some(list) => texts(list@),
            None => Seq::empty(),
        },
{
    match list {
        Some(list) => list,
        None => {
            let none: Vec<String> = Vec::new();
            assert(texts(none@) =~= Seq::<Seq<char>>::empty());
            none
        },
    }
}

/// The content of the file that keeps the files with warnings. What is written is what
/// is read by the next crawl.
pub fn write_warnings(files: &Vec<String>) -> (r: Option<String>)
    ensures
        match r {
            Some(json) => json@ == pretty_list(texts(files@)) && listed_in(json@) == Some(
                texts(files@),
            ),
            None => false,
        },
{
    print_list(files)
}

} // verus!
