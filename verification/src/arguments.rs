//! The argument list of a function: segments between commas, each of which
//! must hold a type and a name.

use crate::record::{arguments_view, Argument, ArgumentView, ParseError};
use crate::text::{pieces, split, split_whitespace, words};
use vstd::prelude::*;

verus! {

/// The argument that one segment of an argument list stands for: its two
/// words are the type and the name. A segment with any other number of words
/// stands for none.
pub open spec fn argument_of(segment: Seq<char>) -> Option<ArgumentView> {
    let found = words(segment);
    if found.len() == 2 {
        Some(ArgumentView { arg_type: found[0], arg_name: found[1] })
    } else {
        None
    }
}

/// What an argument list holds. The empty text holds no argument. Any other
/// text is cut at its commas, and holds one argument for each segment, in
/// order; it is refused if some segment stands for no argument.
pub open spec fn arguments_of(text: Seq<char>) -> Result<Seq<ArgumentView>, ParseError> {
    if text.len() == 0 {
        Ok(Seq::empty())
    } else {
        let segments = pieces(text, ',');
        if forall|i: int| 0 <= i < segments.len() ==> argument_of(#[trigger] segments[i]) is Some {
            Ok(Seq::new(segments.len(), |i: int| argument_of(segments[i])->0))
        } else {
            Err(ParseError::InvalidArgumentSyntax)
        }
    }
}

/// Parses the text between the parentheses of a function into its
/// arguments.
pub fn extract_arguments(args_str: &str) -> (result: Result<Vec<Argument>, ParseError>)
    ensures
        arguments_view(result) == arguments_of(args_str@),
{
    if args_str.is_empty() {
        let none: Vec<Argument> = Vec::new();
        assert(none.deep_view() =~= Seq::empty());
        return Ok(none);
    }
    let segments = split(args_str, ',');
    let ghost cut = pieces(args_str@, ',');
    let mut arguments: Vec<Argument> = Vec::new();
    for i in 0..segments.len()
        invariant
            segments.deep_view() == cut,
            cut == pieces(args_str@, ','),
            args_str@.len() > 0,
            arguments.len() == i,
            forall|j: int| 0 <= j < i ==> argument_of(#[trigger] cut[j]) is Some,
            forall|j: int|
                0 <= j < i ==> (#[trigger] arguments@[j])@ == argument_of(cut[j])->0,
    {
        assert(segments@[i as int]@ == cut[i as int]);
        let parts = split_whitespace(segments[i].as_str());
        if parts.len() != 2 {
            assert(argument_of(cut[i as int]) is None);
            return Err(ParseError::InvalidArgumentSyntax);
        }
        assert(parts.deep_view()[0] == parts@[0]@);
        assert(parts.deep_view()[1] == parts@[1]@);
        arguments.push(Argument { arg_type: parts[0].clone(), arg_name: parts[1].clone() });
    }
    assert(arguments.deep_view() =~= Seq::new(cut.len(), |i: int| argument_of(cut[i])->0));
    Ok(arguments)
}

} // verus!
