//! The emitter: writes function records out as a JSON document.
//!
//! The document has one key, `data`, whose value is the list of the records.
//! A record is written as an object with the keys `object`, `name` and
//! `largs`; the return type and the body are not written. Names and types
//! are written as they are, without escaping: a quote or a backslash in one
//! of them leaves a text that is no longer the JSON document described here.

use crate::record::{Argument, ArgumentView, FunctionRecord, FunctionRecordView};
use crate::text::joined;
use vstd::prelude::*;
use vstd::string::*;

verus! {

/// The text of one argument: an object with the keys `type` and `arg`.
pub open spec fn argument_text(argument: ArgumentView) -> Seq<char> {
    "{ \"type\": \""@ + argument.arg_type + "\", \"arg\": \""@ + argument.arg_name + "\" }"@
}

/// The texts of the arguments of a function, with `", "` between each two.
pub open spec fn argument_list_text(arguments: Seq<ArgumentView>) -> Seq<char> {
    joined(arguments.map_values(|argument: ArgumentView| argument_text(argument)), ", "@)
}

/// The text of one record: an object with the keys `object`, which is always
/// `function`, `name` and `largs`, each on a line of its own.
pub open spec fn record_text(record: FunctionRecordView) -> Seq<char> {
    "{\n                        \"object\": \"function\",\n                        \"name\": \""@
        + record.function_name + "\",\n                        \"largs\": ["@
        + argument_list_text(record.arguments) + "]\n                    }"@
}

/// The texts of the records, with `", "` between each two.
pub open spec fn record_list_text(records: Seq<FunctionRecordView>) -> Seq<char> {
    joined(records.map_values(|record: FunctionRecordView| record_text(record)), ", "@)
}

/// The text of the whole document.
pub open spec fn document_text(records: Seq<FunctionRecordView>) -> Seq<char> {
    "{ \"data\": ["@ + record_list_text(records) + "] }"@
}

/// Whether two sequences of records list the same names with the same
/// arguments, in the same order.
pub open spec fn same_signatures(a: Seq<FunctionRecordView>, b: Seq<FunctionRecordView>) -> bool {
    &&& a.len() == b.len()
    &&& forall|i: int|
        0 <= i < a.len() ==> (#[trigger] a[i]).function_name == b[i].function_name && a[i].arguments
            == b[i].arguments
}

/// The document is made of the names and the arguments of the records:
/// neither a return type nor a body has any part in it.
pub proof fn lemma_document_of_signatures(a: Seq<FunctionRecordView>, b: Seq<FunctionRecordView>)
    requires
        same_signatures(a, b),
    ensures
        document_text(a) == document_text(b),
{
    assert(a.map_values(|record: FunctionRecordView| record_text(record)) =~= b.map_values(
        |record: FunctionRecordView| record_text(record),
    ));
}

/// Emitting the same records twice gives the same text: what `emit` returns
/// is fixed by the records, and nothing that an earlier call has left behind
/// has a part in it.
pub proof fn lemma_emit_is_repeatable(
    records: Seq<FunctionRecordView>,
    first: Seq<char>,
    second: Seq<char>,
)
    requires
        first == document_text(records),
        second == document_text(records),
    ensures
        first == second,
{
}

/// Joining one part more puts the separator before it, unless it is the
/// first.
pub proof fn lemma_joined_push(parts: Seq<Seq<char>>, sep: Seq<char>, part: Seq<char>)
    ensures
        joined(parts.push(part), sep) == if parts.len() == 0 {
            part
        } else {
            joined(parts, sep) + sep + part
        },
{
    assert(parts.push(part).drop_last() =~= parts);
}

/// Appends the text of one argument.
fn push_argument(text: &mut String, argument: &Argument)
    ensures
        final(text)@ == old(text)@ + argument_text(argument@),
{
    text.append("{ \"type\": \"");
    text.append(argument.arg_type.as_str());
    text.append("\", \"arg\": \"");
    text.append(argument.arg_name.as_str());
    text.append("\" }");
    assert(text@ =~= old(text)@ + argument_text(argument@));
}

/// Appends the texts of the arguments of a function.
fn push_argument_list(text: &mut String, arguments: &Vec<Argument>)
    ensures
        final(text)@ == old(text)@ + argument_list_text(arguments.deep_view()),
{
    let ghost parts = arguments.deep_view().map_values(
        |argument: ArgumentView| argument_text(argument),
    );
    assert(parts.take(0) =~= Seq::empty());
    assert(text@ =~= old(text)@ + joined(parts.take(0), ", "@));
    for i in 0..arguments.len()
        invariant
            parts == arguments.deep_view().map_values(
                |argument: ArgumentView| argument_text(argument),
            ),
            text@ == old(text)@ + joined(parts.take(i as int), ", "@),
    {
        if i > 0 {
            text.append(", ");
        }
        push_argument(text, &arguments[i]);
        proof {
            assert(parts.take(i + 1) =~= parts.take(i as int).push(parts[i as int]));
            lemma_joined_push(parts.take(i as int), ", "@, parts[i as int]);
            assert(parts[i as int] == argument_text(arguments@[i as int]@));
            assert(text@ =~= old(text)@ + joined(parts.take(i + 1), ", "@));
        }
    }
    assert(parts.take(arguments.len() as int) =~= parts);
}

/// Appends the text of one record.
fn push_record(text: &mut String, record: &FunctionRecord)
    ensures
        final(text)@ == old(text)@ + record_text(record@),
{
    text.append(
        "{\n                        \"object\": \"function\",\n                        \"name\": \"",
    );
    text.append(record.function_name.as_str());
    text.append("\",\n                        \"largs\": [");
    push_argument_list(text, &record.arguments);
    text.append("]\n                    }");
    assert(text@ =~= old(text)@ + record_text(record@));
}

/// Writes the records out as one JSON document.
///
/// The text depends on the names and the arguments of the records alone, and
/// lists them in the order of the records.
pub fn emit(records: &Vec<FunctionRecord>) -> (text: String)
    ensures
        text@ == document_text(records.deep_view()),
{
    let mut text = String::from_str("{ \"data\": [");
    let ghost parts = records.deep_view().map_values(
        |record: FunctionRecordView| record_text(record),
    );
    assert(parts.take(0) =~= Seq::empty());
    assert(text@ =~= "{ \"data\": ["@ + joined(parts.take(0), ", "@));
    for i in 0..records.len()
        invariant
            parts == records.deep_view().map_values(
                |record: FunctionRecordView| record_text(record),
            ),
            text@ == "{ \"data\": ["@ + joined(parts.take(i as int), ", "@),
    {
        if i > 0 {
            text.append(", ");
        }
        push_record(&mut text, &records[i]);
        proof {
            assert(parts.take(i + 1) =~= parts.take(i as int).push(parts[i as int]));
            lemma_joined_push(parts.take(i as int), ", "@, parts[i as int]);
            assert(parts[i as int] == record_text(records@[i as int]@));
            assert(text@ =~= "{ \"data\": ["@ + joined(parts.take(i + 1), ", "@));
        }
    }
    assert(parts.take(records.len() as int) =~= parts);
    text.append("] }");
    text
}

} // verus!
