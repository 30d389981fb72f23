//! The scanner: one pass over the characters of a source text, which cuts it
//! into function records.
//!
//! The scanner is a state machine. Its state holds a text buffer, the record
//! in progress, the records finished so far, and one flag for each part of a
//! function that the scanner may be reading.

use crate::arguments::{arguments_of, extract_arguments};
use crate::record::{
    empty_record, records_view, FunctionRecord, FunctionRecordView, ParseError,
};
use crate::text::{trim, trimmed};
use vstd::prelude::*;

verus! {

/// The state of a scan, as mathematical values.
pub struct ScanStateView {
    /// The scanner is reading a return type.
    pub in_return_type: bool,
    /// The scanner is reading a function name.
    pub in_function_name: bool,
    /// The scanner is reading an argument list.
    pub in_argument_list: bool,
    /// The scanner is reading a function body.
    pub in_function_body: bool,
    /// The characters collected since the buffer was last cleared.
    pub buffer: Seq<char>,
    /// The record in progress.
    pub current: FunctionRecordView,
    /// The finished records, in source order.
    pub records: Seq<FunctionRecordView>,
}

/// Whether `c` is a parenthesis or a brace.
pub open spec fn is_bracket(c: char) -> bool {
    c == '(' || c == ')' || c == '{' || c == '}'
}

/// The state in which a scan begins: a return type is expected, and nothing
/// has been collected.
pub open spec fn initial_state() -> ScanStateView {
    ScanStateView {
        in_return_type: true,
        in_function_name: false,
        in_argument_list: false,
        in_function_body: false,
        buffer: Seq::empty(),
        current: empty_record(),
        records: Seq::empty(),
    }
}

/// The state after a space.
///
/// The first space that follows a non-empty buffer ends the return type; any
/// other space goes into the buffer.
pub open spec fn after_space(st: ScanStateView) -> ScanStateView {
    if st.in_return_type && st.buffer.len() > 0 {
        ScanStateView {
            in_return_type: false,
            in_function_name: true,
            buffer: Seq::empty(),
            current: FunctionRecordView { return_type: trimmed(st.buffer), ..st.current },
            ..st
        }
    } else {
        ScanStateView { buffer: st.buffer.push(' '), ..st }
    }
}

/// The state after an opening parenthesis: the buffer becomes the function
/// name, and an argument list begins.
pub open spec fn after_open_paren(st: ScanStateView) -> ScanStateView {
    ScanStateView {
        in_function_name: false,
        in_argument_list: true,
        buffer: Seq::empty(),
        current: FunctionRecordView { function_name: trimmed(st.buffer), ..st.current },
        ..st
    }
}

/// The state after a closing parenthesis: the buffer is read as an argument
/// list, which may be refused.
pub open spec fn after_close_paren(st: ScanStateView) -> Result<ScanStateView, ParseError> {
    match arguments_of(st.buffer) {
        Ok(arguments) => Ok(
            ScanStateView {
                in_argument_list: false,
                buffer: Seq::empty(),
                current: FunctionRecordView { arguments, ..st.current },
                ..st
            },
        ),
        Err(e) => Err(e),
    }
}

/// The state after an opening brace: a body begins.
pub open spec fn after_open_brace(st: ScanStateView) -> ScanStateView {
    ScanStateView { in_function_body: true, ..st }
}

/// The state after a closing brace: the buffer becomes the body, the record
/// in progress is finished, and the scanner is ready for the next function.
pub open spec fn after_close_brace(st: ScanStateView) -> ScanStateView {
    ScanStateView {
        records: st.records.push(
            FunctionRecordView { function_body: trimmed(st.buffer), ..st.current },
        ),
        ..initial_state()
    }
}

/// The state after a character that has no meaning of its own: it goes into
/// the buffer while a return type, a name or an argument list is read, into
/// the body in progress while only a body is read, and nowhere otherwise.
pub open spec fn after_plain(st: ScanStateView, c: char) -> ScanStateView {
    if st.in_function_name || st.in_return_type || st.in_argument_list {
        ScanStateView { buffer: st.buffer.push(c), ..st }
    } else if st.in_function_body {
        ScanStateView {
            current: FunctionRecordView {
                function_body: st.current.function_body.push(c),
                ..st.current
            },
            ..st
        }
    } else {
        st
    }
}

/// The state after one more character, or the error that ends the scan.
/// A line feed changes nothing.
pub open spec fn step(st: ScanStateView, c: char) -> Result<ScanStateView, ParseError> {
    if c == ' ' {
        Ok(after_space(st))
    } else if c == '(' {
        Ok(after_open_paren(st))
    } else if c == ')' {
        after_close_paren(st)
    } else if c == '{' {
        Ok(after_open_brace(st))
    } else if c == '}' {
        Ok(after_close_brace(st))
    } else if c == '\n' {
        Ok(st)
    } else {
        Ok(after_plain(st, c))
    }
}

/// The state after the characters of `text`, taken in order from state `st`,
/// or the first error met on the way.
pub open spec fn run(st: ScanStateView, text: Seq<char>) -> Result<ScanStateView, ParseError>
    decreases text.len(),
{
    if text.len() == 0 {
        Ok(st)
    } else {
        match run(st, text.drop_last()) {
            Ok(mid) => step(mid, text.last()),
            Err(e) => Err(e),
        }
    }
}

/// The records that a scan of `text` finishes, in source order, or the error
/// that ends it.
pub open spec fn scanned(text: Seq<char>) -> Result<Seq<FunctionRecordView>, ParseError> {
    match run(initial_state(), text) {
        Ok(st) => Ok(st.records),
        Err(e) => Err(e),
    }
}

/// An error met on a prefix of a text is the result for the whole text.
pub proof fn lemma_error_ends_run(st: ScanStateView, text: Seq<char>, n: int)
    requires
        0 <= n <= text.len(),
        run(st, text.take(n)) is Err,
    ensures
        run(st, text) == run(st, text.take(n)),
    decreases text.len() - n,
{
    if n == text.len() {
        assert(text.take(n) =~= text);
    } else {
        assert(text.drop_last().take(n) =~= text.take(n));
        lemma_error_ends_run(st, text.drop_last(), n);
    }
}

/// The state of a scan.
pub struct ScanState {
    in_return_type: bool,
    in_function_name: bool,
    in_argument_list: bool,
    in_function_body: bool,
    buffer: String,
    current: FunctionRecord,
    records: Vec<FunctionRecord>,
}

impl View for ScanState {
    type V = ScanStateView;

    closed spec fn view(&self) -> ScanStateView {
        ScanStateView {
            in_return_type: self.in_return_type,
            in_function_name: self.in_function_name,
            in_argument_list: self.in_argument_list,
            in_function_body: self.in_function_body,
            buffer: self.buffer@,
            current: self.current@,
            records: self.records.deep_view(),
        }
    }
}

/// The outcome of a step, as mathematical values.
pub open spec fn state_view(outcome: Result<ScanState, ParseError>) -> Result<
    ScanStateView,
    ParseError,
> {
    match outcome {
        Ok(state) => Ok(state@),
        Err(e) => Err(e),
    }
}

impl ScanState {
    /// The state in which a scan begins.
    pub fn new() -> (state: ScanState)
        ensures
            state@ == initial_state(),
    {
        let state = ScanState {
            in_return_type: true,
            in_function_name: false,
            in_argument_list: false,
            in_function_body: false,
            buffer: String::new(),
            current: FunctionRecord::empty(),
            records: Vec::new(),
        };
        assert(state.records.deep_view() =~= Seq::empty());
        state
    }

    /// Takes one more character of the source text.
    pub fn step(self, c: char) -> (result: Result<ScanState, ParseError>)
        ensures
            state_view(result) == step(self@, c),
    {
        let mut state = self;
        if c == ' ' {
            if state.in_return_type && !state.buffer.as_str().is_empty() {
                state.current.return_type = trim(state.buffer.as_str());
                state.in_return_type = false;
                state.in_function_name = true;
                state.buffer = String::new();
            } else {
                state.buffer.push(c);
            }
        } else if c == '(' {
            state.in_function_name = false;
            state.in_argument_list = true;
            state.current.function_name = trim(state.buffer.as_str());
            state.buffer = String::new();
        } else if c == ')' {
            match extract_arguments(state.buffer.as_str()) {
                Ok(arguments) => {
                    state.current.arguments = arguments;
                },
                Err(e) => {
                    return Err(e);
                },
            }
            state.buffer = String::new();
            state.in_argument_list = false;
        } else if c == '{' {
            state.in_function_body = true;
        } else if c == '}' {
            let ghost done = state.records.deep_view();
            let mut finished = state.current;
            finished.function_body = trim(state.buffer.as_str());
            let ghost last = finished@;
            let mut records = state.records;
            records.push(finished);
            assert(records.deep_view() =~= done.push(last));
            state = ScanState {
                in_return_type: true,
                in_function_name: false,
                in_argument_list: false,
                in_function_body: false,
                buffer: String::new(),
                current: FunctionRecord::empty(),
                records,
            };
        } else if c != '\n' {
            if state.in_function_name || state.in_return_type || state.in_argument_list {
                state.buffer.push(c);
            } else if state.in_function_body {
                state.current.function_body.push(c);
            }
        }
        Ok(state)
    }

    /// Ends the scan and hands out the finished records.
    pub fn into_records(self) -> (records: Vec<FunctionRecord>)
        ensures
            records.deep_view() == self@.records,
    {
        self.records
    }
}

/// Scans a source text for functions.
///
/// Returns the records of the functions found, in source order, or the error
/// for the first argument list that is refused; in that case no record is
/// returned at all.
pub fn parse_cpp_function_syntax(input: &str) -> (result: Result<Vec<FunctionRecord>, ParseError>)
    ensures
        records_view(result) == scanned(input@),
{
    let mut state = ScanState::new();
    for c in it: input.chars()
        invariant
            it.seq() == input@,
            run(initial_state(), input@.take(it.index())) == Ok::<ScanStateView, ParseError>(
                state@,
            ),
    {
        assert(input@.take(it.index() + 1).drop_last() =~= input@.take(it.index()));
        match state.step(c) {
            Ok(next) => {
                state = next;
            },
            Err(e) => {
                proof {
                    lemma_error_ends_run(initial_state(), input@, it.index() + 1);
                }
                return Err(e);
            },
        }
    }
    assert(input@.take(input@.len() as int) =~= input@);
    Ok(state.into_records())
}

} // verus!
