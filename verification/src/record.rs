//! The data extracted from a source text: arguments, function records, and
//! the one way in which a scan fails.

use vstd::prelude::*;
use vstd::string::*;

verus! {

/// One parameter of a function: its type and its name.
#[derive(Debug, Clone, PartialEq, Eq)]
pub struct Argument {
    pub arg_type: String,
    pub arg_name: String,
}

/// An [`Argument`] as character sequences.
pub struct ArgumentView {
    pub arg_type: Seq<char>,
    pub arg_name: Seq<char>,
}

impl View for Argument {
    type V = ArgumentView;

    open spec fn view(&self) -> ArgumentView {
        ArgumentView { arg_type: self.arg_type@, arg_name: self.arg_name@ }
    }
}

impl DeepView for Argument {
    type V = ArgumentView;

    open spec fn deep_view(&self) -> ArgumentView {
        self.view()
    }
}

/// One function found in a source text.
#[derive(Debug, Clone, PartialEq, Eq)]
pub struct FunctionRecord {
    pub return_type: String,
    pub function_name: String,
    /// The parameters, in the order in which the source lists them.
    pub arguments: Vec<Argument>,
    /// The text of the body, without the braces around it.
    pub function_body: String,
}

/// A [`FunctionRecord`] as character sequences.
pub struct FunctionRecordView {
    pub return_type: Seq<char>,
    pub function_name: Seq<char>,
    pub arguments: Seq<ArgumentView>,
    pub function_body: Seq<char>,
}

impl View for FunctionRecord {
    type V = FunctionRecordView;

    open spec fn view(&self) -> FunctionRecordView {
        FunctionRecordView {
            return_type: self.return_type@,
            function_name: self.function_name@,
            arguments: self.arguments.deep_view(),
            function_body: self.function_body@,
        }
    }
}

impl DeepView for FunctionRecord {
    type V = FunctionRecordView;

    open spec fn deep_view(&self) -> FunctionRecordView {
        self.view()
    }
}

/// The record in which every field is empty.
pub open spec fn empty_record() -> FunctionRecordView {
    FunctionRecordView {
        return_type: Seq::empty(),
        function_name: Seq::empty(),
        arguments: Seq::empty(),
        function_body: Seq::empty(),
    }
}

impl FunctionRecord {
    /// A record in which every field is empty.
    pub fn empty() -> (record: FunctionRecord)
        ensures
            record@ == empty_record(),
    {
        let record = FunctionRecord {
            return_type: String::new(),
            function_name: String::new(),
            arguments: Vec::new(),
            function_body: String::new(),
        };
        assert(record.arguments.deep_view() =~= Seq::empty());
        record
    }
}

/// Why a scan was given up.
#[derive(Debug, Clone, Copy, PartialEq, Eq, Structural)]
pub enum ParseError {
    /// A segment of an argument list does not consist of exactly two words.
    InvalidArgumentSyntax,
}

impl ParseError {
    /// The error in words.
    pub fn message(&self) -> (text: String)
        ensures
            text@ == "Invalid argument syntax"@,
    {
        String::from_str("Invalid argument syntax")
    }
}

/// The outcome of reading an argument list, as mathematical values.
pub open spec fn arguments_view(outcome: Result<Vec<Argument>, ParseError>) -> Result<
    Seq<ArgumentView>,
    ParseError,
> {
    match outcome {
        Ok(arguments) => Ok(arguments.deep_view()),
        Err(e) => Err(e),
    }
}

/// The outcome of a scan, as mathematical values.
pub open spec fn records_view(outcome: Result<Vec<FunctionRecord>, ParseError>) -> Result<
    Seq<FunctionRecordView>,
    ParseError,
> {
    match outcome {
        Ok(records) => Ok(records.deep_view()),
        Err(e) => Err(e),
    }
}

} // verus!
