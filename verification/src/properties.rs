//! What holds of every scan, whatever the text.

use crate::arguments::{argument_of, arguments_of};
use crate::record::{ArgumentView, FunctionRecordView, ParseError};
use crate::scanner::{initial_state, is_bracket, run, scanned, step, ScanStateView};
use crate::text::{every, lemma_pieces_keep, lemma_trimmed_keeps, lemma_words_keep, pieces, words};
use vstd::prelude::*;

verus! {

/// `text` without its line feeds.
pub open spec fn without_line_feeds(text: Seq<char>) -> Seq<char>
    decreases text.len(),
{
    if text.len() == 0 {
        Seq::empty()
    } else if text.last() == '\n' {
        without_line_feeds(text.drop_last())
    } else {
        without_line_feeds(text.drop_last()).push(text.last())
    }
}

/// State `st` with the records `earlier` put before its own.
pub open spec fn preceded_by(earlier: Seq<FunctionRecordView>, st: ScanStateView) -> ScanStateView {
    ScanStateView { records: earlier + st.records, ..st }
}

/// The outcome of one scan after another: the records of both, in that
/// order, or the error of the first that fails.
pub open spec fn one_after_another(
    first: Result<Seq<FunctionRecordView>, ParseError>,
    second: Result<Seq<FunctionRecordView>, ParseError>,
) -> Result<Seq<FunctionRecordView>, ParseError> {
    match first {
        Ok(earlier) => match second {
            Ok(later) => Ok(earlier + later),
            Err(e) => Err(e),
        },
        Err(e) => Err(e),
    }
}

/// Running over a text in two parts is running over the first part and,
/// from the state reached, over the second.
pub proof fn lemma_run_in_two_parts(st: ScanStateView, a: Seq<char>, b: Seq<char>)
    ensures
        run(st, a + b) == match run(st, a) {
            Ok(mid) => run(mid, b),
            Err(e) => Err(e),
        },
    decreases b.len(),
{
    if b.len() == 0 {
        assert(a + b =~= a);
    } else {
        assert((a + b).drop_last() =~= a + b.drop_last());
        lemma_run_in_two_parts(st, a, b.drop_last());
    }
}

/// A line feed is dropped wherever it stands: a run over a text ends as the
/// run over the same text without its line feeds.
pub proof fn lemma_run_drops_line_feeds(st: ScanStateView, text: Seq<char>)
    ensures
        run(st, text) == run(st, without_line_feeds(text)),
    decreases text.len(),
{
    if text.len() > 0 {
        let shorter = text.drop_last();
        lemma_run_drops_line_feeds(st, shorter);
        if text.last() != '\n' {
            assert(without_line_feeds(shorter).push(text.last()).drop_last()
                =~= without_line_feeds(shorter));
        }
    }
}

/// Line feeds never reach a record: a text and the same text without its
/// line feeds are scanned into the same records, or refused with the same
/// error. No separator takes the place of a line feed, so the characters on
/// both sides of it stand next to each other.
pub proof fn lemma_scan_drops_line_feeds(text: Seq<char>)
    ensures
        scanned(text) == scanned(without_line_feeds(text)),
{
    lemma_run_drops_line_feeds(initial_state(), text);
}

/// Records finished earlier do not influence a step.
pub proof fn lemma_step_preceded(earlier: Seq<FunctionRecordView>, st: ScanStateView, c: char)
    ensures
        step(preceded_by(earlier, st), c) == match step(st, c) {
            Ok(next) => Ok(preceded_by(earlier, next)),
            Err(e) => Err(e),
        },
{
    if c == '}' {
        let next = step(st, c)->Ok_0;
        assert(step(preceded_by(earlier, st), c)->Ok_0.records =~= earlier + next.records);
    }
}

/// Records finished earlier do not influence a run.
pub proof fn lemma_run_preceded(earlier: Seq<FunctionRecordView>, st: ScanStateView, text: Seq<char>)
    ensures
        run(preceded_by(earlier, st), text) == match run(st, text) {
            Ok(end) => Ok(preceded_by(earlier, end)),
            Err(e) => Err(e),
        },
    decreases text.len(),
{
    if text.len() > 0 {
        lemma_run_preceded(earlier, st, text.drop_last());
        match run(st, text.drop_last()) {
            Ok(mid) => {
                lemma_step_preceded(earlier, mid, text.last());
            },
            Err(_) => {},
        }
    }
}

/// Functions that follow one another are scanned one by one: where `first`
/// ends with a closing brace, the scan of `first` followed by `second` gives
/// the records of `first` and then those of `second`, each as if it had been
/// scanned alone, and fails where either of them fails.
pub proof fn lemma_scan_one_after_another(first: Seq<char>, second: Seq<char>)
    requires
        first.len() > 0,
        first.last() == '}',
    ensures
        scanned(first + second) == one_after_another(scanned(first), scanned(second)),
{
    lemma_run_in_two_parts(initial_state(), first, second);
    match run(initial_state(), first) {
        Ok(mid) => {
            assert(mid == preceded_by(mid.records, initial_state())) by {
                assert(mid.records =~= mid.records + initial_state().records);
            }
            lemma_run_preceded(mid.records, initial_state(), second);
        },
        Err(_) => {},
    }
}

/// How often `c` occurs in `text`.
pub open spec fn occurrences(text: Seq<char>, c: char) -> nat
    decreases text.len(),
{
    if text.len() == 0 {
        0
    } else if text.last() == c {
        occurrences(text.drop_last(), c) + 1
    } else {
        occurrences(text.drop_last(), c)
    }
}

/// A run adds one record for each closing brace of its text, and leaves the
/// records that were finished before it as they were.
pub proof fn lemma_run_adds_records(st: ScanStateView, text: Seq<char>)
    requires
        run(st, text) is Ok,
    ensures
        run(st, text)->Ok_0.records.len() == st.records.len() + occurrences(text, '}'),
        run(st, text)->Ok_0.records.take(st.records.len() as int) == st.records,
    decreases text.len(),
{
    if text.len() == 0 {
        assert(st.records.take(st.records.len() as int) =~= st.records);
    } else {
        lemma_run_adds_records(st, text.drop_last());
        let mid = run(st, text.drop_last())->Ok_0;
        let end = run(st, text)->Ok_0;
        assert(end.records.take(st.records.len() as int) =~= mid.records.take(
            st.records.len() as int,
        ));
    }
}

/// A scan finishes one record for each closing brace of the text: no record
/// is handed out before its closing brace was read.
pub proof fn lemma_record_for_each_closing_brace(text: Seq<char>)
    requires
        scanned(text) is Ok,
    ensures
        scanned(text)->Ok_0.len() == occurrences(text, '}'),
{
    lemma_run_adds_records(initial_state(), text);
}

/// A record, once finished, is not changed by what follows it: the records
/// of a text are the first of the records of any longer text that is
/// scanned to the end.
pub proof fn lemma_finished_records_stay(text: Seq<char>, more: Seq<char>)
    requires
        scanned(text + more) is Ok,
    ensures
        scanned(text) is Ok,
        scanned(text)->Ok_0 == scanned(text + more)->Ok_0.take(scanned(text)->Ok_0.len() as int),
{
    lemma_run_in_two_parts(initial_state(), text, more);
    lemma_run_adds_records(run(initial_state(), text)->Ok_0, more);
}

/// The characters that can reach a record: all but parentheses, braces and
/// line feeds.
pub open spec fn kept() -> spec_fn(char) -> bool {
    |c: char| !is_bracket(c) && c != '\n'
}

/// Whether the type and the name of `argument` hold kept characters only.
pub open spec fn is_clean_argument(argument: ArgumentView) -> bool {
    every(argument.arg_type, kept()) && every(argument.arg_name, kept())
}

/// Whether every text in `record` holds kept characters only.
pub open spec fn is_clean_record(record: FunctionRecordView) -> bool {
    &&& every(record.return_type, kept())
    &&& every(record.function_name, kept())
    &&& every(record.function_body, kept())
    &&& forall|i: int|
        0 <= i < record.arguments.len() ==> is_clean_argument(#[trigger] record.arguments[i])
}

/// Whether every text in `st` holds kept characters only.
pub open spec fn is_clean_state(st: ScanStateView) -> bool {
    &&& every(st.buffer, kept())
    &&& is_clean_record(st.current)
    &&& forall|i: int| 0 <= i < st.records.len() ==> is_clean_record(#[trigger] st.records[i])
}

/// The arguments read from a text hold no character that the text does not
/// hold.
pub proof fn lemma_arguments_are_clean(text: Seq<char>)
    requires
        every(text, kept()),
        arguments_of(text) is Ok,
    ensures
        forall|i: int|
            0 <= i < arguments_of(text)->Ok_0.len() ==> is_clean_argument(
                #[trigger] arguments_of(text)->Ok_0[i],
            ),
{
    if text.len() > 0 {
        let segments = pieces(text, ',');
        let arguments = arguments_of(text)->Ok_0;
        lemma_pieces_keep(text, ',', kept());
        assert forall|i: int| 0 <= i < arguments.len() implies is_clean_argument(
            #[trigger] arguments[i],
        ) by {
            assert(argument_of(segments[i]) is Some);
            lemma_words_keep(segments[i], kept());
            let found = words(segments[i]);
            assert(every(found[0], kept()));
            assert(every(found[1], kept()));
        }
    }
}

/// A step brings no parenthesis, brace or line feed into the state.
pub proof fn lemma_step_keeps_clean(st: ScanStateView, c: char)
    requires
        is_clean_state(st),
        step(st, c) is Ok,
    ensures
        is_clean_state(step(st, c)->Ok_0),
{
    let next = step(st, c)->Ok_0;
    lemma_trimmed_keeps(st.buffer, kept());
    if c == ')' {
        lemma_arguments_are_clean(st.buffer);
    }
    assert(every(next.buffer, kept()));
    assert(is_clean_record(next.current));
    assert forall|i: int| 0 <= i < next.records.len() implies is_clean_record(
        #[trigger] next.records[i],
    ) by {
        if i < st.records.len() {
            assert(next.records[i] == st.records[i]);
        }
    }
}

/// A run brings no parenthesis, brace or line feed into the state.
pub proof fn lemma_run_keeps_clean(st: ScanStateView, text: Seq<char>)
    requires
        is_clean_state(st),
        run(st, text) is Ok,
    ensures
        is_clean_state(run(st, text)->Ok_0),
    decreases text.len(),
{
    if text.len() > 0 {
        lemma_run_keeps_clean(st, text.drop_last());
        lemma_step_keeps_clean(run(st, text.drop_last())->Ok_0, text.last());
    }
}

/// No text of a record holds a parenthesis, a brace or a line feed. In
/// particular a body never holds the braces that were around it.
pub proof fn lemma_records_are_clean(text: Seq<char>)
    requires
        scanned(text) is Ok,
    ensures
        forall|i: int|
            0 <= i < scanned(text)->Ok_0.len() ==> is_clean_record(#[trigger] scanned(text)->Ok_0[i]),
{
    lemma_run_keeps_clean(initial_state(), text);
}

} // verus!
