//! Well-formed source text, and what becomes of it.
//!
//! A declaration is a return type, a name, a list of parameters and a body,
//! together with the spaces that its author put between them. Written out,
//! a sequence of declarations is scanned back into records that hold the
//! same return types, names and parameters, in the same order; the emitted
//! document then lists those names and parameters, and nothing of the
//! bodies.

use crate::arguments::{argument_of, arguments_of};
use crate::emitter::{document_text, lemma_document_of_signatures};
use crate::properties::{lemma_run_in_two_parts, lemma_scan_drops_line_feeds, without_line_feeds};
use crate::record::{ArgumentView, FunctionRecordView, ParseError};
use crate::scanner::{initial_state, is_bracket, run, scanned, step, ScanStateView};
use crate::text::{
    is_blank, is_whitespace, joined, lemma_pieces_of_one, lemma_pieces_of_one_more,
    lemma_trimmed_between_whitespace, lemma_trimmed_whitespace, lemma_words_before_whitespace,
    lemma_words_of_one_more, pieces, words,
};
use vstd::prelude::*;

verus! {

/// Whether every character of `s` is a space.
pub open spec fn is_spaces(s: Seq<char>) -> bool {
    forall|i: int| 0 <= i < s.len() ==> #[trigger] s[i] == ' '
}

/// Whether `s` can stand as a type or a name: it is not empty, and holds no
/// whitespace, bracket or comma.
pub open spec fn is_word(s: Seq<char>) -> bool {
    &&& s.len() > 0
    &&& forall|i: int|
        0 <= i < s.len() ==> !is_whitespace(#[trigger] s[i]) && !is_bracket(s[i]) && s[i] != ','
}

/// A parameter as its author wrote it: the type and the name, and the
/// spaces before, between and after them.
pub struct Parameter {
    pub arg_type: Seq<char>,
    pub arg_name: Seq<char>,
    pub before: Seq<char>,
    pub between: Seq<char>,
    pub after: Seq<char>,
}

/// A function as its author wrote it: the return type, the name, the
/// parameters and the body, and the spaces after the return type, after the
/// name and after the parameter list.
pub struct Declaration {
    pub return_type: Seq<char>,
    pub name: Seq<char>,
    pub parameters: Seq<Parameter>,
    pub body: Seq<char>,
    pub after_type: Seq<char>,
    pub after_name: Seq<char>,
    pub after_list: Seq<char>,
}

/// Whether `p` can be written out and read back: its type and its name are
/// words, with at least one space between them.
pub open spec fn is_parameter(p: Parameter) -> bool {
    &&& is_word(p.arg_type)
    &&& is_word(p.arg_name)
    &&& is_spaces(p.before)
    &&& is_spaces(p.between)
    &&& is_spaces(p.after)
    &&& p.between.len() > 0
}

/// Whether `d` can be written out and scanned back: its return type, its
/// name and its parameters are well formed, at least one space follows the
/// return type, and the body holds no bracket.
pub open spec fn well_formed(d: Declaration) -> bool {
    &&& is_word(d.return_type)
    &&& is_word(d.name)
    &&& forall|i: int| 0 <= i < d.parameters.len() ==> is_parameter(#[trigger] d.parameters[i])
    &&& forall|i: int| 0 <= i < d.body.len() ==> !is_bracket(#[trigger] d.body[i])
    &&& is_spaces(d.after_type)
    &&& is_spaces(d.after_name)
    &&& is_spaces(d.after_list)
    &&& d.after_type.len() > 0
}

/// What may stand between two declarations: nothing, or one space.
pub open spec fn is_gap(gap: Seq<char>) -> bool {
    gap.len() <= 1 && is_spaces(gap)
}

/// A parameter as written.
pub open spec fn parameter_text(p: Parameter) -> Seq<char> {
    p.before + p.arg_type + p.between + p.arg_name + p.after
}

/// A parameter list as written: the parameters with a comma between each
/// two.
pub open spec fn parameter_list_text(parameters: Seq<Parameter>) -> Seq<char> {
    joined(parameters.map_values(|p: Parameter| parameter_text(p)), seq![','])
}

/// A declaration as written: the return type, the name, the parameter list
/// in parentheses and the body in braces.
pub open spec fn declaration_text(d: Declaration) -> Seq<char> {
    d.return_type + d.after_type + d.name + d.after_name + seq!['('] + parameter_list_text(
        d.parameters,
    ) + seq![')'] + d.after_list + seq!['{'] + d.body + seq!['}']
}

/// Declarations as written, with `gap` between each two.
pub open spec fn source_text(declarations: Seq<Declaration>, gap: Seq<char>) -> Seq<char> {
    joined(declarations.map_values(|d: Declaration| declaration_text(d)), gap)
}

/// The argument that a parameter declares.
pub open spec fn argument(p: Parameter) -> ArgumentView {
    ArgumentView { arg_type: p.arg_type, arg_name: p.arg_name }
}

/// The arguments that parameters declare, in order.
pub open spec fn arguments(parameters: Seq<Parameter>) -> Seq<ArgumentView> {
    parameters.map_values(|p: Parameter| argument(p))
}

/// The record that the scanner makes of a well-formed declaration. Its body
/// is empty: of the text between the braces only the spaces are collected,
/// and they are trimmed away.
pub open spec fn record_of(d: Declaration) -> FunctionRecordView {
    FunctionRecordView {
        return_type: d.return_type,
        function_name: d.name,
        arguments: arguments(d.parameters),
        function_body: Seq::empty(),
    }
}

/// The records that the scanner makes of well-formed declarations.
pub open spec fn records_of(declarations: Seq<Declaration>) -> Seq<FunctionRecordView> {
    declarations.map_values(|d: Declaration| record_of(d))
}

/// The state between two functions, with `records` finished.
spec fn at_rest(records: Seq<FunctionRecordView>) -> ScanStateView {
    ScanStateView { records, ..initial_state() }
}

/// Whether the scanner is in a body, with nothing but spaces collected.
spec fn in_body(st: ScanStateView) -> bool {
    &&& !st.in_return_type
    &&& !st.in_function_name
    &&& !st.in_argument_list
    &&& st.in_function_body
    &&& is_spaces(st.buffer)
}

/// Whether two states agree on the finished records and on the return type,
/// the name and the arguments of the record in progress.
spec fn same_signature(a: ScanStateView, b: ScanStateView) -> bool {
    &&& a.records == b.records
    &&& a.current.return_type == b.current.return_type
    &&& a.current.function_name == b.current.function_name
    &&& a.current.arguments == b.current.arguments
}

/// Whether state `st` puts the character `c` into its buffer and changes
/// nothing else: a space outside a return type, or, while a return type, a
/// name or an argument list is read, a character other than a bracket or a
/// line feed.
spec fn is_collected(st: ScanStateView, c: char) -> bool {
    if c == ' ' {
        !st.in_return_type
    } else {
        &&& !is_bracket(c)
        &&& c != '\n'
        &&& st.in_return_type || st.in_function_name || st.in_argument_list
    }
}

/// Spaces are whitespace.
proof fn lemma_spaces_are_blank(s: Seq<char>)
    requires
        is_spaces(s),
    ensures
        is_blank(s),
{
    assert forall|i: int| 0 <= i < s.len() implies is_whitespace(#[trigger] s[i]) by {
        assert(s[i] == ' ');
    }
}

/// A parameter as written is read as the argument it declares, and holds no
/// comma.
proof fn lemma_argument_of_parameter(p: Parameter)
    requires
        is_parameter(p),
    ensures
        argument_of(parameter_text(p)) == Some(argument(p)),
        !parameter_text(p).contains(','),
        parameter_text(p).len() > 0,
{
    let whole = parameter_text(p);
    let typed = p.before + p.arg_type;
    let spaced = typed + p.between;
    let named = spaced + p.arg_name;
    lemma_spaces_are_blank(p.before);
    lemma_spaces_are_blank(p.between);
    lemma_spaces_are_blank(p.after);
    assert(words(p.before) =~= Seq::<Seq<char>>::empty()) by {
        lemma_words_before_whitespace(Seq::empty(), p.before);
        assert(Seq::<char>::empty() + p.before =~= p.before);
    }
    assert(p.before.len() > 0 ==> p.before.last() == ' ');
    lemma_words_of_one_more(p.before, p.arg_type);
    lemma_words_before_whitespace(typed, p.between);
    assert(spaced.last() == p.between.last());
    lemma_words_of_one_more(spaced, p.arg_name);
    lemma_words_before_whitespace(named, p.after);
    assert(words(whole) =~= seq![p.arg_type, p.arg_name]);
    assert forall|i: int| 0 <= i < whole.len() implies whole[i] != ',' by {
        let a = p.before.len();
        let b = a + p.arg_type.len();
        let c = b + p.between.len();
        let d = c + p.arg_name.len();
        if i < a {
            assert(whole[i] == p.before[i]);
        } else if i < b {
            assert(whole[i] == p.arg_type[i - a]);
        } else if i < c {
            assert(whole[i] == p.between[i - b]);
        } else if i < d {
            assert(whole[i] == p.arg_name[i - c]);
        } else {
            assert(whole[i] == p.after[i - d]);
        }
    }
}

/// A parameter list as written is cut at its commas into its parameters as
/// written.
proof fn lemma_pieces_of_parameter_list(parameters: Seq<Parameter>)
    requires
        parameters.len() > 0,
        forall|i: int| 0 <= i < parameters.len() ==> is_parameter(#[trigger] parameters[i]),
    ensures
        parameter_list_text(parameters).len() > 0,
        pieces(parameter_list_text(parameters), ',') == parameters.map_values(
            |p: Parameter| parameter_text(p),
        ),
    decreases parameters.len(),
{
    let texts = parameters.map_values(|p: Parameter| parameter_text(p));
    let last = parameters.last();
    lemma_argument_of_parameter(last);
    if parameters.len() == 1 {
        lemma_pieces_of_one(parameter_text(last), ',');
        assert(seq![parameter_text(last)] =~= texts);
    } else {
        let shorter = parameters.drop_last();
        assert(texts.drop_last() =~= shorter.map_values(|p: Parameter| parameter_text(p)));
        lemma_pieces_of_parameter_list(shorter);
        lemma_pieces_of_one_more(parameter_list_text(shorter), ',', parameter_text(last));
        assert(texts.drop_last().push(parameter_text(last)) =~= texts);
    }
}

/// A parameter list as written is read as the arguments that its parameters
/// declare.
pub proof fn lemma_arguments_of_parameter_list(parameters: Seq<Parameter>)
    requires
        forall|i: int| 0 <= i < parameters.len() ==> is_parameter(#[trigger] parameters[i]),
    ensures
        arguments_of(parameter_list_text(parameters)) == Ok::<Seq<ArgumentView>, ParseError>(
            arguments(parameters),
        ),
{
    if parameters.len() == 0 {
        assert(arguments(parameters) =~= Seq::empty());
    } else {
        lemma_pieces_of_parameter_list(parameters);
        let segments = pieces(parameter_list_text(parameters), ',');
        assert forall|i: int| 0 <= i < segments.len() implies argument_of(#[trigger] segments[i])
            == Some(argument(parameters[i])) by {
            lemma_argument_of_parameter(parameters[i]);
        }
        assert(Seq::new(segments.len(), |i: int| argument_of(segments[i])->0) =~= arguments(
            parameters,
        ));
    }
}

/// A parameter list as written holds no bracket and no line feed.
proof fn lemma_parameter_list_holds_no_bracket(parameters: Seq<Parameter>)
    requires
        forall|i: int| 0 <= i < parameters.len() ==> is_parameter(#[trigger] parameters[i]),
    ensures
        forall|i: int|
            0 <= i < parameter_list_text(parameters).len() ==> !is_bracket(
                #[trigger] parameter_list_text(parameters)[i],
            ) && parameter_list_text(parameters)[i] != '\n',
    decreases parameters.len(),
{
    let texts = parameters.map_values(|p: Parameter| parameter_text(p));
    let list = parameter_list_text(parameters);
    if parameters.len() > 0 {
        let p = parameters.last();
        let written = parameter_text(p);
        assert forall|i: int| 0 <= i < written.len() implies !is_bracket(#[trigger] written[i])
            && written[i] != '\n' by {
            let a = p.before.len();
            let b = a + p.arg_type.len();
            let c = b + p.between.len();
            let d = c + p.arg_name.len();
            if i < a {
                assert(written[i] == p.before[i]);
            } else if i < b {
                assert(written[i] == p.arg_type[i - a]);
            } else if i < c {
                assert(written[i] == p.between[i - b]);
            } else if i < d {
                assert(written[i] == p.arg_name[i - c]);
            } else {
                assert(written[i] == p.after[i - d]);
            }
        }
        if parameters.len() > 1 {
            let shorter = parameters.drop_last();
            assert(texts.drop_last() =~= shorter.map_values(|p: Parameter| parameter_text(p)));
            lemma_parameter_list_holds_no_bracket(shorter);
            let before = parameter_list_text(shorter);
            assert(list == before + seq![','] + written);
            assert forall|i: int| 0 <= i < list.len() implies !is_bracket(#[trigger] list[i])
                && list[i] != '\n' by {
                if i < before.len() {
                    assert(list[i] == before[i]);
                } else if i > before.len() {
                    assert(list[i] == written[i - before.len() - 1]);
                }
            }
        }
    }
}

/// A run over one character more is a step from where the run got to.
proof fn lemma_run_one_more(st: ScanStateView, text: Seq<char>, c: char)
    ensures
        run(st, text.push(c)) == match run(st, text) {
            Ok(mid) => step(mid, c),
            Err(e) => Err(e),
        },
{
    assert(text.push(c).drop_last() =~= text);
}

/// Text of which every character is collected ends up in the buffer as it
/// is, and changes nothing else.
proof fn lemma_run_collects(st: ScanStateView, text: Seq<char>)
    requires
        forall|i: int| 0 <= i < text.len() ==> is_collected(st, #[trigger] text[i]),
    ensures
        run(st, text) == Ok::<ScanStateView, ParseError>(
            ScanStateView { buffer: st.buffer + text, ..st },
        ),
    decreases text.len(),
{
    if text.len() == 0 {
        assert(st.buffer + text =~= st.buffer);
    } else {
        let shorter = text.drop_last();
        assert forall|i: int| 0 <= i < shorter.len() implies is_collected(
            st,
            #[trigger] shorter[i],
        ) by {
            assert(shorter[i] == text[i]);
        }
        lemma_run_collects(st, shorter);
        assert(is_collected(st, text[text.len() - 1]));
        assert((st.buffer + shorter).push(text.last()) =~= st.buffer + text);
    }
}

/// In a body, text without brackets leaves the scanner in the body, and
/// adds nothing but spaces to the buffer.
proof fn lemma_run_in_body(st: ScanStateView, body: Seq<char>)
    requires
        in_body(st),
        forall|i: int| 0 <= i < body.len() ==> !is_bracket(#[trigger] body[i]),
    ensures
        run(st, body) is Ok,
        in_body(run(st, body)->Ok_0),
        same_signature(run(st, body)->Ok_0, st),
    decreases body.len(),
{
    if body.len() > 0 {
        let shorter = body.drop_last();
        assert forall|i: int| 0 <= i < shorter.len() implies !is_bracket(#[trigger] shorter[i]) by {
            assert(shorter[i] == body[i]);
        }
        lemma_run_in_body(st, shorter);
        assert(!is_bracket(body[body.len() - 1]));
    }
}

/// A well-formed declaration as written, after a gap, is scanned from the
/// state between two functions into one record more, and leaves the scanner
/// between two functions again.
proof fn lemma_run_declaration(
    earlier: Seq<FunctionRecordView>,
    gap: Seq<char>,
    d: Declaration,
)
    requires
        is_gap(gap),
        well_formed(d),
    ensures
        run(at_rest(earlier), gap + declaration_text(d)) == Ok::<ScanStateView, ParseError>(
            at_rest(earlier.push(record_of(d))),
        ),
{
    let list = parameter_list_text(d.parameters);
    let start = at_rest(earlier);
    lemma_spaces_are_blank(gap);
    lemma_spaces_are_blank(d.after_type);
    lemma_spaces_are_blank(d.after_name);

    // The gap and the return type are collected.
    let typed = ScanStateView { buffer: gap + d.return_type, ..start };
    let text_typed = gap + d.return_type;
    assert(run(start, text_typed) == Ok::<ScanStateView, ParseError>(typed)) by {
        let spaced = ScanStateView { buffer: gap, ..start };
        assert(run(start, gap) == Ok::<ScanStateView, ParseError>(spaced)) by {
            if gap.len() == 0 {
                assert(gap =~= Seq::empty());
            } else {
                assert(gap =~= Seq::<char>::empty().push(' '));
                lemma_run_one_more(start, Seq::empty(), ' ');
            }
        }
        lemma_run_collects(spaced, d.return_type);
        lemma_run_in_two_parts(start, gap, d.return_type);
    }

    // The first space after it ends the return type; the spaces that
    // follow, the name and the spaces after the name are collected.
    let more_spaces = d.after_type.drop_first();
    let name_text = more_spaces + d.name + d.after_name;
    let named = ScanStateView {
        in_return_type: false,
        in_function_name: true,
        buffer: name_text,
        current: FunctionRecordView { return_type: d.return_type, ..start.current },
        ..start
    };
    let text_named = text_typed.push(' ') + name_text;
    assert(run(start, text_named) == Ok::<ScanStateView, ParseError>(named)) by {
        lemma_run_one_more(start, text_typed, ' ');
        lemma_trimmed_between_whitespace(gap, d.return_type, Seq::empty());
        assert(gap + d.return_type + Seq::<char>::empty() =~= gap + d.return_type);
        let typed_end = ScanStateView { buffer: Seq::empty(), ..named };
        assert(step(typed, ' ') == Ok::<ScanStateView, ParseError>(typed_end));
        assert forall|i: int| 0 <= i < name_text.len() implies is_collected(
            typed_end,
            #[trigger] name_text[i],
        ) by {
            let a = more_spaces.len();
            let b = a + d.name.len();
            if i < a {
                assert(name_text[i] == d.after_type[i + 1]);
            } else if i < b {
                assert(name_text[i] == d.name[i - a]);
            } else {
                assert(name_text[i] == d.after_name[i - b]);
            }
        }
        lemma_run_collects(typed_end, name_text);
        assert(Seq::<char>::empty() + name_text =~= name_text);
        lemma_run_in_two_parts(start, text_typed.push(' '), name_text);
    }

    // The opening parenthesis ends the name; the parameter list is collected.
    let listed = ScanStateView {
        in_function_name: false,
        in_argument_list: true,
        buffer: list,
        current: FunctionRecordView { function_name: d.name, ..named.current },
        ..named
    };
    let text_listed = text_named.push('(') + list;
    assert(run(start, text_listed) == Ok::<ScanStateView, ParseError>(listed)) by {
        lemma_run_one_more(start, text_named, '(');
        assert(is_blank(more_spaces)) by {
            assert forall|i: int| 0 <= i < more_spaces.len() implies is_whitespace(
                #[trigger] more_spaces[i],
            ) by {
                assert(more_spaces[i] == d.after_type[i + 1]);
            }
        }
        lemma_trimmed_between_whitespace(more_spaces, d.name, d.after_name);
        let named_end = ScanStateView { buffer: Seq::empty(), ..listed };
        assert(step(named, '(') == Ok::<ScanStateView, ParseError>(named_end));
        lemma_parameter_list_holds_no_bracket(d.parameters);
        lemma_run_collects(named_end, list);
        assert(Seq::<char>::empty() + list =~= list);
        lemma_run_in_two_parts(start, text_named.push('('), list);
    }

    // The closing parenthesis has the list read; the spaces after it are
    // collected, and the brace opens the body.
    let closed = ScanStateView {
        in_argument_list: false,
        buffer: d.after_list,
        current: FunctionRecordView { arguments: arguments(d.parameters), ..listed.current },
        ..listed
    };
    let opened = ScanStateView { in_function_body: true, ..closed };
    let text_opened = (text_listed.push(')') + d.after_list).push('{');
    assert(run(start, text_opened) == Ok::<ScanStateView, ParseError>(opened)) by {
        lemma_run_one_more(start, text_listed, ')');
        lemma_arguments_of_parameter_list(d.parameters);
        let listed_end = ScanStateView { buffer: Seq::empty(), ..closed };
        assert(step(listed, ')') == Ok::<ScanStateView, ParseError>(listed_end));
        lemma_run_collects(listed_end, d.after_list);
        assert(Seq::<char>::empty() + d.after_list =~= d.after_list);
        lemma_run_in_two_parts(start, text_listed.push(')'), d.after_list);
        lemma_run_one_more(start, text_listed.push(')') + d.after_list, '{');
    }

    // The body adds nothing but spaces to the buffer; the closing brace
    // finishes the record.
    let text_closed = (text_opened + d.body).push('}');
    assert(run(start, text_closed) == Ok::<ScanStateView, ParseError>(
        at_rest(earlier.push(record_of(d))),
    )) by {
        lemma_run_in_body(opened, d.body);
        lemma_run_in_two_parts(start, text_opened, d.body);
        lemma_run_one_more(start, text_opened + d.body, '}');
        let filled = run(opened, d.body)->Ok_0;
        lemma_spaces_are_blank(filled.buffer);
        lemma_trimmed_whitespace(filled.buffer);
    }
    assert(gap + declaration_text(d) =~= text_closed) by {
        assert(d.after_type =~= seq![' '] + more_spaces);
    }
}

/// Well-formed declarations as written are run over, from the beginning of
/// a scan, into their records, and leave the scanner between two functions.
proof fn lemma_run_source_text(declarations: Seq<Declaration>, gap: Seq<char>)
    requires
        is_gap(gap),
        forall|i: int| 0 <= i < declarations.len() ==> well_formed(#[trigger] declarations[i]),
    ensures
        run(initial_state(), source_text(declarations, gap)) == Ok::<ScanStateView, ParseError>(
            at_rest(records_of(declarations)),
        ),
    decreases declarations.len(),
{
    let texts = declarations.map_values(|d: Declaration| declaration_text(d));
    if declarations.len() == 0 {
        assert(records_of(declarations) =~= Seq::empty());
    } else {
        let shorter = declarations.drop_last();
        let last = declarations.last();
        assert(well_formed(last));
        assert(records_of(shorter).push(record_of(last)) =~= records_of(declarations));
        if declarations.len() == 1 {
            assert(records_of(shorter) =~= Seq::empty());
            lemma_run_declaration(Seq::empty(), Seq::empty(), last);
            assert(Seq::<char>::empty() + declaration_text(last) =~= declaration_text(last));
        } else {
            assert(texts.drop_last() =~= shorter.map_values(|d: Declaration| declaration_text(d)));
            lemma_run_source_text(shorter, gap);
            lemma_run_declaration(records_of(shorter), gap, last);
            lemma_run_in_two_parts(
                initial_state(),
                source_text(shorter, gap),
                gap + declaration_text(last),
            );
            assert(source_text(declarations, gap) =~= source_text(shorter, gap) + (gap
                + declaration_text(last)));
        }
    }
}

/// Well-formed declarations as written, with nothing or one space between
/// each two, are scanned into one record for each declaration, in the same
/// order, with the declared return type, name and arguments.
pub proof fn lemma_scan_of_source_text(declarations: Seq<Declaration>, gap: Seq<char>)
    requires
        is_gap(gap),
        forall|i: int| 0 <= i < declarations.len() ==> well_formed(#[trigger] declarations[i]),
    ensures
        scanned(source_text(declarations, gap)) == Ok::<Seq<FunctionRecordView>, ParseError>(
            records_of(declarations),
        ),
{
    lemma_run_source_text(declarations, gap);
}

/// Line feeds may stand anywhere in the text of well-formed declarations,
/// even within a word: a text that is such a text once its line feeds are
/// taken out is scanned into the same records.
pub proof fn lemma_scan_of_source_lines(
    text: Seq<char>,
    declarations: Seq<Declaration>,
    gap: Seq<char>,
)
    requires
        is_gap(gap),
        forall|i: int| 0 <= i < declarations.len() ==> well_formed(#[trigger] declarations[i]),
        without_line_feeds(text) == source_text(declarations, gap),
    ensures
        scanned(text) == Ok::<Seq<FunctionRecordView>, ParseError>(records_of(declarations)),
{
    lemma_scan_drops_line_feeds(text);
    lemma_scan_of_source_text(declarations, gap);
}

/// Scanning well-formed declarations as written and emitting the records
/// found gives the document of the declared names and arguments: the
/// document of any records that carry them, whatever their bodies.
pub proof fn lemma_document_of_source_text(
    declarations: Seq<Declaration>,
    gap: Seq<char>,
    records: Seq<FunctionRecordView>,
)
    requires
        is_gap(gap),
        forall|i: int| 0 <= i < declarations.len() ==> well_formed(#[trigger] declarations[i]),
        records.len() == declarations.len(),
        forall|i: int|
            0 <= i < records.len() ==> (#[trigger] records[i]).function_name
                == declarations[i].name && records[i].arguments == arguments(
                declarations[i].parameters,
            ),
    ensures
        scanned(source_text(declarations, gap)) is Ok,
        document_text(scanned(source_text(declarations, gap))->Ok_0) == document_text(records),
{
    lemma_scan_of_source_text(declarations, gap);
    lemma_document_of_signatures(records_of(declarations), records);
}

} // verus!
