//! The order in which the requests of an editor are taken up, and the edits
//! that they make to a text.
//!
//! Requests that change the program come first: as long as one of them is
//! pending, every request before it that only asks a question is dropped,
//! since its answer would be out of date. After the changes, one question
//! is answered. Errors are looked for once nothing is pending any more.

use vstd::prelude::*;
use std::collections::VecDeque;

verus! {

/// A position in a text, as an editor counts it.
#[derive(Clone, Copy, Debug, PartialEq, Eq, Hash, Structural)]
pub struct Position {
    pub line: u64,
    pub character: u64,
}

/// A part of a text, from `start` up to `end`.
#[derive(Clone, Copy, Debug, PartialEq, Eq, Hash, Structural)]
pub struct Range {
    pub start: Position,
    pub end: Position,
}

/// What an editor asks for. A task number says which answer belongs to
/// which request; a file is given by its address.
#[derive(Debug, PartialEq, Eq)]
pub enum QueryRequest {
    Initialize(usize),
    OpenFile(String, String),
    EditFile(String, Vec<(Range, String)>),
    RenameAtPosition(usize, String, Position, String),
    ReferencesAtPosition(usize, String, Position, bool),
    DefinitionAtPosition(usize, String, Position),
    TypeAtPosition(usize, String, Position),
}

impl QueryRequest {
    /// Whether the request changes the program.
    pub open spec fn changes_program(&self) -> bool {
        self is OpenFile || self is EditFile
    }

    /// Whether the request changes the program.
    pub fn is_mutation(&self) -> (mutation: bool)
        ensures
            mutation == self.changes_program(),
    {
        match self {
            QueryRequest::OpenFile(_, _) => true,
            QueryRequest::EditFile(_, _) => true,
            _ => false,
        }
    }
}

/// The number of requests up to the last one that changes the program.
pub open spec fn changes_end(messages: Seq<QueryRequest>) -> nat
    decreases messages.len(),
{
    if messages.len() == 0 {
        0
    } else if messages.last().changes_program() {
        messages.len()
    } else {
        changes_end(messages.drop_last())
    }
}

/// The requests among `messages` that change the program, in order.
pub open spec fn changes_of(messages: Seq<QueryRequest>) -> Seq<QueryRequest>
    decreases messages.len(),
{
    if messages.len() == 0 {
        Seq::empty()
    } else if messages.last().changes_program() {
        changes_of(messages.drop_last()).push(messages.last())
    } else {
        changes_of(messages.drop_last())
    }
}

/// The first of `messages`, if there is one.
pub open spec fn first_of(messages: Seq<QueryRequest>) -> Seq<QueryRequest> {
    if messages.len() > 0 {
        seq![messages[0]]
    } else {
        Seq::empty()
    }
}

/// What follows the first of `messages`.
pub open spec fn rest_of(messages: Seq<QueryRequest>) -> Seq<QueryRequest> {
    if messages.len() > 0 {
        messages.subrange(1, messages.len() as int)
    } else {
        Seq::empty()
    }
}

/// What is to be done in one turn.
pub struct Turn {
    /// The requests to process, in order.
    pub process: Vec<QueryRequest>,
    /// Whether errors are to be looked for and reported after that.
    pub check_for_errors: bool,
}

/// What remains of a query system once its channels and its database are
/// taken away: whether the program has changed since errors were last
/// looked for.
pub struct QuerySystem {
    pub needs_error_check: bool,
}

impl QuerySystem {
    /// A query system for a program in which nothing has changed.
    pub fn new() -> (system: QuerySystem)
        ensures
            !system.needs_error_check,
    {
        QuerySystem { needs_error_check: false }
    }

    /// Takes from `messages` what is to be processed in this turn: every
    /// request that changes the program, up to the last such request, and
    /// then the request after that. The requests in between are dropped.
    /// Errors are to be looked for when nothing is pending afterwards and
    /// the program has changed since they were last looked for.
    pub fn receive_messages(&mut self, messages: &mut VecDeque<QueryRequest>) -> (turn: Turn)
        ensures
            turn.process@ == changes_of(old(messages)@.subrange(
                0,
                changes_end(old(messages)@) as int,
            )) + first_of(
                old(messages)@.subrange(
                    changes_end(old(messages)@) as int,
                    old(messages)@.len() as int,
                ),
            ),
            final(messages)@ == rest_of(
                old(messages)@.subrange(
                    changes_end(old(messages)@) as int,
                    old(messages)@.len() as int,
                ),
            ),
            turn.check_for_errors == (final(messages)@.len() == 0 && (old(self).needs_error_check
                || changes_end(old(messages)@) > 0)),
            final(self).needs_error_check == (final(messages)@.len() > 0 && (old(
                self,
            ).needs_error_check || changes_end(old(messages)@) > 0)),
    {
        // The last request that changes the program: up to it, only
        // requests that change the program are processed.
        let mut end: usize = messages.len();
        assert(messages@.subrange(0, end as int) =~= messages@);
        while end > 0 && !messages[end - 1].is_mutation()
            invariant
                end <= messages@.len(),
                changes_end(messages@) == changes_end(messages@.subrange(0, end as int)),
            decreases end,
        {
            proof {
                let front = messages@.subrange(0, end as int);
                assert(front.drop_last() =~= messages@.subrange(0, end - 1));
            }
            end -= 1;
        }
        proof {
            let front = messages@.subrange(0, end as int);
            if end > 0 {
                assert(front.last() == messages@[end - 1]);
            }
            assert(messages@.subrange(0, messages@.len() as int) =~= messages@);
        }
        let mut process: Vec<QueryRequest> = Vec::new();
        let mut taken: usize = 0;
        while taken < end
            invariant
                taken <= end <= old(messages)@.len(),
                end == changes_end(old(messages)@),
                messages@ == old(messages)@.subrange(taken as int, old(messages)@.len() as int),
                process@ == changes_of(old(messages)@.subrange(0, taken as int)),
            decreases end - taken,
        {
            proof {
                let front = old(messages)@.subrange(0, taken + 1);
                assert(front.drop_last() =~= old(messages)@.subrange(0, taken as int));
                assert(front.last() == old(messages)@[taken as int]);
            }
            match messages.pop_front() {
                Some(message) => {
                    if message.is_mutation() {
                        process.push(message);
                    }
                },
                None => {},
            }
            assert(messages@ =~= old(messages)@.subrange(taken + 1, old(messages)@.len() as int));
            taken += 1;
        }
        if end > 0 {
            // After a change, errors have to be looked for at some point.
            self.needs_error_check = true;
        }
        // Every change is processed: now one question can be answered.
        let ghost rest = messages@;
        match messages.pop_front() {
            Some(message) => {
                process.push(message);
            },
            None => {},
        }
        proof {
            assert(messages@ =~= rest_of(rest));
            assert(process@ =~= changes_of(old(messages)@.subrange(0, end as int)) + first_of(
                rest,
            ));
        }
        // If nothing is pending, errors can be looked for. Otherwise that
        // waits for a later turn.
        let check_for_errors = messages.len() == 0 && self.needs_error_check;
        if check_for_errors {
            self.needs_error_check = false;
        }
        Turn { process, check_for_errors }
    }
}

/// The text `text` with the bytes from `start` up to `end` replaced by
/// `replacement`.
pub open spec fn replaced(text: Seq<u8>, start: int, end: int, replacement: Seq<u8>) -> Seq<u8> {
    text.subrange(0, start) + replacement + text.subrange(end, text.len() as int)
}

/// Replaces the bytes of `text` from `start` up to `end` by `replacement`.
pub fn replace_range(text: &mut Vec<u8>, start: usize, end: usize, replacement: &Vec<u8>)
    requires
        start <= end <= old(text)@.len(),
    ensures
        final(text)@ == replaced(old(text)@, start as int, end as int, replacement@),
{
    let mut result: Vec<u8> = Vec::new();
    let mut i: usize = 0;
    while i < start
        invariant
            i <= start <= text@.len(),
            result@ == text@.subrange(0, i as int),
        decreases start - i,
    {
        result.push(text[i]);
        assert(result@ =~= text@.subrange(0, i + 1));
        i += 1;
    }
    let mut j: usize = 0;
    while j < replacement.len()
        invariant
            j <= replacement@.len(),
            result@ == text@.subrange(0, start as int) + replacement@.subrange(0, j as int),
        decreases replacement@.len() - j,
    {
        result.push(replacement[j]);
        assert(result@ =~= text@.subrange(0, start as int) + replacement@.subrange(0, j + 1));
        j += 1;
    }
    assert(replacement@.subrange(0, j as int) =~= replacement@);
    let mut k: usize = end;
    while k < text.len()
        invariant
            end <= k <= text@.len(),
            result@ == text@.subrange(0, start as int) + replacement@ + text@.subrange(
                end as int,
                k as int,
            ),
        decreases text@.len() - k,
    {
        result.push(text[k]);
        assert(result@ =~= text@.subrange(0, start as int) + replacement@ + text@.subrange(
            end as int,
            k + 1,
        ));
        k += 1;
    }
    *text = result;
}

/// One edit of a text: the bytes from `start` up to `end` are replaced by
/// `replacement`.
pub struct Edit {
    pub start: usize,
    pub end: usize,
    pub replacement: Vec<u8>,
}

/// Whether `edit` fits a text of `len` bytes.
pub open spec fn fits(edit: Edit, len: nat) -> bool {
    edit.start <= edit.end <= len
}

/// The text after the first `count` of `edits` have been made to `text`,
/// one after the other, as far as each fits the text that it finds: the
/// first that does not fit stops the editing.
pub open spec fn edited(text: Seq<u8>, edits: Seq<Edit>, count: nat) -> (Seq<u8>, bool)
    decreases count,
{
    if count == 0 {
        (text, true)
    } else {
        let (before, fitted) = edited(text, edits, (count - 1) as nat);
        let edit = edits[count - 1];
        if fitted && fits(edit, before.len()) {
            (replaced(before, edit.start as int, edit.end as int, edit.replacement@), true)
        } else {
            (before, false)
        }
    }
}

/// Makes `edits` to `text`, one after the other. Each edit is made to the
/// text as the edits before it have left it. An edit that does not fit the
/// text stops the editing: the result then says so, and the text is as the
/// edits before had left it.
pub fn apply_edits(text: &mut Vec<u8>, edits: &Vec<Edit>) -> (fitted: bool)
    ensures
        final(text)@ == edited(old(text)@, edits@, edits@.len()).0,
        fitted == edited(old(text)@, edits@, edits@.len()).1,
{
    let mut i: usize = 0;
    while i < edits.len()
        invariant
            i <= edits@.len(),
            text@ == edited(old(text)@, edits@, i as nat).0,
            edited(old(text)@, edits@, i as nat).1,
        decreases edits@.len() - i,
    {
        let edit = &edits[i];
        if edit.start <= edit.end && edit.end <= text.len() {
            replace_range(text, edit.start, edit.end, &edit.replacement);
        } else {
            proof {
                lemma_edited_stops(old(text)@, edits@, (i + 1) as nat, edits@.len());
            }
            return false;
        }
        i += 1;
    }
    true
}

/// Once an edit has not fitted, no later edit is made.
pub proof fn lemma_edited_stops(text: Seq<u8>, edits: Seq<Edit>, stopped: nat, count: nat)
    requires
        stopped <= count,
        !edited(text, edits, stopped).1,
    ensures
        edited(text, edits, count) == edited(text, edits, stopped),
    decreases count,
{
    if stopped < count {
        lemma_edited_stops(text, edits, stopped, (count - 1) as nat);
    }
}

/// The part of a text that is line `lineno`, where `line_offsets` holds the
/// offset at which each line starts, and after them the length of the text:
/// from the start of the line up to the start of the next, so that the end
/// of the line is part of it.
pub fn line_span(line_offsets: &Vec<usize>, lineno: usize) -> (span: (usize, usize))
    requires
        lineno + 1 < line_offsets@.len(),
    ensures
        span == (line_offsets@[lineno as int], line_offsets@[lineno + 1]),
{
    assert(line_offsets@.len() == line_offsets.len());
    (line_offsets[lineno], line_offsets[lineno + 1])
}

/// The offsets at which the lines of the first `upto` bytes of `text`
/// start: 0, and the offset after each line feed.
pub open spec fn line_starts(text: Seq<u8>, upto: int) -> Seq<usize>
    decreases upto,
{
    if upto <= 0 {
        seq![0usize]
    } else if text[upto - 1] == 10u8 {
        line_starts(text, upto - 1).push(upto as usize)
    } else {
        line_starts(text, upto - 1)
    }
}

/// The offset at which each line of `text` starts, and after them the
/// length of the text.
pub fn line_offsets(text: &Vec<u8>) -> (offsets: Vec<usize>)
    ensures
        offsets@ == line_starts(text@, text@.len() as int).push(text@.len() as usize),
{
    let mut offsets: Vec<usize> = Vec::new();
    offsets.push(0);
    let mut i: usize = 0;
    while i < text.len()
        invariant
            i <= text@.len(),
            offsets@ == line_starts(text@, i as int),
        decreases text@.len() - i,
    {
        if text[i] == 10u8 {
            offsets.push(i + 1);
        }
        i += 1;
    }
    offsets.push(text.len());
    offsets
}

/// The offset of the byte at `column` of line `line`, if there is such a
/// line and the offset can be counted.
pub fn byte_index(line_offsets: &Vec<usize>, line: usize, column: usize) -> (index: Option<usize>)
    ensures
        index == if line < line_offsets@.len() && line_offsets@[line as int] + column
            <= usize::MAX {
            Some((line_offsets@[line as int] + column) as usize)
        } else {
            None
        },
{
    if line < line_offsets.len() {
        line_offsets[line].checked_add(column)
    } else {
        None
    }
}

/// Whether `line` is the last line of `line_offsets` that starts at or
/// before `byte_index`.
pub open spec fn is_line_of(line_offsets: Seq<usize>, byte_index: usize, line: int) -> bool {
    &&& 0 <= line < line_offsets.len()
    &&& line_offsets[line] <= byte_index
    &&& forall|later: int|
        line < later < line_offsets.len() ==> #[trigger] line_offsets[later] > byte_index
}

/// The line and the column of the byte at `byte_index`: the last line that
/// starts at or before it, and how far into that line it is. There is none
/// where every line starts after it.
pub fn location(line_offsets: &Vec<usize>, byte_index: usize) -> (place: Option<(usize, usize)>)
    ensures
        match place {
            Some((line, column)) => is_line_of(line_offsets@, byte_index, line as int) && column
                == byte_index - line_offsets@[line as int],
            None => forall|line: int|
                0 <= line < line_offsets@.len() ==> #[trigger] line_offsets@[line] > byte_index,
        },
{
    let mut line: usize = line_offsets.len();
    while line > 0
        invariant
            line <= line_offsets@.len(),
            forall|later: int|
                line <= later < line_offsets@.len() ==> #[trigger] line_offsets@[later]
                    > byte_index,
        decreases line,
    {
        line -= 1;
        if line_offsets[line] <= byte_index {
            return Some((line, byte_index - line_offsets[line]));
        }
    }
    None
}

} // verus!
