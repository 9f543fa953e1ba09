//! The text format of a rubric, as a specification.
//!
//! A rubric is read line by line; lines end at a line feed. White space
//! around a line, a label or a number is not part of it.
//!
//! - An empty line, or one that starts with `#`, is skipped.
//! - A line that starts with `-` is a choice of the criterion above it:
//!   `- label: points`. The label is what stands before the last colon, and
//!   is not empty. The points are a decimal integer that fits in 64 bits,
//!   with an optional sign.
//! - Any other line opens a criterion; the line is its prompt.
//!
//! ```text
//! # a small rubric
//! Compiles
//! - yes: 2
//! - no: 0
//! Style
//! - good: 1
//! - bad: 0
//! ```
//!
//! A rubric has a criterion, and each criterion has a choice. The first line
//! at which this or the form of a line fails is the one reported.

use crate::scheme::{ChoiceView, CriterionView, SchemeView};
use crate::text::{all_digits, decimal, trim};
use vstd::prelude::*;

verus! {

/// What is wrong with a rubric's text.
#[derive(Clone, Copy, Debug, PartialEq, Eq, Structural)]
pub enum SchemeFault {
    /// The text holds no criterion.
    Empty,
    /// A choice stands before the first criterion.
    ChoiceWithoutCriterion,
    /// A criterion has no choice.
    CriterionWithoutChoice,
    /// A choice has no colon between its label and its points.
    MissingColon,
    /// A choice has no label.
    EmptyLabel,
    /// The points of a choice are no decimal integer of 64 bits.
    BadPoints,
}

/// A rubric's text is not a scheme: what is wrong, and on which line.
#[derive(Clone, Copy, Debug, PartialEq, Eq, Structural)]
pub struct SchemeFormatError {
    pub kind: SchemeFault,
    /// The line at fault, counted from 1: for a criterion without a choice
    /// the line of the criterion. 0 where the text holds no criterion.
    pub line: usize,
}

/// The lines of `text`: what stands between its line feeds.
pub open spec fn lines(text: Seq<char>) -> Seq<Seq<char>>
    decreases text.len(),
{
    if text.len() == 0 {
        seq![Seq::empty()]
    } else {
        let before = lines(text.drop_last());
        if text.last() == '\n' {
            before.push(Seq::empty())
        } else {
            before.drop_last().push(before.last().push(text.last()))
        }
    }
}

/// The points that `s` writes: an optional sign, then digits, within 64
/// bits.
pub open spec fn points_of(s: Seq<char>) -> Option<int> {
    let signed = s.len() > 0 && (s[0] == '-' || s[0] == '+');
    let digits = if signed { s.drop_first() } else { s };
    let value = if signed && s[0] == '-' { -(decimal(digits) as int) } else { decimal(digits) as int };
    if digits.len() > 0 && all_digits(digits) && i64::MIN <= value <= i64::MAX {
        Some(value)
    } else {
        None
    }
}

/// The place of the last `c` in `s`, or -1.
pub open spec fn last_index_of(s: Seq<char>, c: char) -> int
    decreases s.len(),
{
    if s.len() == 0 {
        -1
    } else if s.last() == c {
        s.len() - 1
    } else {
        last_index_of(s.drop_last(), c)
    }
}

/// What one line of a rubric says.
pub enum Line {
    /// Nothing: white space or a comment.
    Skip,
    /// A criterion starts here.
    Criterion { prompt: Seq<char> },
    /// The criterion above has this choice.
    Choice { choice: ChoiceView },
    /// The line is not of the format.
    Bad { fault: SchemeFault },
}

/// What stands behind the `-` of a choice line.
pub open spec fn choice_of(body: Seq<char>) -> Line {
    let colon = last_index_of(body, ':');
    if colon < 0 {
        Line::Bad { fault: SchemeFault::MissingColon }
    } else {
        let label = trim(body.subrange(0, colon));
        let points = points_of(trim(body.subrange(colon + 1, body.len() as int)));
        if label.len() == 0 {
            Line::Bad { fault: SchemeFault::EmptyLabel }
        } else {
            match points {
                Some(points) => Line::Choice { choice: ChoiceView { label, points } },
                None => Line::Bad { fault: SchemeFault::BadPoints },
            }
        }
    }
}

/// What `line` says.
pub open spec fn classify(line: Seq<char>) -> Line {
    let content = trim(line);
    if content.len() == 0 || content[0] == '#' {
        Line::Skip
    } else if content[0] == '-' {
        choice_of(content.drop_first())
    } else {
        Line::Criterion { prompt: content }
    }
}

/// A scheme as far as it has been read: the last criterion may still lack
/// its choices.
pub struct Draft {
    pub criteria: Seq<CriterionView>,
    /// The line of the last criterion, counted from 1.
    pub opened: nat,
}

/// A fault of the given kind on the given line.
pub open spec fn fault_at(kind: SchemeFault, line: nat) -> SchemeFormatError {
    SchemeFormatError { kind, line: line as usize }
}

/// The draft after one more line, with its number counted from 1.
pub open spec fn read_line(draft: Draft, number: nat, line: Seq<char>) -> Result<
    Draft,
    SchemeFormatError,
> {
    match classify(line) {
        Line::Skip => Ok(draft),
        Line::Criterion { prompt } => {
            if draft.criteria.len() > 0 && draft.criteria.last().choices.len() == 0 {
                Err(fault_at(SchemeFault::CriterionWithoutChoice, draft.opened))
            } else {
                Ok(
                    Draft {
                        criteria: draft.criteria.push(
                            CriterionView { prompt, choices: Seq::empty() },
                        ),
                        opened: number,
                    },
                )
            }
        },
        Line::Choice { choice } => {
            if draft.criteria.len() == 0 {
                Err(fault_at(SchemeFault::ChoiceWithoutCriterion, number))
            } else {
                let last = draft.criteria.last();
                Ok(
                    Draft {
                        criteria: draft.criteria.drop_last().push(
                            CriterionView { prompt: last.prompt, choices: last.choices.push(choice) },
                        ),
                        opened: draft.opened,
                    },
                )
            }
        },
        Line::Bad { fault } => Err(fault_at(fault, number)),
    }
}

/// The draft after these lines, or the first fault in them.
pub open spec fn read_lines(lines: Seq<Seq<char>>) -> Result<Draft, SchemeFormatError>
    decreases lines.len(),
{
    if lines.len() == 0 {
        Ok(Draft { criteria: Seq::empty(), opened: 0 })
    } else {
        match read_lines(lines.drop_last()) {
            Ok(draft) => read_line(draft, lines.len(), lines.last()),
            Err(fault) => Err(fault),
        }
    }
}

/// The scheme that a draft is at the end of the text.
pub open spec fn close(draft: Draft) -> Result<SchemeView, SchemeFormatError> {
    if draft.criteria.len() == 0 {
        Err(fault_at(SchemeFault::Empty, 0))
    } else if draft.criteria.last().choices.len() == 0 {
        Err(fault_at(SchemeFault::CriterionWithoutChoice, draft.opened))
    } else {
        Ok(SchemeView { criteria: draft.criteria })
    }
}

/// The scheme that `text` writes, or the first fault in it.
pub open spec fn scheme_of(text: Seq<char>) -> Result<SchemeView, SchemeFormatError> {
    match read_lines(lines(text)) {
        Ok(draft) => close(draft),
        Err(fault) => Err(fault),
    }
}

} // verus!
