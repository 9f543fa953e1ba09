//! Reading a rubric from its text.

use crate::grammar::{
    choice_of, close, last_index_of, lines, points_of, read_line, read_lines, scheme_of, Draft,
    Line, SchemeFault, SchemeFormatError,
};
use crate::scheme::{
    choice_views, criterion_views, Choice, Criterion, CriterionView, Scheme, SchemeView,
};
use crate::text::{chars_of, copy_of, read_decimal, trim, trim_bounds};
use vstd::prelude::*;
use vstd::string::*;

verus! {

/// The points written in `chars[from..to]`.
fn read_points(chars: &[char], from: usize, to: usize) -> (points: Option<i64>)
    requires
        from <= to <= chars@.len(),
    ensures
        points matches Some(v) ==> points_of(chars@.subrange(from as int, to as int)) == Some(
            v as int,
        ),
        points is None ==> points_of(chars@.subrange(from as int, to as int)) is None,
{
    let ghost written = chars@.subrange(from as int, to as int);
    if from == to {
        return None;
    }
    assert(written[0] == chars@[from as int]);
    let negative = chars[from] == '-';
    let signed = negative || chars[from] == '+';
    let start: usize = if signed { from + 1 } else { from };
    assert(chars@.subrange(start as int, to as int) =~= if signed {
        written.drop_first()
    } else {
        written
    });
    let limit: u64 = 0x8000_0000_0000_0000;
    match read_decimal(chars, start, to, limit) {
        Some(magnitude) => {
            if negative {
                if magnitude == limit {
                    Some(i64::MIN)
                } else {
                    Some(-(magnitude as i64))
                }
            } else if magnitude == limit {
                None
            } else {
                Some(magnitude as i64)
            }
        },
        None => None,
    }
}

/// The last `c` of `s` stands at `at`, or nowhere where `at` is -1.
proof fn lemma_last_index_of(s: Seq<char>, c: char, at: int)
    requires
        -1 <= at < s.len(),
        at >= 0 ==> s[at] == c,
        forall|j: int| at < j < s.len() ==> #[trigger] s[j] != c,
    ensures
        last_index_of(s, c) == at,
    decreases s.len(),
{
    if s.len() > 0 && at < s.len() - 1 {
        assert(s[s.len() - 1] != c);
        lemma_last_index_of(s.drop_last(), c, at);
    }
}

/// The place of the last `c` in `chars[from..to]`.
fn find_last(chars: &[char], from: usize, to: usize, c: char) -> (found: Option<usize>)
    requires
        from <= to <= chars@.len(),
    ensures
        found matches Some(at) ==> from <= at < to && last_index_of(
            chars@.subrange(from as int, to as int),
            c,
        ) == at - from,
        found is None ==> last_index_of(chars@.subrange(from as int, to as int), c) == -1,
{
    let ghost s = chars@.subrange(from as int, to as int);
    let mut i: usize = to;
    while i > from
        invariant
            from <= i <= to <= chars@.len(),
            s == chars@.subrange(from as int, to as int),
            forall|j: int| i - from <= j < s.len() ==> #[trigger] s[j] != c,
        decreases i,
    {
        i -= 1;
        if chars[i] == c {
            proof {
                lemma_last_index_of(s, c, i - from);
            }
            return Some(i);
        }
    }
    proof {
        lemma_last_index_of(s, c, -1);
    }
    None
}

/// The choice written in `chars[from..to]`, which is what stands behind the
/// `-` of a choice line.
fn read_choice(text: &str, chars: &[char], from: usize, to: usize) -> (read: Result<
    Choice,
    SchemeFault,
>)
    requires
        chars@ == text@,
        from <= to <= chars@.len(),
    ensures
        match read {
            Ok(choice) => choice_of(chars@.subrange(from as int, to as int)) == (Line::Choice {
                choice: choice@,
            }),
            Err(fault) => choice_of(chars@.subrange(from as int, to as int)) == (Line::Bad {
                fault,
            }),
        },
{
    let ghost body = chars@.subrange(from as int, to as int);
    let colon = match find_last(chars, from, to, ':') {
        Some(at) => at,
        None => {
            return Err(SchemeFault::MissingColon);
        },
    };
    let (label_from, label_to) = trim_bounds(chars, from, colon);
    let (points_from, points_to) = trim_bounds(chars, colon + 1, to);
    proof {
        assert(body.subrange(0, colon - from) =~= chars@.subrange(from as int, colon as int));
        assert(body.subrange(colon - from + 1, body.len() as int) =~= chars@.subrange(
            colon + 1,
            to as int,
        ));
    }
    if label_from == label_to {
        return Err(SchemeFault::EmptyLabel);
    }
    match read_points(chars, points_from, points_to) {
        Some(points) => Ok(Choice { label: copy_of(text, label_from, label_to), points }),
        None => Err(SchemeFault::BadPoints),
    }
}

/// Whether `parsed` is what the text says: the scheme it writes, or the
/// first fault in it.
pub open spec fn parsed_as(text: Seq<char>, parsed: Result<Scheme, SchemeFormatError>) -> bool {
    match parsed {
        Ok(scheme) => scheme_of(text) == Ok::<SchemeView, SchemeFormatError>(scheme@),
        Err(fault) => scheme_of(text) == Err::<SchemeView, SchemeFormatError>(fault),
    }
}

/// A line that starts at `from` and has no line feed up to `to` is the last
/// line of the text up to `to`.
proof fn lemma_line(text: Seq<char>, from: int, to: int)
    requires
        0 <= from <= to <= text.len(),
        from == 0 || text[from - 1] == '\n',
        forall|j: int| from <= j < to ==> #[trigger] text[j] != '\n',
    ensures
        lines(text.take(from)).len() > 0,
        lines(text.take(to)) == lines(text.take(from)).drop_last().push(text.subrange(from, to)),
    decreases to - from,
{
    if from == to {
        let start = text.take(from);
        if from == 0 {
            assert(lines(start) =~= seq![Seq::<char>::empty()]);
        } else {
            assert(start.drop_last() =~= text.take(from - 1));
            assert(start.last() == '\n');
        }
        assert(lines(start).last() =~= text.subrange(from, to));
        assert(lines(start) =~= lines(start).drop_last().push(text.subrange(from, to)));
    } else {
        lemma_line(text, from, to - 1);
        let longer = text.take(to);
        assert(longer.drop_last() =~= text.take(to - 1));
        assert(longer.last() == text[to - 1]);
        let before = lines(text.take(to - 1));
        let known = lines(text.take(from)).drop_last();
        assert(before.drop_last() =~= known);
        assert(before.last().push(text[to - 1]) =~= text.subrange(from, to));
    }
}

/// The lines of the text up to a line's end are the first lines of the text
/// up to any later place.
proof fn lemma_lines_stay(text: Seq<char>, to: int, later: int)
    requires
        0 <= to <= later <= text.len(),
        to < text.len() ==> text[to] == '\n',
    ensures
        lines(text.take(to)).len() <= lines(text.take(later)).len(),
        lines(text.take(later)).take(lines(text.take(to)).len() as int) == lines(text.take(to)),
        to < later ==> lines(text.take(to)).len() < lines(text.take(later)).len(),
    decreases later - to,
{
    let first = lines(text.take(to));
    if later == to {
        assert(first.take(first.len() as int) =~= first);
    } else {
        lemma_lines_stay(text, to, later - 1);
        let longer = text.take(later);
        assert(longer.drop_last() =~= text.take(later - 1));
        assert(longer.last() == text[later - 1]);
        let before = lines(text.take(later - 1));
        if later - 1 == to {
            assert(lines(longer) == before.push(Seq::empty()));
        }
        assert(lines(longer).take(first.len() as int) =~= before.take(first.len() as int));
    }
}

/// A fault in the first lines is the fault of all the lines.
proof fn lemma_fault_stays(all: Seq<Seq<char>>, first: int, fault: SchemeFormatError)
    requires
        0 <= first <= all.len(),
        read_lines(all.take(first)) == Err::<Draft, SchemeFormatError>(fault),
    ensures
        read_lines(all) == Err::<Draft, SchemeFormatError>(fault),
    decreases all.len() - first,
{
    if first == all.len() {
        assert(all.take(first) =~= all);
    } else {
        assert(all.drop_last().take(first) =~= all.take(first));
        lemma_fault_stays(all.drop_last(), first, fault);
    }
}

/// A fault at a line that ends at `to` is the fault of the text.
proof fn lemma_fault_found(text: Seq<char>, to: int, fault: SchemeFormatError)
    requires
        0 <= to <= text.len(),
        to < text.len() ==> text[to] == '\n',
        read_lines(lines(text.take(to))) == Err::<Draft, SchemeFormatError>(fault),
    ensures
        scheme_of(text) == Err::<SchemeView, SchemeFormatError>(fault),
{
    lemma_lines_stay(text, to, text.len() as int);
    assert(text.take(text.len() as int) =~= text);
    lemma_fault_stays(lines(text), lines(text.take(to)).len() as int, fault);
}

/// The end of the line that starts at `from`: the next line feed, or the end
/// of the text.
fn line_end(chars: &[char], from: usize) -> (to: usize)
    requires
        from <= chars@.len(),
    ensures
        from <= to <= chars@.len(),
        forall|j: int| from <= j < to ==> #[trigger] chars@[j] != '\n',
        to < chars@.len() ==> chars@[to as int] == '\n',
{
    let mut to: usize = from;
    while to < chars.len() && chars[to] != '\n'
        invariant
            from <= to <= chars@.len(),
            forall|j: int| from <= j < to ==> #[trigger] chars@[j] != '\n',
        decreases chars@.len() - to,
    {
        to += 1;
    }
    to
}

/// What has been read of a scheme: the criteria that are complete, and the
/// one that is open, if any, with the choices it has so far.
struct Reader {
    closed: Vec<Criterion>,
    open: bool,
    prompt: String,
    choices: Vec<Choice>,
    opened: usize,
}

impl Reader {
    /// The draft that the reader holds.
    spec fn draft(self) -> Draft {
        if self.open {
            Draft {
                criteria: criterion_views(self.closed@).push(
                    CriterionView { prompt: self.prompt@, choices: choice_views(self.choices@) },
                ),
                opened: self.opened as nat,
            }
        } else {
            Draft { criteria: Seq::empty(), opened: 0 }
        }
    }

    /// Before the first criterion nothing is complete.
    spec fn sound(self) -> bool {
        !self.open ==> self.closed@.len() == 0
    }

    /// A reader that has read nothing.
    fn new() -> (reader: Reader)
        ensures
            reader.sound(),
            reader.draft() == (Draft { criteria: Seq::empty(), opened: 0 }),
    {
        Reader {
            closed: Vec::new(),
            open: false,
            prompt: String::new(),
            choices: Vec::new(),
            opened: 0,
        }
    }

    /// The reader after the line `chars[from..to]`, which `index` lines
    /// stand before, or the fault of that line.
    fn read(self, text: &str, chars: &[char], from: usize, to: usize, index: usize) -> (read:
        Result<Reader, SchemeFormatError>)
        requires
            self.sound(),
            chars@ == text@,
            index <= from <= to <= chars@.len(),
        ensures
            match read {
                Ok(reader) => reader.sound() && read_line(
                    self.draft(),
                    (index + 1) as nat,
                    chars@.subrange(from as int, to as int),
                ) == Ok::<Draft, SchemeFormatError>(reader.draft()),
                Err(fault) => read_line(
                    self.draft(),
                    (index + 1) as nat,
                    chars@.subrange(from as int, to as int),
                ) == Err::<Draft, SchemeFormatError>(fault),
            },
    {
        let ghost line = chars@.subrange(from as int, to as int);
        let (start, end) = trim_bounds(chars, from, to);
        if start == end {
            return Ok(self);
        }
        assert(trim(line)[0] == chars@[start as int]);
        if chars[start] == '#' {
            return Ok(self);
        }
        let number = index + 1;
        let Reader { mut closed, open, prompt, mut choices, opened } = self;
        if chars[start] == '-' {
            assert(trim(line).drop_first() =~= chars@.subrange(start + 1, end as int));
            match read_choice(text, chars, start + 1, end) {
                Ok(choice) => {
                    if !open {
                        return Err(
                            SchemeFormatError {
                                kind: SchemeFault::ChoiceWithoutCriterion,
                                line: number,
                            },
                        );
                    }
                    proof {
                        assert(self.draft().criteria.drop_last() =~= criterion_views(closed@));
                        assert(choice_views(choices@.push(choice)) =~= choice_views(
                            choices@,
                        ).push(choice@));
                    }
                    choices.push(choice);
                    Ok(Reader { closed, open, prompt, choices, opened })
                },
                Err(kind) => Err(SchemeFormatError { kind, line: number }),
            }
        } else {
            if open {
                if choices.len() == 0 {
                    proof {
                        assert(choice_views(choices@) =~= Seq::empty());
                    }
                    return Err(
                        SchemeFormatError {
                            kind: SchemeFault::CriterionWithoutChoice,
                            line: opened,
                        },
                    );
                }
                let criterion = Criterion::new(prompt, choices).unwrap();
                proof {
                    assert(criterion_views(closed@.push(criterion)) =~= self.draft().criteria);
                }
                closed.push(criterion);
            } else {
                proof {
                    assert(criterion_views(closed@) =~= Seq::empty());
                }
            }
            let reader = Reader {
                closed,
                open: true,
                prompt: copy_of(text, start, end),
                choices: Vec::new(),
                opened: number,
            };
            proof {
                assert(choice_views(reader.choices@) =~= Seq::empty());
            }
            Ok(reader)
        }
    }

    /// The scheme that was read, at the end of the text.
    fn close(self) -> (closed: Result<Scheme, SchemeFormatError>)
        requires
            self.sound(),
        ensures
            match closed {
                Ok(scheme) => close(self.draft()) == Ok::<SchemeView, SchemeFormatError>(scheme@),
                Err(fault) => close(self.draft()) == Err::<SchemeView, SchemeFormatError>(fault),
            },
    {
        let Reader { mut closed, open, prompt, choices, opened } = self;
        if !open {
            return Err(SchemeFormatError { kind: SchemeFault::Empty, line: 0 });
        }
        if choices.len() == 0 {
            proof {
                assert(choice_views(choices@) =~= Seq::empty());
            }
            return Err(
                SchemeFormatError { kind: SchemeFault::CriterionWithoutChoice, line: opened },
            );
        }
        let criterion = Criterion::new(prompt, choices).unwrap();
        proof {
            assert(criterion_views(closed@.push(criterion)) =~= self.draft().criteria);
        }
        closed.push(criterion);
        Ok(Scheme::new(closed).unwrap())
    }
}

/// The scheme that `text` writes in the rubric format, or the first fault in
/// the text.
pub fn parse(text: &str) -> (parsed: Result<Scheme, SchemeFormatError>)
    ensures
        parsed_as(text@, parsed),
{
    let chars = chars_of(text);
    let n = chars.len();
    let mut reader = Reader::new();
    let mut from: usize = 0;
    let mut index: usize = 0;
    proof {
        lemma_line(text@, 0, 0);
        assert(lines(text@.take(0)).drop_last() =~= Seq::empty());
    }
    loop
        invariant_except_break
            index <= from <= n,
            from == 0 || chars@[from - 1] == '\n',
            lines(text@.take(from as int)).len() == index + 1,
            read_lines(lines(text@.take(from as int)).drop_last()) == Ok::<
                Draft,
                SchemeFormatError,
            >(reader.draft()),
        invariant
            chars@ == text@,
            n == chars@.len(),
            reader.sound(),
        ensures
            read_lines(lines(text@)) == Ok::<Draft, SchemeFormatError>(reader.draft()),
        decreases n - from,
    {
        let to = line_end(chars.as_slice(), from);
        let ghost before = lines(text@.take(from as int)).drop_last();
        let ghost line = text@.subrange(from as int, to as int);
        proof {
            lemma_line(text@, from as int, to as int);
            assert(before.push(line).drop_last() =~= before);
        }
        reader = match reader.read(text, chars.as_slice(), from, to, index) {
            Ok(reader) => reader,
            Err(fault) => {
                proof {
                    lemma_fault_found(text@, to as int, fault);
                }
                return Err(fault);
            },
        };
        if to == n {
            proof {
                assert(text@.take(to as int) =~= text@);
            }
            break ;
        }
        proof {
            let next = text@.take(to + 1);
            assert(next.drop_last() =~= text@.take(to as int));
            assert(next.last() == '\n');
            assert(lines(next).drop_last() =~= before.push(line));
        }
        from = to + 1;
        index += 1;
    }
    reader.close()
}

} // verus!
