//! What the marker types, as events.
//!
//! The choices of a criterion are shown numbered from 1. A line that holds
//! such a number selects the choice of that number; `q` gives the session
//! up; anything else is no selection. White space around the line does not
//! count.

use crate::engine::Event;
use crate::text::{all_digits, chars_of, decimal, read_decimal, trim, trim_bounds};
use vstd::prelude::*;

verus! {

/// The event that a line of the marker's input stands for.
pub open spec fn event_of(line: Seq<char>) -> Event {
    let word = trim(line);
    if word == seq!['q'] {
        Event::Abort
    } else if word.len() > 0 && all_digits(word) && 1 <= decimal(word) <= usize::MAX {
        Event::Selected((decimal(word) - 1) as usize)
    } else {
        Event::Unreadable
    }
}

/// The event that a line of the marker's input stands for.
pub fn read_event(line: &str) -> (event: Event)
    ensures
        event == event_of(line@),
{
    let chars = chars_of(line);
    let (from, to) = trim_bounds(chars.as_slice(), 0, chars.len());
    let ghost word = chars@.subrange(from as int, to as int);
    proof {
        assert(chars@.subrange(0, chars@.len() as int) =~= chars@);
    }
    if to - from == 1 && chars[from] == 'q' {
        assert(word =~= seq!['q']);
        return Event::Abort;
    }
    proof {
        if word == seq!['q'] {
            assert(word.len() == 1);
            assert(word[0] == 'q');
        }
    }
    match read_decimal(chars.as_slice(), from, to, usize::MAX as u64) {
        Some(number) => {
            if number == 0 {
                Event::Unreadable
            } else {
                Event::Selected((number - 1) as usize)
            }
        },
        None => Event::Unreadable,
    }
}

} // verus!
