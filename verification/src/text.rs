//! Working with text character by character.

use vstd::prelude::*;
use vstd::string::StrSliceExecFns;

verus! {

/// The characters of a text.
pub fn characters(text: &str) -> (chars: Vec<char>)
    ensures
        chars@ == text@,
{
    let count = text.unicode_len();
    let mut chars: Vec<char> = Vec::new();
    let mut i: usize = 0;
    while i < count
        invariant
            i <= count,
            count == text@.len(),
            chars@ == text@.subrange(0, i as int),
        decreases count - i,
    {
        chars.push(text.get_char(i));
        i = i + 1;
        assert(chars@ =~= text@.subrange(0, i as int));
    }
    assert(text@.subrange(0, i as int) =~= text@);
    chars
}

/// The position of the first line feed at or behind `from`, or the length
/// of the text where there is none.
pub open spec fn line_end(text: Seq<char>, from: int) -> int
    decreases text.len() - from,
{
    if from >= text.len() || text[from] == '\n' {
        if from >= text.len() {
            text.len() as int
        } else {
            from
        }
    } else {
        line_end(text, from + 1)
    }
}

/// A line as it stands between `from` and `end`, without the carriage return
/// that may precede a line feed at `end`.
pub open spec fn line_between(text: Seq<char>, from: int, end: int) -> Seq<char> {
    if end < text.len() && from < end && text[end - 1] == '\r' {
        text.subrange(from, end - 1)
    } else {
        text.subrange(from, end)
    }
}

/// The lines of the text behind `from`.
pub open spec fn lines_from(text: Seq<char>, from: int) -> Seq<Seq<char>>
    decreases text.len() + 1 - from,
{
    if from >= text.len() || from < 0 {
        Seq::empty()
    } else {
        let end = line_end(text, from);
        if from <= end <= text.len() {
            seq![line_between(text, from, end)] + lines_from(text, end + 1)
        } else {
            Seq::empty()
        }
    }
}

/// The lines of a text: what stands between line feeds, without the line
/// feeds and without a carriage return right before one. A line feed at the
/// very end does not start another line.
pub open spec fn lines_of(text: Seq<char>) -> Seq<Seq<char>> {
    lines_from(text, 0)
}

/// The end of a line lies between its start and the end of the text.
pub proof fn lemma_line_end_bounds(text: Seq<char>, from: int)
    requires
        0 <= from <= text.len(),
    ensures
        from <= line_end(text, from) <= text.len(),
        line_end(text, from) < text.len() ==> text[line_end(text, from)] == '\n',
        forall|i: int| from <= i < line_end(text, from) ==> text[i] != '\n',
    decreases text.len() - from,
{
    if from >= text.len() || text[from] == '\n' {
    } else {
        lemma_line_end_bounds(text, from + 1);
    }
}

/// Splits a text into its lines.
pub fn split_lines(text: &Vec<char>) -> (lines: Vec<Vec<char>>)
    ensures
        lines@.len() == lines_of(text@).len(),
        forall|i: int| 0 <= i < lines@.len() ==> (#[trigger] lines@[i])@ == lines_of(text@)[i],
{
    let mut lines: Vec<Vec<char>> = Vec::new();
    let mut start: usize = 0;
    while start < text.len()
        invariant
            start <= text@.len(),
            lines_of(text@).len() == lines@.len() + lines_from(text@, start as int).len(),
            forall|i: int| 0 <= i < lines@.len() ==> (#[trigger] lines@[i])@ == lines_of(text@)[i],
            forall|i: int|
                0 <= i < lines_from(text@, start as int).len() ==> lines_of(text@)[lines@.len()
                    + i] == lines_from(text@, start as int)[i],
        decreases text@.len() - start,
    {
        let mut end: usize = start;
        while end < text.len() && text[end] != '\n'
            invariant
                start <= end <= text@.len(),
                line_end(text@, end as int) == line_end(text@, start as int),
            decreases text@.len() - end,
        {
            end = end + 1;
        }
        proof {
            lemma_line_end_bounds(text@, start as int);
        }
        let stop: usize = if end < text.len() && start < end && text[end - 1] == '\r' {
            end - 1
        } else {
            end
        };
        let mut line: Vec<char> = Vec::new();
        let mut i: usize = start;
        while i < stop
            invariant
                start <= i <= stop <= text@.len(),
                line@ == text@.subrange(start as int, i as int),
            decreases stop - i,
        {
            line.push(text[i]);
            i = i + 1;
            assert(line@ =~= text@.subrange(start as int, i as int));
        }
        proof {
            let rest = lines_from(text@, end + 1);
            assert(lines_from(text@, text@.len() as int) =~= Seq::empty());
            assert(lines_from(text@, start as int) =~= seq![line@] + rest);
            assert forall|j: int| 0 <= j < rest.len() implies lines_of(text@)[lines@.len() + 1
                + j] == rest[j] by {
                assert(lines_from(text@, start as int)[j + 1] == rest[j]);
            }
            assert(lines_of(text@)[lines@.len() as int] == lines_from(text@, start as int)[0]);
        }
        lines.push(line);
        if end < text.len() {
            start = end + 1;
        } else {
            start = end;
        }
    }
    lines
}

/// How many characters of a name are shown.
pub const MAX_NAME_LENGTH: usize = 16;

/// How many characters of a team's name are shown.
pub const MAX_TEAM_NAME_LENGTH: usize = 20;

/// The name shown for a module that reports the given name: the first line
/// of it, cut to `max_length` characters. A module that reports no name at
/// all is called a trickster.
pub open spec fn filtered_name(name: Seq<char>, max_length: nat) -> Seq<char> {
    if name.len() == 0 {
        "Trickster"@
    } else {
        let first = line_between(name, 0, line_end(name, 0));
        if first.len() <= max_length {
            first
        } else {
            first.take(max_length as int)
        }
    }
}

/// Makes a name fit for display: only its first line, and of that at most
/// `max_length` characters.
pub fn filter_name(name: &str, max_length: usize) -> (filtered: String)
    ensures
        filtered@ == filtered_name(name@, max_length as nat),
        name@.len() > 0 || max_length >= 9 ==> filtered@.len() <= max_length,
{
    let chars = characters(name);
    if chars.len() == 0 {
        proof {
            reveal_strlit("Trickster");
        }
        return "Trickster".to_owned();
    }
    let mut end: usize = 0;
    while end < chars.len() && chars[end] != '\n'
        invariant
            end <= chars@.len(),
            line_end(chars@, end as int) == line_end(chars@, 0),
        decreases chars@.len() - end,
    {
        end = end + 1;
    }
    proof {
        lemma_line_end_bounds(chars@, 0);
    }
    let stop: usize = if end < chars.len() && 0 < end && chars[end - 1] == '\r' {
        end - 1
    } else {
        end
    };
    let cut: usize = if stop <= max_length {
        stop
    } else {
        max_length
    };
    let filtered = name.substring_char(0, cut).to_owned();
    assert(filtered@ =~= filtered_name(name@, max_length as nat));
    filtered
}

} // verus!
