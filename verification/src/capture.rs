//! Capturing the output of a command: each line that is read is stripped of
//! its terminator, handed on for display, and kept in a log.

use vstd::prelude::*;
use vstd::string::*;
use crate::text::{join, views};

verus! {

/// A line without the terminator at its end. A terminator is a line feed,
/// or a carriage return followed by a line feed; a line that ends in neither
/// is left as it is.
pub open spec fn strip_terminator(raw: Seq<char>) -> Seq<char> {
    if raw.len() >= 2 && raw[raw.len() - 2] == '\r' && raw[raw.len() - 1] == '\n' {
        raw.take(raw.len() - 2)
    } else if raw.len() >= 1 && raw[raw.len() - 1] == '\n' {
        raw.take(raw.len() - 1)
    } else {
        raw
    }
}

/// The log that holds the given lines: each line followed by one line feed.
pub open spec fn log_text(lines: Seq<Seq<char>>) -> Seq<char>
    decreases lines.len(),
{
    if lines.len() == 0 {
        Seq::empty()
    } else {
        log_text(lines.drop_last()) + lines.last().push('\n')
    }
}

/// Whether the data of a stream ends after its first `n` reads: none of
/// them is empty, and the next one, if there is one, is.
pub open spec fn ends_after(reads: Seq<Seq<char>>, n: int) -> bool {
    &&& 0 <= n <= reads.len()
    &&& forall|i: int| 0 <= i < n ==> (#[trigger] reads[i]).len() > 0
    &&& n < reads.len() ==> reads[n].len() == 0
}

/// The lines that the given reads hold.
pub open spec fn stripped(reads: Seq<Seq<char>>) -> Seq<Seq<char>> {
    reads.map_values(|raw: Seq<char>| strip_terminator(raw))
}

/// What to do after one read from a stream.
#[derive(Debug)]
pub enum StreamStep {
    /// A line was read: it is to be shown, and the stream read again.
    Forward(String),
    /// The stream has reached the end of its data.
    Done,
}

/// What was captured of one stream.
#[derive(Debug)]
pub struct Captured {
    /// The lines, each followed by one line feed.
    pub log: String,
    /// The lines as they were handed on for display, in order.
    pub forwarded: Vec<String>,
}

/// Removes the terminator from the end of a line.
pub fn trim_terminator(raw: &str) -> (line: &str)
    ensures
        line@ == strip_terminator(raw@),
{
    let n = raw.unicode_len();
    if n >= 2 && raw.get_char(n - 1) == '\n' && raw.get_char(n - 2) == '\r' {
        let line = raw.substring_char(0, n - 2);
        assert(line@ =~= raw@.take(n - 2));
        line
    } else if n >= 1 && raw.get_char(n - 1) == '\n' {
        let line = raw.substring_char(0, n - 1);
        assert(line@ =~= raw@.take(n - 1));
        line
    } else {
        raw
    }
}

/// Takes in what one read from a stream has produced. An empty read is the
/// end of the data and leaves the log as it is. Any other read is a line: it
/// goes to the end of the log, without its terminator and followed by one
/// line feed, and is handed back without its terminator for display.
pub fn capture_line(log: &mut String, raw: &str) -> (step: StreamStep)
    ensures
        match step {
            StreamStep::Done => raw@.len() == 0 && final(log)@ == old(log)@,
            StreamStep::Forward(line) => {
                &&& raw@.len() > 0
                &&& line@ == strip_terminator(raw@)
                &&& final(log)@ == old(log)@ + line@.push('\n')
            },
        },
{
    if raw.unicode_len() == 0 {
        return StreamStep::Done;
    }
    let line = trim_terminator(raw);
    let ghost before = log@;
    log.append(line);
    proof {
        reveal_strlit("\n");
    }
    log.append("\n");
    assert(log@ =~= before + line@.push('\n'));
    StreamStep::Forward(line.to_owned())
}

/// Captures a stream from what the successive reads from it produced. The
/// data ends with the first empty read, or with the last read if none is
/// empty.
pub fn capture_stream(reads: &Vec<String>) -> (res: Captured)
    ensures
        ends_after(views(reads@), res.forwarded@.len() as int),
        views(res.forwarded@) == stripped(views(reads@).take(res.forwarded@.len() as int)),
        res.log@ == log_text(views(res.forwarded@)),
{
    let mut log = String::new();
    let mut forwarded: Vec<String> = Vec::new();
    let mut i: usize = 0;
    assert(stripped(views(reads@).take(0)) =~= views(forwarded@));
    while i < reads.len()
        invariant_except_break
            i <= reads.len(),
            forwarded@.len() == i,
        invariant
            forwarded@.len() <= reads.len(),
            forall|j: int| 0 <= j < forwarded@.len() ==> (#[trigger] views(reads@)[j]).len() > 0,
            views(forwarded@) == stripped(views(reads@).take(forwarded@.len() as int)),
            log@ == log_text(views(forwarded@)),
        ensures
            ends_after(views(reads@), forwarded@.len() as int),
        decreases reads.len() - i,
    {
        let ghost lines = views(forwarded@);
        let ghost before = forwarded@;
        assert(views(reads@)[i as int] == reads[i as int]@);
        match capture_line(&mut log, reads[i].as_str()) {
            StreamStep::Done => {
                break ;
            },
            StreamStep::Forward(line) => {
                forwarded.push(line);
                proof {
                    let grown = views(forwarded@);
                    assert(grown =~= lines.push(line@));
                    assert(grown.drop_last() =~= lines);
                    assert(views(reads@).take(i as int + 1) =~= views(reads@).take(i as int).push(
                        reads[i as int]@,
                    ));
                    assert(stripped(views(reads@).take(i as int + 1)) =~= grown);
                }
            },
        }
        i = i + 1;
    }
    Captured { log, forwarded }
}

/// The given pieces one after the other.
pub open spec fn concat(pieces: Seq<Seq<char>>) -> Seq<char>
    decreases pieces.len(),
{
    if pieces.len() == 0 {
        Seq::empty()
    } else {
        concat(pieces.drop_last()) + pieces.last()
    }
}

/// Whether a read is a line that ends in a line feed with no carriage
/// return before it.
pub open spec fn plainly_terminated(raw: Seq<char>) -> bool {
    &&& raw.len() >= 1
    &&& raw[raw.len() - 1] == '\n'
    &&& raw.len() >= 2 ==> raw[raw.len() - 2] != '\r'
}

/// The log is the lines joined by line feeds, with one more line feed at
/// the end when there is a line at all.
pub proof fn lemma_log_is_joined_lines(lines: Seq<Seq<char>>)
    ensures
        log_text(lines) == join(lines.push(Seq::empty()), '\n'),
    decreases lines.len(),
{
    let closed = lines.push(Seq::empty());
    if lines.len() == 0 {
        assert(join(closed, '\n') =~= Seq::<char>::empty());
    } else {
        let front = lines.drop_last();
        lemma_log_is_joined_lines(front);
        assert(closed.drop_last() =~= lines);
        if front.len() == 0 {
            assert(join(lines, '\n') =~= lines.last());
        } else {
            assert(lines.drop_last() =~= front);
            assert(front.push(Seq::empty()).drop_last() =~= front);
        }
        assert(join(closed, '\n') =~= join(lines, '\n').push('\n'));
        assert(join(front.push(Seq::empty()), '\n') =~= if front.len() == 0 {
            Seq::<char>::empty()
        } else {
            join(front, '\n').push('\n')
        });
        assert(log_text(lines) =~= join(closed, '\n'));
    }
}

/// The log of a stream whose every read is a line ending in a plain line
/// feed is, character for character, what was read: nothing is lost, added
/// or reordered, and the data ends only with the last read.
pub proof fn lemma_log_is_content(reads: Seq<Seq<char>>)
    requires
        forall|i: int| 0 <= i < reads.len() ==> plainly_terminated(#[trigger] reads[i]),
    ensures
        ends_after(reads, reads.len() as int),
        log_text(stripped(reads)) == concat(reads),
    decreases reads.len(),
{
    if reads.len() > 0 {
        let front = reads.drop_last();
        let raw = reads.last();
        lemma_log_is_content(front);
        assert(plainly_terminated(raw));
        assert(stripped(reads).drop_last() =~= stripped(front));
        assert(stripped(reads).last() == strip_terminator(raw));
        assert(strip_terminator(raw).push('\n') =~= raw);
    }
}

} // verus!
