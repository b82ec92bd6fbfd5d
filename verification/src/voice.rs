//! rbld's own voice on the terminal: the labelled lines it says between the
//! programs it hands the terminal to, and where a blank line sets them apart.

use vstd::prelude::*;

use crate::render::{
    done, error, headline, labelled, labelled_line, note, paint, painted, step,
    strip_escapes, without_escapes,
};
use crate::text::{blank, chars_of, is_blank, lines, split_lines, trim_end, trimmed_len};
use crate::update::{standing, standing_of};

verus! {

/// What rbld has said so far in a run, as far as setting its lines apart goes.
#[derive(Clone, Copy, Debug, PartialEq, Eq)]
pub struct Voice {
    /// Whether anything of ours has been said yet, and so whether a line has
    /// anything above it to be set apart from at all.
    pub announced: bool,
    /// Whether a program has left anything on the screen since the last label.
    pub spoken: bool,
}

/// A blank line where one is wanted.
pub open spec fn gap(wanted: bool) -> Seq<char> {
    if wanted {
        seq!['\n']
    } else {
        seq![]
    }
}

/// A step is set apart from whatever of ours came before it; the first one
/// opens the output rather than breaking it up.
pub open spec fn step_gap(v: Voice) -> bool {
    v.announced
}

/// A `done` is set apart only from a program that had something to show.
pub open spec fn done_gap(v: Voice) -> bool {
    v.spoken
}

/// A stop is set apart from whatever of ours came before it; only a run
/// stopped before it started has nothing above it.
pub open spec fn stop_gap(v: Voice) -> bool {
    v.announced
}

pub open spec fn after_step(v: Voice) -> Voice {
    Voice { announced: true, spoken: false }
}

pub open spec fn after_done(v: Voice) -> Voice {
    Voice { spoken: false, ..v }
}

pub open spec fn after_stop(v: Voice) -> Voice {
    Voice { spoken: false, ..v }
}

/// Whether any of `output` is still on the screen once it has all been
/// written: what a newline committed, of each line only what stood after its
/// last carriage return, with the escapes taken out last.
pub open spec fn leaves_standing(output: Seq<char>) -> bool {
    exists|i: int|
        0 <= i < lines(output).len() && !blank(without_escapes(standing(trim_end(#[trigger] lines(output)[i], '\r'))))
}

pub open spec fn after_relay(v: Voice, output: Seq<char>) -> Voice {
    Voice { spoken: v.spoken || leaves_standing(output), ..v }
}

/// The line a `step` says.
pub open spec fn step_text(v: Voice, message: Seq<char>) -> Seq<char> {
    gap(step_gap(v)) + labelled_line(step(), "step"@, message)
}

/// The line a `done` says.
pub open spec fn done_text(v: Voice, message: Seq<char>) -> Seq<char> {
    gap(done_gap(v)) + labelled_line(done(), "done"@, message)
}

/// The two lines a stop says: what stopped the run, and what became of the work.
pub open spec fn stop_text(v: Voice, headline_text: Seq<char>, note_text: Seq<char>) -> Seq<char> {
    gap(stop_gap(v)) + labelled_line(error(), "error"@, painted(headline(), headline_text)) + seq!['\n']
        + labelled_line(note(), "note"@, painted(note(), note_text))
}

/// Output leaves something standing exactly when one of its lines, any one,
/// not only the last, still shows something once what was drawn over is
/// gone and the escapes are taken out.
pub proof fn lemma_any_standing_line_counts(output: Seq<char>)
    ensures
        forall|i: int|
            0 <= i < lines(output).len() && !blank(without_escapes(standing(trim_end(#[trigger] lines(output)[i], '\r'))))
                ==> leaves_standing(output),
        leaves_standing(output) ==> exists|i: int|
            0 <= i < lines(output).len() && !blank(without_escapes(standing(trim_end(#[trigger] lines(output)[i], '\r')))),
{
}

/// Output written in two parts, the first ending its last line, leaves
/// something standing exactly when either part does: a later part wiping its
/// own line takes nothing back from the lines before it.
pub proof fn lemma_standing_parts(first: Seq<char>, then: Seq<char>)
    requires
        first.len() > 0 ==> first.last() == '\n',
    ensures
        leaves_standing(first + then) == (leaves_standing(first) || leaves_standing(then)),
{
    crate::text::lemma_lines_append(first, then);
    let la = lines(first);
    let lb = lines(then);
    let l = lines(first + then);
    if leaves_standing(first + then) {
        let i = choose|i: int|
            0 <= i < l.len() && !blank(without_escapes(standing(trim_end(#[trigger] l[i], '\r'))));
        if i < la.len() {
            assert(l[i] == la[i]);
        } else {
            assert(l[i] == lb[i - la.len()]);
        }
    }
    if leaves_standing(first) {
        let i = choose|i: int|
            0 <= i < la.len() && !blank(without_escapes(standing(trim_end(#[trigger] la[i], '\r'))));
        assert(l[i] == la[i]);
    }
    if leaves_standing(then) {
        let i = choose|i: int|
            0 <= i < lb.len() && !blank(without_escapes(standing(trim_end(#[trigger] lb[i], '\r'))));
        assert(l[la.len() + i] == lb[i]);
    }
}

/// Whether any of `output` is still on the screen once it has all been written.
pub fn left_standing(output: &str) -> (r: bool)
    ensures
        r == leaves_standing(output@),
{
    let cs = chars_of(output);
    let ls = split_lines(cs.as_slice());
    let mut i: usize = 0;
    while i < ls.len()
        invariant
            ls.deep_view() == lines(output@),
            0 <= i <= ls@.len(),
            forall|j: int| 0 <= j < i ==> blank(without_escapes(standing(trim_end(#[trigger] lines(output@)[j], '\r')))),
        decreases ls.len() - i,
    {
        let raw = ls[i].as_slice();
        let kept = trimmed_len(raw, '\r');
        let trimmed = crate::text::part_of(raw, 0, kept);
        let st = standing_of(trimmed.as_slice());
        let n = st.len();
        let st_text = crate::text::text_of(st.as_slice(), 0, n);
        let plain = strip_escapes(st_text.as_str());
        proof {
            assert(ls[i as int]@ == ls.deep_view()[i as int]);
            assert(trimmed@ =~= trim_end(lines(output@)[i as int], '\r'));
            assert(st_text@ =~= st@);
        }
        if !is_blank(plain.as_str()) {
            return true;
        }
        i += 1;
    }
    false
}

impl Voice {
    /// A run that has said nothing yet.
    pub fn new() -> (r: Voice)
        ensures
            !r.announced,
            !r.spoken,
    {
        Voice { announced: false, spoken: false }
    }

    /// Names, on a line of its own, the program about to be given the
    /// terminal; whatever the program above had to say is said.
    pub fn step(&mut self, message: &str) -> (line: String)
        ensures
            line@ == step_text(*old(self), message@),
            *final(self) == after_step(*old(self)),
    {
        let mut line = if self.announced {
            "\n".to_owned()
        } else {
            String::new()
        };
        let label = labelled(step(), "step", message);
        line.append(label.as_str());
        proof {
            reveal_strlit("\n");
            assert(line@ =~= step_text(*old(self), message@));
        }
        self.announced = true;
        self.spoken = false;
        line
    }

    /// Closes the command, saying what it got done.
    pub fn done(&mut self, message: &str) -> (line: String)
        ensures
            line@ == done_text(*old(self), message@),
            *final(self) == after_done(*old(self)),
    {
        let mut line = if self.spoken {
            "\n".to_owned()
        } else {
            String::new()
        };
        let label = labelled(done(), "done", message);
        line.append(label.as_str());
        proof {
            reveal_strlit("\n");
            assert(line@ =~= done_text(*old(self), message@));
        }
        self.spoken = false;
        line
    }

    /// Closes the command the other way, saying what stopped it and what
    /// became of the work; whatever was standing has been answered for.
    pub fn stopped(&mut self, headline_text: &str, note_text: &str) -> (text: String)
        ensures
            text@ == stop_text(*old(self), headline_text@, note_text@),
            *final(self) == after_stop(*old(self)),
    {
        let mut text = if self.announced {
            "\n".to_owned()
        } else {
            String::new()
        };
        let first = labelled(error(), "error", paint(headline(), headline_text).as_str());
        text.append(first.as_str());
        text.append("\n");
        let second = labelled(note(), "note", paint(note(), note_text).as_str());
        text.append(second.as_str());
        proof {
            reveal_strlit("\n");
            assert(text@ =~= stop_text(*old(self), headline_text@, note_text@));
        }
        self.spoken = false;
        text
    }

    /// What is said where there is no terminal to run in front of: a command
    /// that stops to be answered has nothing to stop for otherwise.
    pub fn missing_terminal(&mut self) -> (text: String)
        ensures
            text@ == stop_text(
                *old(self),
                "cannot run without a terminal"@,
                "there is a question to answer on the way through, and it is read from a terminal"@,
            ),
            *final(self) == after_stop(*old(self)),
    {
        self.stopped(
            "cannot run without a terminal",
            "there is a question to answer on the way through, and it is read from a terminal",
        )
    }

    /// Takes account of what a program wrote through us: one that left
    /// something on the screen is what the next label is set apart from.
    pub fn relayed(&mut self, output: &str)
        ensures
            *final(self) == after_relay(*old(self), output@),
    {
        if left_standing(output) {
            self.spoken = true;
        }
    }
}

/// Says no, and shows what the command was looking at when it said so: the
/// listing set apart from the line that introduces it.
pub fn refuse(headline_text: &str, body: &str) -> (text: String)
    ensures
        text@ == seq!['\n'] + labelled_line(error(), "error"@, headline_text@) + seq!['\n', '\n'] + body@,
{
    let mut text = "\n".to_owned();
    let line = labelled(error(), "error", headline_text);
    text.append(line.as_str());
    text.append("\n\n");
    text.append(body);
    proof {
        reveal_strlit("\n");
        reveal_strlit("\n\n");
    }
    text
}

/// Says the command never got started.
pub fn fatal(message: &str) -> (text: String)
    ensures
        text@ == labelled_line(crate::render::fatal(), "fatal"@, message@),
{
    labelled(crate::render::fatal(), "fatal", message)
}

/// The first line of a run is never set apart: there is nothing above it.
pub proof fn lemma_first_line_not_set_apart()
    ensures
        !step_gap(Voice { announced: false, spoken: false }),
        !stop_gap(Voice { announced: false, spoken: false }),
        !done_gap(Voice { announced: false, spoken: false }),
{
}

/// A `done` straight after a step whose program said nothing is not set
/// apart: a blank line between two lines of ours with silence in between is a
/// gap to nothing.
pub proof fn lemma_done_after_silent_step(v: Voice)
    ensures
        !done_gap(after_step(v)),
{
}

/// Once a step has been said, anything that stops the run is set apart from
/// what came before it, whatever was relayed or said in between.
pub proof fn lemma_stop_after_step(v: Voice, output: Seq<char>)
    ensures
        stop_gap(after_step(v)),
        stop_gap(after_relay(after_step(v), output)),
        stop_gap(after_done(after_step(v))),
        step_gap(after_step(v)),
{
}

} // verus!
