//! The two collaborators of the engine, held as plain values: an output
//! transcript (an append-only sequence of lines) and a scripted input
//! provider (a sequence of lines handed out one per call). A caller that
//! talks to a real terminal fills the script from its input and prints the
//! transcript afterwards.

use vstd::prelude::*;

verus! {

/// The text of a sequence of output lines.
pub open spec fn lines_of(s: Seq<String>) -> Seq<Seq<char>> {
    Seq::new(s.len(), |i: int| s[i]@)
}

pub proof fn lemma_lines_push(s: Seq<String>, x: String)
    ensures
        lines_of(s.push(x)) == lines_of(s).push(x@),
{
    assert(lines_of(s.push(x)) =~= lines_of(s).push(x@));
}

/// The input provider: hands out its lines in order, one per call, and
/// signals end-of-input once they are exhausted.
pub struct InputScript {
    pub lines: Vec<String>,
    pub pos: usize,
}

impl InputScript {
    pub open spec fn wf(self) -> bool {
        self.pos <= self.lines.len()
    }

    /// The lines not yet handed out.
    pub open spec fn remaining(self) -> Seq<Seq<char>> {
        lines_of(self.lines@).skip(self.pos as int)
    }

    pub fn new(lines: Vec<String>) -> (s: InputScript)
        ensures
            s.wf(),
            s.remaining() == lines_of(lines@),
    {
        let s = InputScript { lines, pos: 0 };
        proof {
            assert(s.remaining() =~= lines_of(s.lines@));
        }
        s
    }

    /// The next line of the script, or `None` when the input is exhausted.
    pub fn next_line(&mut self) -> (r: Option<String>)
        requires
            old(self).wf(),
        ensures
            final(self).wf(),
            old(self).remaining().len() == 0 ==> r is None && *final(self) == *old(self),
            old(self).remaining().len() > 0 ==> {
                &&& r matches Some(l) && l@ == old(self).remaining()[0]
                &&& final(self).remaining() == old(self).remaining().drop_first()
            },
    {
        if self.pos < self.lines.len() {
            let line = self.lines[self.pos].clone();
            self.pos = self.pos + 1;
            proof {
                assert(final(self).remaining() =~= old(self).remaining().drop_first());
            }
            Some(line)
        } else {
            None
        }
    }
}

/// What a normalized input line asks for: one more card, a stand, or
/// neither (to be rejected and asked again).
#[derive(Clone, Copy, Debug, PartialEq, Eq, Structural)]
pub enum Choice {
    Yes,
    No,
    Other,
}

/// What `str::trim` returns: a function of the characters alone.
pub uninterp spec fn trim_of(s: Seq<char>) -> Seq<char>;

/// What `str::to_lowercase` returns: a function of the characters alone.
pub uninterp spec fn lower_of(s: Seq<char>) -> Seq<char>;

/// Relies on str::trim: the returned slice is the input with leading and
/// trailing whitespace removed, and depends on the characters alone.
#[verifier::external_body]
fn trim_line(s: &str) -> (r: &str)
    ensures
        r@ == trim_of(s@),
{
    s.trim()
}

/// Relies on str::to_lowercase: the result is the lowercase mapping of the
/// input and depends on the characters alone.
#[verifier::external_body]
fn lowercase(s: &str) -> (r: String)
    ensures
        r@ == lower_of(s@),
{
    s.to_lowercase()
}

/// How an already normalized line is interpreted: `"y"` draws, `"n"` stands,
/// anything else is rejected.
pub open spec fn choice_of(s: Seq<char>) -> Choice {
    if s == "y"@ {
        Choice::Yes
    } else if s == "n"@ {
        Choice::No
    } else {
        Choice::Other
    }
}

/// Interprets a line that needs no further normalization.
pub fn classify_choice(s: &str) -> (c: Choice)
    ensures
        c == choice_of(s@),
{
    let owned = s.to_owned();
    if owned == String::from_str("y") {
        Choice::Yes
    } else if owned == String::from_str("n") {
        Choice::No
    } else {
        Choice::Other
    }
}

/// Normalizes a raw input line (trim whitespace, fold case) and interprets it.
pub fn normalize_choice(line: &str) -> (c: Choice)
    ensures
        c == choice_of(lower_of(trim_of(line@))),
{
    let lowered = lowercase(trim_line(line));
    classify_choice(lowered.as_str())
}

} // verus!
