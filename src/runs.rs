//! Run compression of the word listing: in a run of identical words the first
//! four are listed, the fifth becomes one elision marker, and the rest are
//! left out until the value changes.
use crate::stream::WordRecord;
use vstd::prelude::*;

verus! {

/// Repeat count at which the elision marker stands in for a word.
pub const MARKER_REPEAT: u32 = 4;

/// The value of the previous word, if any, and how many times in a row it has
/// repeated since it first appeared. The count stops growing once it is past
/// `MARKER_REPEAT`, since nothing is listed from then until the run breaks.
#[derive(Clone, Copy, Debug)]
pub struct RunState {
    pub prev: Option<u32>,
    pub repeats: u32,
}

/// What to list for a word.
#[derive(Clone, Copy, Debug, PartialEq, Eq, Structural)]
pub enum Emit {
    /// The word's own line.
    Line,
    /// The elision marker in place of the word.
    Marker,
    /// Nothing.
    Silent,
}

/// One line of the compressed listing.
#[derive(Clone, Copy, Debug, PartialEq, Eq, Structural)]
pub enum DumpLine {
    Word(WordRecord),
    Elided,
}

/// The state after seeing `word` in state `s`.
pub open spec fn run_step(s: RunState, word: u32) -> RunState {
    if s.prev == Some(word) {
        RunState {
            prev: s.prev,
            repeats: if s.repeats <= MARKER_REPEAT { (s.repeats + 1) as u32 } else { s.repeats },
        }
    } else {
        RunState { prev: Some(word), repeats: 0 }
    }
}

/// What is listed for a word whose run has reached `repeats`.
pub open spec fn emission(repeats: u32) -> Emit {
    if repeats < MARKER_REPEAT {
        Emit::Line
    } else if repeats == MARKER_REPEAT {
        Emit::Marker
    } else {
        Emit::Silent
    }
}

/// The state before any word has been seen.
pub open spec fn initial_run() -> RunState {
    RunState { prev: None, repeats: 0 }
}

/// The state after seeing the words of `recs` in order.
pub open spec fn run_after(recs: Seq<WordRecord>) -> RunState
    decreases recs.len(),
{
    if recs.len() == 0 {
        initial_run()
    } else {
        run_step(run_after(recs.drop_last()), recs.last().word)
    }
}

/// The lines listed for `rec` when its run has reached `repeats`.
pub open spec fn lines_for(rec: WordRecord, repeats: u32) -> Seq<DumpLine> {
    match emission(repeats) {
        Emit::Line => seq![DumpLine::Word(rec)],
        Emit::Marker => seq![DumpLine::Elided],
        Emit::Silent => seq![],
    }
}

/// The compressed listing of `recs`.
pub open spec fn compressed(recs: Seq<WordRecord>) -> Seq<DumpLine>
    decreases recs.len(),
{
    if recs.len() == 0 {
        seq![]
    } else {
        compressed(recs.drop_last()) + lines_for(recs.last(), run_after(recs).repeats)
    }
}

impl RunState {
    /// A state with no previous word.
    pub fn new() -> (r: RunState)
        ensures
            r == initial_run(),
    {
        RunState { prev: None, repeats: 0 }
    }

    /// Takes in the next word and says what to list for it.
    pub fn step(&mut self, word: u32) -> (r: Emit)
        ensures
            *final(self) == run_step(*old(self), word),
            r == emission(final(self).repeats),
    {
        let same = match self.prev {
            Some(p) => p == word,
            None => false,
        };
        if same {
            if self.repeats <= MARKER_REPEAT {
                self.repeats = self.repeats + 1;
            }
        } else {
            self.prev = Some(word);
            self.repeats = 0;
        }
        if self.repeats < MARKER_REPEAT {
            Emit::Line
        } else if self.repeats == MARKER_REPEAT {
            Emit::Marker
        } else {
            Emit::Silent
        }
    }
}

/// Lists `records` with runs of identical words compressed.
pub fn compress(records: &Vec<WordRecord>) -> (r: Vec<DumpLine>)
    ensures
        r@ == compressed(records@),
{
    let mut state = RunState::new();
    let mut lines: Vec<DumpLine> = Vec::new();
    let mut i: usize = 0;
    proof {
        assert(records@.subrange(0, 0) =~= Seq::<WordRecord>::empty());
    }
    while i < records.len()
        invariant
            i <= records@.len(),
            state == run_after(records@.subrange(0, i as int)),
            lines@ == compressed(records@.subrange(0, i as int)),
        decreases records@.len() - i,
    {
        let rec = records[i];
        let emit = state.step(rec.word);
        proof {
            let next = records@.subrange(0, i + 1);
            assert(next.drop_last() =~= records@.subrange(0, i as int));
            assert(next.last() == rec);
        }
        match emit {
            Emit::Line => lines.push(DumpLine::Word(rec)),
            Emit::Marker => lines.push(DumpLine::Elided),
            Emit::Silent => {},
        }
        proof {
            let next = records@.subrange(0, i + 1);
            assert(lines@ =~= compressed(next));
        }
        i = i + 1;
    }
    proof {
        assert(records@.subrange(0, records@.len() as int) =~= records@);
    }
    lines
}

/// Six identical words followed by a different one are listed as four word
/// lines, one elision marker, and the line of the different word.
pub proof fn lemma_six_repeats_then_change(recs: Seq<WordRecord>)
    requires
        recs.len() == 7,
        forall|i: int| 0 <= i < 6 ==> #[trigger] recs[i].word == recs[0].word,
        recs[6].word != recs[0].word,
    ensures
        compressed(recs) == seq![
            DumpLine::Word(recs[0]),
            DumpLine::Word(recs[1]),
            DumpLine::Word(recs[2]),
            DumpLine::Word(recs[3]),
            DumpLine::Elided,
            DumpLine::Word(recs[6]),
        ],
{
    let w = recs[0].word;
    assert(recs[1].word == w && recs[2].word == w && recs[3].word == w && recs[4].word == w
        && recs[5].word == w);
    assert(run_after(recs.subrange(0, 0)) == initial_run());
    assert(compressed(recs.subrange(0, 0)) == Seq::<DumpLine>::empty());
    assert(recs.subrange(0, 1).drop_last() =~= recs.subrange(0, 0));
    assert(recs.subrange(0, 2).drop_last() =~= recs.subrange(0, 1));
    assert(recs.subrange(0, 3).drop_last() =~= recs.subrange(0, 2));
    assert(recs.subrange(0, 4).drop_last() =~= recs.subrange(0, 3));
    assert(recs.subrange(0, 5).drop_last() =~= recs.subrange(0, 4));
    assert(recs.subrange(0, 6).drop_last() =~= recs.subrange(0, 5));
    assert(recs.drop_last() =~= recs.subrange(0, 6));
    assert(run_after(recs.subrange(0, 1)) == RunState { prev: Some(w), repeats: 0 });
    assert(run_after(recs.subrange(0, 2)) == RunState { prev: Some(w), repeats: 1 });
    assert(run_after(recs.subrange(0, 3)) == RunState { prev: Some(w), repeats: 2 });
    assert(run_after(recs.subrange(0, 4)) == RunState { prev: Some(w), repeats: 3 });
    assert(run_after(recs.subrange(0, 5)) == RunState { prev: Some(w), repeats: 4 });
    assert(run_after(recs.subrange(0, 6)) == RunState { prev: Some(w), repeats: 5 });
    assert(run_after(recs) == RunState { prev: Some(recs[6].word), repeats: 0 });
    assert(compressed(recs.subrange(0, 1)) =~= seq![DumpLine::Word(recs[0])]);
    assert(compressed(recs.subrange(0, 2)) =~= seq![DumpLine::Word(recs[0]), DumpLine::Word(recs[1])]);
    assert(compressed(recs.subrange(0, 3)) =~= seq![
        DumpLine::Word(recs[0]),
        DumpLine::Word(recs[1]),
        DumpLine::Word(recs[2]),
    ]);
    assert(compressed(recs.subrange(0, 4)) =~= seq![
        DumpLine::Word(recs[0]),
        DumpLine::Word(recs[1]),
        DumpLine::Word(recs[2]),
        DumpLine::Word(recs[3]),
    ]);
    assert(compressed(recs.subrange(0, 5)) =~= seq![
        DumpLine::Word(recs[0]),
        DumpLine::Word(recs[1]),
        DumpLine::Word(recs[2]),
        DumpLine::Word(recs[3]),
        DumpLine::Elided,
    ]);
    assert(compressed(recs.subrange(0, 6)) =~= compressed(recs.subrange(0, 5)));
    assert(compressed(recs) =~= compressed(recs.subrange(0, 6)) + seq![DumpLine::Word(recs[6])]);
}

} // verus!
