//! SubRip (`.srt`) captions. Each cue is a block
//!
//! ```text
//! <n>
//! HH:MM:SS,mmm --> HH:MM:SS,mmm
//! <its words joined, trimmed>
//!
//! ```
//!
//! numbered from 1. A cue whose text trims to nothing is left out and takes
//! no number. Times are whole milliseconds on the edited timeline.

use vstd::prelude::*;
use crate::text::{decimal, push_char, trim, trim_spec, u64_to_decimal};
use crate::timestamp::{push_zero_padded, zero_pad};

verus! {

/// `HH:MM:SS,mmm` for `ms` milliseconds; the hours take as many digits as
/// they need, at least two.
pub open spec fn srt_timecode_spec(ms: nat) -> Seq<char> {
    zero_pad(ms / 3_600_000, 2) + seq![':'] + zero_pad((ms / 60_000) % 60, 2) + seq![':']
        + zero_pad((ms / 1000) % 60, 2) + seq![','] + zero_pad(ms % 1000, 3)
}

/// One caption: the span it is shown for and the words it shows.
#[derive(Debug, Clone)]
pub struct Cue {
    pub start_ms: u64,
    pub end_ms: u64,
    pub words: Vec<String>,
}

pub struct CueView {
    pub start_ms: nat,
    pub end_ms: nat,
    pub words: Seq<Seq<char>>,
}

impl View for Cue {
    type V = CueView;

    open spec fn view(&self) -> CueView {
        CueView {
            start_ms: self.start_ms as nat,
            end_ms: self.end_ms as nat,
            words: self.words@.map_values(|w: String| w@),
        }
    }
}

pub open spec fn cues_view(s: Seq<Cue>) -> Seq<CueView> {
    s.map_values(|c: Cue| c@)
}

/// The words one after another, with nothing between them.
pub open spec fn joined(words: Seq<Seq<char>>) -> Seq<char>
    decreases words.len(),
{
    if words.len() == 0 {
        Seq::empty()
    } else {
        joined(words.drop_last()) + words.last()
    }
}

/// The text a cue shows.
pub open spec fn cue_text(c: CueView) -> Seq<char> {
    trim_spec(joined(c.words))
}

/// The block of cue number `index`.
pub open spec fn cue_block(index: nat, c: CueView) -> Seq<char> {
    decimal(index) + seq!['\n'] + srt_timecode_spec(c.start_ms) + seq![' ', '-', '-', '>', ' ']
        + srt_timecode_spec(c.end_ms) + seq!['\n'] + cue_text(c) + seq!['\n', '\n']
}

/// The file for `cues`, numbering the first cue that shows text `index`.
pub open spec fn srt_spec(cues: Seq<CueView>, index: nat) -> Seq<char>
    decreases cues.len(),
{
    if cues.len() == 0 {
        Seq::empty()
    } else if cue_text(cues[0]).len() == 0 {
        srt_spec(cues.drop_first(), index)
    } else {
        cue_block(index, cues[0]) + srt_spec(cues.drop_first(), index + 1)
    }
}

fn push_str(out: &mut String, s: &str)
    ensures
        final(out)@ == old(out)@ + s@,
{
    out.append(s);
}

fn push_chars(out: &mut String, cs: &[char])
    ensures
        final(out)@ == old(out)@ + cs@,
{
    let ghost start = out@;
    let mut i: usize = 0;
    while i < cs.len()
        invariant
            i <= cs.len(),
            out@ == start + cs@.take(i as int),
        decreases cs.len() - i,
    {
        push_char(out, cs[i]);
        i = i + 1;
        assert(out@ =~= start + cs@.take(i as int));
    }
    assert(cs@.take(cs.len() as int) =~= cs@);
}

/// `ms` milliseconds as `HH:MM:SS,mmm`.
pub fn srt_timecode(ms: u64) -> (s: String)
    ensures
        s@ == srt_timecode_spec(ms as nat),
{
    let mut out = String::new();
    push_zero_padded(&mut out, ms / 3_600_000, 2);
    push_char(&mut out, ':');
    push_zero_padded(&mut out, (ms / 60_000) % 60, 2);
    push_char(&mut out, ':');
    push_zero_padded(&mut out, (ms / 1000) % 60, 2);
    push_char(&mut out, ',');
    push_zero_padded(&mut out, ms % 1000, 3);
    assert(out@ =~= srt_timecode_spec(ms as nat));
    out
}

fn join_words(words: &Vec<String>) -> (r: String)
    ensures
        r@ == joined(words@.map_values(|w: String| w@)),
{
    let ghost ws = words@.map_values(|w: String| w@);
    let mut out = String::new();
    let mut i: usize = 0;
    while i < words.len()
        invariant
            i <= words.len(),
            ws == words@.map_values(|w: String| w@),
            out@ == joined(ws.take(i as int)),
        decreases words.len() - i,
    {
        push_str(&mut out, words[i].as_str());
        proof {
            let t = ws.take(i + 1);
            assert(t.drop_last() =~= ws.take(i as int));
        }
        i = i + 1;
    }
    assert(ws.take(words.len() as int) =~= ws);
    out
}

proof fn lemma_srt_step(cues: Seq<CueView>, i: int, index: nat)
    requires
        0 <= i < cues.len(),
    ensures
        srt_spec(cues.subrange(i, cues.len() as int), index) == if cue_text(cues[i]).len() == 0 {
            srt_spec(cues.subrange(i + 1, cues.len() as int), index)
        } else {
            cue_block(index, cues[i]) + srt_spec(cues.subrange(i + 1, cues.len() as int), index + 1)
        },
{
    let s = cues.subrange(i, cues.len() as int);
    assert(s.drop_first() =~= cues.subrange(i + 1, cues.len() as int));
    assert(s[0] == cues[i]);
}

fn push_cue_block(out: &mut String, index: u64, cue: &Cue, text: &String)
    requires
        text@ == cue_text(cue@),
    ensures
        final(out)@ == old(out)@ + cue_block(index as nat, cue@),
{
    let ghost before = out@;
    let number = u64_to_decimal(index);
    push_str(out, number.as_str());
    push_char(out, '\n');
    let a = srt_timecode(cue.start_ms);
    push_str(out, a.as_str());
    push_chars(out, &[' ', '-', '-', '>', ' ']);
    let b = srt_timecode(cue.end_ms);
    push_str(out, b.as_str());
    push_char(out, '\n');
    push_str(out, text.as_str());
    push_chars(out, &['\n', '\n']);
    assert(out@ =~= before + cue_block(index as nat, cue@));
}

/// The `.srt` file for `cues`, in order.
pub fn render_srt(cues: &Vec<Cue>) -> (r: String)
    ensures
        r@ == srt_spec(cues_view(cues@), 1),
{
    let ghost cv = cues_view(cues@);
    let mut out = String::new();
    let mut index: u128 = 1;
    let mut i: usize = 0;
    assert(cv.subrange(0, cv.len() as int) =~= cv);
    while i < cues.len()
        invariant
            i <= cues.len(),
            cv == cues_view(cues@),
            1 <= index <= i + 1,
            out@ + srt_spec(cv.subrange(i as int, cv.len() as int), index as nat) == srt_spec(cv, 1),
        decreases cues.len() - i,
    {
        let cue = &cues[i];
        proof {
            lemma_srt_step(cv, i as int, index as nat);
        }
        let text = trim(join_words(&cue.words).as_str());
        if text.unicode_len() > 0 {
            let ghost before = out@;
            let ghost rest = srt_spec(cv.subrange(i + 1, cv.len() as int), (index + 1) as nat);
            push_cue_block(&mut out, index as u64, cue, &text);
            assert(out@ + rest =~= before + (cue_block(index as nat, cue@) + rest));
            index = index + 1;
        }
        i = i + 1;
    }
    assert(cv.subrange(cv.len() as int, cv.len() as int) =~= Seq::<CueView>::empty());
    out
}

} // verus!
