//! Where text goes.
use vstd::prelude::*;
use vstd::string::*;

use crate::model::reflowed;
use crate::padding::PaddingView;

verus! {

/// `std::fmt::Error`, the error of a sink that refuses text. Nothing is known of its contents.
#[verifier::external_type_specification]
#[verifier::external_body]
pub struct ExFmtError(std::fmt::Error);

/// A sink for text, which may refuse what it is handed.
pub trait Write {
    /// Everything that was handed to this sink so far, whether the sink took it or refused it.
    /// A sink that is not verified need not say what that is.
    open spec fn offered(&self) -> Seq<char> {
        arbitrary()
    }

    /// How often this sink has refused what it was handed so far.
    /// A sink that is not verified need not say what that is.
    open spec fn refusals(&self) -> nat {
        arbitrary()
    }

    /// Whether this sink refused what it was handed last.
    /// A sink that is not verified need not say what that is.
    open spec fn was_refused(&self) -> bool {
        arbitrary()
    }

    /// Hands `s` to the sink. The answer is an error if and only if the sink refuses it.
    fn write_str(&mut self, s: &str) -> (r: Result<(), std::fmt::Error>)
        ensures
            final(self).offered() == old(self).offered() + s@,
            final(self).refusals() == old(self).refusals() + (if r is Err {
                1nat
            } else {
                0
            }),
            final(self).was_refused() == r is Err,
    ;

    /// Hands the character `c` to the sink. The answer is an error if and only if the sink
    /// refuses it.
    fn write_char(&mut self, c: char) -> (r: Result<(), std::fmt::Error>)
        ensures
            final(self).offered() == old(self).offered().push(c),
            final(self).refusals() == old(self).refusals() + (if r is Err {
                1nat
            } else {
                0
            }),
            final(self).was_refused() == r is Err,
    ;
}

/// A string takes everything that it is handed.
impl Write for String {
    open spec fn offered(&self) -> Seq<char> {
        self@
    }

    open spec fn refusals(&self) -> nat {
        0
    }

    open spec fn was_refused(&self) -> bool {
        false
    }

    fn write_str(&mut self, s: &str) -> (r: Result<(), std::fmt::Error>) {
        self.append(s);
        Ok(())
    }

    fn write_char(&mut self, c: char) -> (r: Result<(), std::fmt::Error>) {
        self.push(c);
        Ok(())
    }
}

/// What holds after `text` was handed to a sink piece by piece, in order, to its end or to some
/// point behind the first refusal: `ok` says whether all of it was taken. A sink that refuses
/// nothing has got exactly `text`. Another one was offered a beginning of it.
pub open spec fn emits<W: Write>(before: W, after: W, ok: bool, text: Seq<char>) -> bool {
    &&& ok ==> after.refusals() == before.refusals()
    &&& !ok ==> after.refusals() > before.refusals()
    &&& before.offered().is_prefix_of(after.offered())
    &&& after.offered().is_prefix_of(before.offered() + text)
    &&& ok ==> after.offered() =~= before.offered() + text
}

/// What holds after texts were handed to a sink until it refused one of them: that one is the last
/// that it was handed. `ok` says whether all of them were taken.
pub open spec fn stops_at_once<W: Write>(before: W, after: W, ok: bool) -> bool {
    &&& ok ==> after.refusals() == before.refusals()
    &&& !ok ==> after.refusals() == before.refusals() + 1
    &&& !ok ==> after.was_refused()
}

/// What holds after `text` was handed to a sink and, whether the sink took it or not, the padding
/// `p` behind it, until the sink refused a part of the padding: at least the outermost part of it
/// was handed over and, unless the sink refused the last that it was handed, all of it. `ok` says
/// whether everything was taken.
pub open spec fn breaks_anyway<W: Write>(
    before: W,
    after: W,
    ok: bool,
    text: Seq<char>,
    p: PaddingView,
) -> bool {
    &&& emits(before, after, ok, text + p.line_start())
    &&& (before.offered() + text + p.outermost()).is_prefix_of(after.offered())
    &&& !after.was_refused() ==> after.offered() == before.offered() + text + p.line_start()
}

/// What holds after the lines of `t` were handed to a sink behind `lead`, if the sink refused
/// something of the line from `b` to the newline at `i`, or of the padding behind it: the sink took
/// what comes before that line and became `line`, and it was handed the line, its newline and
/// padding behind it whether it took the line or not.
pub open spec fn breaks_off_at<W: Write>(
    before: W,
    line: W,
    after: W,
    lead: Seq<char>,
    t: Seq<char>,
    p: PaddingView,
    b: int,
    i: int,
) -> bool {
    &&& 0 <= b <= i < t.len()
    &&& b == 0 || t[b - 1] == '\n'
    &&& t[i] == '\n'
    &&& !t.subrange(b, i).contains('\n')
    &&& emits(before, line, true, lead + reflowed(t.take(b), p.line_start()))
    &&& breaks_anyway(line, after, false, t.subrange(b, i + 1), p)
}

/// What holds after `lead`, the lines of `t` and something else were handed to a sink, if the sink
/// refused something: of `lead`, and of what comes behind the newlines of `t`, nothing was handed
/// over after that, and of `t` the rest of the line.
pub open spec fn breaks_off<W: Write>(
    before: W,
    after: W,
    lead: Seq<char>,
    t: Seq<char>,
    p: PaddingView,
) -> bool {
    ||| {
        &&& lead.len() > 0
        &&& stops_at_once(before, after, false)
        &&& after.offered().is_prefix_of(before.offered() + lead)
    }
    ||| {
        &&& stops_at_once(before, after, false)
        &&& (before.offered() + lead + reflowed(t, p.line_start())).is_prefix_of(after.offered())
    }
    ||| exists|line: W, b: int, i: int| #[trigger]
        breaks_off_at(before, line, after, lead, t, p, b, i)
}

/// What was taken before comes before `lead`.
pub proof fn lemma_breaks_off_behind<W: Write>(
    before: W,
    between: W,
    after: W,
    first: Seq<char>,
    lead: Seq<char>,
    t: Seq<char>,
    p: PaddingView,
)
    requires
        sends(before, between, true, first),
        breaks_off(between, after, lead, t, p),
    ensures
        breaks_off(before, after, first + lead, t, p),
{
    reveal(sends);
    assert(between.offered() + lead =~= before.offered() + (first + lead));
    if exists|line: W, b: int, i: int| #[trigger]
        breaks_off_at(between, line, after, lead, t, p, b, i) {
        let (line, b, i) = choose|line: W, b: int, i: int| #[trigger]
            breaks_off_at(between, line, after, lead, t, p, b, i);
        let shown = reflowed(t.take(b), p.line_start());
        assert(first + lead + shown =~= first + (lead + shown));
        assert(breaks_off_at(before, line, after, first + lead, t, p, b, i));
    }
}

/// A single line was broken off.
pub proof fn lemma_breaks_off_line<W: Write>(before: W, after: W, t: Seq<char>, p: PaddingView)
    requires
        t.len() > 0,
        t.last() == '\n',
        !t.drop_last().contains('\n'),
        breaks_anyway(before, after, false, t, p),
    ensures
        breaks_off(before, after, seq![], t, p),
{
    let i = t.len() - 1;
    assert(t.subrange(0, i) =~= t.drop_last());
    assert(t.subrange(0, i + 1) =~= t);
    assert(seq![] + reflowed(t.take(0), p.line_start()) =~= Seq::<char>::empty());
    assert(breaks_off_at(before, before, after, seq![], t, p, 0, i));
}

/// [`emits`], to be reasoned about by the lemmas below.
#[verifier::opaque]
pub open spec fn sends<W: Write>(before: W, after: W, ok: bool, text: Seq<char>) -> bool {
    emits(before, after, ok, text)
}

/// Nothing was handed over.
pub broadcast proof fn lemma_sends_nothing<W: Write>(f: W)
    ensures
        #[trigger] sends(f, f, true, Seq::<char>::empty()),
{
    reveal(sends);
}

/// One text was handed over behind another.
pub broadcast proof fn lemma_sends_then<W: Write>(
    before: W,
    between: W,
    after: W,
    first: Seq<char>,
    ok: bool,
    second: Seq<char>,
)
    requires
        #[trigger] sends(before, between, true, first),
        #[trigger] sends(between, after, ok, second),
    ensures
        sends(before, after, ok, first + second),
{
    reveal(sends);
}

/// A text was refused, so what was to follow it was not handed over.
pub broadcast proof fn lemma_sends_stop<W: Write>(
    before: W,
    after: W,
    first: Seq<char>,
    second: Seq<char>,
)
    requires
        #[trigger] sends(before, after, false, first),
    ensures
        sends(before, after, false, #[trigger] (first + second)),
{
    reveal(sends);
}

pub broadcast group group_sends {
    lemma_sends_nothing,
    lemma_sends_then,
    lemma_sends_stop,
}

/// A text was refused, and it is the beginning of another one.
pub proof fn lemma_sends_prefix<W: Write>(before: W, after: W, first: Seq<char>, whole: Seq<char>)
    requires
        sends(before, after, false, first),
        first.is_prefix_of(whole),
    ensures
        sends(before, after, false, whole),
{
    reveal(sends);
}

/// A text was handed over whether the sink took the one before it or not.
pub proof fn lemma_sends_anyway<W: Write>(
    before: W,
    between: W,
    after: W,
    first: Seq<char>,
    first_ok: bool,
    second_ok: bool,
    second: Seq<char>,
)
    requires
        between.offered() == before.offered() + first,
        between.refusals() == before.refusals() + (if first_ok {
            0nat
        } else {
            1
        }),
        sends(between, after, second_ok, second),
    ensures
        sends(before, after, first_ok && second_ok, first + second),
{
    reveal(sends);
}

/// Hands `s` to the sink.
pub(crate) fn put_str<W: Write>(f: &mut W, s: &str) -> (r: Result<(), std::fmt::Error>)
    ensures
        sends(*old(f), *final(f), r is Ok, s@),
        stops_at_once(*old(f), *final(f), r is Ok),
        final(f).offered() == old(f).offered() + s@,
{
    let r = f.write_str(s);
    proof {
        reveal(sends);
    }
    r
}

/// Hands `c` to the sink.
pub(crate) fn put_char<W: Write>(f: &mut W, c: char) -> (r: Result<(), std::fmt::Error>)
    ensures
        sends(*old(f), *final(f), r is Ok, seq![c]),
        stops_at_once(*old(f), *final(f), r is Ok),
{
    let r = f.write_char(c);
    proof {
        reveal(sends);
    }
    r
}

} // verus!
