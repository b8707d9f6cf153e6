//! The terms in which the laws speak of text: line breaks, and lines with something before them.
use vstd::prelude::*;

use crate::model::{line_breaks, reflowed, StateView};

verus! {

/// What stands at the beginning of a line in the state `st`.
pub open spec fn margin(st: StateView) -> Seq<char> {
    st.padding.stack.flatten()
}

/// A newline, and the beginning of the next line.
pub open spec fn line_end(st: StateView) -> Seq<char> {
    seq!['\n'] + margin(st)
}

/// `n` times a newline and `start`.
pub open spec fn breaks(start: Seq<char>, n: nat) -> Seq<char> {
    Seq::new(n, |i: int| seq!['\n'] + start).flatten()
}

/// The line breaks that are due in the state `st`.
pub open spec fn pending(st: StateView) -> Seq<char> {
    breaks(margin(st), st.newlines_before_start)
}

/// `t` with `start` behind each of its newlines.
pub open spec fn padded(t: Seq<char>, start: Seq<char>) -> Seq<char> {
    t.map_values(
        |c: char|
            if c == '\n' {
                seq!['\n'] + start
            } else {
                seq![c]
            },
    ).flatten()
}

/// `c`, `n` times.
pub open spec fn run(c: char, n: nat) -> Seq<char> {
    Seq::new(n, |i: int| c)
}

pub(crate) proof fn lemma_breaks(start: Seq<char>, n: nat)
    ensures
        line_breaks(start, n) == breaks(start, n),
    decreases n,
{
    let all = Seq::new(n, |i: int| seq!['\n'] + start);
    if n == 0 {
        assert(all.flatten() =~= seq![]);
    } else {
        lemma_breaks(start, (n - 1) as nat);
        let before = Seq::new((n - 1) as nat, |i: int| seq!['\n'] + start);
        before.lemma_flatten_push(seq!['\n'] + start);
        assert(all =~= before.push(seq!['\n'] + start));
    }
}

pub(crate) proof fn lemma_padded(t: Seq<char>, start: Seq<char>)
    ensures
        reflowed(t, start) == padded(t, start),
    decreases t.len(),
{
    let shown = |c: char|
        if c == '\n' {
            seq!['\n'] + start
        } else {
            seq![c]
        };
    let all = t.map_values(shown);
    if t.len() == 0 {
        assert(all.flatten() =~= seq![]);
    } else {
        let before = t.drop_last();
        lemma_padded(before, start);
        let parts = before.map_values(shown);
        parts.lemma_flatten_push(shown(t.last()));
        assert(all =~= parts.push(shown(t.last())));
        assert(padded(t, start) == padded(before, start) + shown(t.last()));
        assert(reflowed(t, start) =~= padded(t, start));
    }
}

} // verus!
