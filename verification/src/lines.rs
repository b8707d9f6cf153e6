//! Writing lines: what begins them, what breaks them, and text that runs over several of them.
use std::borrow::Cow;
use std::ops::Deref;

use vstd::prelude::*;
use vstd::string::*;

use crate::laws::law_text_on_one_line_is_kept;
use crate::model::{line_breaks, reflowed, StateView};
use crate::options::Options;
use crate::padding::{cow_str, Padding, PaddingView};
use crate::text::{chars_of, contains_char, lemma_contained_in_sum};
use crate::write::{
    breaks_anyway, breaks_off, breaks_off_at, group_sends, lemma_breaks_off_behind,
    lemma_sends_anyway, lemma_sends_prefix, lemma_sends_then, put_char, put_str, sends,
    stops_at_once, Write,
};

verus! {

proof fn lemma_flatten_prefix(s: Seq<Seq<char>>, i: int)
    requires
        0 <= i <= s.len(),
    ensures
        s.take(i).flatten().is_prefix_of(s.flatten()),
        i < s.len() ==> s.take(i + 1).flatten() == s.take(i).flatten() + s[i],
    decreases s.len() - i,
{
    if i == s.len() {
        assert(s.take(i) =~= s);
    } else {
        s.take(i).lemma_flatten_push(s[i]);
        assert(s.take(i + 1) =~= s.take(i).push(s[i]));
        lemma_flatten_prefix(s, i + 1);
    }
}

/// The outermost padding is the first that is handed over.
proof fn lemma_outermost_first<W: Write>(before: W, between: W, after: W, p: PaddingView, i: int)
    requires
        0 <= i < p.stack.len(),
        sends(before, between, true, p.stack.take(i).flatten()),
        after.offered() == between.offered() + p.stack[i],
    ensures
        (before.offered() + p.outermost()).is_prefix_of(after.offered()),
{
    reveal(sends);
    let all = p.stack;
    let handed = all.take(i + 1);
    lemma_flatten_prefix(all, i);
    lemma_flatten_prefix(handed, 1);
    lemma_flatten_prefix(handed, 0);
    assert(handed.take(0).flatten() =~= Seq::<char>::empty());
    assert(handed.take(1).flatten() =~= all[0]);
    assert(after.offered() =~= before.offered() + handed.flatten());
}

/// Writes what stands at the beginning of a line.
fn write_line_start<W: Write>(f: &mut W, p: &Padding<'_>) -> (r: Result<(), std::fmt::Error>)
    ensures
        sends(*old(f), *final(f), r is Ok, p@.line_start()),
        stops_at_once(*old(f), *final(f), r is Ok),
        (old(f).offered() + p@.outermost()).is_prefix_of(final(f).offered()),
{
    broadcast use group_sends;

    let stack = p.deref();
    let ghost all = p@.stack;
    assert(all.take(0).flatten() =~= Seq::<char>::empty());
    let mut i: usize = 0;
    while i < stack.len()
        invariant
            i <= stack.len(),
            all == stack.deep_view(),
            all == p@.stack,
            f.refusals() == old(f).refusals(),
            i > 0 ==> (old(f).offered() + p@.outermost()).is_prefix_of(f.offered()),
            sends(*old(f), *f, true, all.take(i as int).flatten()),
        decreases stack.len() - i,
    {
        broadcast use lemma_sends_then;

        proof {
            lemma_flatten_prefix(all, i as int);
            lemma_flatten_prefix(all, i + 1);
        }
        let ghost between = *f;
        let r = put_str(f, cow_str(&stack[i]));
        proof {
            lemma_outermost_first(*old(f), between, *f, p@, i as int);
        }
        if r.is_err() {
            proof {
                lemma_sends_prefix(*old(f), *f, all.take(i + 1).flatten(), all.flatten());
            }
            return r;
        }
        i += 1;
    }
    proof {
        assert(all.take(i as int) =~= all);
        reveal(sends);
    }
    Ok(())
}

/// Writes `s`, and a line break behind it whether `s` was taken or not.
fn write_line<W: Write>(f: &mut W, s: &str, p: &Padding<'_>) -> (r: Result<(), std::fmt::Error>)
    ensures
        sends(*old(f), *final(f), r is Ok, s@ + (seq!['\n'] + p@.line_start())),
        breaks_anyway(*old(f), *final(f), r is Ok, s@.push('\n'), p@),
{
    let first = f.write_str(s);
    let ghost between = *f;
    let second = break_line(f, p);
    proof {
        lemma_sends_anyway(
            *old(f),
            between,
            *f,
            s@,
            first is Ok,
            second is Ok,
            seq!['\n'] + p@.line_start(),
        );
        reveal(sends);
        let whole = old(f).offered() + s@.push('\n');
        assert(s@.push('\n') + p@.line_start() =~= s@ + (seq!['\n'] + p@.line_start()));
        assert(between.offered() + seq!['\n'] + p@.outermost() =~= whole + p@.outermost());
        assert(between.offered() + seq!['\n'] + p@.line_start() =~= whole + p@.line_start());
    }
    if first.is_err() {
        first
    } else {
        second
    }
}

/// Writes a newline, and the beginning of the next line whether the newline was taken or not.
pub(crate) fn break_line<W: Write>(f: &mut W, p: &Padding<'_>) -> (r: Result<(), std::fmt::Error>)
    ensures
        sends(*old(f), *final(f), r is Ok, seq!['\n'] + p@.line_start()),
        breaks_anyway(*old(f), *final(f), r is Ok, seq!['\n'], p@),
{
    let first = f.write_char('\n');
    let ghost between = *f;
    let second = write_line_start(f, p);
    proof {
        assert(between.offered() =~= old(f).offered() + seq!['\n']);
        lemma_sends_anyway(
            *old(f),
            between,
            *f,
            seq!['\n'],
            first is Ok,
            second is Ok,
            p@.line_start(),
        );
        reveal(sends);
    }
    if first.is_err() {
        first
    } else {
        second
    }
}

/// Writes a newline and, if the newline was taken, the beginning of the next line.
pub(crate) fn next_line<W: Write>(f: &mut W, p: &Padding<'_>) -> (r: Result<(), std::fmt::Error>)
    ensures
        sends(*old(f), *final(f), r is Ok, seq!['\n'] + p@.line_start()),
        stops_at_once(*old(f), *final(f), r is Ok),
{
    broadcast use group_sends;

    put_char(f, '\n')?;
    write_line_start(f, p)
}

/// Writes a hard line break, and the beginning of the next line whether the break was taken or
/// not.
pub(crate) fn write_hard_break<W: Write>(f: &mut W, p: &Padding<'_>) -> (r: Result<
    (),
    std::fmt::Error,
>)
    ensures
        sends(*old(f), *final(f), r is Ok, "  \n"@ + p@.line_start()),
        breaks_anyway(*old(f), *final(f), r is Ok, "  \n"@, p@),
{
    let first = f.write_str("  \n");
    let ghost between = *f;
    let second = write_line_start(f, p);
    proof {
        lemma_sends_anyway(
            *old(f),
            between,
            *f,
            "  \n"@,
            first is Ok,
            second is Ok,
            p@.line_start(),
        );
        reveal(sends);
    }
    if first.is_err() {
        first
    } else {
        second
    }
}

proof fn lemma_line_breaks_prefix(start: Seq<char>, i: nat, n: nat)
    requires
        i <= n,
    ensures
        line_breaks(start, i).is_prefix_of(line_breaks(start, n)),
    decreases n - i,
{
    if i < n {
        lemma_line_breaks_prefix(start, i + 1, n);
    }
}

/// Writes `n` line breaks.
pub(crate) fn write_line_breaks<W: Write>(f: &mut W, n: usize, p: &Padding<'_>) -> (r: Result<
    (),
    std::fmt::Error,
>)
    ensures
        sends(*old(f), *final(f), r is Ok, line_breaks(p@.line_start(), n as nat)),
        stops_at_once(*old(f), *final(f), r is Ok),
        n == 0 ==> r is Ok,
{
    broadcast use group_sends;

    let ghost start = p@.line_start();
    let mut i: usize = 0;
    while i < n
        invariant
            i <= n,
            start == p@.line_start(),
            f.refusals() == old(f).refusals(),
            sends(*old(f), *f, true, line_breaks(start, i as nat)),
        decreases n - i,
    {
        broadcast use lemma_sends_then;

        let r = next_line(f, p);
        if r.is_err() {
            proof {
                lemma_line_breaks_prefix(start, (i + 1) as nat, n as nat);
                lemma_sends_prefix(
                    *old(f),
                    *f,
                    line_breaks(start, (i + 1) as nat),
                    line_breaks(start, n as nat),
                );
            }
            return r;
        }
        i += 1;
    }
    Ok(())
}

proof fn lemma_reflowed_prefix(t: Seq<char>, start: Seq<char>, i: int)
    requires
        0 <= i <= t.len(),
    ensures
        reflowed(t.take(i), start).is_prefix_of(reflowed(t, start)),
        i < t.len() && t[i] == '\n' ==> reflowed(t.take(i + 1), start) == reflowed(
            t.take(i),
            start,
        ) + (seq!['\n'] + start),
        i < t.len() && t[i] != '\n' ==> reflowed(t.take(i + 1), start) == reflowed(
            t.take(i),
            start,
        ).push(t[i]),
    decreases t.len() - i,
{
    if i == t.len() {
        assert(t.take(i) =~= t);
    } else {
        assert(t.take(i + 1).drop_last() =~= t.take(i));
        lemma_reflowed_prefix(t, start, i + 1);
    }
}

/// Writes `t` with the padding at the beginning of each of its lines but the first.
pub(crate) fn write_reflowed<W: Write>(f: &mut W, t: &str, p: &Padding<'_>) -> (r: Result<
    (),
    std::fmt::Error,
>)
    ensures
        sends(*old(f), *final(f), r is Ok, reflowed(t@, p@.line_start())),
        !t@.contains('\n') ==> stops_at_once(*old(f), *final(f), r is Ok),
        r is Err ==> breaks_off(*old(f), *final(f), seq![], t@, p@),
{
    broadcast use group_sends;

    let ghost start = p@.line_start();
    let chars = chars_of(t);
    let mut token = String::new();
    // Where the line begins that is collected in `token`.
    let ghost mut b: int = 0;
    let mut i: usize = 0;
    while i < chars.len()
        invariant
            chars@ == t@,
            i <= chars.len(),
            start == p@.line_start(),
            f.refusals() == old(f).refusals(),
            0 <= b <= i,
            b == 0 || t@[b - 1] == '\n',
            token@ == t@.subrange(b, i as int),
            !token@.contains('\n'),
            sends(*old(f), *f, true, reflowed(t@.take(b), start)),
            reflowed(t@.take(b), start) + token@ == reflowed(t@.take(i as int), start),
        decreases chars.len() - i,
    {
        broadcast use group_sends;

        proof {
            lemma_reflowed_prefix(t@, start, i as int);
            lemma_reflowed_prefix(t@, start, i + 1);
        }
        let ghost written = reflowed(t@.take(b), start);
        let c = chars[i];
        if c == '\n' {
            let ghost between = *f;
            let ghost line = token@ + (seq!['\n'] + start);
            let r = write_line(f, token.as_str(), p);
            proof {
                assert(sends(*old(f), *f, r is Ok, written + line));
                assert(written + line =~= reflowed(t@.take(i + 1), start));
            }
            assert(t@.contains('\n'));
            assert(r is Ok ==> f.refusals() == between.refusals()) by {
                reveal(sends);
            }
            if r.is_err() {
                proof {
                    lemma_sends_prefix(*old(f), *f, written + line, reflowed(t@, start));
                    reveal(sends);
                    assert(token@.push('\n') =~= t@.subrange(b, i + 1));
                    assert(seq![] + written =~= written);
                    assert(breaks_off_at(*old(f), between, *f, seq![], t@, p@, b, i as int));
                }
                return r;
            }
            token = String::new();
            proof {
                b = i + 1;
                assert(token@ =~= t@.subrange(b, i + 1));
                assert(reflowed(t@.take(b), start) + token@ =~= reflowed(t@.take(b), start));
            }
        } else {
            let ghost before = token@;
            token.push(c);
            proof {
                assert(token@ =~= t@.subrange(b, i + 1));
                assert(token@ =~= before + seq![c]);
                lemma_contained_in_sum(before, seq![c], '\n');
                assert(written + token@ =~= reflowed(t@.take(i + 1), start));
            }
        }
        i += 1;
    }
    assert(t@.take(i as int) =~= t@);
    let r = f.write_str(token.as_str());
    proof {
        reveal(sends);
        assert(f.offered() =~= old(f).offered() + reflowed(t@, start));
        assert(old(f).offered() + seq![] + reflowed(t@, start) =~= f.offered());
    }
    r
}

/// Writes `n` line breaks, and `t` with the padding at the beginning of each of its lines but the
/// first.
pub(crate) fn write_lines<W: Write>(f: &mut W, n: usize, t: &str, p: &Padding<'_>) -> (r: Result<
    (),
    std::fmt::Error,
>)
    ensures
        sends(
            *old(f),
            *final(f),
            r is Ok,
            line_breaks(p@.line_start(), n as nat) + reflowed(t@, p@.line_start()),
        ),
        !t@.contains('\n') ==> stops_at_once(*old(f), *final(f), r is Ok),
        r is Err ==> breaks_off(
            *old(f),
            *final(f),
            line_breaks(p@.line_start(), n as nat),
            t@,
            p@,
        ),
{
    broadcast use group_sends;

    let ghost lead = line_breaks(p@.line_start(), n as nat);
    let r = write_line_breaks(f, n, p);
    if r.is_err() {
        proof {
            reveal(sends);
            assert(lead.len() > 0) by {
                reveal_with_fuel(line_breaks, 2);
            }
        }
        return r;
    }
    let ghost between = *f;
    let r = write_reflowed(f, t, p);
    if r.is_err() {
        proof {
            lemma_breaks_off_behind(*old(f), between, *f, lead, seq![], t@, p@);
            assert(lead + seq![] =~= lead);
        }
    }
    r
}

/// Returns `t` with the padding at the beginning of each of its lines but the first.
fn reflow<'a>(t: &'a str, p: &Padding<'_>) -> (r: Cow<'a, str>)
    ensures
        r@ == reflowed(t@, p@.line_start()),
{
    if !contains_char(t, '\n') {
        proof {
            law_text_on_one_line_is_kept(t@, p@.line_start());
        }
        return Cow::Borrowed(t);
    }
    let mut s = String::new();
    let written = write_reflowed(&mut s, t, p);
    proof {
        reveal(sends);
        assert(written is Ok);
        assert(s@ =~= reflowed(t@, p@.line_start()));
    }
    Cow::Owned(s)
}

/// Hands `t` to the sink in one piece, with the padding at the beginning of each of its lines but
/// the first.
pub(crate) fn put_reflowed<W: Write>(f: &mut W, t: &str, p: &Padding<'_>) -> (r: Result<
    (),
    std::fmt::Error,
>)
    ensures
        sends(*old(f), *final(f), r is Ok, reflowed(t@, p@.line_start())),
        stops_at_once(*old(f), *final(f), r is Ok),
{
    put_str(f, cow_str(&reflow(t, p)))
}

/// The lines of two texts one behind the other are the lines of the first and those of the second.
pub(crate) proof fn lemma_reflowed_sum(a: Seq<char>, b: Seq<char>, start: Seq<char>)
    ensures
        reflowed(a + b, start) == reflowed(a, start) + reflowed(b, start),
    decreases b.len(),
{
    if b.len() == 0 {
        assert(a + b =~= a);
        assert(reflowed(a, start) + reflowed(b, start) =~= reflowed(a, start));
    } else {
        lemma_reflowed_sum(a, b.drop_last(), start);
        assert((a + b).drop_last() =~= a + b.drop_last());
        assert(reflowed(a + b, start) =~= reflowed(a, start) + reflowed(b, start));
    }
}

/// Returns `t` as it is written: a special character at its beginning is escaped, but not in a
/// code block.
pub(crate) fn escape_leading_special_characters<'a>(
    t: &'a str,
    is_in_code_block: bool,
    options: &Options<'_>,
) -> (r: Cow<'a, str>)
    ensures
        forall|st: StateView|
            st.is_in_code_block == is_in_code_block ==> r@ == #[trigger] st.escaped(options@, t@),
{
    if is_in_code_block || t.is_empty() {
        return Cow::Borrowed(t);
    }
    let first = t.get_char(0);
    if contains_char(cow_str(&options.special_characters()), first) {
        let mut s = String::new();
        s.push('\\');
        s.append(t);
        assert(s@ =~= seq!['\\'] + t@);
        Cow::Owned(s)
    } else {
        Cow::Borrowed(t)
    }
}

} // verus!
