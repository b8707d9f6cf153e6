//! What is written of tables.
use vstd::prelude::*;
use vstd::utf8::encode_utf8;

use crate::event::{Alignment, Event, Tag};
use crate::laws::terms::{lemma_breaks, line_end, margin, pending};
use crate::model::{column_count, column_rule, column_rules, event_text, header_rule, StateView};
use crate::options::OptionsView;

verus! {

/// Each cell of a table begins with a bar, and each row ends with one. Nothing else of a table is
/// written where it begins, nor where it or a cell ends.
pub proof fn law_cells_stand_between_bars(o: OptionsView, st: StateView, columns: Vec<Alignment>)
    ensures
        !st.last_was_html ==> {
            &&& event_text(o, st, Event::Start(Tag::TableCell)) == pending(st) + seq!['|']
            &&& event_text(o, st, Event::Start(Tag::Table(columns))) == pending(st)
            &&& event_text(o, st, Event::Start(Tag::TableHead)) == pending(st)
            &&& event_text(o, st, Event::Start(Tag::TableRow)) == pending(st)
        },
        event_text(o, st, Event::End(Tag::TableRow)) == seq!['|'],
        event_text(o, st, Event::End(Tag::TableCell)) == Seq::<char>::empty(),
        event_text(o, st, Event::End(Tag::Table(columns))) == Seq::<char>::empty(),
{
    lemma_breaks(margin(st), st.newlines_before_start);
    if !st.last_was_html {
        assert(event_text(o, st, Event::Start(Tag::TableCell)) =~= pending(st) + seq!['|']);
        assert(event_text(o, st, Event::Start(Tag::Table(columns))) =~= pending(st));
        assert(event_text(o, st, Event::Start(Tag::TableHead)) =~= pending(st));
        assert(event_text(o, st, Event::Start(Tag::TableRow)) =~= pending(st));
    }
    assert(event_text(o, st, Event::End(Tag::TableRow)) =~= seq!['|']);
    assert(event_text(o, st, Event::End(Tag::TableCell)) =~= Seq::<char>::empty());
    assert(event_text(o, st, Event::End(Tag::Table(columns))) =~= Seq::<char>::empty());
}

proof fn lemma_column_rules(
    o: OptionsView,
    columns: Seq<Alignment>,
    headers: Seq<Seq<char>>,
    n: nat,
)
    ensures
        column_rules(o, columns, headers, n) == Seq::new(
            n,
            |i: int| seq!['|'] + column_rule(o, columns[i], headers[i]),
        ).flatten(),
    decreases n,
{
    let rule = |i: int| seq!['|'] + column_rule(o, columns[i], headers[i]);
    let all = Seq::new(n, rule);
    if n == 0 {
        assert(all.flatten() =~= seq![]);
    } else {
        lemma_column_rules(o, columns, headers, (n - 1) as nat);
        let before = Seq::new((n - 1) as nat, rule);
        before.lemma_flatten_push(rule(n - 1));
        assert(all =~= before.push(rule(n - 1)));
    }
}

/// Behind the bar that ends the header of a table, a line follows with a bar and a rule for each
/// column that has both an alignment and a header, and a bar at its end.
pub proof fn law_headers_are_ruled_off(o: OptionsView, st: StateView, n: nat)
    requires
        n == st.table_alignments.len() && n <= st.table_headers.len() || n
            == st.table_headers.len() && n <= st.table_alignments.len(),
    ensures
        event_text(o, st, Event::End(Tag::TableHead)) == seq!['|'] + line_end(st) + Seq::new(
            n,
            |i: int| seq!['|'] + column_rule(o, st.table_alignments[i], st.table_headers[i]),
        ).flatten() + seq!['|'],
{
    lemma_column_rules(o, st.table_alignments, st.table_headers, n);
    let rules = column_rules(o, st.table_alignments, st.table_headers, n);
    assert(column_count(st) == n);
    assert(header_rule(o, st) == line_end(st) + rules + seq!['|']);
    assert(event_text(o, st, Event::End(Tag::TableHead)) =~= seq!['|'] + line_end(st) + rules
        + seq!['|']);
}

/// With the default options, the rule of a column is as long as its header has bytes, but at least
/// two characters long if it ends with a colon. It begins with a colon if and only if the column is
/// aligned to the left or centered, it ends with one if and only if the column is aligned to the
/// right or centered, and it is made of dashes otherwise.
pub proof fn law_rules_show_the_alignment(o: OptionsView, alignment: Alignment, name: Seq<char>)
    requires
        o.is_standard(),
    ensures
        ({
            let rule = column_rule(o, alignment, name);
            let left = alignment == Alignment::Left || alignment == Alignment::Center;
            let right = alignment == Alignment::Right || alignment == Alignment::Center;
            &&& encode_utf8(name).len() >= 2 || !right ==> rule.len() == encode_utf8(name).len()
            &&& encode_utf8(name).len() < 2 && right ==> rule.len() == 2
            &&& rule.len() > 0 ==> (rule[0] == ':' <==> left)
            &&& rule.len() >= 2 ==> (rule.last() == ':' <==> right)
            &&& forall|i: int| 0 < i < rule.len() - 1 ==> #[trigger] rule[i] == '-'
            &&& forall|i: int|
                0 <= i < rule.len() ==> #[trigger] rule[i] == '-' || rule[i] == ':'
        }),
{
}

/// With other options, the rule of a column is as long as its header has bytes. There is a colon in
/// it where the header begins if the column is aligned to the left or centered, and one where the
/// last character of the header stands, counted in characters, if it is aligned to the right or
/// centered. It is made of dashes otherwise.
pub proof fn law_rules_with_other_options(o: OptionsView, alignment: Alignment, name: Seq<char>)
    requires
        !o.is_standard(),
    ensures
        ({
            let rule = column_rule(o, alignment, name);
            let left = alignment == Alignment::Left || alignment == Alignment::Center;
            let right = alignment == Alignment::Right || alignment == Alignment::Center;
            &&& rule.len() == encode_utf8(name).len()
            &&& forall|i: int|
                0 <= i < rule.len() ==> (#[trigger] rule[i] == ':' <==> i == 0 && left || i
                    == name.len() - 1 && right || i == 0 && name.len() == 0 && right)
            &&& forall|i: int|
                0 <= i < rule.len() ==> #[trigger] rule[i] == '-' || rule[i] == ':'
        }),
{
}

/// With the default options, the alignment of a column can be read from its rule, whatever its
/// header is, if it has one.
pub proof fn law_alignments_can_be_read_back(
    o: OptionsView,
    a: Alignment,
    b: Alignment,
    name: Seq<char>,
)
    requires
        o.is_standard(),
        encode_utf8(name).len() > 0,
        column_rule(o, a, name) == column_rule(o, b, name),
    ensures
        a == b,
{
    law_rules_show_the_alignment(o, a, name);
    law_rules_show_the_alignment(o, b, name);
    let rule = column_rule(o, a, name);
    assert(rule[0] == column_rule(o, b, name)[0]);
    assert(rule.last() == column_rule(o, b, name).last());
}

} // verus!
