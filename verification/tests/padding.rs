use std::borrow::Cow;

use pulldown_cmark_to_cmark::Padding;

fn stack(p: &Padding<'_>) -> Vec<String> {
    p.iter().map(|s| s.to_string()).collect()
}

#[test]
fn padding_from_strings_holds_them() {
    let p = Padding::from(vec!["  ", " > "]);
    assert_eq!(stack(&p), vec!["  ", " > "]);
    assert!(!p.is_last_alignment_padding());
}

#[test]
fn default_padding_is_empty() {
    let p = Padding::default();
    assert!(p.is_empty());
    assert!(!p.is_last_alignment_padding());
    assert!(!p.last_padding_was(""));
}

#[test]
fn last_padding_is_compared_whole() {
    let p = Padding::from(vec![" > ", "  "]);
    assert!(p.last_padding_was("  "));
    assert!(!p.last_padding_was(" "));
    assert!(!p.last_padding_was(" > "));
}

#[test]
fn pop_of_empty_padding_is_none() {
    let mut p = Padding::default();
    assert_eq!(p.pop(), None);
    assert!(p.is_empty());
}

#[test]
fn pop_takes_off_what_push_put_on() {
    let mut p = Padding::from(vec!["  "]);
    p.push(Cow::Borrowed("=="));
    assert_eq!(p.pop(), Some(Cow::Borrowed("==")));
    assert_eq!(stack(&p), vec!["  "]);
}

#[test]
fn pop_of_a_block_quote_leaves_alignment() {
    let mut p = Padding::from(vec!["  ", " > "]);
    assert_eq!(p.pop(), Some(Cow::Borrowed(" > ")));
    assert_eq!(stack(&p), vec!["  ", " "]);
    assert!(p.is_last_alignment_padding());
}

#[test]
fn alignment_is_taken_off_with_its_padding() {
    let mut p = Padding::from(vec!["  ", " > "]);
    p.pop();
    assert_eq!(p.pop(), Some(Cow::Borrowed("  ")));
    assert!(p.is_empty());
    assert!(!p.is_last_alignment_padding());
}

#[test]
fn pop_leaves_no_alignment_on_the_outside() {
    let mut p = Padding::from(vec![" > "]);
    assert_eq!(p.pop(), Some(Cow::Borrowed(" > ")));
    assert!(p.is_empty());
}

#[test]
fn pop_leaves_no_alignment_inside_something_as_wide() {
    let mut p = Padding::from(vec!["   ", " > "]);
    assert_eq!(p.pop(), Some(Cow::Borrowed(" > ")));
    assert_eq!(stack(&p), vec!["   "]);
}

#[test]
fn blank_padding_leaves_no_alignment() {
    let mut p = Padding::from(vec!["  ", "   "]);
    assert_eq!(p.pop(), Some(Cow::Borrowed("   ")));
    assert_eq!(stack(&p), vec!["  "]);
}

#[test]
fn alignment_is_measured_in_bytes() {
    // The ideographic space takes three bytes.
    let mut p = Padding::from(vec!["  ", "\u{3000}>"]);
    assert_eq!(p.pop(), Some(Cow::Borrowed("\u{3000}>")));
    assert_eq!(stack(&p), vec!["  ", "   "]);
}

#[test]
fn every_whitespace_character_indents() {
    for n in 0..=0x10ffff_u32 {
        if let Some(c) = char::from_u32(n) {
            let text = format!("{}>", c);
            let mut p = Padding::from(vec!["", text.as_str()]);
            p.pop();
            let expected = if c.is_whitespace() {
                vec![String::new(), " ".repeat(c.len_utf8())]
            } else {
                vec![String::new()]
            };
            assert_eq!(stack(&p), expected, "{:?}", c);
        }
    }
}

#[test]
fn nested_alignments_come_off_together_with_the_one_below() {
    let mut p = Padding::from(vec!["  ", " > "]);
    p.pop();
    p.push(Cow::Borrowed(" > "));
    p.pop();
    assert_eq!(stack(&p), vec!["  ", " ", " "]);
    assert_eq!(p.pop(), Some(Cow::Borrowed(" ")));
    assert_eq!(stack(&p), vec!["  "]);
}

#[test]
fn padding_for_alignment_is_dropped_as_often_as_there_is_some() {
    let mut padding = Padding::from(vec!["  "]);
    for _ in 0..2 {
        padding.push(" > ".into());
        assert_eq!(padding.pop().as_deref(), Some(" > "));
    }
    assert_eq!(*padding, vec!["  ", " ", " "]);
    padding.drop_alignment();
    assert_eq!(padding, Padding::from(vec!["  "]));
    padding.drop_alignment();
    assert_eq!(padding, Padding::from(vec!["  "]));
    let mut none = Padding::default();
    none.drop_alignment();
    assert_eq!(none, Padding::default());
}
