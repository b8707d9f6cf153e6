use std::borrow::Cow;

use pulldown_cmark_to_cmark::Options;

#[test]
fn defaults() {
    let o = Options::default();
    assert_eq!(o.newlines_after_headline, 2);
    assert_eq!(o.newlines_after_paragraph, 2);
    assert_eq!(o.newlines_after_codeblock, 2);
    assert_eq!(o.newlines_after_table, 2);
    assert_eq!(o.newlines_after_rule, 2);
    assert_eq!(o.newlines_after_list, 2);
    assert_eq!(o.newlines_after_blockquote, 2);
    assert_eq!(o.newlines_after_rest, 1);
    assert_eq!(o.code_block_token_count, 4);
    assert_eq!(o.code_block_token, '`');
    assert_eq!(o.list_token, '*');
    assert_eq!(o.ordered_list_token, '.');
    assert!(!o.increment_ordered_list_bullets);
    assert_eq!(o.emphasis_token, '*');
    assert_eq!(o.strong_token, "**");
    assert_eq!(o.blockquote, " > ");
}

#[test]
fn special_characters_of_the_defaults() {
    let special = Options::default().special_characters();
    assert_eq!(special, "#\\_*<>`|[]");
    assert!(matches!(special, Cow::Borrowed(_)));
}

#[test]
fn options_other_than_the_tokens_do_not_change_the_special_characters() {
    let o = Options { ordered_list_token: ')', blockquote: "> ", ..Options::default() };
    assert_eq!(o.special_characters(), "#\\_*<>`|[]");
}

#[test]
fn each_token_is_added_to_the_special_characters() {
    let o = Options { code_block_token: '~', ..Options::default() };
    assert_eq!(o.special_characters(), "#\\_*<>`|[]~****");
    let o = Options { list_token: '-', ..Options::default() };
    assert_eq!(o.special_characters(), "#\\_*<>`|[]`-***");
    let o = Options { emphasis_token: '_', ..Options::default() };
    assert_eq!(o.special_characters(), "#\\_*<>`|[]`*_**");
    let o = Options { strong_token: "__", ..Options::default() };
    assert_eq!(o.special_characters(), "#\\_*<>`|[]`**__");
}
