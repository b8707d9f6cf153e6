//! How a document is to look.
use std::borrow::Cow;

use vstd::prelude::*;
use vstd::string::*;

use crate::text::same_text;

verus! {

/// Configuration for [`cmark_with_options()`](crate::cmark_with_options) and
/// [`cmark_resume_with_options()`](crate::cmark_resume_with_options).
/// The defaults should provide decent spacing and most importantly, will
/// provide a faithful rendering of your markdown document particularly when
/// rendering it to HTML.
///
/// It's best used with its `Options::default()` implementation.
#[derive(Clone, Debug, PartialEq, Eq, PartialOrd, Ord, Hash)]
pub struct Options<'a> {
    pub newlines_after_headline: usize,
    pub newlines_after_paragraph: usize,
    pub newlines_after_codeblock: usize,
    pub newlines_after_table: usize,
    pub newlines_after_rule: usize,
    pub newlines_after_list: usize,
    pub newlines_after_blockquote: usize,
    pub newlines_after_rest: usize,
    pub code_block_token_count: usize,
    pub code_block_token: char,
    pub list_token: char,
    pub ordered_list_token: char,
    pub increment_ordered_list_bullets: bool,
    pub emphasis_token: char,
    pub strong_token: &'a str,
    pub blockquote: &'static str,
}

/// The contents of [`Options`].
#[verifier::ext_equal]
pub struct OptionsView {
    pub newlines_after_headline: nat,
    pub newlines_after_paragraph: nat,
    pub newlines_after_codeblock: nat,
    pub newlines_after_table: nat,
    pub newlines_after_rule: nat,
    pub newlines_after_list: nat,
    pub newlines_after_blockquote: nat,
    pub newlines_after_rest: nat,
    pub code_block_token_count: nat,
    pub code_block_token: char,
    pub list_token: char,
    pub ordered_list_token: char,
    pub increment_ordered_list_bullets: bool,
    pub emphasis_token: char,
    pub strong_token: Seq<char>,
    pub blockquote: Seq<char>,
}

impl<'a> View for Options<'a> {
    type V = OptionsView;

    open spec fn view(&self) -> OptionsView {
        OptionsView {
            newlines_after_headline: self.newlines_after_headline as nat,
            newlines_after_paragraph: self.newlines_after_paragraph as nat,
            newlines_after_codeblock: self.newlines_after_codeblock as nat,
            newlines_after_table: self.newlines_after_table as nat,
            newlines_after_rule: self.newlines_after_rule as nat,
            newlines_after_list: self.newlines_after_list as nat,
            newlines_after_blockquote: self.newlines_after_blockquote as nat,
            newlines_after_rest: self.newlines_after_rest as nat,
            code_block_token_count: self.code_block_token_count as nat,
            code_block_token: self.code_block_token,
            list_token: self.list_token,
            ordered_list_token: self.ordered_list_token,
            increment_ordered_list_bullets: self.increment_ordered_list_bullets,
            emphasis_token: self.emphasis_token,
            strong_token: self.strong_token@,
            blockquote: self.blockquote@,
        }
    }
}

impl OptionsView {
    /// The default options.
    pub open spec fn standard() -> OptionsView {
        OptionsView {
            newlines_after_headline: 2,
            newlines_after_paragraph: 2,
            newlines_after_codeblock: 2,
            newlines_after_table: 2,
            newlines_after_rule: 2,
            newlines_after_list: 2,
            newlines_after_blockquote: 2,
            newlines_after_rest: 1,
            code_block_token_count: 4,
            code_block_token: '`',
            list_token: '*',
            ordered_list_token: '.',
            increment_ordered_list_bullets: false,
            emphasis_token: '*',
            strong_token: "**"@,
            blockquote: " > "@,
        }
    }

    /// Whether these are the default options, which promise a faithful rendering.
    pub open spec fn is_standard(self) -> bool {
        self == OptionsView::standard()
    }

    /// Whether the tokens that decide on the special characters are the default ones.
    pub open spec fn has_standard_tokens(self) -> bool {
        &&& self.code_block_token == OptionsView::standard().code_block_token
        &&& self.list_token == OptionsView::standard().list_token
        &&& self.emphasis_token == OptionsView::standard().emphasis_token
        &&& self.strong_token == OptionsView::standard().strong_token
    }

    /// The characters that are escaped at the beginning of a text.
    pub open spec fn specials(self) -> Seq<char> {
        if self.has_standard_tokens() {
            base_characters()
        } else {
            base_characters() + seq![self.code_block_token, self.list_token, self.emphasis_token]
                + self.strong_token
        }
    }
}

impl<'a> Options<'a> {
    /// Returns the characters that are escaped at the beginning of a text.
    pub fn special_characters(&self) -> (r: Cow<'static, str>)
        ensures
            r@ == self@.specials(),
            r is Borrowed == self@.has_standard_tokens(),
    {
        // These always need to be escaped, even if reconfigured.
        let base = "#\\_*<>`|[]";
        if self.code_block_token == '`' && self.list_token == '*' && self.emphasis_token == '*'
            && same_text(self.strong_token, "**") {
            Cow::Borrowed(base)
        } else {
            let mut s = base.to_owned();
            s.push(self.code_block_token);
            s.push(self.list_token);
            s.push(self.emphasis_token);
            s.append(self.strong_token);
            assert(s@ =~= self@.specials());
            Cow::Owned(s)
        }
    }
}

impl<'a> Options<'a> {
    /// Tells whether these are the default options.
    pub(crate) fn is_default(&self) -> (r: bool)
        ensures
            r == self@.is_standard(),
    {
        let counts = self.newlines_after_headline == 2 && self.newlines_after_paragraph == 2
            && self.newlines_after_codeblock == 2 && self.newlines_after_table == 2
            && self.newlines_after_rule == 2 && self.newlines_after_list == 2
            && self.newlines_after_blockquote == 2 && self.newlines_after_rest == 1
            && self.code_block_token_count == 4;
        let tokens = self.code_block_token == '`' && self.list_token == '*'
            && self.ordered_list_token == '.' && !self.increment_ordered_list_bullets
            && self.emphasis_token == '*' && same_text(self.strong_token, "**") && same_text(
            self.blockquote,
            " > ",
        );
        counts && tokens
    }
}

/// The characters that are special whatever the options are.
pub open spec fn base_characters() -> Seq<char> {
    "#\\_*<>`|[]"@
}

impl<'a> Default for Options<'a> {
    fn default() -> (r: Self)
        ensures
            r@ == OptionsView::standard(),
    {
        Options {
            newlines_after_headline: 2,
            newlines_after_paragraph: 2,
            newlines_after_codeblock: 2,
            newlines_after_table: 2,
            newlines_after_rule: 2,
            newlines_after_list: 2,
            newlines_after_blockquote: 2,
            newlines_after_rest: 1,
            code_block_token_count: 4,
            code_block_token: '`',
            list_token: '*',
            ordered_list_token: '.',
            increment_ordered_list_bullets: false,
            emphasis_token: '*',
            strong_token: "**",
            blockquote: " > ",
        }
    }
}

} // verus!
