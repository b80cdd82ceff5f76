//! The front matter of a document: a metadata block between two `+++` delimiters.

use vstd::prelude::*;
use vstd::string::StrSliceExecFns;

verus! {

/// The number of plus signs that make a delimiter.
pub const DELIMITER_LENGTH: usize = 3;

/// Whether a delimiter stands in `text` at `at`: three plus signs, one after another.
pub open spec fn is_delimiter_at(text: Seq<char>, at: int) -> bool {
    &&& 0 <= at
    &&& at + DELIMITER_LENGTH <= text.len()
    &&& text[at] == '+'
    &&& text[at + 1] == '+'
    &&& text[at + 2] == '+'
}

/// Whether the delimiter occurs anywhere in `text`.
pub open spec fn has_delimiter(text: Seq<char>) -> bool {
    exists|at: int| is_delimiter_at(text, at)
}

/// Whether `at` is the leftmost place in `text` at which the delimiter occurs.
pub open spec fn is_first_delimiter(text: Seq<char>, at: int) -> bool {
    &&& is_delimiter_at(text, at)
    &&& forall|before: int| 0 <= before < at ==> !is_delimiter_at(text, before)
}

/// What follows the leftmost delimiter of a text that has one.
pub open spec fn after_first_delimiter(text: Seq<char>) -> Seq<char> {
    let at = choose|at: int| is_first_delimiter(text, at);
    text.skip(at + DELIMITER_LENGTH)
}

/// A text without its front matter.
///
/// The text is cut at its first two delimiters, the second sought after the end of the
/// first. With no delimiter the text stays as it is; with one, what follows it remains;
/// with two or more, what follows the second remains.
pub open spec fn strip_spec(text: Seq<char>) -> Seq<char> {
    if !has_delimiter(text) {
        text
    } else {
        let rest = after_first_delimiter(text);
        if !has_delimiter(rest) {
            rest
        } else {
            after_first_delimiter(rest)
        }
    }
}

/// A text has at most one leftmost delimiter.
pub proof fn lemma_first_delimiter_unique(text: Seq<char>, at: int)
    requires
        is_first_delimiter(text, at),
    ensures
        has_delimiter(text),
        after_first_delimiter(text) == text.skip(at + DELIMITER_LENGTH),
{
}

/// Stripping shortens every text that holds a delimiter and leaves every other text
/// as it is.
pub proof fn lemma_strip_shortens(text: Seq<char>)
    ensures
        has_delimiter(text) ==> strip_spec(text).len() + DELIMITER_LENGTH <= text.len(),
        !has_delimiter(text) ==> strip_spec(text) == text,
{
    if has_delimiter(text) {
        let at = choose|at: int| is_delimiter_at(text, at);
        lemma_leftmost_delimiter(text, at);
        let rest = after_first_delimiter(text);
        if has_delimiter(rest) {
            let next = choose|at: int| is_delimiter_at(rest, at);
            lemma_leftmost_delimiter(rest, next);
        }
    }
}

/// A text in which the delimiter occurs has a leftmost place at which it occurs, and
/// what follows that place is shorter than the text by the delimiter at least.
pub proof fn lemma_leftmost_delimiter(text: Seq<char>, at: int)
    requires
        is_delimiter_at(text, at),
    ensures
        exists|first: int| is_first_delimiter(text, first),
        after_first_delimiter(text).len() + DELIMITER_LENGTH <= text.len(),
    decreases at,
{
    if exists|before: int| 0 <= before < at && is_delimiter_at(text, before) {
        let before = choose|before: int| 0 <= before < at && is_delimiter_at(text, before);
        lemma_leftmost_delimiter(text, before);
    } else {
        assert(is_first_delimiter(text, at));
    }
}

/// Stripping a text that was stripped changes nothing where the stripped text holds no
/// delimiter.
pub proof fn lemma_strip_idempotent(text: Seq<char>)
    requires
        !has_delimiter(strip_spec(text)),
    ensures
        strip_spec(strip_spec(text)) == strip_spec(text),
{
}

/// Stripping twice gives what stripping once gives for the texts whose stripped form
/// holds no delimiter, and for no others.
pub proof fn lemma_strip_twice(text: Seq<char>)
    ensures
        strip_spec(strip_spec(text)) == strip_spec(text) <==> !has_delimiter(strip_spec(text)),
{
    lemma_strip_shortens(strip_spec(text));
}

/// Removes the front matter from a Markdown text.
pub fn strip_matter(markdown: &str) -> (stripped: &str)
    ensures
        stripped@ == strip_spec(markdown@),
{
    let length = markdown.unicode_len();
    let ghost text = markdown@;
    // Where the part of the text begins that is still searched: after the latest
    // delimiter found.
    let mut start: usize = 0;
    let mut found: usize = 0;
    // How many plus signs end what has been read of that part.
    let mut signs: usize = 0;
    let mut position: usize = 0;
    let ghost mut first: int = 0;
    let ghost mut second: int = 0;
    for character in chars: markdown.chars()
        invariant
            chars.seq() == text,
            text.len() == length,
            position == chars.index(),
            start + signs <= position <= length,
            signs < DELIMITER_LENGTH,
            found <= 2,
            found < 2 ==> forall|at: int|
                start <= at && at + DELIMITER_LENGTH <= position ==> !is_delimiter_at(text, at),
            found < 2 ==> forall|at: int| position - signs <= at < position ==> text[at] == '+',
            found < 2 ==> (position - signs == start || text[position - signs - 1] != '+'),
            found == 0 ==> start == 0,
            found >= 1 ==> is_first_delimiter(text, first),
            found == 1 ==> start == first + DELIMITER_LENGTH,
            found == 2 ==> is_first_delimiter(text.skip(first + DELIMITER_LENGTH), second),
            found == 2 ==> start == first + DELIMITER_LENGTH + second + DELIMITER_LENGTH,
    {
        if found < 2 {
            if character != '+' {
                signs = 0;
            } else if signs + 1 < DELIMITER_LENGTH {
                signs = signs + 1;
            } else {
                proof {
                    let at = position - signs;
                    if found == 0 {
                        first = at;
                    } else {
                        second = at - start;
                        let rest = text.skip(first + DELIMITER_LENGTH);
                        assert forall|before: int| 0 <= before < second implies !is_delimiter_at(
                            rest,
                            before,
                        ) by {
                            assert(!is_delimiter_at(text, start + before));
                        }
                    }
                }
                found = found + 1;
                start = position + 1;
                signs = 0;
            }
        }
        position = position + 1;
    }
    proof {
        if found == 1 {
            lemma_first_delimiter_unique(text, first);
            let rest = text.skip(first + DELIMITER_LENGTH);
            assert forall|at: int| !is_delimiter_at(rest, at) by {
                if is_delimiter_at(rest, at) {
                    assert(is_delimiter_at(text, start + at));
                }
            }
        } else if found == 2 {
            lemma_first_delimiter_unique(text, first);
            let rest = text.skip(first + DELIMITER_LENGTH);
            lemma_first_delimiter_unique(rest, second);
            assert(text.subrange(start as int, length as int) =~= rest.skip(
                second + DELIMITER_LENGTH,
            ));
        }
    }
    markdown.substring_char(start, length)
}

} // verus!
