//! Small operations on the text of a token.

use vstd::prelude::*;

verus! {

/// `text` with every double quote taken out.
pub open spec fn without_quotes(text: Seq<char>) -> Seq<char> {
    text.filter(|c: char| c != '"')
}

/// `text` between two double quotes.
pub open spec fn quoted(text: Seq<char>) -> Seq<char> {
    seq!['"'] + text + seq!['"']
}

/// One more character of `text` is either kept or dropped.
proof fn without_quotes_step(text: Seq<char>, i: int)
    requires
        0 <= i < text.len(),
    ensures
        without_quotes(text.take(i + 1)) == if text[i] != '"' {
            without_quotes(text.take(i)).push(text[i])
        } else {
            without_quotes(text.take(i))
        },
{
    reveal(Seq::filter);
    assert(text.take(i + 1).drop_last() == text.take(i));
}

/// Quoting a text without double quotes and stripping the quotes gives the text back.
pub proof fn without_quotes_of_quoted(text: Seq<char>)
    requires
        !text.contains('"'),
    ensures
        without_quotes(quoted(text)) == text,
{
    let keep = |c: char| c != '"';
    Seq::filter_distributes_over_add(seq!['"'] + text, seq!['"'], keep);
    Seq::filter_distributes_over_add(seq!['"'], text, keep);
    reveal_with_fuel(Seq::filter, 2);
    assert(seq!['"'].filter(keep) == Seq::<char>::empty());
    unchanged_without_quotes(text);
}

/// A text without double quotes is left as it is.
pub proof fn unchanged_without_quotes(text: Seq<char>)
    requires
        !text.contains('"'),
    ensures
        without_quotes(text) == text,
    decreases text.len(),
{
    reveal(Seq::filter);
    if text.len() > 0 {
        assert(text.drop_last() + seq![text.last()] == text);
        assert forall|c: char| text.drop_last().contains(c) implies text.contains(c) by {
            let i = choose|i: int| 0 <= i < text.drop_last().len() && text.drop_last()[i] == c;
            assert(text[i] == c);
        }
        assert(text.contains(text.last())) by {
            assert(text[text.len() - 1] == text.last());
        }
        unchanged_without_quotes(text.drop_last());
    }
}

/// Do the two texts hold the same characters?
pub fn same_text(left: &str, right: &str) -> (same: bool)
    ensures
        same == (left@ == right@),
{
    left.to_owned() == right.to_owned()
}

/// Removes every double quote from `text`.
pub fn strip_quotes(text: &str) -> (stripped: String)
    ensures
        stripped@ == without_quotes(text@),
{
    let length = text.unicode_len();
    let mut stripped = String::new();
    let mut i: usize = 0;
    while i < length
        invariant
            length == text@.len(),
            i <= length,
            stripped@ == without_quotes(text@.take(i as int)),
        decreases length - i,
    {
        proof {
            without_quotes_step(text@, i as int);
        }
        if text.get_char(i) != '"' {
            stripped.append(text.substring_char(i, i + 1));
            assert(text@.subrange(i as int, i + 1) == seq![text@[i as int]]);
        }
        i += 1;
    }
    assert(text@.take(length as int) == text@);
    stripped
}

} // verus!
