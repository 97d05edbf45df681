//! How cards and hands are written out.

use vstd::prelude::*;
use vstd::string::*;

verus! {

/// A second way of writing a value out, beside its own `to_string`: a card in
/// words, a hand as the list of its cards in canonical order.
pub trait ToStringCustom {
    /// The text that `to_string` of this trait returns.
    spec fn custom_text(&self) -> Seq<char>;

    /// The value written out in this second way.
    fn to_string(&self) -> (text: String)
        ensures
            text@ == self.custom_text(),
    ;
}

/// `count` spaces.
pub open spec fn spaces(count: nat) -> Seq<char> {
    Seq::new(count, |i: int| ' ')
}

/// The text followed by as many spaces as it lacks to `width` characters; a
/// text that is as long or longer stays as it is.
pub open spec fn padded(text: Seq<char>, width: nat) -> Seq<char> {
    if text.len() >= width {
        text
    } else {
        text + spaces((width - text.len()) as nat)
    }
}

/// The parts in a row with the separator between each two of them.
pub open spec fn joined(parts: Seq<Seq<char>>, separator: Seq<char>) -> Seq<char>
    decreases parts.len(),
{
    if parts.len() == 0 {
        Seq::empty()
    } else if parts.len() == 1 {
        parts[0]
    } else {
        joined(parts.drop_last(), separator) + separator + parts.last()
    }
}

/// Pads the text with spaces on the right to `width` characters.
pub fn pad_to_width(text: String, width: usize) -> (wide: String)
    ensures
        wide@ == padded(text@, width as nat),
{
    let mut wide = text;
    let mut len: usize = wide.as_str().unicode_len();
    while len < width
        invariant
            text@.len() <= len,
            len == wide@.len(),
            wide@ == text@ + spaces((len - text@.len()) as nat),
            len > text@.len() ==> len <= width,
        decreases width - len,
    {
        proof {
            reveal_strlit(" ");
        }
        wide.append(" ");
        len += 1;
    }
    wide
}

/// Appends one more part to a text that joins `count` parts already.
pub fn append_part(text: &mut String, count: usize, separator: &str, part: &str)
    ensures
        final(text)@ == if count == 0 {
            old(text)@ + part@
        } else {
            old(text)@ + separator@ + part@
        },
{
    if count > 0 {
        text.append(separator);
    }
    text.append(part);
}

/// Joining one more part: what `append_part` adds is what `joined` asks for.
pub proof fn lemma_joined_push(parts: Seq<Seq<char>>, separator: Seq<char>, part: Seq<char>)
    ensures
        joined(parts.push(part), separator) == if parts.len() == 0 {
            Seq::<char>::empty() + part
        } else {
            joined(parts, separator) + separator + part
        },
{
    assert(parts.push(part).drop_last() =~= parts);
}

} // verus!
