//! Reading card identifiers from a line of text: the identifiers stand
//! between commas, with any white space around them.

use vstd::prelude::*;
use vstd::string::*;
use crate::card::{Card, CardView};

verus! {

/// Whether a character is white space: one of the characters that Unicode
/// lists as `White_Space`.
pub open spec fn is_space(c: char) -> bool {
    let code = c as u32;
    ||| 0x09 <= code <= 0x0d
    ||| code == 0x20
    ||| code == 0x85
    ||| code == 0xa0
    ||| code == 0x1680
    ||| 0x2000 <= code <= 0x200a
    ||| code == 0x2028
    ||| code == 0x2029
    ||| code == 0x202f
    ||| code == 0x205f
    ||| code == 0x3000
}

/// Whether a character is white space.
pub fn is_white_space(c: char) -> (space: bool)
    ensures
        space == is_space(c),
{
    let code: u32 = c as u32;
    (0x09 <= code && code <= 0x0d) || code == 0x20 || code == 0x85 || code == 0xa0 || code
        == 0x1680 || (0x2000 <= code && code <= 0x200a) || code == 0x2028 || code == 0x2029 || code
        == 0x202f || code == 0x205f || code == 0x3000
}

/// The position of the first comma of the text, or the length of the text
/// if it has none.
pub open spec fn first_comma(text: Seq<char>) -> nat
    decreases text.len(),
{
    if text.len() == 0 || text[0] == ',' {
        0
    } else {
        1 + first_comma(text.drop_first())
    }
}

/// The text without the white space at its start.
pub open spec fn trim_start(text: Seq<char>) -> Seq<char>
    decreases text.len(),
{
    if text.len() > 0 && is_space(text.first()) {
        trim_start(text.drop_first())
    } else {
        text
    }
}

/// The text without the white space at its end.
pub open spec fn trim_end(text: Seq<char>) -> Seq<char>
    decreases text.len(),
{
    if text.len() > 0 && is_space(text.last()) {
        trim_end(text.drop_last())
    } else {
        text
    }
}

/// The text without the white space at its start and at its end.
pub open spec fn trimmed(text: Seq<char>) -> Seq<char> {
    trim_end(trim_start(text))
}

/// The identifiers that a line holds: the texts between its commas, each
/// without the white space around it, those that are empty left out.
pub open spec fn tokens_of(line: Seq<char>) -> Seq<Seq<char>>
    decreases line.len(),
{
    let comma = first_comma(line) as int;
    let token = trimmed(line.take(comma));
    let head = if token.len() > 0 {
        seq![token]
    } else {
        Seq::empty()
    };
    if comma >= line.len() {
        head
    } else {
        head + tokens_of(line.skip(comma + 1))
    }
}

/// The card that an identifier names: the last character is the suit symbol,
/// what stands before it is the face symbol, and the score is zero.
pub open spec fn card_of_token(token: Seq<char>) -> CardView {
    if token.len() == 0 {
        CardView { face: token, suit: token, score: 0 }
    } else {
        CardView { face: token.take(token.len() - 1), suit: token.skip(token.len() - 1), score: 0 }
    }
}

/// The first comma stands where no comma stands before.
pub proof fn lemma_first_comma(text: Seq<char>, at: int)
    requires
        0 <= at <= text.len(),
        forall|i: int| 0 <= i < at ==> text[i] != ',',
        at == text.len() || text[at] == ',',
    ensures
        first_comma(text) == at,
    decreases at,
{
    if at > 0 {
        lemma_first_comma(text.drop_first(), at - 1);
    }
}

/// Trimming the start removes exactly the leading run of white space.
pub proof fn lemma_trim_start(text: Seq<char>, from: int)
    requires
        0 <= from <= text.len(),
        forall|i: int| 0 <= i < from ==> is_space(#[trigger] text[i]),
        from == text.len() || !is_space(text[from]),
    ensures
        trim_start(text) == text.skip(from),
    decreases from,
{
    if from > 0 {
        lemma_trim_start(text.drop_first(), from - 1);
    }
}

/// Trimming the end removes exactly the trailing run of white space.
pub proof fn lemma_trim_end(text: Seq<char>, to: int)
    requires
        0 <= to <= text.len(),
        forall|i: int| to <= i < text.len() ==> is_space(#[trigger] text[i]),
        to == 0 || !is_space(text[to - 1]),
    ensures
        trim_end(text) == text.take(to),
    decreases text.len() - to,
{
    if to < text.len() {
        lemma_trim_end(text.drop_last(), to);
    }
}

/// The characters of a text, one by one.
pub fn chars_of(text: &str) -> (chars: Vec<char>)
    ensures
        chars@ == text@,
{
    let mut chars: Vec<char> = Vec::new();
    for c in it: text.chars()
        invariant
            it.seq() == text@,
            chars@ == it.seq().take(it.index() as int),
    {
        chars.push(c);
    }
    chars
}

/// The views of a sequence of texts, position by position.
pub open spec fn texts_of(strings: Seq<String>) -> Seq<Seq<char>> {
    strings.map_values(|s: String| s@)
}

/// The identifiers that the line holds, in the order in which they stand.
pub fn split_line(line: &str) -> (tokens: Vec<String>)
    ensures
        texts_of(tokens@) == tokens_of(line@),
{
    let chars = chars_of(line);
    let len: usize = chars.len();
    let mut tokens: Vec<String> = Vec::new();
    let mut start: usize = 0;
    let mut done: bool = false;
    proof {
        assert(line@.skip(0) =~= line@);
    }
    while !done
        invariant
            chars@ == line@,
            len == line@.len(),
            0 <= start <= len,
            !done ==> texts_of(tokens@) + tokens_of(line@.skip(start as int)) == tokens_of(line@),
            done ==> texts_of(tokens@) == tokens_of(line@),
        decreases len - start + if done { 0int } else { 1int },
    {
        let ghost rest = line@.skip(start as int);
        let mut end: usize = start;
        while end < len && chars[end] != ','
            invariant
                chars@ == line@,
                len == line@.len(),
                start <= end <= len,
                forall|i: int| start <= i < end ==> line@[i] != ',',
            decreases len - end,
        {
            end += 1;
        }
        let mut lo: usize = start;
        while lo < end && is_white_space(chars[lo])
            invariant
                chars@ == line@,
                start <= lo <= end <= len,
                len == line@.len(),
                forall|i: int| start <= i < lo ==> is_space(#[trigger] line@[i]),
            decreases end - lo,
        {
            lo += 1;
        }
        let mut hi: usize = end;
        while hi > lo && is_white_space(chars[hi - 1])
            invariant
                chars@ == line@,
                lo <= hi <= end <= len,
                len == line@.len(),
                forall|i: int| hi <= i < end ==> is_space(#[trigger] line@[i]),
            decreases hi,
        {
            hi -= 1;
        }
        proof {
            let field = rest.take(end - start);
            lemma_first_comma(rest, end - start);
            lemma_trim_start(field, lo - start);
            let tail = field.skip(lo - start);
            lemma_trim_end(tail, hi - lo);
            assert(trimmed(field) == line@.subrange(lo as int, hi as int));
        }
        if lo < hi {
            let token = String::from_str(line.substring_char(lo, hi));
            tokens.push(token);
        }
        if end >= len {
            done = true;
        } else {
            proof {
                assert(rest.skip(end - start + 1) =~= line@.skip(end + 1));
            }
            start = end + 1;
        }
    }
    tokens
}

/// The card that an identifier names; see [`card_of_token`].
pub fn parse_card(token: &str) -> (card: Card)
    ensures
        card@ == card_of_token(token@),
{
    let len: usize = token.unicode_len();
    if len == 0 {
        proof {
            assert(token@ =~= ""@) by {
                reveal_strlit("");
            }
        }
        Card::new("", "")
    } else {
        let face = token.substring_char(0, len - 1);
        let suit = token.substring_char(len - 1, len);
        Card::new(face, suit)
    }
}

} // verus!
