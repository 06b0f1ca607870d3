//! How texts are trimmed and taken apart, and what reasons are called.
use vstd::prelude::*;

use crate::numbers::decimal;
use crate::reason::reason_text;
use crate::text::is_space;
use crate::text::lower_ascii;
use crate::text::pieces;
use crate::text::split_first;
use crate::text::trimmed;
use crate::text::trimmed_end;
use crate::text::trimmed_start;

verus! {

/// What a text is trimmed of at its start is white space, and what is left does not start with any.
proof fn start_is_trimmed(text: Seq<char>) -> (count: int)
    ensures
        0 <= count <= text.len(),
        trimmed_start(text) == text.skip(count),
        forall|i: int| 0 <= i < count ==> is_space(#[trigger] text[i]),
        count < text.len() ==> !is_space(text[count]),
    decreases text.len(),
{
    if text.len() > 0 && is_space(text[0]) {
        let rest = text.drop_first();
        let count = start_is_trimmed(rest) + 1;
        assert(text.skip(count) =~= rest.skip(count - 1));
        assert forall|i: int| 0 <= i < count implies is_space(#[trigger] text[i]) by {
            if i > 0 {
                assert(is_space(rest[i - 1]));
            }
        }
        if count < text.len() {
            assert(rest[count - 1] == text[count]);
        }
        count
    } else {
        assert(text.skip(0) =~= text);
        0
    }
}

proof fn end_is_trimmed(text: Seq<char>) -> (count: int)
    ensures
        0 <= count <= text.len(),
        trimmed_end(text) == text.take(count),
        forall|i: int| count <= i < text.len() ==> is_space(#[trigger] text[i]),
        count > 0 ==> !is_space(text[count - 1]),
    decreases text.len(),
{
    if text.len() > 0 && is_space(text.last()) {
        let rest = text.drop_last();
        let count = end_is_trimmed(rest);
        assert(text.take(count) =~= rest.take(count));
        assert forall|i: int| count <= i < text.len() implies is_space(#[trigger] text[i]) by {
            if i < rest.len() {
                assert(is_space(rest[i]));
            }
        }
        if count > 0 {
            assert(rest[count - 1] == text[count - 1]);
        }
        count
    } else {
        assert(text.take(text.len() as int) =~= text);
        text.len() as int
    }
}

/// A text is trimmed of the white space around it and of nothing else.
pub proof fn white_space_is_trimmed(text: Seq<char>)
    ensures
        exists|from: int, to: int|
            {
                &&& 0 <= from <= to <= text.len()
                &&& trimmed(text) == #[trigger] text.subrange(from, to)
                &&& forall|i: int| 0 <= i < from ==> is_space(#[trigger] text[i])
                &&& forall|i: int| to <= i < text.len() ==> is_space(#[trigger] text[i])
                &&& from < to ==> !is_space(text[from]) && !is_space(text[to - 1])
            },
{
    let from = start_is_trimmed(text);
    let left = text.skip(from);
    let count = end_is_trimmed(left);
    let to = from + count;
    assert(left.take(count) =~= text.subrange(from, to));
    assert forall|i: int| to <= i < text.len() implies is_space(#[trigger] text[i]) by {
        assert(is_space(left[i - from]));
    }
    if from < to {
        assert(left[count - 1] == text[to - 1]);
    }
}

/// A text is split at the first separator: what stands before it has none, and the two parts with
/// the separator between them are the text. One without a separator is not split.
pub proof fn text_is_split_once(text: Seq<char>, separator: char)
    ensures
        match split_first(text, separator) {
            Some((before, behind)) => {
                &&& !before.contains(separator)
                &&& text == before + seq![separator] + behind
            },
            None => !text.contains(separator),
        },
    decreases text.len(),
{
    if text.len() > 0 {
        let rest = text.drop_first();
        text_is_split_once(rest, separator);
        if text[0] == separator {
            assert(text =~= Seq::<char>::empty() + seq![separator] + rest);
        } else {
            match split_first(rest, separator) {
                Some((before, behind)) => {
                    let longer = seq![text[0]] + before;
                    assert(rest == before + seq![separator] + behind);
                    assert(text =~= seq![text[0]] + rest);
                    assert(text =~= longer + seq![separator] + behind);
                    if longer.contains(separator) {
                        let i = choose|i: int| 0 <= i < longer.len() && longer[i] == separator;
                        assert(before[i - 1] == separator);
                        assert(before.contains(separator));
                    }
                },
                None => {
                    if text.contains(separator) {
                        let i = choose|i: int| 0 <= i < text.len() && text[i] == separator;
                        assert(rest[i - 1] == separator);
                    }
                },
            }
        }
    }
}

/// Letters are compared without their case, and other characters as they are.
pub proof fn case_is_ignored(c: char)
    ensures
        'A' <= c <= 'Z' ==> lower_ascii(c) as u32 == c as u32 + 32,
        !('A' <= c <= 'Z') ==> lower_ascii(c) == c,
{
}

/// No two faults are explained with the same words.
#[verifier::rlimit(60)]
pub proof fn faults_have_their_own_words(first: u8, second: u8)
    requires
        reason_text(first) is Some,
        reason_text(first) == reason_text(second),
    ensures
        first == second,
{
    reveal_strlit("malformed packet");
    reveal_strlit("protocol error");
    reveal_strlit("client identifier not valid");
    reveal_strlit("bad user name or password");
    reveal_strlit("not authorized");
    reveal_strlit("server unavailable");
    reveal_strlit("server shutting down");
    reveal_strlit("bad authentication method");
    reveal_strlit("topic filter invalid");
    reveal_strlit("topic name invalid");
    reveal_strlit("packet identifier in use");
    reveal_strlit("packet identifier not found");
    reveal_strlit("receive maximum exceeded");
    reveal_strlit("topic alias invalid");
    reveal_strlit("packet too large");
    reveal_strlit("quota exceeded");
    reveal_strlit("payload format invalid");
    let a = reason_text(first)->0;
    let b = reason_text(second)->0;
    assert(a.len() == b.len());
    assert(a[0] == b[0]);
    assert(a[4] == b[4]);
    assert(a[7] == b[7]);
}

/// A text without the separator is one piece; behind the last separator stands the last piece.
pub proof fn text_falls_into_pieces(text: Seq<char>, last: Seq<char>, separator: char)
    requires
        !last.contains(separator),
    ensures
        pieces(last, separator) == seq![last],
        pieces(text + seq![separator] + last, separator) == pieces(text, separator).push(last),
    decreases last.len(),
{
    let whole = text + seq![separator] + last;
    if last.len() == 0 {
        assert(last =~= Seq::<char>::empty());
        assert(pieces(last, separator) =~= seq![last]);
        assert(whole.drop_last() =~= text);
        assert(whole.last() == separator);
        assert(pieces(whole, separator) =~= pieces(text, separator).push(last));
    } else {
        let less = last.drop_last();
        let c = last.last();
        assert(last[last.len() - 1] == c);
        assert(!less.contains(separator)) by {
            if less.contains(separator) {
                let i = choose|i: int| 0 <= i < less.len() && less[i] == separator;
                assert(last[i] == separator);
            }
        }
        text_falls_into_pieces(text, less, separator);
        assert(less.push(c) =~= last);
        assert(pieces(last, separator) =~= seq![last]);
        assert(whole.drop_last() =~= text + seq![separator] + less);
        assert(whole.last() == c);
        assert(pieces(whole, separator) =~= pieces(text, separator).push(last));
    }
}

/// A number is written with its digits, the last of which is what it leaves when divided by ten.
pub proof fn numbers_are_written_in_digits(value: nat)
    ensures
        decimal(value).len() > 0,
        decimal(value).last() as u32 == 48 + value % 10,
        value < 10 ==> decimal(value).len() == 1,
        value >= 10 ==> decimal(value).drop_last() == decimal(value / 10),
{
    assert(value % 10 < 10);
    if value >= 10 {
        assert(decimal(value).drop_last() =~= decimal(value / 10));
    }
}

} // verus!
