//! Text: comparison, characters and UTF-8.
use vstd::prelude::*;
use vstd::string::StrSliceExecFns;
use vstd::string::StringExecFns;
use vstd::string::StringSliceAdditionalSpecFns;
use vstd::utf8::decode_utf8;
use vstd::utf8::encode_utf8;
use vstd::utf8::encode_utf8_decode_utf8;
use vstd::utf8::valid_utf8;

verus! {

/// Two texts with the same UTF-8 bytes are the same text.
pub proof fn encoding_is_injective(a: Seq<char>, b: Seq<char>)
    requires
        encode_utf8(a) == encode_utf8(b),
    ensures
        a == b,
{
    encode_utf8_decode_utf8(a);
    encode_utf8_decode_utf8(b);
}

/// Whether two byte slices hold the same bytes.
pub fn bytes_eq(a: &[u8], b: &[u8]) -> (result: bool)
    ensures
        result == (a@ == b@),
{
    if a.len() != b.len() {
        return false;
    }
    let mut index: usize = 0;
    while index < a.len()
        invariant
            index <= a.len(),
            a.len() == b.len(),
            forall|i: int| 0 <= i < index ==> a@[i] == b@[i],
        decreases a.len() - index,
    {
        if a[index] != b[index] {
            return false;
        }
        index += 1;
    }
    assert(a@ =~= b@);
    true
}

/// Whether two texts are equal.
pub fn str_eq(a: &str, b: &str) -> (result: bool)
    ensures
        result == (a@ == b@),
{
    let result = bytes_eq(a.as_bytes(), b.as_bytes());
    proof {
        if result {
            encoding_is_injective(a@, b@);
        }
    }
    result
}

/// The characters of a text.
pub fn chars_of(text: &str) -> (result: Vec<char>)
    ensures
        result@ == text@,
{
    let mut result: Vec<char> = Vec::new();
    for c in it: text.chars()
        invariant
            result@ == it.seq().take(it.index() as int),
            it.seq() == text@,
    {
        result.push(c);
        assert(result@ =~= it.seq().take(it.index() as int + 1));
    }
    assert(result@ =~= text@);
    result
}

/// The text that a byte slice encodes, by `std::str::from_utf8`: there is one exactly where the
/// bytes are well-formed UTF-8, and it holds the decoded characters.
#[verifier::external_body]
pub(crate) fn utf8_text(bytes: &[u8]) -> (result: Option<String>)
    ensures
        result is Some <==> valid_utf8(bytes@),
        result matches Some(text) ==> text@ == decode_utf8(bytes@),
{
    match std::str::from_utf8(bytes) {
        Ok(text) => Some(text.to_owned()),
        Err(_) => None,
    }
}

/// A copy of a byte slice.
pub fn bytes_copy(bytes: &[u8]) -> (result: Vec<u8>)
    ensures
        result@ == bytes@,
{
    let mut result: Vec<u8> = Vec::with_capacity(bytes.len());
    result.extend_from_slice(bytes);
    assert(result@ =~= bytes@);
    result
}

/// The first character of a text is `c`.
pub open spec fn begins_with(text: Seq<char>, c: char) -> bool {
    text.len() > 0 && text[0] == c
}

/// Whether the first character of a text is `c`.
pub fn text_begins_with(text: &str, c: char) -> (result: bool)
    ensures
        result == begins_with(text@, c),
{
    text.unicode_len() > 0 && text.get_char(0) == c
}

/// Whether a text holds the character `c`.
pub fn text_has(text: &str, c: char) -> (result: bool)
    ensures
        result == text@.contains(c),
{
    for d in it: text.chars()
        invariant
            it.seq() == text@,
            forall|i: int| 0 <= i < it.index() ==> text@[i] != c,
    {
        if d == c {
            assert(text@[it.index() as int] == c);
            return true;
        }
    }
    false
}

/// The concatenation of two texts.
pub fn text_concat(left: &str, right: &str) -> (result: String)
    ensures
        result@ == left@ + right@,
{
    left.to_owned().concat(right)
}

/// What stands between the separators of a text.
pub open spec fn pieces(text: Seq<char>, separator: char) -> Seq<Seq<char>>
    decreases text.len(),
{
    if text.len() == 0 {
        seq![Seq::<char>::empty()]
    } else {
        let front = pieces(text.drop_last(), separator);
        if text.last() == separator {
            front.push(Seq::<char>::empty())
        } else {
            front.update(front.len() - 1, front.last().push(text.last()))
        }
    }
}

/// What stands between the separators of a text.
pub fn split_text(text: &str, separator: char) -> (result: Vec<String>)
    ensures
        result.deep_view() == pieces(text@, separator),
        result.len() > 0,
{
    let chars: Vec<char> = chars_of(text);
    let mut result: Vec<String> = Vec::new();
    let mut start: usize = 0;
    let mut index: usize = 0;
    assert(text@.take(0) =~= Seq::<char>::empty());
    assert(result.deep_view().push(text@.subrange(0, 0)) =~= pieces(text@.take(0), separator));
    while index < chars.len()
        invariant
            chars@ == text@,
            start <= index <= chars.len(),
            pieces(text@.take(index as int), separator) == result.deep_view().push(
                text@.subrange(start as int, index as int),
            ),
        decreases chars.len() - index,
    {
        let ghost before = result.deep_view();
        let ghost next = text@.take(index + 1);
        assert(next.drop_last() =~= text@.take(index as int));
        if chars[index] == separator {
            let piece: &str = text.substring_char(start, index);
            result.push(piece.to_owned());
            start = index + 1;
            assert(result.deep_view() =~= before.push(piece@));
            assert(text@.subrange(start as int, index + 1) =~= Seq::<char>::empty());
        } else {
            assert(text@.subrange(start as int, index + 1) =~= text@.subrange(
                start as int,
                index as int,
            ).push(text@[index as int]));
            assert(pieces(next, separator) =~= before.push(
                text@.subrange(start as int, index + 1),
            ));
        }
        index += 1;
    }
    let ghost before = result.deep_view();
    let piece: &str = text.substring_char(start, index);
    result.push(piece.to_owned());
    assert(text@.take(index as int) =~= text@);
    assert(result.deep_view() =~= before.push(piece@));
    result
}

/// A character that is white space in Unicode.
pub open spec fn is_space(c: char) -> bool {
    let code = c as u32;
    ||| 0x09 <= code <= 0x0d
    ||| code == 0x20
    ||| code == 0x85
    ||| code == 0xa0
    ||| code == 0x1680
    ||| 0x2000 <= code <= 0x200a
    ||| code == 0x2028
    ||| code == 0x2029
    ||| code == 0x202f
    ||| code == 0x205f
    ||| code == 0x3000
}

fn char_is_space(c: char) -> (result: bool)
    ensures
        result == is_space(c),
{
    let code: u32 = c as u32;
    (0x09 <= code && code <= 0x0d) || code == 0x20 || code == 0x85 || code == 0xa0 || code
        == 0x1680 || (0x2000 <= code && code <= 0x200a) || code == 0x2028 || code == 0x2029 || code
        == 0x202f || code == 0x205f || code == 0x3000
}

/// A text without the white space at its start.
pub open spec fn trimmed_start(text: Seq<char>) -> Seq<char>
    decreases text.len(),
{
    if text.len() > 0 && is_space(text[0]) {
        trimmed_start(text.drop_first())
    } else {
        text
    }
}

/// A text without the white space at its end.
pub open spec fn trimmed_end(text: Seq<char>) -> Seq<char>
    decreases text.len(),
{
    if text.len() > 0 && is_space(text.last()) {
        trimmed_end(text.drop_last())
    } else {
        text
    }
}

/// A text without the white space around it.
pub open spec fn trimmed(text: Seq<char>) -> Seq<char> {
    trimmed_end(trimmed_start(text))
}

/// A text without the white space around it.
pub fn trim_text(text: &str) -> (result: String)
    ensures
        result@ == trimmed(text@),
{
    let chars: Vec<char> = chars_of(text);
    let mut start: usize = 0;
    assert(text@.skip(0) =~= text@);
    while start < chars.len() && char_is_space(chars[start])
        invariant
            start <= chars.len(),
            chars@ == text@,
            trimmed_start(text@) == trimmed_start(text@.skip(start as int)),
        decreases chars.len() - start,
    {
        assert(text@.skip(start as int).drop_first() =~= text@.skip(start + 1));
        start += 1;
    }
    let ghost body = text@.skip(start as int);
    assert(trimmed_start(text@) == body);
    let mut end: usize = chars.len();
    assert(text@.subrange(start as int, end as int) =~= body);
    while end > start && char_is_space(chars[end - 1])
        invariant
            start <= end <= chars.len(),
            chars@ == text@,
            trimmed_end(body) == trimmed_end(text@.subrange(start as int, end as int)),
        decreases end,
    {
        assert(text@.subrange(start as int, end as int).drop_last() =~= text@.subrange(
            start as int,
            end - 1,
        ));
        assert(text@.subrange(start as int, end as int).last() == text@[end - 1]);
        end = end - 1;
    }
    if end > start {
        assert(text@.subrange(start as int, end as int).last() == text@[end - 1]);
    }
    text.substring_char(start, end).to_owned()
}

/// The lower case of an ASCII letter; any other character as it is.
pub open spec fn lower_ascii(c: char) -> char {
    if 'A' <= c && c <= 'Z' {
        ((c as u32 + 32) as u32) as char
    } else {
        c
    }
}

/// Two texts are equal but for the case of ASCII letters.
pub open spec fn equal_ignoring_case(a: Seq<char>, b: Seq<char>) -> bool {
    &&& a.len() == b.len()
    &&& forall|i: int|
        #![trigger a[i], b[i]]
        0 <= i < a.len() ==> lower_ascii(a[i]) == lower_ascii(b[i])
}

fn lower_ascii_char(c: char) -> (result: char)
    ensures
        result == lower_ascii(c),
{
    match c {
        'A' => 'a',
        'B' => 'b',
        'C' => 'c',
        'D' => 'd',
        'E' => 'e',
        'F' => 'f',
        'G' => 'g',
        'H' => 'h',
        'I' => 'i',
        'J' => 'j',
        'K' => 'k',
        'L' => 'l',
        'M' => 'm',
        'N' => 'n',
        'O' => 'o',
        'P' => 'p',
        'Q' => 'q',
        'R' => 'r',
        'S' => 's',
        'T' => 't',
        'U' => 'u',
        'V' => 'v',
        'W' => 'w',
        'X' => 'x',
        'Y' => 'y',
        'Z' => 'z',
        _ => c,
    }
}

/// Whether two texts are equal but for the case of ASCII letters.
pub fn eq_ignore_ascii_case(a: &str, b: &str) -> (result: bool)
    ensures
        result == equal_ignoring_case(a@, b@),
{
    let left: Vec<char> = chars_of(a);
    let right: Vec<char> = chars_of(b);
    if left.len() != right.len() {
        return false;
    }
    let mut index: usize = 0;
    while index < left.len()
        invariant
            index <= left.len(),
            left.len() == right.len(),
            left@ == a@,
            right@ == b@,
            forall|i: int|
                #![trigger a@[i], b@[i]]
                0 <= i < index ==> lower_ascii(a@[i]) == lower_ascii(b@[i]),
        decreases left.len() - index,
    {
        if lower_ascii_char(left[index]) != lower_ascii_char(right[index]) {
            assert(lower_ascii(a@[index as int]) != lower_ascii(b@[index as int]));
            return false;
        }
        index += 1;
    }
    true
}

/// What stands before and behind the first of a separator in a text.
pub open spec fn split_first(text: Seq<char>, separator: char) -> Option<(Seq<char>, Seq<char>)>
    decreases text.len(),
{
    if text.len() == 0 {
        None
    } else if text[0] == separator {
        Some((Seq::empty(), text.drop_first()))
    } else {
        match split_first(text.drop_first(), separator) {
            Some((before, behind)) => Some((seq![text[0]] + before, behind)),
            None => None,
        }
    }
}

/// A text without the separator, the separator and what is behind it split there.
pub proof fn split_first_joined(before: Seq<char>, separator: char, behind: Seq<char>)
    requires
        !before.contains(separator),
    ensures
        split_first(before.push(separator) + behind, separator) == Some((before, behind)),
    decreases before.len(),
{
    let text = before.push(separator) + behind;
    if before.len() == 0 {
        assert(text.drop_first() =~= behind);
        assert(before =~= Seq::<char>::empty());
    } else {
        let rest = before.drop_first();
        assert forall|i: int| 0 <= i < rest.len() implies rest[i] != separator by {
            assert(rest[i] == before[i + 1]);
        }
        split_first_joined(rest, separator, behind);
        assert(text.drop_first() =~= rest.push(separator) + behind);
        assert(before[0] != separator);
        assert(seq![text[0]] + rest =~= before);
    }
}

/// A text that does not hold the separator does not split.
pub proof fn split_first_absent(text: Seq<char>, separator: char)
    requires
        !text.contains(separator),
    ensures
        split_first(text, separator) is None,
    decreases text.len(),
{
    if text.len() > 0 {
        let rest = text.drop_first();
        assert forall|i: int| 0 <= i < rest.len() implies rest[i] != separator by {
            assert(rest[i] == text[i + 1]);
        }
        assert(text[0] != separator);
        split_first_absent(rest, separator);
    }
}

/// What stands before and behind the first of a separator in a text.
pub fn split_once(text: &str, separator: char) -> (result: Option<(String, String)>)
    ensures
        match result {
            Some(parts) => split_first(text@, separator) == Some((parts.0@, parts.1@)),
            None => split_first(text@, separator) is None,
        },
{
    let chars: Vec<char> = chars_of(text);
    let mut index: usize = 0;
    while index < chars.len()
        invariant
            index <= chars.len(),
            chars@ == text@,
            forall|i: int| 0 <= i < index ==> text@[i] != separator,
        decreases chars.len() - index,
    {
        if chars[index] == separator {
            let before: &str = text.substring_char(0, index);
            let behind: &str = text.substring_char(index + 1, chars.len());
            proof {
                assert(before@.push(separator) + behind@ =~= text@);
                split_first_joined(before@, separator, behind@);
            }
            return Some((before.to_owned(), behind.to_owned()));
        }
        index += 1;
    }
    proof {
        split_first_absent(text@, separator);
    }
    None
}

/// A text without the prefix that it has.
pub open spec fn without_prefix(text: Seq<char>, prefix: Seq<char>) -> Option<Seq<char>> {
    if prefix.len() <= text.len() && text.take(prefix.len() as int) == prefix {
        Some(text.skip(prefix.len() as int))
    } else {
        None
    }
}

/// A text without the prefix that it has.
pub fn strip_prefix(text: &str, prefix: &str) -> (result: Option<String>)
    ensures
        result.deep_view() == without_prefix(text@, prefix@),
{
    let count: usize = prefix.unicode_len();
    let total: usize = text.unicode_len();
    if count > total {
        return None;
    }
    let front: &str = text.substring_char(0, count);
    assert(front@ =~= text@.take(count as int));
    if !str_eq(front, prefix) {
        return None;
    }
    let behind: &str = text.substring_char(count, total);
    assert(behind@ =~= text@.skip(count as int));
    Some(behind.to_owned())
}

/// A text ends in a suffix.
pub open spec fn has_suffix(text: Seq<char>, suffix: Seq<char>) -> bool {
    suffix.len() <= text.len() && text.skip(text.len() - suffix.len()) == suffix
}

/// Whether a text ends in a suffix.
pub fn ends_with(text: &str, suffix: &str) -> (result: bool)
    ensures
        result == has_suffix(text@, suffix@),
{
    let count: usize = suffix.unicode_len();
    let total: usize = text.unicode_len();
    if count > total {
        return false;
    }
    let behind: &str = text.substring_char(total - count, total);
    assert(behind@ =~= text@.skip(text@.len() - suffix@.len()));
    str_eq(behind, suffix)
}

/// The pieces of two texts with a separator between them are the pieces of the one and then those
/// of the other.
pub proof fn pieces_join(left: Seq<char>, separator: char, right: Seq<char>)
    ensures
        pieces(left.push(separator) + right, separator) == pieces(left, separator) + pieces(
            right,
            separator,
        ),
        pieces(right, separator).len() > 0,
    decreases right.len(),
{
    let text = left.push(separator) + right;
    if right.len() == 0 {
        assert(text =~= left.push(separator));
        assert(text.drop_last() =~= left);
        assert(pieces(text, separator) =~= pieces(left, separator) + pieces(right, separator));
    } else {
        let front = right.drop_last();
        pieces_join(left, separator, front);
        assert(text.drop_last() =~= left.push(separator) + front);
        assert(text.last() == right.last());
        let before = pieces(front, separator);
        if right.last() == separator {
            assert((pieces(left, separator) + before).push(Seq::<char>::empty())
                =~= pieces(left, separator) + before.push(Seq::<char>::empty()));
        } else {
            let longer = before.last().push(right.last());
            let joined = pieces(left, separator) + before;
            assert(joined.last() == before.last());
            assert(joined.update(joined.len() - 1, longer) =~= pieces(left, separator)
                + before.update(before.len() - 1, longer));
        }
    }
}

/// A text without the separator is one piece.
pub proof fn one_piece(text: Seq<char>, separator: char)
    requires
        !text.contains(separator),
    ensures
        pieces(text, separator) == seq![text],
    decreases text.len(),
{
    if text.len() > 0 {
        let front = text.drop_last();
        assert forall|i: int| 0 <= i < front.len() implies front[i] != separator by {
            assert(front[i] == text[i]);
        }
        one_piece(front, separator);
        assert(text[text.len() - 1] != separator);
        assert(front.push(text.last()) =~= text);
        assert(pieces(text, separator) =~= seq![text]);
    } else {
        assert(text =~= Seq::<char>::empty());
    }
}

/// A text that neither starts nor ends with white space stays as it is.
pub proof fn nothing_to_trim(text: Seq<char>)
    requires
        text.len() > 0 ==> !is_space(text[0]) && !is_space(text.last()),
    ensures
        trimmed(text) == text,
{
}

} // verus!
