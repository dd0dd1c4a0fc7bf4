//! Text as a sequence of Unicode scalar values.
//!
//! The functions here are the string operations that the rest of the library
//! is built on. Each is stated over the characters of its arguments.

use vstd::prelude::*;
use vstd::string::*;

verus! {

/// `String::push` appends one character to the end of the text.
pub assume_specification[ std::string::String::push ](text: &mut std::string::String, ch: char)
    ensures
        final(text)@ == old(text)@.push(ch),
;

/// `String::pop` takes the last character off the text and hands it back;
/// on an empty text it returns `None` and changes nothing.
pub assume_specification[ std::string::String::pop ](text: &mut std::string::String) -> (last: Option<char>)
    ensures
        old(text)@.len() == 0 ==> last is None && final(text)@ == old(text)@,
        old(text)@.len() > 0 ==> last == Some(old(text)@.last()) && final(text)@
            == old(text)@.drop_last(),
;

/// The contents of an optional text.
pub open spec fn text_option(text: Option<String>) -> Option<Seq<char>> {
    match text {
        Some(text) => Some(text@),
        None => None,
    }
}

/// The contents of an optional borrowed text.
pub open spec fn str_option(text: Option<&str>) -> Option<Seq<char>> {
    match text {
        Some(text) => Some(text@),
        None => None,
    }
}

/// The characters of a list of strings.
pub open spec fn texts(list: Seq<String>) -> Seq<Seq<char>> {
    list.map_values(|item: String| item@)
}

/// The characters of a text, one by one.
pub fn chars_of(text: &str) -> (chars: Vec<char>)
    ensures
        chars@ == text@,
{
    let mut chars: Vec<char> = Vec::new();
    for ch in it: text.chars()
        invariant
            chars@ == text@.take(it.index() as int),
            it.seq() == text@,
    {
        chars.push(ch);
        assert(text@.take(it.index() + 1) =~= text@.take(it.index() as int).push(ch));
    }
    assert(text@.take(text@.len() as int) =~= text@);
    chars
}

/// The text made of `chars[from..to]`.
pub fn text_of(chars: &Vec<char>, from: usize, to: usize) -> (text: String)
    requires
        from <= to <= chars@.len(),
    ensures
        text@ == chars@.subrange(from as int, to as int),
{
    let mut text = String::new();
    let mut at: usize = from;
    while at < to
        invariant
            from <= at <= to <= chars@.len(),
            text@ == chars@.subrange(from as int, at as int),
        decreases to - at,
    {
        text.push(chars[at]);
        at = at + 1;
        assert(text@ =~= chars@.subrange(from as int, at as int));
    }
    text
}

/// Whether two texts hold the same characters.
pub fn same_text(left: &str, right: &str) -> (same: bool)
    ensures
        same == (left@ == right@),
{
    left.to_owned() == right.to_owned()
}

/// One text followed by another.
pub fn joined(left: &str, right: &str) -> (text: String)
    ensures
        text@ == left@ + right@,
{
    let mut text = left.to_owned();
    text.append(right);
    text
}

/// Three texts, one after the other.
pub fn joined3(first: &str, second: &str, third: &str) -> (text: String)
    ensures
        text@ == first@ + second@ + third@,
{
    let mut text = joined(first, second);
    text.append(third);
    text
}

/// Texts with line breaks between them.
pub open spec fn lines_joined(list: Seq<Seq<char>>) -> Seq<char>
    decreases list.len(),
{
    if list.len() == 0 {
        Seq::empty()
    } else if list.len() == 1 {
        list[0]
    } else {
        lines_joined(list.drop_last()) + "\n"@ + list.last()
    }
}

/// Puts texts together, with line breaks between them.
pub fn join_lines(list: &Vec<String>) -> (text: String)
    ensures
        text@ == lines_joined(texts(list@)),
{
    let ghost all = texts(list@);
    let mut text = String::new();
    let mut i: usize = 0;
    assert(text@ =~= lines_joined(all.take(0)));
    while i < list.len()
        invariant
            i <= list@.len(),
            all == texts(list@),
            text@ == lines_joined(all.take(i as int)),
        decreases list@.len() - i,
    {
        proof {
            assert(all.take(i + 1).drop_last() =~= all.take(i as int));
            assert(all.take(i + 1).last() == list@[i as int]@);
        }
        if i > 0 {
            text.append("\n");
        }
        text.append(list[i].as_str());
        assert(i == 0 ==> text@ =~= all[0]);
        i = i + 1;
    }
    assert(all.take(all.len() as int) =~= all);
    text
}

/// A copy of a list of texts.
pub fn copied_texts(list: &Vec<String>) -> (copy: Vec<String>)
    ensures
        texts(copy@) == texts(list@),
{
    let mut copy: Vec<String> = Vec::new();
    let mut i: usize = 0;
    while i < list.len()
        invariant
            i <= list@.len(),
            copy@.len() == i,
            forall|k: int| 0 <= k < i ==> #[trigger] copy@[k]@ == list@[k]@,
        decreases list@.len() - i,
    {
        copy.push(list[i].clone());
        i = i + 1;
    }
    assert(texts(copy@) =~= texts(list@));
    copy
}

/// Whether two lists hold the same texts.
pub fn same_texts(left: &Vec<String>, right: &Vec<String>) -> (same: bool)
    ensures
        same == (texts(left@) == texts(right@)),
{
    if left.len() != right.len() {
        assert(texts(left@).len() != texts(right@).len());
        return false;
    }
    let mut i: usize = 0;
    while i < left.len()
        invariant
            i <= left@.len() == right@.len(),
            forall|k: int| 0 <= k < i ==> #[trigger] left@[k]@ == right@[k]@,
        decreases left@.len() - i,
    {
        if !same_text(left[i].as_str(), right[i].as_str()) {
            assert(texts(left@)[i as int] != texts(right@)[i as int]);
            return false;
        }
        i = i + 1;
    }
    assert(texts(left@) =~= texts(right@));
    true
}

/// The characters that Unicode gives the property White_Space.
pub open spec fn is_white_space(ch: char) -> bool {
    ||| '\u{9}' <= ch <= '\u{d}'
    ||| ch == ' '
    ||| ch == '\u{85}'
    ||| ch == '\u{a0}'
    ||| ch == '\u{1680}'
    ||| '\u{2000}' <= ch <= '\u{200a}'
    ||| ch == '\u{2028}'
    ||| ch == '\u{2029}'
    ||| ch == '\u{202f}'
    ||| ch == '\u{205f}'
    ||| ch == '\u{3000}'
}

/// Whether a character is white space.
pub fn white_space(ch: char) -> (yes: bool)
    ensures
        yes == is_white_space(ch),
{
    ('\u{9}' <= ch && ch <= '\u{d}') || ch == ' ' || ch == '\u{85}' || ch == '\u{a0}' || ch
        == '\u{1680}' || ('\u{2000}' <= ch && ch <= '\u{200a}') || ch == '\u{2028}' || ch
        == '\u{2029}' || ch == '\u{202f}' || ch == '\u{205f}' || ch == '\u{3000}'
}

/// A text without the white space it starts with.
pub open spec fn trimmed_start(text: Seq<char>) -> Seq<char>
    decreases text.len(),
{
    if text.len() > 0 && is_white_space(text[0]) {
        trimmed_start(text.drop_first())
    } else {
        text
    }
}

/// A text without the white space it ends with.
pub open spec fn trimmed_end(text: Seq<char>) -> Seq<char>
    decreases text.len(),
{
    if text.len() > 0 && is_white_space(text.last()) {
        trimmed_end(text.drop_last())
    } else {
        text
    }
}

/// A text without the white space at either end.
pub open spec fn trimmed(text: Seq<char>) -> Seq<char> {
    trimmed_end(trimmed_start(text))
}

/// Trims white space off the start of a text.
pub fn trim_start(text: &str) -> (rest: &str)
    ensures
        rest@ == trimmed_start(text@),
{
    let chars = chars_of(text);
    let mut from: usize = 0;
    assert(text@.skip(0) =~= text@);
    while from < chars.len() && white_space(chars[from])
        invariant
            from <= chars@.len(),
            chars@ == text@,
            trimmed_start(text@) == trimmed_start(text@.skip(from as int)),
        decreases chars@.len() - from,
    {
        assert(text@.skip(from as int).drop_first() =~= text@.skip(from + 1));
        from = from + 1;
    }
    assert(text@.skip(from as int) =~= text@.subrange(from as int, text@.len() as int));
    text.substring_char(from, chars.len())
}

/// Trims white space off both ends of a text.
pub fn trim(text: &str) -> (rest: &str)
    ensures
        rest@ == trimmed(text@),
{
    let rest = trim_start(text);
    let chars = chars_of(rest);
    let mut to: usize = chars.len();
    assert(rest@.take(to as int) =~= rest@);
    while to > 0 && white_space(chars[to - 1])
        invariant
            to <= chars@.len(),
            chars@ == rest@,
            trimmed_end(rest@) == trimmed_end(rest@.take(to as int)),
        decreases to,
    {
        assert(rest@.take(to as int).drop_last() =~= rest@.take(to - 1));
        to = to - 1;
    }
    assert(rest@.take(to as int) =~= rest@.subrange(0, to as int));
    rest.substring_char(0, to)
}

/// Whether `needle` stands in `text` at position `at`.
pub open spec fn occurs_at(text: Seq<char>, needle: Seq<char>, at: int) -> bool {
    &&& 0 <= at
    &&& at + needle.len() <= text.len()
    &&& text.subrange(at, at + needle.len()) == needle
}

/// Whether `text` starts with `prefix`.
pub open spec fn has_prefix(text: Seq<char>, prefix: Seq<char>) -> bool {
    occurs_at(text, prefix, 0)
}

/// The first position from `from` on at which `needle` stands in `text`.
pub open spec fn first_from(text: Seq<char>, needle: Seq<char>, from: int) -> Option<int>
    decreases text.len() - from + 1,
{
    if from + needle.len() > text.len() {
        None
    } else if occurs_at(text, needle, from) {
        Some(from)
    } else {
        first_from(text, needle, from + 1)
    }
}

/// The last position up to `upto` at which `needle` stands in `text`.
pub open spec fn last_upto(text: Seq<char>, needle: Seq<char>, upto: int) -> Option<int>
    decreases upto + 1,
{
    if upto < 0 {
        None
    } else if occurs_at(text, needle, upto) {
        Some(upto)
    } else {
        last_upto(text, needle, upto - 1)
    }
}

/// The last position at which `needle` stands in `text`.
pub open spec fn last_position(text: Seq<char>, needle: Seq<char>) -> Option<int> {
    last_upto(text, needle, text.len() - needle.len())
}

/// A found position is one at which the needle stands, and no position before
/// it is; nothing found means that there is none.
pub proof fn lemma_first_from(text: Seq<char>, needle: Seq<char>, from: int)
    requires
        0 <= from,
    ensures
        match first_from(text, needle, from) {
            Some(at) => from <= at && occurs_at(text, needle, at) && forall|i: int|
                from <= i < at ==> !occurs_at(text, needle, i),
            None => forall|i: int| from <= i ==> !occurs_at(text, needle, i),
        },
    decreases text.len() - from + 1,
{
    if from + needle.len() <= text.len() && !occurs_at(text, needle, from) {
        lemma_first_from(text, needle, from + 1);
    }
}

/// As `lemma_first_from`, counted from the end.
pub(crate) proof fn lemma_last_upto(text: Seq<char>, needle: Seq<char>, upto: int)
    ensures
        match last_upto(text, needle, upto) {
            Some(at) => at <= upto && occurs_at(text, needle, at) && forall|i: int|
                at < i <= upto ==> !occurs_at(text, needle, i),
            None => forall|i: int| i <= upto ==> !occurs_at(text, needle, i),
        },
    decreases upto + 1,
{
    if upto >= 0 && !occurs_at(text, needle, upto) {
        lemma_last_upto(text, needle, upto - 1);
    }
}

/// Whether `needle` stands in `chars` at position `at`.
pub fn stands_at(chars: &Vec<char>, needle: &Vec<char>, at: usize) -> (yes: bool)
    ensures
        yes == occurs_at(chars@, needle@, at as int),
{
    if at > chars.len() || needle.len() > chars.len() - at {
        return false;
    }
    let len: usize = chars.len();
    let mut i: usize = 0;
    while i < needle.len()
        invariant
            i <= needle@.len(),
            len == chars@.len(),
            at + needle@.len() <= len,
            forall|k: int| 0 <= k < i ==> chars@[at + k] == needle@[k],
        decreases needle@.len() - i,
    {
        if chars[at + i] != needle[i] {
            proof {
                let window = chars@.subrange(at as int, at + needle@.len());
                assert(window[i as int] == chars@[at + i]);
            }
            return false;
        }
        i = i + 1;
    }
    assert(chars@.subrange(at as int, at + needle@.len()) =~= needle@);
    true
}

/// Finds `needle` in `chars`, from position `from` on.
pub fn find_from(chars: &Vec<char>, needle: &Vec<char>, from: usize) -> (found: Option<usize>)
    ensures
        first_from(chars@, needle@, from as int) == (match found {
            Some(at) => Some(at as int),
            None => None::<int>,
        }),
{
    let mut at: usize = from;
    while at <= chars.len() && needle.len() <= chars.len() - at
        invariant
            from <= at,
            first_from(chars@, needle@, from as int) == first_from(chars@, needle@, at as int),
        decreases chars@.len() + 1 - at,
    {
        if stands_at(chars, needle, at) {
            return Some(at);
        }
        if at == chars.len() {
            assert(first_from(chars@, needle@, at + 1) is None);
            return None;
        }
        at = at + 1;
    }
    None
}

/// Finds the last place of `needle` in `chars`.
pub fn find_last(chars: &Vec<char>, needle: &Vec<char>) -> (found: Option<usize>)
    ensures
        last_position(chars@, needle@) == (match found {
            Some(at) => Some(at as int),
            None => None::<int>,
        }),
{
    if needle.len() > chars.len() {
        return None;
    }
    let mut at: usize = chars.len() - needle.len();
    loop
        invariant
            at + needle@.len() <= chars@.len(),
            last_position(chars@, needle@) == last_upto(chars@, needle@, at as int),
        decreases at,
    {
        if stands_at(chars, needle, at) {
            return Some(at);
        }
        if at == 0 {
            proof {
                lemma_last_upto(chars@, needle@, -1);
            }
            return None;
        }
        at = at - 1;
    }
}

/// Whether a text starts with a prefix.
pub fn starts_with(text: &str, prefix: &str) -> (yes: bool)
    ensures
        yes == has_prefix(text@, prefix@),
{
    stands_at(&chars_of(text), &chars_of(prefix), 0)
}

/// What follows `prefix` in a text that starts with it.
pub fn strip_prefix<'a>(text: &'a str, prefix: &str) -> (rest: Option<&'a str>)
    ensures
        rest is Some <==> has_prefix(text@, prefix@),
        rest matches Some(rest) ==> rest@ == text@.skip(prefix@.len() as int),
{
    let chars = chars_of(text);
    let head = chars_of(prefix);
    if stands_at(&chars, &head, 0) {
        assert(text@.skip(prefix@.len() as int) =~= text@.subrange(
            prefix@.len() as int,
            text@.len() as int,
        ));
        Some(text.substring_char(head.len(), chars.len()))
    } else {
        None
    }
}

/// A text without all the copies of `prefix` it starts with.
pub open spec fn without_prefixes(text: Seq<char>, prefix: Seq<char>) -> Seq<char>
    decreases text.len(),
{
    if prefix.len() > 0 && has_prefix(text, prefix) {
        without_prefixes(text.skip(prefix.len() as int), prefix)
    } else {
        text
    }
}

/// Strips every copy of a non-empty `prefix` that a text starts with.
pub fn strip_prefixes<'a>(text: &'a str, prefix: &str) -> (rest: &'a str)
    requires
        prefix@.len() > 0,
    ensures
        rest@ == without_prefixes(text@, prefix@),
{
    let mut rest = text;
    loop
        invariant
            prefix@.len() > 0,
            without_prefixes(text@, prefix@) == without_prefixes(rest@, prefix@),
        decreases rest@.len(),
    {
        match strip_prefix(rest, prefix) {
            Some(shorter) => rest = shorter,
            None => return rest,
        }
    }
}

/// The lower case of an ASCII letter; any other character stays as it is.
pub open spec fn lower_char(ch: char) -> char {
    if 'A' <= ch <= 'Z' {
        ((ch as u32) + 32) as char
    } else {
        ch
    }
}

/// A text with its ASCII letters in lower case.
pub open spec fn lower_text(text: Seq<char>) -> Seq<char> {
    text.map_values(|ch: char| lower_char(ch))
}

/// Puts the ASCII letters of a text in lower case.
pub fn ascii_lower(text: &str) -> (lower: String)
    ensures
        lower@ == lower_text(text@),
{
    let mut lower = String::new();
    for ch in it: text.chars()
        invariant
            lower@ == lower_text(text@.take(it.index() as int)),
            it.seq() == text@,
    {
        if 'A' <= ch && ch <= 'Z' {
            lower.push(((ch as u8) + 32) as char);
        } else {
            lower.push(ch);
        }
        assert(lower@ =~= lower_text(text@.take(it.index() + 1)));
    }
    assert(text@.take(text@.len() as int) =~= text@);
    lower
}

/// The decimal digit of a number below ten.
pub open spec fn digit(n: nat) -> char {
    ((n + 48) as u32) as char
}

/// A number in decimal notation, without leading zeros.
pub open spec fn decimal(n: nat) -> Seq<char>
    decreases n,
{
    if n < 10 {
        seq![digit(n)]
    } else {
        decimal(n / 10).push(digit(n % 10))
    }
}

/// Writes a number in decimal notation.
pub fn decimal_text(n: u64) -> (text: String)
    ensures
        text@ == decimal(n as nat),
    decreases n,
{
    let last = ((n % 10) as u8 + 48) as char;
    let mut text = if n < 10 {
        String::new()
    } else {
        decimal_text(n / 10)
    };
    text.push(last);
    assert(n < 10 ==> text@ =~= seq![last]);
    text
}

/// The pieces of a text between its line breaks. There is one piece more than
/// there are line breaks.
pub open spec fn pieces(text: Seq<char>) -> Seq<Seq<char>>
    decreases text.len(),
{
    if text.len() == 0 {
        seq![Seq::<char>::empty()]
    } else {
        let before = pieces(text.drop_last());
        if text.last() == '\n' {
            before.push(Seq::empty())
        } else {
            before.drop_last().push(before.last().push(text.last()))
        }
    }
}

/// There is always a piece.
pub(crate) proof fn lemma_pieces(text: Seq<char>)
    ensures
        pieces(text).len() > 0,
        pieces(text).len() <= text.len() + 1,
    decreases text.len(),
{
    if text.len() > 0 {
        lemma_pieces(text.drop_last());
    }
}

/// Splits a text at its line breaks.
pub fn split_lines(text: &str) -> (list: Vec<String>)
    ensures
        texts(list@) == pieces(text@),
        list@.len() > 0,
        text@.len() <= usize::MAX,
{
    let chars = chars_of(text);
    let mut list: Vec<String> = Vec::new();
    let mut current = String::new();
    assert(texts(list@).push(current@) =~= pieces(text@.take(0)));
    let mut i: usize = 0;
    while i < chars.len()
        invariant
            i <= chars@.len(),
            chars@ == text@,
            texts(list@).push(current@) == pieces(text@.take(i as int)),
        decreases chars@.len() - i,
    {
        let ghost before = texts(list@);
        let ghost piece = current@;
        proof {
            assert(text@.take(i + 1).drop_last() =~= text@.take(i as int));
            assert(before.push(piece).drop_last() =~= before);
        }
        if chars[i] == '\n' {
            list.push(current);
            current = String::new();
            assert(current@ =~= Seq::<char>::empty());
            assert(texts(list@) =~= before.push(piece));
        } else {
            current.push(chars[i]);
        }
        i = i + 1;
    }
    assert(text@.take(text@.len() as int) =~= text@);
    let ghost before = texts(list@);
    let ghost piece = current@;
    list.push(current);
    assert(texts(list@) =~= before.push(piece));
    list
}

/// A text without one `suffix` character at its end.
pub open spec fn without_last(text: Seq<char>, suffix: char) -> Seq<char> {
    if text.len() > 0 && text.last() == suffix {
        text.drop_last()
    } else {
        text
    }
}

/// A text without the `suffix` characters at its end.
pub open spec fn without_all_last(text: Seq<char>, suffix: char) -> Seq<char>
    decreases text.len(),
{
    if text.len() > 0 && text.last() == suffix {
        without_all_last(text.drop_last(), suffix)
    } else {
        text
    }
}

/// Strips one `suffix` character off the end of a text.
pub fn strip_last(text: &str, suffix: char) -> (rest: String)
    ensures
        rest@ == without_last(text@, suffix),
{
    let chars = chars_of(text);
    let len: usize = chars.len();
    if len > 0 && chars[len - 1] == suffix {
        let rest = text_of(&chars, 0, len - 1);
        assert(rest@ =~= text@.drop_last());
        rest
    } else {
        text.to_owned()
    }
}

/// Strips all `suffix` characters off the end of a text.
pub fn strip_all_last(text: &str, suffix: char) -> (rest: String)
    ensures
        rest@ == without_all_last(text@, suffix),
{
    let chars = chars_of(text);
    let mut to: usize = chars.len();
    assert(text@.take(to as int) =~= text@);
    while to > 0 && chars[to - 1] == suffix
        invariant
            to <= chars@.len(),
            chars@ == text@,
            without_all_last(text@, suffix) == without_all_last(text@.take(to as int), suffix),
        decreases to,
    {
        assert(text@.take(to as int).drop_last() =~= text@.take(to - 1));
        to = to - 1;
    }
    let rest = text_of(&chars, 0, to);
    assert(rest@ =~= text@.take(to as int));
    rest
}

/// The lines of a text. A line break ends a line, with the carriage return
/// before it, and after the last one there is no further empty line.
pub open spec fn lines_of(text: Seq<char>) -> Seq<Seq<char>> {
    let all = pieces(text);
    Seq::new(
        if all.last().len() == 0 {
            (all.len() - 1) as nat
        } else {
            all.len()
        },
        |i: int|
            if i < all.len() - 1 {
                without_last(all[i], '\r')
            } else {
                all[i]
            },
    )
}

/// The lines of a text.
pub fn text_lines(text: &str) -> (lines: Vec<String>)
    ensures
        texts(lines@) == lines_of(text@),
{
    let all = split_lines(text);
    let last: usize = all.len() - 1;
    let ghost parts = pieces(text@);
    assert(parts[last as int] == all@[last as int]@);
    let mut lines: Vec<String> = Vec::new();
    let mut i: usize = 0;
    while i < last
        invariant
            i <= last,
            last + 1 == all@.len(),
            texts(all@) == parts,
            lines@.len() == i,
            forall|k: int|
                0 <= k < i ==> #[trigger] lines@[k]@ == without_last(parts[k], '\r'),
        decreases last - i,
    {
        assert(parts[i as int] == all@[i as int]@);
        lines.push(strip_last(all[i].as_str(), '\r'));
        i = i + 1;
    }
    if !all[last].as_str().is_empty() {
        lines.push(all[last].clone());
    }
    assert(texts(lines@) =~= lines_of(text@));
    lines
}

/// The lines of a text with their line breaks.
pub open spec fn whole_lines(text: Seq<char>) -> Seq<Seq<char>> {
    let all = pieces(text);
    Seq::new(
        if all.last().len() == 0 {
            (all.len() - 1) as nat
        } else {
            all.len()
        },
        |i: int|
            if i < all.len() - 1 {
                all[i].push('\n')
            } else {
                all[i]
            },
    )
}

/// The lines of a text with their line breaks.
pub fn text_whole_lines(text: &str) -> (lines: Vec<String>)
    ensures
        texts(lines@) == whole_lines(text@),
{
    let all = split_lines(text);
    let last: usize = all.len() - 1;
    let ghost parts = pieces(text@);
    assert(parts[last as int] == all@[last as int]@);
    let mut lines: Vec<String> = Vec::new();
    let mut i: usize = 0;
    while i < last
        invariant
            i <= last,
            last + 1 == all@.len(),
            texts(all@) == parts,
            lines@.len() == i,
            forall|k: int| 0 <= k < i ==> #[trigger] lines@[k]@ == parts[k].push('\n'),
        decreases last - i,
    {
        assert(parts[i as int] == all@[i as int]@);
        let mut line = all[i].clone();
        line.push('\n');
        lines.push(line);
        i = i + 1;
    }
    if !all[last].as_str().is_empty() {
        lines.push(all[last].clone());
    }
    assert(texts(lines@) =~= whole_lines(text@));
    lines
}

proof fn lemma_trimmed_start_is_a_rest(text: Seq<char>) -> (from: int)
    ensures
        0 <= from <= text.len(),
        trimmed_start(text) == text.skip(from),
        forall|i: int| 0 <= i < from ==> is_white_space(#[trigger] text[i]),
        from < text.len() ==> !is_white_space(text[from]),
    decreases text.len(),
{
    if text.len() > 0 && is_white_space(text[0]) {
        let rest = text.drop_first();
        let from = lemma_trimmed_start_is_a_rest(rest);
        assert(rest.skip(from) =~= text.skip(from + 1));
        assert forall|i: int| 0 <= i < from + 1 implies is_white_space(#[trigger] text[i]) by {
            if i > 0 {
                assert(rest[i - 1] == text[i]);
            }
        }
        from + 1
    } else {
        assert(text.skip(0) =~= text);
        0
    }
}

proof fn lemma_trimmed_end_is_a_beginning(text: Seq<char>) -> (to: int)
    ensures
        0 <= to <= text.len(),
        trimmed_end(text) == text.take(to),
        forall|i: int| to <= i < text.len() ==> is_white_space(#[trigger] text[i]),
        to > 0 ==> !is_white_space(text[to - 1]),
    decreases text.len(),
{
    if text.len() > 0 && is_white_space(text.last()) {
        let rest = text.drop_last();
        let to = lemma_trimmed_end_is_a_beginning(rest);
        assert(rest.take(to) =~= text.take(to));
        assert forall|i: int| to <= i < text.len() implies is_white_space(#[trigger] text[i]) by {
            if i < rest.len() {
                assert(rest[i] == text[i]);
            }
        }
        to
    } else {
        assert(text.take(text.len() as int) =~= text);
        text.len() as int
    }
}

/// Trimming takes off white space at either end, all of it, and nothing else.
pub proof fn trimming_takes_off_outer_white_space(text: Seq<char>)
    ensures
        exists|from: int, to: int|
            #![trigger text.subrange(from, to)]
            {
                &&& 0 <= from <= to <= text.len()
                &&& trimmed(text) == text.subrange(from, to)
                &&& forall|i: int|
                    0 <= i < from || to <= i < text.len() ==> is_white_space(#[trigger] text[i])
                &&& from < to ==> !is_white_space(text[from]) && !is_white_space(text[to - 1])
            },
{
    let from = lemma_trimmed_start_is_a_rest(text);
    let rest = text.skip(from);
    let to = lemma_trimmed_end_is_a_beginning(rest);
    assert(trimmed(text) =~= text.subrange(from, from + to));
    assert forall|i: int| 0 <= i < from || from + to <= i < text.len() implies is_white_space(
        #[trigger] text[i],
    ) by {
        if i >= from + to {
            assert(rest[i - from] == text[i]);
        }
    }
    if to > 0 {
        assert(rest[to - 1] == text[from + to - 1]);
        assert(from < text.len());
    }
}

/// The pieces of a text with line breaks between them are the text, and no piece holds a line
/// break.
pub proof fn pieces_put_together_are_the_text(text: Seq<char>)
    ensures
        lines_joined(pieces(text)) == text,
        forall|i: int|
            0 <= i < pieces(text).len() ==> !(#[trigger] pieces(text)[i]).contains('\n'),
    decreases text.len(),
{
    reveal_strlit("\n");
    let all = pieces(text);
    if text.len() > 0 {
        let start = text.drop_last();
        pieces_put_together_are_the_text(start);
        lemma_pieces(start);
        let before = pieces(start);
        assert(text =~= start.push(text.last()));
        if text.last() == '\n' {
            assert(all.drop_last() =~= before);
            assert(lines_joined(all) =~= lines_joined(before) + "\n"@ + Seq::<char>::empty());
            assert(lines_joined(all) =~= text);
        } else {
            let last = before.last().push(text.last());
            assert(all.drop_last() =~= before.drop_last());
            assert(all.last() == last);
            if before.len() == 1 {
                assert(lines_joined(all) == last);
                assert(lines_joined(before) == before[0]);
                assert(lines_joined(all) =~= text);
            } else {
                assert(lines_joined(all) =~= lines_joined(before).push(text.last()));
            }
        }
        assert forall|i: int| 0 <= i < all.len() implies !(#[trigger] all[i]).contains('\n') by {
            if i < before.len() - 1 || text.last() == '\n' && i < before.len() {
                assert(all[i] == before[i]);
            } else if text.last() != '\n' {
                assert(!before[before.len() - 1].contains('\n'));
                assert forall|k: int| 0 <= k < all[i].len() implies all[i][k] != '\n' by {
                    if k < before.last().len() {
                        assert(before.last()[k] == all[i][k]);
                        assert(before.last().contains(before.last()[k]));
                    }
                }
            }
        }
    } else {
        assert(lines_joined(all) =~= text);
    }
}

/// Texts that are put together with line breaks keep their order and their contents.
pub proof fn joined_lines_follow_the_list(first: Seq<Seq<char>>, second: Seq<Seq<char>>)
    requires
        first.len() > 0,
        second.len() > 0,
    ensures
        lines_joined(first + second) == lines_joined(first) + "\n"@ + lines_joined(second),
        first.len() == 1 ==> lines_joined(first) == first[0],
    decreases second.len(),
{
    let all = first + second;
    if second.len() == 1 {
        assert(all.drop_last() =~= first);
    } else {
        let rest = second.drop_last();
        joined_lines_follow_the_list(first, rest);
        assert(all.drop_last() =~= first + rest);
        assert(lines_joined(first) + "\n"@ + lines_joined(rest) + "\n"@ + second.last()
            =~= lines_joined(first) + "\n"@ + (lines_joined(rest) + "\n"@ + second.last()));
    }
}

/// The lines of a text without carriage returns, put together again, are the text but for a
/// line break at its end.
pub proof fn lines_put_together_are_the_text(text: Seq<char>)
    requires
        !text.contains('\r'),
    ensures
        text.len() > 0 ==> lines_joined(lines_of(text)) == without_last(text, '\n'),
        text.len() == 0 ==> lines_of(text).len() == 0,
{
    reveal_strlit("\n");
    let all = pieces(text);
    let lines = lines_of(text);
    lemma_pieces(text);
    pieces_put_together_are_the_text(text);
    lemma_pieces_within(text);
    assert forall|i: int| 0 <= i < lines.len() implies #[trigger] lines[i] == all[i] by {
        if all[i].len() > 0 && all[i].last() == '\r' {
            assert(all[i].contains(all[i].last()));
        }
    }
    if text.len() > 0 {
        if all.last().len() == 0 {
            assert(lines =~= all.drop_last());
            if all.len() == 1 {
                assert(lines_joined(all) == all[0]);
                assert(false);
            }
            assert(lines_joined(all) == lines_joined(lines) + "\n"@ + all.last());
            assert(text =~= lines_joined(lines).push('\n'));
            assert(without_last(text, '\n') =~= lines_joined(lines));
        } else {
            assert(lines =~= all);
            assert(text.last() != '\n') by {
                if text.last() == '\n' {
                    assert(all.last() =~= Seq::<char>::empty());
                }
            }
        }
    } else {
        assert(all.last().len() == 0);
    }
}

proof fn lemma_pieces_within(text: Seq<char>)
    ensures
        forall|i: int, ch: char|
            0 <= i < pieces(text).len() && #[trigger] pieces(text)[i].contains(ch)
                ==> text.contains(ch),
    decreases text.len(),
{
    if text.len() > 0 {
        let start = text.drop_last();
        lemma_pieces_within(start);
        lemma_pieces(start);
        let before = pieces(start);
        let all = pieces(text);
        assert forall|i: int, ch: char|
            0 <= i < all.len() && #[trigger] all[i].contains(ch) implies text.contains(ch) by {
            let k = choose|k: int| 0 <= k < all[i].len() && all[i][k] == ch;
            let from_start = i < before.len() && k < before[i].len() && before[i][k] == ch;
            if from_start {
                assert(before[i].contains(ch));
                let at = choose|at: int| 0 <= at < start.len() && start[at] == ch;
                assert(text[at] == ch);
            } else {
                assert(text[text.len() - 1] == ch);
            }
        }
    }
}

/// The value that a text of digits writes.
pub open spec fn value_of(digits: Seq<char>) -> nat
    decreases digits.len(),
{
    if digits.len() == 0 {
        0
    } else {
        value_of(digits.drop_last()) * 10 + (digits.last() as u32 - 48) as nat
    }
}

/// A number is written with digits, without leading zeros, and the digits say which one.
pub proof fn decimal_says_the_number(n: nat)
    ensures
        value_of(decimal(n)) == n,
        decimal(n).len() > 0,
        forall|i: int| 0 <= i < decimal(n).len() ==> '0' <= #[trigger] decimal(n)[i] <= '9',
        n > 0 ==> decimal(n)[0] != '0',
    decreases n,
{
    if n < 10 {
        assert(decimal(n).drop_last() =~= Seq::<char>::empty());
        assert(digit(n) as u32 == n + 48);
        assert(value_of(decimal(n).drop_last()) == 0);
    } else {
        decimal_says_the_number(n / 10);
        assert(decimal(n).drop_last() =~= decimal(n / 10));
        assert(digit(n % 10) as u32 == n % 10 + 48);
        assert((n / 10) * 10 + n % 10 == n);
        assert forall|i: int| 0 <= i < decimal(n).len() implies '0' <= #[trigger] decimal(n)[i]
            <= '9' by {
            if i < decimal(n / 10).len() {
                assert(decimal(n)[i] == decimal(n / 10)[i]);
            }
        }
    }
}

/// Taking all copies of a character off the end leaves a text that does not end with it, and
/// takes nothing else off.
pub proof fn copies_at_the_end_are_taken_off(text: Seq<char>, suffix: char)
    ensures
        ({
            let rest = without_all_last(text, suffix);
            &&& rest.len() <= text.len()
            &&& rest == text.take(rest.len() as int)
            &&& rest.len() > 0 ==> rest.last() != suffix
            &&& forall|i: int| rest.len() <= i < text.len() ==> #[trigger] text[i] == suffix
        }),
    decreases text.len(),
{
    if text.len() > 0 && text.last() == suffix {
        let start = text.drop_last();
        copies_at_the_end_are_taken_off(start, suffix);
        let rest = without_all_last(start, suffix);
        assert(start.take(rest.len() as int) =~= text.take(rest.len() as int));
        assert forall|i: int| rest.len() <= i < text.len() implies #[trigger] text[i] == suffix by {
            if i < start.len() {
                assert(start[i] == text[i]);
            }
        }
    } else {
        assert(text.take(text.len() as int) =~= text);
    }
}

/// Lower case changes capital letters of ASCII alone, each to its own letter.
pub proof fn lower_case_changes_capital_letters_only(text: Seq<char>, i: int)
    requires
        0 <= i < text.len(),
    ensures
        lower_text(text).len() == text.len(),
        !('A' <= text[i] <= 'Z') ==> lower_text(text)[i] == text[i],
        'A' <= text[i] <= 'Z' ==> 'a' <= lower_text(text)[i] <= 'z' && lower_text(text)[i] as u32
            - 'a' as u32 == text[i] as u32 - 'A' as u32,
{
}

/// A text that trimming leaves as it is has no white space at either end.
pub(crate) proof fn lemma_trimmed_ends(text: Seq<char>)
    requires
        text.len() > 0,
        trimmed(text) == text,
    ensures
        !is_white_space(text[0]),
        !is_white_space(text.last()),
{
    let from = lemma_trimmed_start_is_a_rest(text);
    let rest = text.skip(from);
    let to = lemma_trimmed_end_is_a_beginning(rest);
    assert(rest.take(to).len() == text.len());
    assert(from == 0);
    assert(rest =~= text);
}

/// Texts one directly behind the other.
pub open spec fn run_together(list: Seq<Seq<char>>) -> Seq<char>
    decreases list.len(),
{
    if list.len() == 0 {
        Seq::empty()
    } else {
        run_together(list.drop_last()) + list.last()
    }
}

/// The lines of a text with their line breaks, one directly behind the other, are the text. None is
/// empty, and each but the last ends with its line break.
pub proof fn whole_lines_run_together_are_the_text(text: Seq<char>)
    ensures
        run_together(whole_lines(text)) == text,
        forall|i: int| 0 <= i < whole_lines(text).len() ==> (#[trigger] whole_lines(text)[i]).len() > 0,
        forall|i: int|
            0 <= i < whole_lines(text).len() - 1 ==> (#[trigger] whole_lines(text)[i]).last()
                == '\n',
{
    let all = pieces(text);
    let lines = whole_lines(text);
    lemma_pieces(text);
    pieces_put_together_are_the_text(text);
    let broken = Seq::new((all.len() - 1) as nat, |i: int| all[i].push('\n'));
    lemma_joined_with_breaks(all);
    if all.last().len() == 0 {
        assert(lines =~= broken);
        assert(run_together(broken) + all.last() =~= run_together(broken));
    } else {
        assert(lines =~= broken.push(all.last()));
        assert(lines.drop_last() =~= broken);
    }
}

proof fn lemma_joined_with_breaks(all: Seq<Seq<char>>)
    requires
        all.len() > 0,
    ensures
        lines_joined(all) == run_together(
            Seq::new((all.len() - 1) as nat, |i: int| all[i].push('\n')),
        ) + all.last(),
    decreases all.len(),
{
    reveal_strlit("\n");
    let broken = Seq::new((all.len() - 1) as nat, |i: int| all[i].push('\n'));
    if all.len() == 1 {
        assert(lines_joined(all) =~= run_together(broken) + all.last());
    } else {
        let before = all.drop_last();
        lemma_joined_with_breaks(before);
        let broken_before = Seq::new((before.len() - 1) as nat, |i: int| before[i].push('\n'));
        assert(broken.drop_last() =~= broken_before);
        assert(broken.last() == before.last().push('\n'));
        assert(lines_joined(all) =~= run_together(broken) + all.last());
    }
}

/// One carriage return before a line break belongs to the break; everything else of a line stays.
pub proof fn line_break_may_have_a_carriage_return(text: Seq<char>, i: int)
    requires
        0 <= i < lines_of(text).len(),
    ensures
        ({
            let line = lines_of(text)[i];
            let piece = pieces(text)[i];
            if i < pieces(text).len() - 1 && piece.len() > 0 && piece.last() == '\r' {
                line.push('\r') == piece
            } else {
                line == piece
            }
        }),
{
    let piece = pieces(text)[i];
    if piece.len() > 0 {
        assert(piece.drop_last().push(piece.last()) =~= piece);
    }
}

/// Every copy of a prefix that a text starts with is taken off, and nothing else.
pub proof fn copies_at_the_start_are_taken_off(text: Seq<char>, prefix: Seq<char>)
    requires
        prefix.len() > 0,
    ensures
        !has_prefix(without_prefixes(text, prefix), prefix),
        without_prefixes(prefix + text, prefix) == without_prefixes(text, prefix),
        !has_prefix(text, prefix) ==> without_prefixes(text, prefix) == text,
    decreases text.len(),
{
    assert((prefix + text).subrange(0, prefix.len() as int) =~= prefix);
    assert((prefix + text).skip(prefix.len() as int) =~= text);
    if has_prefix(text, prefix) {
        copies_at_the_start_are_taken_off(text.skip(prefix.len() as int), prefix);
    }
}

/// Of the first hundred and twenty-eight characters, white space is the blank and those from the tab
/// to the carriage return.
pub proof fn white_space_is_blank_tab_or_break(ch: char)
    requires
        ch as u32 <= 127,
    ensures
        is_white_space(ch) <==> ch == ' ' || 9 <= ch as u32 <= 13,
{
}

} // verus!
