//! Text as a sequence of characters: trimming, searching, splitting.

use vstd::prelude::*;

verus! {

/// Appends one character; what is left unsaid is only how the buffer grows.
///
/// Specifies `String::push`: the new text is the old one followed by `ch`.
pub assume_specification[ String::push ](text: &mut String, ch: char)
    ensures
        final(text)@ == old(text)@.push(ch),
;

/// The characters that a trim or a search looks for.
#[derive(Clone, Copy)]
pub enum CharClass {
    /// Unicode's `White_Space` characters.
    White,
    /// Exactly this character.
    One(char),
    /// `\` and `/`.
    Separator,
}

/// Unicode's `White_Space` property.
pub open spec fn is_white(c: char) -> bool {
    ||| '\u{9}' <= c <= '\u{d}'
    ||| c == ' '
    ||| c == '\u{85}'
    ||| c == '\u{a0}'
    ||| c == '\u{1680}'
    ||| '\u{2000}' <= c <= '\u{200a}'
    ||| c == '\u{2028}'
    ||| c == '\u{2029}'
    ||| c == '\u{202f}'
    ||| c == '\u{205f}'
    ||| c == '\u{3000}'
}

impl CharClass {
    pub open spec fn has(self, c: char) -> bool {
        match self {
            CharClass::White => is_white(c),
            CharClass::One(one) => c == one,
            CharClass::Separator => c == '\\' || c == '/',
        }
    }

    /// Whether `c` belongs to the class.
    pub fn holds(self, c: char) -> (found: bool)
        ensures
            found == self.has(c),
    {
        match self {
            CharClass::White => {
                ('\u{9}' <= c && c <= '\u{d}') || c == ' ' || c == '\u{85}' || c == '\u{a0}'
                    || c == '\u{1680}' || ('\u{2000}' <= c && c <= '\u{200a}') || c == '\u{2028}'
                    || c == '\u{2029}' || c == '\u{202f}' || c == '\u{205f}' || c == '\u{3000}'
            },
            CharClass::One(one) => c == one,
            CharClass::Separator => c == '\\' || c == '/',
        }
    }
}

/// `s` without the members of `class` at its start.
pub open spec fn trim_front(s: Seq<char>, class: CharClass) -> Seq<char>
    decreases s.len(),
{
    if s.len() > 0 && class.has(s[0]) {
        trim_front(s.drop_first(), class)
    } else {
        s
    }
}

/// `s` without the members of `class` at its end.
pub open spec fn trim_back(s: Seq<char>, class: CharClass) -> Seq<char>
    decreases s.len(),
{
    if s.len() > 0 && class.has(s.last()) {
        trim_back(s.drop_last(), class)
    } else {
        s
    }
}

/// `s` without the members of `class` at either end.
pub open spec fn trim_both(s: Seq<char>, class: CharClass) -> Seq<char> {
    trim_back(trim_front(s, class), class)
}

/// `s` without white space at either end.
pub open spec fn trimmed(s: Seq<char>) -> Seq<char> {
    trim_both(s, CharClass::White)
}

/// The first index at or after `from` that holds a member of `class`, or the
/// length of `s` where there is none.
pub open spec fn find_from(s: Seq<char>, class: CharClass, from: int) -> int
    decreases s.len() - from,
{
    if from >= s.len() {
        s.len() as int
    } else if class.has(s[from]) {
        from
    } else {
        find_from(s, class, from + 1)
    }
}

/// What stands after the last member of `class`; all of `s` where there is none.
pub open spec fn after_last(s: Seq<char>, class: CharClass) -> Seq<char>
    decreases s.len(),
{
    if s.len() == 0 || class.has(s.last()) {
        Seq::empty()
    } else {
        after_last(s.drop_last(), class).push(s.last())
    }
}

/// The pieces of `s` between the occurrences of `mark`; one piece where there
/// is no occurrence.
pub open spec fn split_at_each(s: Seq<char>, mark: char) -> Seq<Seq<char>>
    decreases s.len(),
    via split_at_each_shrinks
{
    let at = find_from(s, CharClass::One(mark), 0);
    if 0 <= at < s.len() {
        seq![s.take(at)] + split_at_each(s.skip(at + 1), mark)
    } else {
        seq![s]
    }
}

#[via_fn]
proof fn split_at_each_shrinks(s: Seq<char>, mark: char) {
}

/// Whether `needle` occurs in `s`.
pub open spec fn has_text(s: Seq<char>, needle: Seq<char>) -> bool {
    exists|at: int| occurs_at(s, needle, at)
}

/// Whether `needle` stands in `s` from index `at` on.
pub open spec fn occurs_at(s: Seq<char>, needle: Seq<char>, at: int) -> bool {
    0 <= at && at + needle.len() <= s.len() && s.subrange(at, at + needle.len()) == needle
}

/// An ASCII capital letter becomes small; every other character stays.
pub open spec fn lower_char(c: char) -> char {
    if 'A' <= c <= 'Z' {
        (c as u8 + 32) as u8 as char
    } else {
        c
    }
}

/// `s` with its ASCII capital letters made small.
pub open spec fn lower(s: Seq<char>) -> Seq<char> {
    Seq::new(s.len(), |i: int| lower_char(s[i]))
}

/// Whether the two texts agree but for the case of ASCII letters.
pub open spec fn same_but_case(a: Seq<char>, b: Seq<char>) -> bool {
    lower(a) == lower(b)
}

pub proof fn lemma_trim_front_is_suffix(s: Seq<char>, class: CharClass, from: int)
    requires
        0 <= from <= s.len(),
        forall|i: int| 0 <= i < from ==> class.has(s[i]),
        from < s.len() ==> !class.has(s[from]),
    ensures
        trim_front(s, class) == s.skip(from),
    decreases from,
{
    if from > 0 {
        let rest = s.drop_first();
        assert forall|i: int| 0 <= i < from - 1 implies class.has(rest[i]) by {
            assert(rest[i] == s[i + 1]);
        }
        lemma_trim_front_is_suffix(rest, class, from - 1);
        assert(rest.skip(from - 1) =~= s.skip(from));
    } else {
        assert(s.skip(0) =~= s);
    }
}

pub proof fn lemma_trim_back_is_prefix(s: Seq<char>, class: CharClass, to: int)
    requires
        0 <= to <= s.len(),
        forall|i: int| to <= i < s.len() ==> class.has(s[i]),
        to > 0 ==> !class.has(s[to - 1]),
    ensures
        trim_back(s, class) == s.take(to),
    decreases s.len() - to,
{
    if to < s.len() {
        lemma_trim_back_is_prefix(s.drop_last(), class, to);
        assert(s.drop_last().take(to) =~= s.take(to));
    } else {
        assert(s.take(to) =~= s);
    }
}

/// The characters of `text`.
pub fn chars_of(text: &str) -> (chars: Vec<char>)
    ensures
        chars@ == text@,
{
    let mut chars: Vec<char> = Vec::new();
    for c in it: text.chars()
        invariant
            chars@ == it.seq().take(it.index()),
            it.seq() == text@,
    {
        chars.push(c);
    }
    assert(text@.take(text@.len() as int) =~= text@);
    chars
}

/// The text made of `chars[from..to]`.
pub fn text_between(chars: &Vec<char>, from: usize, to: usize) -> (text: String)
    requires
        from <= to <= chars@.len(),
    ensures
        text@ == chars@.subrange(from as int, to as int),
{
    let mut text = String::new();
    let mut at: usize = from;
    while at < to
        invariant
            from <= at <= to <= chars@.len(),
            text@ == chars@.subrange(from as int, at as int),
        decreases to - at,
    {
        text.push(chars[at]);
        at = at + 1;
    }
    text
}

/// The text made of all of `chars`.
pub fn text_of(chars: &Vec<char>) -> (text: String)
    ensures
        text@ == chars@,
{
    let text = text_between(chars, 0, chars.len());
    assert(chars@.subrange(0, chars@.len() as int) =~= chars@);
    text
}

/// `text` without the members of `class` at its start.
pub fn without_front(text: &str, class: CharClass) -> (rest: String)
    ensures
        rest@ == trim_front(text@, class),
{
    let chars = chars_of(text);
    let mut from: usize = 0;
    while from < chars.len() && class.holds(chars[from])
        invariant
            from <= chars@.len(),
            forall|i: int| 0 <= i < from ==> class.has(#[trigger] chars@[i]),
        decreases chars@.len() - from,
    {
        from = from + 1;
    }
    proof {
        lemma_trim_front_is_suffix(chars@, class, from as int);
    }
    text_between(&chars, from, chars.len())
}

/// `text` without the members of `class` at its end.
pub fn without_back(text: &str, class: CharClass) -> (rest: String)
    ensures
        rest@ == trim_back(text@, class),
{
    let chars = chars_of(text);
    let mut to: usize = chars.len();
    while to > 0 && class.holds(chars[to - 1])
        invariant
            to <= chars@.len(),
            forall|i: int| to <= i < chars@.len() ==> class.has(#[trigger] chars@[i]),
        decreases to,
    {
        to = to - 1;
    }
    proof {
        lemma_trim_back_is_prefix(chars@, class, to as int);
    }
    text_between(&chars, 0, to)
}

/// `text` without the members of `class` at either end.
pub fn without_ends(text: &str, class: CharClass) -> (rest: String)
    ensures
        rest@ == trim_both(text@, class),
{
    let front = without_front(text, class);
    without_back(front.as_str(), class)
}

/// `text` without white space at either end.
pub fn trim(text: &str) -> (rest: String)
    ensures
        rest@ == trimmed(text@),
{
    without_ends(text, CharClass::White)
}

/// The index of the first member of `class`, or the length where there is none.
pub fn find(chars: &Vec<char>, class: CharClass) -> (at: usize)
    ensures
        at == find_from(chars@, class, 0),
        at <= chars@.len(),
        at < chars@.len() ==> class.has(chars@[at as int]),
        forall|i: int| 0 <= i < at ==> !class.has(#[trigger] chars@[i]),
{
    let mut at: usize = 0;
    while at < chars.len() && !class.holds(chars[at])
        invariant
            at <= chars@.len(),
            find_from(chars@, class, 0) == find_from(chars@, class, at as int),
            forall|i: int| 0 <= i < at ==> !class.has(#[trigger] chars@[i]),
        decreases chars@.len() - at,
    {
        at = at + 1;
    }
    at
}

pub proof fn lemma_find_from(s: Seq<char>, class: CharClass, from: int)
    requires
        0 <= from <= s.len(),
    ensures
        from <= find_from(s, class, from) <= s.len(),
        find_from(s, class, from) < s.len() ==> class.has(s[find_from(s, class, from)]),
        forall|i: int| from <= i < find_from(s, class, from) ==> !class.has(#[trigger] s[i]),
    decreases s.len() - from,
{
    if from < s.len() && !class.has(s[from]) {
        lemma_find_from(s, class, from + 1);
    }
}

/// The text before and the text after the first member of `class`.
pub fn split_first(text: &str, class: CharClass) -> (parts: Option<(String, String)>)
    ensures
        ({
            let at = find_from(text@, class, 0);
            match parts {
                Some((before, after)) => {
                    &&& 0 <= at < text@.len()
                    &&& before@ == text@.take(at)
                    &&& after@ == text@.skip(at + 1)
                },
                None => at == text@.len(),
            }
        }),
{
    let chars = chars_of(text);
    let at = find(&chars, class);
    if at < chars.len() {
        let before = text_between(&chars, 0, at);
        let after = text_between(&chars, at + 1, chars.len());
        assert(before@ =~= text@.take(at as int));
        assert(after@ =~= text@.skip(at + 1));
        Some((before, after))
    } else {
        None
    }
}

/// The pieces of `text` between the occurrences of `mark`.
pub fn split_each(text: &str, mark: char) -> (pieces: Vec<String>)
    ensures
        pieces@.len() == split_at_each(text@, mark).len(),
        forall|i: int|
            0 <= i < pieces@.len() ==> (#[trigger] pieces@[i])@ == split_at_each(text@, mark)[i],
{
    let chars = chars_of(text);
    let mut pieces: Vec<String> = Vec::new();
    let mut start: usize = 0;
    let mut at: usize = 0;
    assert(text@.skip(0) =~= text@);
    while at < chars.len()
        invariant
            chars@ == text@,
            start <= at <= chars@.len(),
            forall|i: int| start <= i < at ==> #[trigger] chars@[i] != mark,
            split_at_each(text@, mark).len() == pieces@.len() + split_at_each(
                text@.skip(start as int),
                mark,
            ).len(),
            forall|i: int|
                0 <= i < pieces@.len() ==> (#[trigger] pieces@[i])@ == split_at_each(
                    text@,
                    mark,
                )[i],
            forall|i: int|
                0 <= i < split_at_each(text@.skip(start as int), mark).len()
                    ==> #[trigger] split_at_each(text@.skip(start as int), mark)[i]
                    == split_at_each(text@, mark)[i + pieces@.len()],
        decreases chars@.len() - at,
    {
        if chars[at] == mark {
            let piece = text_between(&chars, start, at);
            proof {
                let rest = text@.skip(start as int);
                lemma_find_is_first(rest, CharClass::One(mark), at - start);
                assert(rest.take(at - start) =~= piece@);
                assert(rest.skip(at - start + 1) =~= text@.skip(at + 1));
                let tail = split_at_each(text@.skip(at + 1), mark);
                assert(split_at_each(rest, mark) =~= seq![piece@] + tail);
                assert(split_at_each(rest, mark)[0] == piece@);
                assert forall|i: int| 0 <= i < tail.len() implies #[trigger] tail[i]
                    == split_at_each(text@, mark)[i + pieces@.len() + 1] by {
                    assert(split_at_each(rest, mark)[i + 1] == tail[i]);
                }
            }
            pieces.push(piece);
            start = at + 1;
        }
        at = at + 1;
    }
    let piece = text_between(&chars, start, chars.len());
    proof {
        let rest = text@.skip(start as int);
        lemma_find_is_first(rest, CharClass::One(mark), rest.len() as int);
        assert(rest =~= piece@);
        assert(split_at_each(rest, mark)[0] == piece@);
    }
    pieces.push(piece);
    pieces
}

pub proof fn lemma_find_is_first(s: Seq<char>, class: CharClass, at: int)
    requires
        0 <= at <= s.len(),
        forall|i: int| 0 <= i < at ==> !class.has(#[trigger] s[i]),
        at < s.len() ==> class.has(s[at]),
    ensures
        find_from(s, class, 0) == at,
{
    lemma_find_from(s, class, 0);
    let found = find_from(s, class, 0);
    if found < at {
        assert(!class.has(s[found]));
    }
}

/// What stands after the last member of `class`.
pub fn tail_after_last(text: &str, class: CharClass) -> (tail: String)
    ensures
        tail@ == after_last(text@, class),
{
    let chars = chars_of(text);
    let mut from: usize = chars.len();
    proof {
        assert(text@.take(from as int) =~= text@);
    }
    while from > 0 && !class.holds(chars[from - 1])
        invariant
            chars@ == text@,
            from <= chars@.len(),
            after_last(text@, class) == after_last(text@.take(from as int), class) + text@.skip(
                from as int,
            ),
        decreases from,
    {
        proof {
            let head = text@.take(from as int);
            assert(head.drop_last() =~= text@.take(from - 1));
            assert(seq![text@[from - 1]] + text@.skip(from as int) =~= text@.skip(from - 1));
            assert(after_last(head, class) == after_last(text@.take(from - 1), class).push(
                text@[from - 1],
            ));
            assert(after_last(head, class) + text@.skip(from as int) =~= after_last(
                text@.take(from - 1),
                class,
            ) + text@.skip(from - 1));
        }
        from = from - 1;
    }
    proof {
        assert(after_last(text@.take(from as int), class) =~= Seq::<char>::empty());
    }
    let tail = text_between(&chars, from, chars.len());
    assert(tail@ =~= text@.skip(from as int));
    tail
}

/// Whether `needle` occurs in `text`.
pub fn contains_text(text: &str, needle: &str) -> (found: bool)
    ensures
        found == has_text(text@, needle@),
{
    let chars = chars_of(text);
    let wanted = chars_of(needle);
    if wanted.len() > chars.len() {
        return false;
    }
    let last: usize = chars.len() - wanted.len();
    let mut at: usize = 0;
    while at <= last
        invariant
            chars@ == text@,
            wanted@ == needle@,
            last == chars@.len() - wanted@.len(),
            at <= last + 1,
            forall|i: int| 0 <= i < at ==> !#[trigger] occurs_at(text@, needle@, i),
        decreases last + 1 - at,
    {
        if matches_at(&chars, &wanted, at) {
            return true;
        }
        if at == last {
            return false;
        }
        at = at + 1;
    }
    false
}

/// Whether `wanted` stands in `chars` from index `at` on.
pub fn matches_at(chars: &Vec<char>, wanted: &Vec<char>, at: usize) -> (found: bool)
    ensures
        found == occurs_at(chars@, wanted@, at as int),
{
    if at > chars.len() || wanted.len() > chars.len() - at {
        return false;
    }
    let mut i: usize = 0;
    while i < wanted.len()
        invariant
            i <= wanted@.len(),
            at + wanted@.len() <= chars@.len(),
            chars.len() == chars@.len(),
            forall|j: int| 0 <= j < i ==> chars@[at + j] == #[trigger] wanted@[j],
        decreases wanted@.len() - i,
    {
        if chars[at + i] != wanted[i] {
            assert(chars@.subrange(at as int, at + wanted@.len())[i as int] != wanted@[i as int]);
            return false;
        }
        i = i + 1;
    }
    assert(chars@.subrange(at as int, at + wanted@.len()) =~= wanted@);
    true
}

/// Whether the two texts are the same.
pub fn same_text(a: &str, b: &str) -> (same: bool)
    ensures
        same == (a@ == b@),
{
    let left = chars_of(a);
    let right = chars_of(b);
    if left.len() != right.len() {
        return false;
    }
    let same = matches_at(&left, &right, 0);
    assert(left@.subrange(0, right@.len() as int) =~= left@);
    same
}

/// The ASCII letter `c` made small; every other character stays.
pub fn small(c: char) -> (out: char)
    ensures
        out == lower_char(c),
{
    if 'A' <= c && c <= 'Z' {
        (c as u8 + 32) as char
    } else {
        c
    }
}

/// `text` with its ASCII capital letters made small.
pub fn to_lower(text: &str) -> (out: String)
    ensures
        out@ == lower(text@),
{
    let chars = chars_of(text);
    let mut out = String::new();
    let mut i: usize = 0;
    while i < chars.len()
        invariant
            chars@ == text@,
            i <= chars@.len(),
            out@ == lower(text@).take(i as int),
        decreases chars@.len() - i,
    {
        out.push(small(chars[i]));
        i = i + 1;
        assert(out@ =~= lower(text@).take(i as int));
    }
    assert(lower(text@).take(i as int) =~= lower(text@));
    out
}

/// Whether the two texts agree but for the case of ASCII letters.
pub fn same_ignoring_case(a: &str, b: &str) -> (same: bool)
    ensures
        same == same_but_case(a@, b@),
{
    let left = to_lower(a);
    let right = to_lower(b);
    same_text(left.as_str(), right.as_str())
}

/// What the texts of a list read.
pub open spec fn views(list: Seq<String>) -> Seq<Seq<char>> {
    Seq::new(list.len(), |i: int| list[i]@)
}

/// What a text reads, where there is one.
pub open spec fn text_view(text: Option<String>) -> Option<Seq<char>> {
    match text {
        Some(text) => Some(text@),
        None => None,
    }
}

/// What a text reads, where there is one.
pub open spec fn optional_view(text: Option<&str>) -> Option<Seq<char>> {
    match text {
        Some(text) => Some(text@),
        None => None,
    }
}

/// The character of a decimal digit.
pub open spec fn digit(value: nat) -> char {
    (48 + value) as char
}

/// A number in decimal digits, without leading zeros.
pub open spec fn decimal(value: nat) -> Seq<char>
    decreases value,
{
    if value < 10 {
        seq![digit(value)]
    } else {
        decimal(value / 10).push(digit(value % 10))
    }
}

/// A number in decimal digits, without leading zeros.
pub fn decimal_text(value: usize) -> (text: String)
    ensures
        text@ == decimal(value as nat),
    decreases value,
{
    let mut text = if value < 10 {
        String::new()
    } else {
        decimal_text(value / 10)
    };
    let ghost before = text@;
    let last: u8 = (value % 10) as u8;
    text.push((48 + last) as char);
    assert(text@ =~= decimal(value as nat));
    text
}

/// White space are the blank, the tab, the line feed, the carriage return and their
/// like; no letter, figure or other sign of ASCII is.
pub proof fn law_signs_are_not_white(c: char)
    ensures
        is_white(' ') && is_white('\t') && is_white('\n') && is_white('\r'),
        '!' <= c <= '~' ==> !is_white(c),
        '\u{4e00}' <= c <= '\u{9fff}' ==> !is_white(c),
        ({
            let code = c as u32 as int;
            is_white(c) <==> 9 <= code <= 13 || code == 32 || code == 133 || code == 160 || code
                == 5760 || 8192 <= code <= 8202 || code == 8232 || code == 8233 || code == 8239
                || code == 8287 || code == 12288
        }),
{
}

/// Whether `out` is `s` from index `from` up to index `to`, what is cut off all
/// belongs to the class, and neither end of `out` does.
pub open spec fn is_trim(
    s: Seq<char>,
    out: Seq<char>,
    class: CharClass,
    from: int,
    to: int,
) -> bool {
    &&& 0 <= from <= to <= s.len()
    &&& out == s.subrange(from, to)
    &&& forall|i: int| 0 <= i < from || to <= i < s.len() ==> class.has(#[trigger] s[i])
    &&& out.len() > 0 ==> !class.has(out[0]) && !class.has(out.last())
}

proof fn lemma_front_to_trim(s: Seq<char>, class: CharClass) -> (from: int)
    ensures
        0 <= from <= s.len(),
        trim_front(s, class) == s.skip(from),
        forall|i: int| 0 <= i < from ==> class.has(#[trigger] s[i]),
        from < s.len() ==> !class.has(s[from]),
    decreases s.len(),
{
    if s.len() > 0 && class.has(s[0]) {
        let rest = s.drop_first();
        let k = lemma_front_to_trim(rest, class);
        assert(rest.skip(k) =~= s.skip(k + 1));
        assert forall|i: int| 0 <= i < k + 1 implies class.has(#[trigger] s[i]) by {
            if i > 0 {
                assert(rest[i - 1] == s[i]);
            }
        }
        k + 1
    } else {
        assert(s.skip(0) =~= s);
        0
    }
}

pub proof fn lemma_back_to_trim(s: Seq<char>, class: CharClass) -> (to: int)
    ensures
        0 <= to <= s.len(),
        trim_back(s, class) == s.take(to),
        forall|i: int| to <= i < s.len() ==> class.has(#[trigger] s[i]),
        to > 0 ==> !class.has(s[to - 1]),
    decreases s.len(),
{
    if s.len() > 0 && class.has(s.last()) {
        let front = s.drop_last();
        let k = lemma_back_to_trim(front, class);
        assert(front.take(k) =~= s.take(k));
        assert forall|i: int| k <= i < s.len() implies class.has(#[trigger] s[i]) by {
            if i < front.len() {
                assert(front[i] == s[i]);
            }
        }
        k
    } else {
        assert(s.take(s.len() as int) =~= s);
        s.len() as int
    }
}

/// Trimming cuts off what belongs to the class at both ends, all of it, and nothing
/// else.
pub proof fn law_trimming_cuts_the_ends(s: Seq<char>, class: CharClass)
    ensures
        exists|from: int, to: int| is_trim(s, trim_both(s, class), class, from, to),
        trimmed(s) == trim_both(s, CharClass::White),
{
    let from = lemma_front_to_trim(s, class);
    let rest = s.skip(from);
    let k = lemma_back_to_trim(rest, class);
    let to = from + k;
    let out = trim_both(s, class);
    assert(out =~= s.subrange(from, to));
    assert forall|i: int| 0 <= i < from || to <= i < s.len() implies class.has(#[trigger] s[i]) by {
        if i >= to {
            assert(rest[i - from] == s[i]);
        }
    }
    if out.len() > 0 {
        assert(out[0] == s[from]);
        assert(out.last() == rest[k - 1]);
    }
    assert(is_trim(s, out, class, from, to));
}

/// What neither starts nor ends with a member of the class is left as it is.
pub proof fn law_trimming_leaves_the_rest(s: Seq<char>, class: CharClass)
    requires
        s.len() > 0 ==> !class.has(s[0]) && !class.has(s.last()),
    ensures
        trim_both(s, class) == s,
{
}

/// What stands after the last member of the class is the end of the text: it has no
/// member in it, and one directly before it, unless it is all of the text.
pub proof fn law_tail_follows_the_last(s: Seq<char>, class: CharClass)
    ensures
        ({
            let tail = after_last(s, class);
            let from = s.len() - tail.len();
            &&& 0 <= from
            &&& tail == s.skip(from)
            &&& forall|i: int| 0 <= i < tail.len() ==> !class.has(#[trigger] tail[i])
            &&& from > 0 ==> class.has(s[from - 1])
        }),
    decreases s.len(),
{
    let tail = after_last(s, class);
    if s.len() == 0 || class.has(s.last()) {
        assert(tail =~= s.skip(s.len() as int));
    } else {
        let front = s.drop_last();
        law_tail_follows_the_last(front, class);
        let from = s.len() - tail.len();
        assert(tail =~= s.skip(from));
        assert forall|i: int| 0 <= i < tail.len() implies !class.has(#[trigger] tail[i]) by {
            if i < tail.len() - 1 {
                assert(after_last(front, class)[i] == tail[i]);
            }
        }
    }
}

/// The pieces with the mark between them.
pub open spec fn put_together(pieces: Seq<Seq<char>>, mark: char) -> Seq<char>
    decreases pieces.len(),
{
    if pieces.len() == 0 {
        Seq::empty()
    } else if pieces.len() == 1 {
        pieces[0]
    } else {
        pieces[0] + seq![mark] + put_together(pieces.drop_first(), mark)
    }
}

/// Splitting a text at each mark gives pieces without the mark; put together again
/// with a mark between them they are the text.
pub proof fn law_pieces_make_the_text(s: Seq<char>, mark: char)
    ensures
        split_at_each(s, mark).len() > 0,
        put_together(split_at_each(s, mark), mark) == s,
        forall|i: int|
            0 <= i < split_at_each(s, mark).len() ==> !(#[trigger] split_at_each(
                s,
                mark,
            )[i]).contains(mark),
    decreases s.len(),
{
    let class = CharClass::One(mark);
    let at = find_from(s, class, 0);
    let pieces = split_at_each(s, mark);
    lemma_find_from(s, class, 0);
    if at < s.len() {
        let head = s.take(at);
        let rest = s.skip(at + 1);
        let tail = split_at_each(rest, mark);
        law_pieces_make_the_text(rest, mark);
        assert(pieces[0] == head);
        assert(pieces.drop_first() =~= tail);
        assert(head + seq![mark] + rest =~= s);
        assert forall|i: int| 0 <= i < pieces.len() implies !(#[trigger] pieces[i]).contains(
            mark,
        ) by {
            if i == 0 {
                if head.contains(mark) {
                    let k = choose|k: int| 0 <= k < head.len() && head[k] == mark;
                    assert(!class.has(s[k]));
                }
            } else {
                assert(pieces[i] == tail[i - 1]);
            }
        }
    } else {
        assert(pieces[0] == s);
        if s.contains(mark) {
            let k = choose|k: int| 0 <= k < s.len() && s[k] == mark;
            assert(!class.has(s[k]));
        }
    }
}

/// Making letters small turns each of the capitals from A to Z into its small letter
/// and leaves every other character.
pub proof fn law_small_letters(s: Seq<char>, i: int)
    requires
        0 <= i < s.len(),
    ensures
        lower(s).len() == s.len(),
        'A' <= s[i] <= 'Z' ==> lower(s)[i] as int - 'a' as int == s[i] as int - 'A' as int,
        !('A' <= s[i] <= 'Z') ==> lower(s)[i] == s[i],
        lower(lower(s)) == lower(s),
{
    assert(lower(lower(s)) =~= lower(s)) by {
        assert forall|k: int| 0 <= k < s.len() implies lower_char(lower_char(s[k])) == lower_char(
            s[k],
        ) by {}
    }
}

/// A text has another one in it wherever that stands, and only where it stands.
pub proof fn law_text_is_found_anywhere(before: Seq<char>, needle: Seq<char>, after: Seq<char>)
    ensures
        has_text(before + needle + after, needle),
        forall|text: Seq<char>| #[trigger]
            has_text(text, needle) ==> exists|a: Seq<char>, b: Seq<char>| text == #[trigger] (a
                + needle + b),
{
    assert forall|text: Seq<char>| #[trigger] has_text(text, needle) implies exists|
        a: Seq<char>,
        b: Seq<char>,
    | text == #[trigger] (a + needle + b) by {
        let at = choose|at: int| occurs_at(text, needle, at);
        let a = text.take(at);
        let b = text.skip(at + needle.len());
        assert forall|i: int| 0 <= i < needle.len() implies text[at + i] == #[trigger] needle[i] by {
            assert(text.subrange(at, at + needle.len())[i] == text[at + i]);
        }
        assert(text =~= a + needle + b);
    }
    let s = before + needle + after;
    let at = before.len() as int;
    assert(s.subrange(at, at + needle.len()) =~= needle);
    assert(occurs_at(s, needle, at));
}

/// The number that decimal digits read.
pub open spec fn number_read(digits: Seq<char>) -> int
    decreases digits.len(),
{
    if digits.len() == 0 {
        0
    } else {
        number_read(digits.drop_last()) * 10 + (digits.last() as int - '0' as int)
    }
}

/// A number that is written in decimal digits reads as that number, and starts with
/// no zero unless it is zero.
pub proof fn law_numbers_read_as_written(value: nat)
    ensures
        number_read(decimal(value)) == value,
        decimal(value).len() > 0,
        forall|i: int| 0 <= i < decimal(value).len() ==> '0' <= #[trigger] decimal(value)[i] <= '9',
        value > 0 ==> decimal(value)[0] != '0',
    decreases value,
{
    let out = decimal(value);
    if value < 10 {
        assert(out.drop_last() =~= Seq::<char>::empty());
        assert(number_read(out.drop_last()) == 0);
    } else {
        law_numbers_read_as_written(value / 10);
        assert(out.drop_last() =~= decimal(value / 10));
        assert forall|i: int| 0 <= i < out.len() implies '0' <= #[trigger] out[i] <= '9' by {
            if i < out.len() - 1 {
                assert(out[i] == decimal(value / 10)[i]);
            }
        }
        assert(out[0] == decimal(value / 10)[0]);
    }
}

} // verus!
