//! UTF-16: the form in which the shell gives and takes text.

use vstd::prelude::*;

verus! {

/// Specifies `char::from_u32`: the character with that code point, which there
/// is for every code point up to `0x10FFFF` but the surrogates.
pub assume_specification[ char::from_u32 ](code: u32) -> (found: Option<char>)
    ensures
        found == (if is_scalar_value(code) {
            Some(code as char)
        } else {
            None
        }),
;

/// A code point that is a character.
pub open spec fn is_scalar_value(code: u32) -> bool {
    code <= 0xD7FF || 0xE000 <= code <= 0x10FFFF
}

pub open spec fn is_high(unit: u16) -> bool {
    0xD800 <= unit <= 0xDBFF
}

pub open spec fn is_low(unit: u16) -> bool {
    0xDC00 <= unit <= 0xDFFF
}

/// The units of one character.
pub open spec fn char_units(c: char) -> Seq<u16> {
    let code = c as u32 as int;
    if code < 0x10000 {
        seq![code as u16]
    } else {
        seq![
            (0xD800 + (code - 0x10000) / 0x400) as u16,
            (0xDC00 + (code - 0x10000) % 0x400) as u16,
        ]
    }
}

/// The units of a text.
pub open spec fn text_units(s: Seq<char>) -> Seq<u16>
    decreases s.len(),
{
    if s.len() == 0 {
        Seq::empty()
    } else {
        text_units(s.drop_last()) + char_units(s.last())
    }
}

/// The character that a surrogate pair stands for.
pub open spec fn pair_char(high: u16, low: u16) -> char {
    (0x10000 + (high - 0xD800) * 0x400 + (low - 0xDC00)) as u32 as char
}

/// How many units the first character of `units` takes, and which it is:
/// nothing where the first unit is an unpaired surrogate.
pub open spec fn first_char(units: Seq<u16>) -> (int, Option<char>) {
    if is_high(units[0]) && units.len() > 1 && is_low(units[1]) {
        (2, Some(pair_char(units[0], units[1])))
    } else if is_high(units[0]) || is_low(units[0]) {
        (1, None)
    } else {
        (1, Some(units[0] as u32 as char))
    }
}

/// The text that `units` encode; nothing where they hold an unpaired surrogate.
pub open spec fn decoded(units: Seq<u16>) -> Option<Seq<char>>
    decreases units.len(),
{
    if units.len() == 0 {
        Some(Seq::empty())
    } else {
        let (width, c) = first_char(units);
        match (c, decoded(units.skip(width))) {
            (Some(c), Some(rest)) => Some(seq![c] + rest),
            _ => None,
        }
    }
}

/// The text that `units` encode, with U+FFFD for each unpaired surrogate.
pub open spec fn decoded_lossy(units: Seq<u16>) -> Seq<char>
    decreases units.len(),
{
    if units.len() == 0 {
        Seq::empty()
    } else {
        let (width, c) = first_char(units);
        let c = match c {
            Some(c) => c,
            None => '\u{fffd}',
        };
        seq![c] + decoded_lossy(units.skip(width))
    }
}

/// Everything before the first 0 of `units`; all of them where there is none.
pub open spec fn before_zero(units: Seq<u16>) -> Seq<u16>
    decreases units.len(),
{
    if units.len() == 0 || units[0] == 0 {
        Seq::empty()
    } else {
        seq![units[0]] + before_zero(units.drop_first())
    }
}

/// The units that pairs of bytes stand for.
pub open spec fn byte_units(bytes: Seq<u8>) -> Seq<u16> {
    Seq::new(bytes.len() / 2, |i: int| (bytes[2 * i] + bytes[2 * i + 1] * 256) as u16)
}

proof fn lemma_char_units(c: char)
    ensures
        char_units(c).len() == 1 || char_units(c).len() == 2,
        first_char(char_units(c)) == (char_units(c).len() as int, Some(c)),
        c != '\0' ==> !char_units(c).contains(0u16),
{
    vstd::utf8::char_is_scalar(c);
    let code = c as u32 as int;
    let units = char_units(c);
    if code < 0x10000 {
        assert(units[0] as u32 as char == c);
    } else {
        let high = (code - 0x10000) / 0x400;
        let low = (code - 0x10000) % 0x400;
        assert(0 <= high < 0x400);
        assert(units[0] == 0xD800 + high && units[1] == 0xDC00 + low);
        assert(0x10000 + high * 0x400 + low == code);
        assert(pair_char(units[0], units[1]) == c);
    }
}

proof fn lemma_first_char_of_longer(units: Seq<u16>, more: Seq<u16>, c: char)
    requires
        units == char_units(c),
    ensures
        first_char(units + more) == (units.len() as int, Some(c)),
{
    lemma_char_units(c);
    vstd::utf8::char_is_scalar(c);
    assert((units + more)[0] == units[0]);
    if units.len() == 2 {
        assert((units + more)[1] == units[1]);
    } else {
        assert(!is_high(units[0]) && !is_low(units[0]));
    }
}

proof fn lemma_text_units_front(s: Seq<char>)
    requires
        s.len() > 0,
    ensures
        text_units(s) == char_units(s[0]) + text_units(s.drop_first()),
    decreases s.len(),
{
    if s.len() == 1 {
        assert(s.drop_last() =~= Seq::<char>::empty());
        assert(s.drop_first() =~= Seq::<char>::empty());
        assert(text_units(s.drop_last()) =~= Seq::<u16>::empty());
        assert(text_units(s.drop_first()) =~= Seq::<u16>::empty());
        assert(text_units(s) =~= char_units(s[0]));
        assert(char_units(s[0]) + text_units(s.drop_first()) =~= char_units(s[0]));
    } else {
        lemma_text_units_front(s.drop_last());
        assert(s.drop_last().drop_first() =~= s.drop_first().drop_last());
        assert(text_units(s) =~= char_units(s[0]) + text_units(s.drop_first()));
    }
}

/// Encoding a text and decoding its units gives the text back, by either
/// decoder.
pub proof fn law_decoding_undoes_encoding(s: Seq<char>)
    ensures
        decoded(text_units(s)) == Some(s),
        decoded_lossy(text_units(s)) == s,
    decreases s.len(),
{
    if s.len() > 0 {
        let head = char_units(s[0]);
        let rest = text_units(s.drop_first());
        lemma_text_units_front(s);
        lemma_char_units(s[0]);
        lemma_first_char_of_longer(head, rest, s[0]);
        assert((head + rest).skip(head.len() as int) =~= rest);
        law_decoding_undoes_encoding(s.drop_first());
        assert(seq![s[0]] + s.drop_first() =~= s);
    } else {
        assert(s =~= Seq::<char>::empty());
    }
}

/// A text without NUL encodes without NUL.
pub proof fn lemma_units_without_zero(s: Seq<char>)
    requires
        !s.contains('\0'),
    ensures
        forall|i: int| 0 <= i < text_units(s).len() ==> #[trigger] text_units(s)[i] != 0,
    decreases s.len(),
{
    if s.len() > 0 {
        assert(s.contains(s.last()));
        assert forall|c: char| s.drop_last().contains(c) implies s.contains(c) by {
            let i = choose|i: int| 0 <= i < s.drop_last().len() && s.drop_last()[i] == c;
            assert(s[i] == c);
        }
        lemma_units_without_zero(s.drop_last());
        lemma_char_units(s.last());
        let head = text_units(s.drop_last());
        let tail = char_units(s.last());
        assert forall|i: int| 0 <= i < text_units(s).len() implies #[trigger] text_units(s)[i]
            != 0 by {
            if i < head.len() {
                assert(text_units(s)[i] == head[i]);
            } else {
                assert(text_units(s)[i] == tail[i - head.len()]);
                assert(tail.contains(tail[i - head.len()]));
            }
        }
    }
}

/// Appends the units of `text` to `units`.
pub fn append_units(units: &mut Vec<u16>, text: &str)
    ensures
        final(units)@ == old(units)@ + text_units(text@),
{
    let chars = crate::text::chars_of(text);
    let ghost start = units@;
    let mut i: usize = 0;
    while i < chars.len()
        invariant
            chars@ == text@,
            i <= chars@.len(),
            units@ == start + text_units(text@.take(i as int)),
        decreases chars@.len() - i,
    {
        let ghost before = units@;
        let c = chars[i];
        let code: u32 = c as u32;
        proof {
            vstd::utf8::char_is_scalar(c);
            assert(text@.take(i + 1).drop_last() =~= text@.take(i as int));
        }
        if code < 0x10000 {
            units.push(code as u16);
        } else {
            let offset: u32 = code - 0x10000;
            units.push((0xD800 + offset / 0x400) as u16);
            units.push((0xDC00 + offset % 0x400) as u16);
        }
        assert(units@ =~= before + char_units(c));
        i = i + 1;
        assert(units@ =~= start + text_units(text@.take(i as int)));
    }
    assert(text@.take(i as int) =~= text@);
}

/// The units of `text`, followed by 0.
pub fn wide(text: &str) -> (units: Vec<u16>)
    ensures
        units@ == text_units(text@).push(0),
{
    let mut units: Vec<u16> = Vec::new();
    append_units(&mut units, text);
    units.push(0);
    assert(units@ =~= text_units(text@).push(0));
    units
}

/// The first character of `units[at..]` and how many units it takes.
fn char_at(units: &Vec<u16>, at: usize) -> (found: (usize, Option<char>))
    requires
        at < units@.len(),
    ensures
        1 <= found.0 <= 2,
        at + found.0 <= units@.len(),
        found.0 == first_char(units@.skip(at as int)).0,
        found.1 == first_char(units@.skip(at as int)).1,
{
    let ghost rest = units@.skip(at as int);
    let first: u16 = units[at];
    if 0xD800 <= first && first <= 0xDBFF && units.len() - at > 1 {
        let second: u16 = units[at + 1];
        assert(rest[1] == second);
        if 0xDC00 <= second && second <= 0xDFFF {
            let code: u32 = 0x10000 + (first as u32 - 0xD800) * 0x400 + (second as u32 - 0xDC00);
            return (2, char::from_u32(code));
        }
    }
    if 0xD800 <= first && first <= 0xDFFF {
        (1, None)
    } else {
        (1, char::from_u32(first as u32))
    }
}

/// The text that `units` encode; nothing where they hold an unpaired surrogate.
pub fn decode(units: &Vec<u16>) -> (text: Option<String>)
    ensures
        match text {
            Some(text) => decoded(units@) == Some(text@),
            None => decoded(units@) is None,
        },
{
    let mut text = String::new();
    let mut at: usize = 0;
    assert(units@.skip(0) =~= units@);
    while at < units.len()
        invariant
            at <= units@.len(),
            decoded(units@) == (match decoded(units@.skip(at as int)) {
                Some(rest) => Some(text@ + rest),
                None => None,
            }),
        decreases units@.len() - at,
    {
        let ghost before = text@;
        let ghost rest = units@.skip(at as int);
        let (width, c) = char_at(units, at);
        assert(rest.skip(width as int) =~= units@.skip(at + width));
        match c {
            Some(c) => {
                text.push(c);
                proof {
                    match decoded(units@.skip(at + width)) {
                        Some(tail) => {
                            assert(before + (seq![c] + tail) =~= text@ + tail);
                        },
                        None => {},
                    }
                }
            },
            None => {
                return None;
            },
        }
        at = at + width;
    }
    assert(text@ + Seq::<char>::empty() =~= text@);
    Some(text)
}

/// The text that `units` encode, with U+FFFD for each unpaired surrogate.
pub fn decode_lossy(units: &Vec<u16>) -> (text: String)
    ensures
        text@ == decoded_lossy(units@),
{
    let mut text = String::new();
    let mut at: usize = 0;
    assert(units@.skip(0) =~= units@);
    while at < units.len()
        invariant
            at <= units@.len(),
            decoded_lossy(units@) == text@ + decoded_lossy(units@.skip(at as int)),
        decreases units@.len() - at,
    {
        let ghost before = text@;
        let ghost rest = units@.skip(at as int);
        let (width, found) = char_at(units, at);
        assert(rest.skip(width as int) =~= units@.skip(at + width));
        let c: char = match found {
            Some(c) => c,
            None => '\u{fffd}',
        };
        text.push(c);
        assert(before + (seq![c] + decoded_lossy(units@.skip(at + width))) =~= text@
            + decoded_lossy(units@.skip(at + width)));
        at = at + width;
    }
    assert(text@ + Seq::<char>::empty() =~= text@);
    text
}

/// Everything before the first 0 of `units`.
pub fn until_zero(units: &Vec<u16>) -> (head: Vec<u16>)
    ensures
        head@ == before_zero(units@),
{
    let mut head: Vec<u16> = Vec::new();
    let mut at: usize = 0;
    assert(units@.skip(0) =~= units@);
    while at < units.len() && units[at] != 0
        invariant
            at <= units@.len(),
            before_zero(units@) == head@ + before_zero(units@.skip(at as int)),
        decreases units@.len() - at,
    {
        let ghost before = head@;
        head.push(units[at]);
        assert(units@.skip(at as int).drop_first() =~= units@.skip(at + 1));
        assert(before + (seq![units@[at as int]] + before_zero(units@.skip(at + 1))) =~= head@
            + before_zero(units@.skip(at + 1)));
        at = at + 1;
    }
    assert(head@ + Seq::<u16>::empty() =~= head@);
    head
}

/// The units that pairs of bytes stand for, the lower byte first; a byte
/// without a partner at the end counts for nothing.
pub fn pair_bytes(bytes: &Vec<u8>) -> (units: Vec<u16>)
    ensures
        units@ == byte_units(bytes@),
{
    let mut units: Vec<u16> = Vec::new();
    let half: usize = bytes.len() / 2;
    let mut i: usize = 0;
    while i < half
        invariant
            half == bytes@.len() / 2,
            bytes.len() == bytes@.len(),
            i <= half,
            units@ == byte_units(bytes@).take(i as int),
        decreases half - i,
    {
        let low: u16 = bytes[2 * i] as u16;
        let high: u16 = bytes[2 * i + 1] as u16;
        units.push(low + high * 256);
        i = i + 1;
        assert(units@ =~= byte_units(bytes@).take(i as int));
    }
    assert(units@ =~= byte_units(bytes@));
    units
}

/// A character of the basic plane is one unit, which is its code point; any other is
/// a high surrogate and then a low one, which hold ten bits each of what is beyond
/// that plane.
pub proof fn law_units_of_characters(c: char)
    ensures
        ({
            let code = c as u32 as int;
            let units = char_units(c);
            &&& code <= 0xffff ==> units.len() == 1 && units[0] == code
            &&& code > 0xffff ==> {
                &&& units.len() == 2
                &&& 0xd800 <= units[0] <= 0xdbff && 0xdc00 <= units[1] <= 0xdfff
                &&& (units[0] - 0xd800) * 1024 + (units[1] - 0xdc00) == code - 0x10000
            }
        }),
{
    vstd::utf8::char_is_scalar(c);
}

/// The units of a text are those of its characters, one after the other.
pub proof fn law_units_follow_the_characters(a: Seq<char>, b: Seq<char>)
    ensures
        text_units(a + b) == text_units(a) + text_units(b),
    decreases b.len(),
{
    if b.len() == 0 {
        assert(a + b =~= a);
        assert(text_units(a) + text_units(b) =~= text_units(a));
    } else {
        law_units_follow_the_characters(a, b.drop_last());
        assert((a + b).drop_last() =~= a + b.drop_last());
        assert(text_units(a + b) =~= text_units(a) + text_units(b));
    }
}

proof fn lemma_text_before(a: Seq<char>, rest: Seq<u16>)
    ensures
        decoded_lossy(text_units(a) + rest) == a + decoded_lossy(rest),
        decoded(text_units(a) + rest) == (match decoded(rest) {
            Some(text) => Some(a + text),
            None => None,
        }),
    decreases a.len(),
{
    let units = text_units(a) + rest;
    if a.len() == 0 {
        assert(units =~= rest);
        assert(a + decoded_lossy(rest) =~= decoded_lossy(rest));
        match decoded(rest) {
            Some(text) => {
                assert(a + text =~= text);
            },
            None => {},
        }
    } else {
        let head = char_units(a[0]);
        let more = text_units(a.drop_first()) + rest;
        lemma_text_units_front(a);
        lemma_char_units(a[0]);
        assert(units =~= head + more);
        lemma_first_char_of_longer(head, more, a[0]);
        assert(units.skip(head.len() as int) =~= more);
        lemma_text_before(a.drop_first(), rest);
        assert(seq![a[0]] + (a.drop_first() + decoded_lossy(rest)) =~= a + decoded_lossy(rest));
        match decoded(rest) {
            Some(text) => {
                assert(seq![a[0]] + (a.drop_first() + text) =~= a + text);
            },
            None => {},
        }
    }
}

/// A surrogate without a partner makes units no text. The lenient decoder puts one
/// replacement character for it and reads the rest as it is.
pub proof fn law_unpaired_surrogates_are_replaced(before: Seq<char>, unit: u16, after: Seq<char>)
    requires
        0xd800 <= unit <= 0xdfff,
    ensures
        decoded(text_units(before) + seq![unit] + text_units(after)) is None,
        decoded_lossy(text_units(before) + seq![unit] + text_units(after)) == before + seq![
            '\u{fffd}',
        ] + after,
{
    let rest = seq![unit] + text_units(after);
    assert(text_units(before) + seq![unit] + text_units(after) =~= text_units(before) + rest);
    lemma_text_before(before, rest);
    if after.len() > 0 {
        lemma_text_units_front(after);
        lemma_char_units(after[0]);
        vstd::utf8::char_is_scalar(after[0]);
        assert(rest[1] == char_units(after[0])[0]);
        assert(!is_low(rest[1]));
    } else {
        assert(rest.len() == 1);
    }
    assert(first_char(rest) == (1int, None::<char>));
    assert(rest.skip(1) =~= text_units(after));
    law_decoding_undoes_encoding(after);
    assert(before + (seq!['\u{fffd}'] + after) =~= before + seq!['\u{fffd}'] + after);
}

/// What stands before the first zero is the start of the units: it has no zero in
/// it, and one follows it unless it is all of them.
pub proof fn law_units_end_at_zero(units: Seq<u16>)
    ensures
        ({
            let head = before_zero(units);
            &&& head.is_prefix_of(units)
            &&& forall|i: int| 0 <= i < head.len() ==> #[trigger] head[i] != 0
            &&& head.len() < units.len() ==> units[head.len() as int] == 0
        }),
    decreases units.len(),
{
    let head = before_zero(units);
    if units.len() > 0 && units[0] != 0 {
        let rest = units.drop_first();
        law_units_end_at_zero(rest);
        assert forall|i: int| 0 <= i < head.len() implies #[trigger] head[i] != 0 && head[i]
            == units[i] by {
            if i > 0 {
                assert(head[i] == before_zero(rest)[i - 1]);
                assert(rest[i - 1] == units[i]);
            }
        }
        if head.len() < units.len() {
            assert(rest[before_zero(rest).len() as int] == units[head.len() as int]);
        }
    }
}

/// Of each two bytes the first is the lower half of a unit and the second the upper;
/// a single byte at the end counts for nothing.
pub proof fn law_bytes_make_units(bytes: Seq<u8>, i: int)
    requires
        0 <= i,
        2 * i + 1 < bytes.len(),
    ensures
        2 * byte_units(bytes).len() <= bytes.len() < 2 * byte_units(bytes).len() + 2,
        byte_units(bytes)[i] % 256 == bytes[2 * i],
        byte_units(bytes)[i] / 256 == bytes[2 * i + 1],
{
}

} // verus!
