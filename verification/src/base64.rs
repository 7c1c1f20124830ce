//! Base64, in which the uninstall bridge writes display names.

use vstd::prelude::*;

use crate::text::{chars_of, find, find_from, lemma_find_is_first, CharClass};

verus! {

/// The value of a Base64 digit.
pub open spec fn digit_value(c: char) -> Option<u8> {
    if 'A' <= c <= 'Z' {
        Some((c as u8 - 'A' as u8) as u8)
    } else if 'a' <= c <= 'z' {
        Some((c as u8 - 'a' as u8 + 26) as u8)
    } else if '0' <= c <= '9' {
        Some((c as u8 - '0' as u8 + 52) as u8)
    } else if c == '+' {
        Some(62)
    } else if c == '/' {
        Some(63)
    } else {
        None
    }
}

/// The text before the padding.
pub open spec fn unpadded(text: Seq<char>) -> Seq<char> {
    text.take(find_from(text, CharClass::One('='), 0))
}

/// Whether every character is a digit.
pub open spec fn all_digits(text: Seq<char>) -> bool {
    forall|i: int| 0 <= i < text.len() ==> digit_value(#[trigger] text[i]) is Some
}

/// The values of the digits.
pub open spec fn digits(text: Seq<char>) -> Seq<u8> {
    Seq::new(text.len(), |i: int| digit_value(text[i])->0)
}

/// The number that the figures stand for in the given base, the first figure
/// being the highest.
pub open spec fn number(figures: Seq<u8>, base: int) -> int
    decreases figures.len(),
{
    if figures.len() == 0 {
        0
    } else {
        number(figures.drop_last(), base) * base + figures.last()
    }
}

/// How many of the bits of `count` digits are left over after whole bytes, as
/// a power of two.
pub open spec fn leftover(count: int) -> int {
    if count % 4 == 0 {
        1
    } else if count % 4 == 1 {
        64
    } else if count % 4 == 2 {
        16
    } else {
        4
    }
}

/// What a Base64 text decodes to: the whole bytes among the bits of its digits.
pub open spec fn decodes_to(text: Seq<char>, bytes: Seq<u8>) -> bool {
    let figures = digits(unpadded(text));
    &&& bytes.len() == figures.len() * 6 / 8
    &&& number(bytes, 256) == number(figures, 64) / leftover(figures.len() as int)
}

/// The bytes that a Base64 text stands for; nothing where a character before
/// the padding is no digit.
pub open spec fn base64_bytes(text: Seq<char>) -> Option<Seq<u8>> {
    if all_digits(unpadded(text)) {
        Some(choose|bytes: Seq<u8>| decodes_to(text, bytes))
    } else {
        None
    }
}

/// Whether the digits of `text` are the Base64 encoding of `bytes`: the bits of the
/// bytes, with zero bits up to a whole digit. The text may be padded or not: what
/// stands from the first `=` on does not count.
pub open spec fn encodes(text: Seq<char>, bytes: Seq<u8>) -> bool {
    let head = unpadded(text);
    &&& all_digits(head)
    &&& head.len() == (bytes.len() * 8 + 5) / 6
    &&& number(digits(head), 64) == number(bytes, 256) * leftover(head.len() as int)
}

proof fn lemma_number_is_injective(a: Seq<u8>, b: Seq<u8>)
    requires
        a.len() == b.len(),
        number(a, 256) == number(b, 256),
    ensures
        a == b,
    decreases a.len(),
{
    if a.len() == 0 {
        assert(a =~= b);
    } else {
        let high_a = number(a.drop_last(), 256);
        let high_b = number(b.drop_last(), 256);
        assert(high_a == high_b && a.last() == b.last());
        lemma_number_is_injective(a.drop_last(), b.drop_last());
        assert(a =~= a.drop_last().push(a.last()));
        assert(b =~= b.drop_last().push(b.last()));
    }
}

/// A text decodes to at most one sequence of bytes.
pub proof fn law_decoding_is_unique(text: Seq<char>, a: Seq<u8>, b: Seq<u8>)
    requires
        decodes_to(text, a),
        decodes_to(text, b),
    ensures
        a == b,
{
    lemma_number_is_injective(a, b);
}

/// The encoding of any bytes, padded or not, decodes to these bytes.
pub proof fn law_decoding_undoes_base64(text: Seq<char>, bytes: Seq<u8>)
    requires
        encodes(text, bytes),
    ensures
        decodes_to(text, bytes),
        base64_bytes(text) == Some(bytes),
{
    let n = unpadded(text).len() as int;
    let scale = leftover(n);
    let whole = number(bytes, 256);
    assert(whole * scale / scale == whole) by (nonlinear_arith)
        requires
            scale > 0,
    ;
    assert(decodes_to(text, bytes));
    law_decoding_is_unique(text, bytes, base64_bytes(text)->0);
}

/// The bytes that `value` stands for: its digits up to the first `=`, six bits
/// each, of which bits that do not fill a byte are dropped. Nothing where
/// another character stands among the digits.
pub fn base64_decode(value: &str) -> (bytes: Option<Vec<u8>>)
    ensures
        match bytes {
            Some(bytes) => base64_bytes(value@) == Some(bytes@) && decodes_to(value@, bytes@),
            None => base64_bytes(value@) is None,
        },
{
    let chars = chars_of(value);
    let end = find(&chars, CharClass::One('='));
    let ghost head = unpadded(value@);
    let ghost figures = digits(head);
    let mut output: Vec<u8> = Vec::new();
    let mut buffer: u32 = 0;
    let mut room: u32 = 1;
    let mut i: usize = 0;
    while i < end
        invariant
            chars@ == value@,
            end <= chars@.len(),
            end == find_from(value@, CharClass::One('='), 0),
            head == unpadded(value@),
            head.len() == end,
            figures == digits(head),
            i <= end,
            forall|j: int| 0 <= j < i ==> digit_value(#[trigger] head[j]) is Some,
            room == leftover(i as int),
            buffer < room,
            output@.len() == i * 6 / 8,
            number(figures.take(i as int), 64) == number(output@, 256) * room + buffer,
        decreases end - i,
    {
        let c = chars[i];
        assert(head[i as int] == c);
        let digit: u8 = if 'A' <= c && c <= 'Z' {
            c as u8 - 'A' as u8
        } else if 'a' <= c && c <= 'z' {
            c as u8 - 'a' as u8 + 26
        } else if '0' <= c && c <= '9' {
            c as u8 - '0' as u8 + 52
        } else if c == '+' {
            62
        } else if c == '/' {
            63
        } else {
            return None;
        };
        let ghost before = output@;
        let ghost old_buffer = buffer as int;
        let ghost old_room = room as int;
        proof {
            assert(figures[i as int] == digit);
            assert(figures.take(i + 1).drop_last() =~= figures.take(i as int));
            assert(figures.take(i + 1).last() == digit);
        }
        buffer = buffer * 64 + digit as u32;
        room = room * 64;
        assert(number(figures.take(i + 1), 64) == number(before, 256) * room + buffer)
            by (nonlinear_arith)
            requires
                number(figures.take(i + 1), 64) == (number(before, 256) * old_room + old_buffer)
                    * 64 + digit,
                room == old_room * 64,
                buffer == old_buffer * 64 + digit,
        ;
        if room >= 256 {
            let small: u32 = room / 256;
            let byte: u32 = buffer / small;
            let rest: u32 = buffer % small;
            proof {
                assert(room == small * 256);
                assert(buffer == byte * small + rest) by (nonlinear_arith)
                    requires
                        small > 0,
                        byte == buffer / small,
                        rest == buffer % small,
                ;
                assert(byte < 256) by (nonlinear_arith)
                    requires
                        byte * small <= buffer,
                        buffer < small * 256,
                        small > 0,
                ;
            }
            output.push(byte as u8);
            proof {
                assert(output@.drop_last() =~= before);
                assert(number(output@, 256) == number(before, 256) * 256 + byte);
                assert(number(before, 256) * room + buffer == number(output@, 256) * small + rest)
                    by (nonlinear_arith)
                    requires
                        room == small * 256,
                        buffer == byte * small + rest,
                        number(output@, 256) == number(before, 256) * 256 + byte,
                ;
            }
            buffer = rest;
            room = small;
        }
        i = i + 1;
    }
    proof {
        assert(figures.take(i as int) =~= figures);
        let whole = number(output@, 256);
        assert((whole * room + buffer) / (room as int) == whole) by (nonlinear_arith)
            requires
                0 <= buffer < room,
        ;
        assert(decodes_to(value@, output@));
        assert(all_digits(head));
        law_decoding_is_unique(value@, output@, base64_bytes(value@)->0);
    }
    Some(output)
}

/// The figures of Base64, each at the place of its value.
pub open spec fn alphabet() -> Seq<char> {
    "ABCDEFGHIJKLMNOPQRSTUVWXYZabcdefghijklmnopqrstuvwxyz0123456789+/"@
}

/// A figure counts as much as its place in the alphabet says, and a character that
/// is not in the alphabet is no figure.
pub proof fn law_figures_count_by_the_alphabet(c: char, value: int)
    ensures
        alphabet().len() == 64,
        0 <= value < 64 ==> digit_value(alphabet()[value]) == Some(value as u8),
        digit_value(c) matches Some(v) ==> v < 64 && alphabet()[v as int] == c,
{
    reveal_strlit("ABCDEFGHIJKLMNOPQRSTUVWXYZabcdefghijklmnopqrstuvwxyz0123456789+/");
}

/// Three bytes are read from four figures: the first two figures hold the first byte
/// and half of the second, and so on, the highest bits first.
pub proof fn law_four_figures_are_three_bytes(text: Seq<char>, bytes: Seq<u8>)
    requires
        unpadded(text).len() == 4,
        base64_bytes(text) == Some(bytes),
        decodes_to(text, bytes),
    ensures
        ({
            let v = digits(unpadded(text));
            &&& bytes.len() == 3
            &&& v[0] * 262144 + v[1] * 4096 + v[2] * 64 + v[3] == bytes[0] * 65536 + bytes[1] * 256
                + bytes[2]
        }),
{
    let v = digits(unpadded(text));
    reveal_with_fuel(number, 5);
    assert(v.drop_last().drop_last().drop_last().drop_last().len() == 0);
    assert(number(v, 64) == ((v[0] * 64 + v[1]) * 64 + v[2]) * 64 + v[3]);
    assert(number(bytes, 256) == (bytes[0] * 256 + bytes[1]) * 256 + bytes[2]);
}

/// Two figures that are left at the end hold one byte, and three hold two; the bits
/// that are too many are dropped. One figure alone holds none.
pub proof fn law_last_figures_are_fewer_bytes(text: Seq<char>, bytes: Seq<u8>)
    requires
        decodes_to(text, bytes),
    ensures
        ({
            let v = digits(unpadded(text));
            &&& v.len() <= 1 ==> bytes.len() == 0
            &&& v.len() == 2 ==> bytes.len() == 1 && bytes[0] == (v[0] * 64 + v[1]) / 16
            &&& v.len() == 3 ==> bytes.len() == 2 && bytes[0] * 256 + bytes[1] == (v[0] * 4096
                + v[1] * 64 + v[2]) / 4
        }),
{
    let v = digits(unpadded(text));
    reveal_with_fuel(number, 5);
    if v.len() == 2 {
        assert(v.drop_last().drop_last().len() == 0);
        assert(bytes.drop_last().len() == 0);
    } else if v.len() == 3 {
        assert(v.drop_last().drop_last().drop_last().len() == 0);
        assert(bytes.drop_last().drop_last().len() == 0);
    }
}

/// Padding starts at the first equals sign, and whatever follows that does not count.
pub proof fn law_padding_does_not_count(head: Seq<char>, rest: Seq<char>)
    requires
        !head.contains('='),
    ensures
        unpadded(head) == head,
        unpadded(head + seq!['='] + rest) == head,
        base64_bytes(head) is Some <==> forall|i: int|
            0 <= i < head.len() ==> alphabet().contains(#[trigger] head[i]),
{
    let class = CharClass::One('=');
    let text = head + seq!['='] + rest;
    let at = head.len() as int;
    assert forall|i: int| 0 <= i < at implies !class.has(#[trigger] text[i]) && !class.has(
        head[i],
    ) by {
        assert(text[i] == head[i]);
        assert(head.contains(head[i]));
    }
    lemma_find_is_first(text, class, at);
    lemma_find_is_first(head, class, at);
    assert(text.take(at) =~= head);
    assert(head.take(at) =~= head);
    assert forall|c: char| #[trigger] alphabet().contains(c) == (digit_value(c) is Some) by {
        law_figures_count_by_the_alphabet(c, 0);
        if alphabet().contains(c) {
            let k = choose|k: int| 0 <= k < alphabet().len() && alphabet()[k] == c;
            law_figures_count_by_the_alphabet(c, k);
        }
    }
    if base64_bytes(head) is Some {
        assert forall|i: int| 0 <= i < head.len() implies alphabet().contains(
            #[trigger] head[i],
        ) by {
            assert(digit_value(head[i]) is Some);
        }
    } else if forall|i: int| 0 <= i < head.len() ==> alphabet().contains(#[trigger] head[i]) {
        assert(all_digits(head));
    }
}

} // verus!
