//! Texts that come out of the registry.

use vstd::prelude::*;

use crate::wide::{
    before_zero, byte_units, decode_lossy, decoded_lossy, law_decoding_undoes_encoding,
    law_units_end_at_zero, lemma_units_without_zero, pair_bytes, text_units, until_zero,
};

verus! {

/// The registry's type of a text.
pub const REG_SZ: u32 = 1;

/// The registry's type of a text that names environment variables.
pub const REG_EXPAND_SZ: u32 = 2;

/// The most bytes of a registry text that are read.
pub const REGISTRY_TEXT_LIMIT: u32 = 65536;

/// The most units that an expanded text may have.
pub const EXPANSION_LIMIT: u32 = 32768;

/// Whether a value is worth reading: it was found, it is a text, and its size
/// is neither nothing nor unreasonable.
pub fn is_readable_text(status: u32, value_type: u32, bytes: u32) -> (readable: bool)
    ensures
        readable == (status == 0 && (value_type == REG_SZ || value_type == REG_EXPAND_SZ) && 2
            <= bytes <= REGISTRY_TEXT_LIMIT),
        readable <==> status == 0 && (value_type == 1 || value_type == 2) && 2 <= bytes <= 65536,
{
    status == 0 && (value_type == REG_SZ || value_type == REG_EXPAND_SZ) && 2 <= bytes && bytes
        <= REGISTRY_TEXT_LIMIT
}

/// What the first `bytes` bytes of `raw` read: UTF-16 up to the first NUL.
pub open spec fn raw_text(raw: Seq<u8>, bytes: int) -> Seq<char> {
    decoded_lossy(before_zero(byte_units(raw.take(bytes))))
}

/// The text in the first `bytes` bytes of `raw`.
pub fn registry_text(raw: &Vec<u8>, bytes: usize) -> (text: String)
    requires
        bytes <= raw@.len(),
    ensures
        text@ == raw_text(raw@, bytes as int),
{
    let mut used: Vec<u8> = raw.clone();
    used.truncate(bytes);
    assert(used@ =~= raw@.take(bytes as int));
    let units = pair_bytes(&used);
    let head = until_zero(&units);
    decode_lossy(&head)
}

/// The size of the buffer that an expansion asks for; nothing where it asks for
/// none or for too much, in which case the text stays as it is.
pub fn expansion_size(required: u32) -> (size: Option<usize>)
    ensures
        size == (if 0 < required <= EXPANSION_LIMIT {
            Some(required as usize)
        } else {
            None
        }),
        size is Some <==> 1 <= required <= 32768,
{
    if required == 0 || required > EXPANSION_LIMIT {
        None
    } else {
        Some(required as usize)
    }
}

/// The text that stands for `value` after an expansion into `expanded`, of
/// which `written` units were written, the last of them a NUL.
pub fn expanded_text(value: &str, expanded: &Vec<u16>, written: u32) -> (text: String)
    ensures
        text@ == (if 0 < written <= expanded@.len() {
            decoded_lossy(expanded@.take(written - 1))
        } else {
            value@
        }),
{
    if written == 0 || written as usize > expanded.len() {
        return value.to_owned();
    }
    let mut units: Vec<u16> = expanded.clone();
    units.truncate(written as usize - 1);
    assert(units@ =~= expanded@.take(written - 1));
    decode_lossy(&units)
}

/// A text of the registry is read up to its first zero; what stands behind that does
/// not count.
pub proof fn law_registry_texts_end_at_zero(
    raw: Seq<u8>,
    bytes: int,
    text: Seq<char>,
    more: Seq<u16>,
)
    requires
        !text.contains('\0'),
        byte_units(raw.take(bytes)) == text_units(text) + seq![0u16] + more || byte_units(
            raw.take(bytes),
        ) == text_units(text),
    ensures
        raw_text(raw, bytes) == text,
{
    let units = text_units(text);
    let whole = byte_units(raw.take(bytes));
    let head = before_zero(whole);
    law_units_end_at_zero(whole);
    lemma_units_without_zero(text);
    law_decoding_undoes_encoding(text);
    if head.len() < units.len() {
        assert(whole[head.len() as int] == units[head.len() as int]);
    } else if head.len() > units.len() {
        assert(head[units.len() as int] == whole[units.len() as int]);
    }
    assert forall|i: int| 0 <= i < head.len() implies head[i] == units[i] by {
        assert(head[i] == whole[i]);
    }
    assert(head =~= units);
}

} // verus!
