//! Names as characters.
//!
//! A name is validated and encoded by its octets. This module shows that
//! nothing is lost by that: cutting a text's octets at every separator octet
//! gives, label by label, the octets of the text cut at every dot.

use super::domain_name::{lemma_split_nonempty, split_labels, SEPARATOR};
use vstd::prelude::*;
use vstd::utf8::{char_is_scalar, char_u32_cast, encode_scalar, encode_utf8};

verus! {

/// The character that separates two labels.
pub const DOT: char = '.';

/// The labels of a text, as characters: the text starts in a first, empty
/// label; every dot closes the current label and opens a new, empty one;
/// every other character is added to the current label.
pub open spec fn split_text(text: Seq<char>) -> Seq<Seq<char>>
    decreases text.len(),
{
    if text.len() == 0 {
        seq![Seq::<char>::empty()]
    } else {
        let before = split_text(text.drop_last());
        if text.last() == DOT {
            before.push(Seq::<char>::empty())
        } else {
            before.drop_last().push(before.last().push(text.last()))
        }
    }
}

/// A text always has at least one label.
pub proof fn lemma_split_text_nonempty(text: Seq<char>)
    ensures
        split_text(text).len() >= 1,
    decreases text.len(),
{
    if text.len() > 0 {
        lemma_split_text_nonempty(text.drop_last());
    }
}

/// The octets of a text with one more character are the octets of the text,
/// then those of the character.
pub proof fn lemma_encode_push(text: Seq<char>, c: char)
    ensures
        encode_utf8(text.push(c)) == encode_utf8(text) + encode_scalar(c as u32),
    decreases text.len(),
{
    let longer = text.push(c);
    if text.len() == 0 {
        assert(longer.drop_first() =~= text);
        assert(encode_utf8(text) =~= Seq::<u8>::empty());
        assert(encode_utf8(longer) =~= encode_scalar(c as u32));
        assert(encode_utf8(text) + encode_scalar(c as u32) =~= encode_scalar(c as u32));
    } else {
        assert(longer.drop_first() =~= text.drop_first().push(c));
        lemma_encode_push(text.drop_first(), c);
        assert(encode_utf8(longer) =~= encode_utf8(text) + encode_scalar(c as u32));
    }
}

/// The dot is the one character whose octets hold the separator, and it is
/// that octet alone.
pub proof fn lemma_octets_of_char(c: char)
    ensures
        c == DOT ==> encode_scalar(c as u32) == seq![SEPARATOR],
        c != DOT ==> !encode_scalar(c as u32).contains(SEPARATOR),
{
    let s = c as u32;
    char_is_scalar(c);
    if c == DOT {
        assert((0x2eu32 & 0x7F) as u8 == 0x2e) by (bit_vector);
    } else {
        assert(s != 0x2e) by {
            if s == 0x2e {
                char_u32_cast(c, s);
                char_u32_cast(DOT, 0x2e);
            }
        }
        assert(s <= 0x7F ==> (s & 0x7F) as u8 == s) by (bit_vector);
        assert((0xC0u8 | ((s >> 6) & 0x1F) as u8) != 0x2e) by (bit_vector);
        assert((0xE0u8 | ((s >> 12) & 0x0F) as u8) != 0x2e) by (bit_vector);
        assert((0xF0u8 | ((s >> 18) & 0x7) as u8) != 0x2e) by (bit_vector);
        assert((0x80u8 | (s & 0x3F) as u8) != 0x2e) by (bit_vector);
        assert((0x80u8 | ((s >> 6) & 0x3F) as u8) != 0x2e) by (bit_vector);
        assert((0x80u8 | ((s >> 12) & 0x3F) as u8) != 0x2e) by (bit_vector);
        let e = encode_scalar(s);
        assert forall|k: int| 0 <= k < e.len() implies e[k] != SEPARATOR by {}
    }
}

/// Octets without a separator, written after a text, lengthen its last label.
pub proof fn lemma_split_extend(text: Seq<u8>, more: Seq<u8>)
    requires
        !more.contains(SEPARATOR),
    ensures
        split_labels(text).len() >= 1,
        split_labels(text + more) == split_labels(text).drop_last().push(
            split_labels(text).last() + more,
        ),
    decreases more.len(),
{
    lemma_split_nonempty(text);
    let labels = split_labels(text);
    if more.len() == 0 {
        assert(text + more =~= text);
        assert(labels.last() + more =~= labels.last());
        assert(labels.drop_last().push(labels.last()) =~= labels);
    } else {
        let front = more.drop_last();
        assert(more.contains(more.last()));
        assert forall|k: int| 0 <= k < front.len() implies front[k] != SEPARATOR by {
            assert(more.contains(more[k]));
        }
        lemma_split_extend(text, front);
        assert((text + more).drop_last() =~= text + front);
        let before = labels.drop_last().push(labels.last() + front);
        assert(before.drop_last() =~= labels.drop_last());
        assert((labels.last() + front).push(more.last()) =~= labels.last() + more);
    }
}

/// Cutting the octets of a text at every separator gives the octets of each
/// label of the text cut at every dot.
pub proof fn lemma_split_of_octets(text: Seq<char>)
    ensures
        split_labels(encode_utf8(text)) == split_text(text).map_values(
            |label: Seq<char>| encode_utf8(label),
        ),
    decreases text.len(),
{
    let octets = |label: Seq<char>| encode_utf8(label);
    if text.len() == 0 {
        assert(split_text(text).map_values(octets) =~= seq![Seq::<u8>::empty()]);
    } else {
        let shorter = text.drop_last();
        let c = text.last();
        let before = split_text(shorter);
        let labels = split_labels(encode_utf8(shorter));
        assert(shorter.push(c) =~= text);
        lemma_split_of_octets(shorter);
        lemma_split_text_nonempty(shorter);
        lemma_encode_push(shorter, c);
        lemma_octets_of_char(c);
        if c == DOT {
            let whole = encode_utf8(shorter).push(SEPARATOR);
            assert(encode_utf8(shorter) + seq![SEPARATOR] =~= whole);
            assert(whole.drop_last() =~= encode_utf8(shorter));
            assert(before.push(Seq::<char>::empty()).map_values(octets) =~= labels.push(
                Seq::<u8>::empty(),
            ));
        } else {
            lemma_split_extend(encode_utf8(shorter), encode_scalar(c as u32));
            lemma_encode_push(before.last(), c);
            assert(before.drop_last().push(before.last().push(c)).map_values(octets)
                =~= labels.drop_last().push(labels.last() + encode_scalar(c as u32)));
        }
    }
}

} // verus!
