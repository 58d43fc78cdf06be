//! Domain names: validation of the textual form and its label encoding.
//!
//! A name is modelled as its sequence of labels, each a sequence of octets.
//! The text is read as octets (its UTF-8 form) and cut at every separator
//! octet. That cuts the text exactly at its dots: see the module `text`.

use std::str::FromStr;
use vstd::prelude::*;
use vstd::string::StringSliceAdditionalSpecFns;
use vstd::utf8::encode_utf8;

verus! {

/// The octet that separates two labels in the textual form (an ASCII dot).
pub const SEPARATOR: u8 = 0x2e;

/// The largest number of octets in one label.
pub const MAX_LABEL_LEN: usize = 63;

/// The largest number of octets in an encoded name.
pub const MAX_NAME_LEN: usize = 255;

/// The labels of a text: the text starts in a first, empty label; every
/// separator closes the current label and opens a new, empty one; every other
/// octet is added to the current label.
pub open spec fn split_labels(text: Seq<u8>) -> Seq<Seq<u8>>
    decreases text.len(),
{
    if text.len() == 0 {
        seq![Seq::<u8>::empty()]
    } else {
        let before = split_labels(text.drop_last());
        if text.last() == SEPARATOR {
            before.push(Seq::<u8>::empty())
        } else {
            before.drop_last().push(before.last().push(text.last()))
        }
    }
}

/// The text of a sequence of labels: the labels in order, with one separator
/// between each two neighbours.
pub open spec fn join_labels(labels: Seq<Seq<u8>>) -> Seq<u8>
    decreases labels.len(),
{
    if labels.len() == 0 {
        Seq::<u8>::empty()
    } else if labels.len() == 1 {
        labels[0]
    } else {
        join_labels(labels.drop_last()).push(SEPARATOR) + labels.last()
    }
}

/// A label is acceptable when it has between 1 and 63 octets.
pub open spec fn label_ok(label: Seq<u8>) -> bool {
    1 <= label.len() <= MAX_LABEL_LEN
}

/// The size of the encoded form: one length octet and the label's octets for
/// each label, and one terminating octet.
pub open spec fn encoded_len(labels: Seq<Seq<u8>>) -> nat
    decreases labels.len(),
{
    if labels.len() == 0 {
        1
    } else {
        encoded_len(labels.drop_last()) + 1 + labels.last().len()
    }
}

/// One label on the wire: its length in one octet, then its octets.
pub open spec fn encode_label(label: Seq<u8>) -> Seq<u8> {
    seq![label.len() as u8] + label
}

/// A name on the wire: each label in order, then a single zero octet.
pub open spec fn encode_labels(labels: Seq<Seq<u8>>) -> Seq<u8> {
    labels.map_values(|l: Seq<u8>| encode_label(l)).flatten().push(0u8)
}

/// The labels of a valid name: at least one label, every label acceptable,
/// and an encoded form of at most 255 octets.
pub open spec fn well_formed(labels: Seq<Seq<u8>>) -> bool {
    &&& labels.len() >= 1
    &&& forall|i: int| 0 <= i < labels.len() ==> label_ok(#[trigger] labels[i])
    &&& encoded_len(labels) <= MAX_NAME_LEN
}

/// The number of acceptable labels at the front of `labels`: the index of the
/// first label that is not acceptable, or the number of labels if all are.
pub open spec fn first_offending(labels: Seq<Seq<u8>>) -> nat
    decreases labels.len(),
{
    if labels.len() == 0 || !label_ok(labels[0]) {
        0
    } else {
        1 + first_offending(labels.drop_first())
    }
}

/// A size as an error reports it: the size itself wherever the machine's
/// word can hold it, and the largest word otherwise. No text that fits in
/// memory has a size of the second kind.
pub open spec fn reported(size: nat) -> usize {
    if size <= usize::MAX {
        size as usize
    } else {
        usize::MAX
    }
}

/// Why a sequence of labels is refused, if it is. The first label that is not
/// acceptable decides, whatever follows it; the total size is looked at only
/// when every label is acceptable.
pub open spec fn rejection(labels: Seq<Seq<u8>>) -> Option<DomainNameError> {
    let first = first_offending(labels) as int;
    if first < labels.len() {
        if labels[first].len() == 0 {
            Some(DomainNameError::EmptyLabel)
        } else {
            Some(DomainNameError::LabelTooLong(reported(labels[first].len())))
        }
    } else if encoded_len(labels) > MAX_NAME_LEN {
        Some(DomainNameError::NameTooLong(reported(encoded_len(labels))))
    } else {
        None
    }
}

/// Errors that can occur while validating a domain name.
#[derive(Debug, PartialEq, Eq)]
pub enum DomainNameError {
    /// A label has no octets.
    EmptyLabel,
    /// A label has more than 63 octets; the value is its length.
    LabelTooLong(usize),
    /// The encoded name has more than 255 octets; the value is its size.
    NameTooLong(usize),
}

/// A validated domain name.
#[derive(Debug, PartialEq, Eq)]
pub struct DomainName(String);

impl Clone for DomainName {
    /// A second name with the same labels.
    fn clone(&self) -> (r: Self)
        ensures
            r@ == self@,
    {
        proof {
            use_type_invariant(self);
        }
        DomainName(self.0.clone())
    }
}

impl View for DomainName {
    type V = Seq<Seq<u8>>;

    /// The labels of the name, in order.
    closed spec fn view(&self) -> Seq<Seq<u8>> {
        split_labels(encode_utf8(self.0@))
    }
}

impl DomainName {
    #[verifier::type_invariant]
    spec fn valid(&self) -> bool {
        well_formed(self@)
    }

    /// Validates `text` and keeps it as a name.
    ///
    /// The text is accepted exactly when its labels are not refused, and the
    /// error, if any, is the one that `rejection` gives for them.
    pub fn parse(text: &str) -> (r: Result<DomainName, DomainNameError>)
        ensures
            match r {
                Ok(name) => {
                    &&& rejection(split_labels(text.spec_bytes())) is None
                    &&& name@ == split_labels(text.spec_bytes())
                    &&& well_formed(name@)
                },
                Err(e) => rejection(split_labels(text.spec_bytes())) == Some(e),
            },
            r is Ok <==> well_formed(split_labels(text.spec_bytes())),
    {
        proof {
            lemma_split_nonempty(text.spec_bytes());
            lemma_refused_or_well_formed(split_labels(text.spec_bytes()));
        }
        let bytes = text.as_bytes();
        let n = bytes.len();
        let ghost whole = split_labels(bytes@);
        // The octets of the labels closed so far, with their length octets.
        let mut total: usize = 0;
        let mut cur: usize = 0;
        let mut i: usize = 0;
        proof {
            assert(bytes@.take(0) =~= Seq::<u8>::empty());
            assert(split_labels(bytes@.take(0)).drop_last() =~= Seq::<Seq<u8>>::empty());
        }
        while i < n
            invariant
                i <= n,
                n == bytes@.len(),
                bytes@ == text.spec_bytes(),
                whole == split_labels(bytes@),
                split_labels(bytes@.take(i as int)).len() >= 1,
                cur == split_labels(bytes@.take(i as int)).last().len(),
                total + cur == i,
                total + 1 == encoded_len(split_labels(bytes@.take(i as int)).drop_last()),
                forall|j: int|
                    0 <= j < split_labels(bytes@.take(i as int)).len() - 1 ==> label_ok(
                        #[trigger] split_labels(bytes@.take(i as int))[j],
                    ),
            decreases n - i,
        {
            let ghost here = split_labels(bytes@.take(i as int));
            proof {
                lemma_split_step(bytes@, i as int);
            }
            if bytes[i] == SEPARATOR {
                proof {
                    lemma_split_closed_label(bytes@, i as int);
                }
                match label_fault(cur) {
                    Some(e) => {
                        proof {
                            lemma_first_offending_at(whole, here.len() - 1);
                        }
                        return Err(e);
                    },
                    None => {},
                }
                total = total + 1 + cur;
                cur = 0;
                assert(split_labels(bytes@.take(i + 1)).drop_last() =~= here);
            } else {
                cur = cur + 1;
                assert(split_labels(bytes@.take(i + 1)).drop_last() =~= here.drop_last());
            }
            i = i + 1;
        }
        assert(bytes@.take(n as int) =~= bytes@);
        match label_fault(cur) {
            Some(e) => {
                proof {
                    lemma_first_offending_at(whole, whole.len() - 1);
                }
                return Err(e);
            },
            None => {},
        }
        proof {
            lemma_first_offending_at(whole, whole.len() as int);
        }
        // The last label with its length octet, and the terminating octet.
        let size = total.saturating_add(cur + 2);
        if size > MAX_NAME_LEN {
            return Err(DomainNameError::NameTooLong(size));
        }
        Ok(DomainName(text.to_owned()))
    }

    /// The name on the wire: for each label in order one length octet and
    /// the label's octets, then a single zero octet.
    pub fn to_be_bytes(&self) -> (bytes: Vec<u8>)
        ensures
            bytes@ == encode_labels(self@),
            bytes@.len() == encoded_len(self@),
            well_formed(self@),
    {
        proof {
            use_type_invariant(self);
            lemma_encoded_len(self@);
        }
        let text = self.0.as_str().as_bytes();
        let n = text.len();
        let ghost whole = split_labels(text@);
        let mut bytes: Vec<u8> = Vec::new();
        let mut start: usize = 0;
        loop
            invariant_except_break
                start <= n,
                n == text@.len(),
                whole == split_labels(text@),
                well_formed(whole),
                split_labels(text@.take(start as int)).len() >= 1,
                split_labels(text@.take(start as int)).last().len() == 0,
                bytes@ == split_labels(text@.take(start as int)).drop_last().map_values(
                    |l: Seq<u8>| encode_label(l),
                ).flatten(),
            ensures
                bytes@ == whole.map_values(|l: Seq<u8>| encode_label(l)).flatten(),
            decreases n - start,
        {
            let ghost done = split_labels(text@.take(start as int)).drop_last();
            let mut end: usize = start;
            proof {
                assert(text@.subrange(start as int, start as int) =~= Seq::<u8>::empty());
                assert(split_labels(text@.take(start as int)) =~= done.push(Seq::<u8>::empty()));
            }
            while end < n && text[end] != SEPARATOR
                invariant
                    start <= end <= n,
                    n == text@.len(),
                    split_labels(text@.take(end as int)) == done.push(
                        text@.subrange(start as int, end as int),
                    ),
                decreases n - end,
            {
                proof {
                    lemma_split_step(text@, end as int);
                    assert(done.push(text@.subrange(start as int, end as int)).drop_last()
                        =~= done);
                    assert(text@.subrange(start as int, end as int).push(text@[end as int])
                        =~= text@.subrange(start as int, end + 1));
                }
                end = end + 1;
            }
            let ghost label = text@.subrange(start as int, end as int);
            let ghost here = done.push(label);
            proof {
                if end < n {
                    lemma_split_step(text@, end as int);
                    lemma_split_closed_label(text@, end as int);
                } else {
                    assert(text@.take(n as int) =~= text@);
                }
                assert(whole[done.len() as int] == label);
                assert(label_ok(label));
            }
            bytes.push((end - start) as u8);
            let mut k: usize = start;
            while k < end
                invariant
                    start <= k <= end <= n,
                    n == text@.len(),
                    bytes@ == done.map_values(|l: Seq<u8>| encode_label(l)).flatten() + seq![
                        label.len() as u8,
                    ] + text@.subrange(start as int, k as int),
                decreases end - k,
            {
                bytes.push(text[k]);
                assert(text@.subrange(start as int, k as int).push(text@[k as int])
                    =~= text@.subrange(start as int, k + 1));
                k = k + 1;
            }
            proof {
                let f = |l: Seq<u8>| encode_label(l);
                assert(here.map_values(f) =~= done.map_values(f).push(encode_label(label)));
                done.map_values(f).lemma_flatten_push(encode_label(label));
                assert(bytes@ =~= here.map_values(f).flatten());
            }
            if end == n {
                break ;
            }
            start = end + 1;
            assert(split_labels(text@.take(start as int)).drop_last() =~= here);
        }
        bytes.push(0);
        bytes
    }
}

impl FromStr for DomainName {
    type Err = DomainNameError;

    /// Validates `s` as `DomainName::parse` does.
    fn from_str(s: &str) -> (r: Result<Self, Self::Err>)
        ensures
            match r {
                Ok(name) => {
                    &&& rejection(split_labels(s.spec_bytes())) is None
                    &&& name@ == split_labels(s.spec_bytes())
                    &&& well_formed(name@)
                },
                Err(e) => rejection(split_labels(s.spec_bytes())) == Some(e),
            },
            r is Ok <==> well_formed(split_labels(s.spec_bytes())),
    {
        DomainName::parse(s)
    }
}

/// What is wrong with a label of `len` octets, if anything.
fn label_fault(len: usize) -> (r: Option<DomainNameError>)
    ensures
        r == if len == 0 {
            Some(DomainNameError::EmptyLabel)
        } else if len > MAX_LABEL_LEN {
            Some(DomainNameError::LabelTooLong(len))
        } else {
            None
        },
{
    if len == 0 {
        Some(DomainNameError::EmptyLabel)
    } else if len > MAX_LABEL_LEN {
        Some(DomainNameError::LabelTooLong(len))
    } else {
        None
    }
}

/// A text always has at least one label.
pub proof fn lemma_split_nonempty(text: Seq<u8>)
    ensures
        split_labels(text).len() >= 1,
    decreases text.len(),
{
    if text.len() > 0 {
        lemma_split_nonempty(text.drop_last());
    }
}

/// How the labels of a prefix change when the prefix grows by one octet.
proof fn lemma_split_step(text: Seq<u8>, i: int)
    requires
        0 <= i < text.len(),
    ensures
        split_labels(text.take(i)).len() >= 1,
        split_labels(text.take(i + 1)) == if text[i] == SEPARATOR {
            split_labels(text.take(i)).push(Seq::<u8>::empty())
        } else {
            split_labels(text.take(i)).drop_last().push(
                split_labels(text.take(i)).last().push(text[i]),
            )
        },
{
    lemma_split_nonempty(text.take(i));
    assert(text.take(i + 1).drop_last() =~= text.take(i));
}

/// The labels of a prefix, but for its last one, are labels of the whole
/// text, at the same places.
proof fn lemma_split_prefix(text: Seq<u8>, i: int)
    requires
        0 <= i <= text.len(),
    ensures
        1 <= split_labels(text.take(i)).len() <= split_labels(text).len(),
        forall|j: int|
            0 <= j < split_labels(text.take(i)).len() - 1 ==> #[trigger] split_labels(text)[j]
                == split_labels(text.take(i))[j],
    decreases text.len(),
{
    lemma_split_nonempty(text.take(i));
    if i == text.len() {
        assert(text.take(i) =~= text);
    } else {
        let shorter = text.drop_last();
        assert(shorter.take(i) =~= text.take(i));
        lemma_split_prefix(shorter, i);
        lemma_split_nonempty(shorter);
    }
}

/// A label that a separator closes is a label of the whole text, at the same
/// place, and so is every label before it.
proof fn lemma_split_closed_label(text: Seq<u8>, i: int)
    requires
        0 <= i < text.len(),
        text[i] == SEPARATOR,
    ensures
        1 <= split_labels(text.take(i)).len() < split_labels(text).len(),
        forall|j: int|
            0 <= j < split_labels(text.take(i)).len() ==> #[trigger] split_labels(text)[j]
                == split_labels(text.take(i))[j],
{
    lemma_split_step(text, i);
    lemma_split_prefix(text, i + 1);
}

/// The index of the first label that is not acceptable, from what holds of
/// the labels before it and of the label itself.
pub proof fn lemma_first_offending_at(labels: Seq<Seq<u8>>, k: int)
    requires
        0 <= k <= labels.len(),
        forall|j: int| 0 <= j < k ==> label_ok(#[trigger] labels[j]),
        k < labels.len() ==> !label_ok(labels[k]),
    ensures
        first_offending(labels) == k,
    decreases k,
{
    if k > 0 {
        let rest = labels.drop_first();
        assert(label_ok(labels[0]));
        assert forall|j: int| 0 <= j < k - 1 implies label_ok(#[trigger] rest[j]) by {
            assert(rest[j] == labels[j + 1]);
        }
        lemma_first_offending_at(rest, k - 1);
    }
}

/// The labels before the first one that is not acceptable are acceptable, and
/// that one, if there is one, is not.
pub proof fn lemma_first_offending(labels: Seq<Seq<u8>>)
    ensures
        first_offending(labels) <= labels.len(),
        forall|j: int| 0 <= j < first_offending(labels) ==> label_ok(#[trigger] labels[j]),
        first_offending(labels) < labels.len() ==> !label_ok(labels[first_offending(labels) as int]),
    decreases labels.len(),
{
    if labels.len() > 0 && label_ok(labels[0]) {
        let rest = labels.drop_first();
        lemma_first_offending(rest);
        assert forall|j: int| 0 <= j < first_offending(labels) implies label_ok(
            #[trigger] labels[j],
        ) by {
            if j > 0 {
                assert(labels[j] == rest[j - 1]);
            }
        }
    }
}

/// Labels are refused exactly when they are not those of a valid name.
pub proof fn lemma_refused_or_well_formed(labels: Seq<Seq<u8>>)
    requires
        labels.len() >= 1,
    ensures
        rejection(labels) is None <==> well_formed(labels),
{
    lemma_first_offending(labels);
    if well_formed(labels) {
        lemma_first_offending_at(labels, labels.len() as int);
    }
}

/// Cutting a text into labels loses nothing: the labels, joined again, are
/// the text.
pub proof fn lemma_join_split(text: Seq<u8>)
    ensures
        join_labels(split_labels(text)) == text,
    decreases text.len(),
{
    if text.len() > 0 {
        let shorter = text.drop_last();
        let before = split_labels(shorter);
        lemma_split_nonempty(shorter);
        lemma_join_split(shorter);
        if text.last() == SEPARATOR {
            let all = before.push(Seq::<u8>::empty());
            assert(all.drop_last() =~= before);
            assert(join_labels(all) =~= text);
        } else {
            let grown = before.last().push(text.last());
            let all = before.drop_last().push(grown);
            assert(all.drop_last() =~= before.drop_last());
            if before.len() > 1 {
                assert(join_labels(all) =~= join_labels(before).push(text.last()));
            }
            assert(join_labels(all) =~= text);
        }
    }
}

/// No label of a text holds a separator.
pub proof fn lemma_split_has_no_separator(text: Seq<u8>)
    ensures
        forall|i: int|
            0 <= i < split_labels(text).len() ==> !(#[trigger] split_labels(text)[i]).contains(
                SEPARATOR,
            ),
    decreases text.len(),
{
    if text.len() > 0 {
        let shorter = text.drop_last();
        let before = split_labels(shorter);
        lemma_split_nonempty(shorter);
        lemma_split_has_no_separator(shorter);
        if text.last() != SEPARATOR {
            let grown = before.last().push(text.last());
            assert forall|k: int| 0 <= k < grown.len() implies grown[k] != SEPARATOR by {
                if k < before.last().len() {
                    assert(before.last().contains(grown[k]));
                }
            }
        }
    }
}

/// A label without a separator, written after a text and a separator, is one
/// more label of that text.
proof fn lemma_split_append_label(text: Seq<u8>, label: Seq<u8>)
    requires
        !label.contains(SEPARATOR),
    ensures
        split_labels(text.push(SEPARATOR) + label) == split_labels(text).push(label),
    decreases label.len(),
{
    let whole = text.push(SEPARATOR) + label;
    if label.len() == 0 {
        assert(whole.drop_last() =~= text);
        assert(label =~= Seq::<u8>::empty());
    } else {
        let front = label.drop_last();
        assert(label.contains(label.last()));
        assert forall|k: int| 0 <= k < front.len() implies front[k] != SEPARATOR by {
            assert(label.contains(label[k]));
        }
        lemma_split_append_label(text, front);
        assert(whole.drop_last() =~= text.push(SEPARATOR) + front);
        let before = split_labels(text).push(front);
        assert(before.drop_last() =~= split_labels(text));
        assert(front.push(label.last()) =~= label);
    }
}

/// A text without a separator is a single label.
proof fn lemma_split_single(label: Seq<u8>)
    requires
        !label.contains(SEPARATOR),
    ensures
        split_labels(label) == seq![label],
    decreases label.len(),
{
    if label.len() == 0 {
        assert(label =~= Seq::<u8>::empty());
    } else {
        let front = label.drop_last();
        assert(label.contains(label.last()));
        assert forall|k: int| 0 <= k < front.len() implies front[k] != SEPARATOR by {
            assert(label.contains(label[k]));
        }
        lemma_split_single(front);
        assert(front.push(label.last()) =~= label);
        assert(seq![front].drop_last().push(label) =~= seq![label]);
    }
}

/// Labels without separators, written with a separator between each two,
/// are read back as they were.
pub proof fn lemma_split_join(labels: Seq<Seq<u8>>)
    requires
        labels.len() >= 1,
        forall|i: int| 0 <= i < labels.len() ==> !(#[trigger] labels[i]).contains(SEPARATOR),
    ensures
        split_labels(join_labels(labels)) == labels,
    decreases labels.len(),
{
    if labels.len() == 1 {
        lemma_split_single(labels[0]);
        assert(seq![labels[0]] =~= labels);
    } else {
        let front = labels.drop_last();
        lemma_split_join(front);
        lemma_split_append_label(join_labels(front), labels.last());
        assert(front.push(labels.last()) =~= labels);
    }
}

/// Any labels that make a valid name, none of them holding a separator, are
/// accepted when written as text, and are the labels of the name that
/// results: `parse` returns a name on every text whose octets are
/// `join_labels(labels)`, that name's view is `labels`, and its encoded form
/// is `encode_labels(labels)`.
pub proof fn lemma_valid_labels_are_accepted(labels: Seq<Seq<u8>>)
    requires
        well_formed(labels),
        forall|i: int| 0 <= i < labels.len() ==> !(#[trigger] labels[i]).contains(SEPARATOR),
    ensures
        split_labels(join_labels(labels)) == labels,
        rejection(split_labels(join_labels(labels))) is None,
{
    lemma_split_join(labels);
    lemma_refused_or_well_formed(labels);
}

/// The encoded form, label by label: without labels it is the terminating
/// octet alone, and one more label is written just before that octet.
pub proof fn lemma_encode_one_more_label(labels: Seq<Seq<u8>>, label: Seq<u8>)
    ensures
        encode_labels(Seq::<Seq<u8>>::empty()) == seq![0u8],
        encode_labels(labels.push(label)) == encode_labels(labels).drop_last() + encode_label(
            label,
        ) + seq![0u8],
{
    let f = |l: Seq<u8>| encode_label(l);
    let none = Seq::<Seq<u8>>::empty();
    assert(none.map_values(f) =~= Seq::<Seq<u8>>::empty());
    assert(encode_labels(none) =~= seq![0u8]);
    assert(labels.push(label).map_values(f) =~= labels.map_values(f).push(encode_label(label)));
    labels.map_values(f).lemma_flatten_push(encode_label(label));
    assert(encode_labels(labels).drop_last() =~= labels.map_values(f).flatten());
    assert(encode_labels(labels.push(label)) =~= encode_labels(labels).drop_last() + encode_label(
        label,
    ) + seq![0u8]);
}

/// The encoded form has one length octet and the label's octets for each
/// label, and one terminating octet.
pub proof fn lemma_encoded_len(labels: Seq<Seq<u8>>)
    ensures
        encode_labels(labels).len() == encoded_len(labels),
    decreases labels.len(),
{
    let f = |l: Seq<u8>| encode_label(l);
    if labels.len() == 0 {
        assert(labels.map_values(f) =~= Seq::<Seq<u8>>::empty());
    } else {
        let front = labels.drop_last();
        lemma_encoded_len(front);
        assert(labels.map_values(f) =~= front.map_values(f).push(encode_label(labels.last())));
        front.map_values(f).lemma_flatten_push(encode_label(labels.last()));
    }
}

} // verus!
