//! A whole message: the header and the sections that follow it.

use super::flags::QR;
use super::header::{Header, HeaderView};
use super::octets::append;
use super::question::{Question, QuestionView};
use super::resource_record::{low16, RecordView, ResourceRecord};
use super::Response;
use vstd::prelude::*;

verus! {

/// What a message holds: its header, its questions and its answers, each
/// section in the order in which it is sent.
pub struct MessageView {
    pub header: HeaderView,
    pub questions: Seq<QuestionView>,
    pub answers: Seq<RecordView>,
}

impl MessageView {
    /// The questions on the wire, one after the other.
    pub open spec fn question_section(self) -> Seq<u8> {
        self.questions.map_values(|q: QuestionView| q.wire()).flatten()
    }

    /// The answers on the wire, one after the other.
    pub open spec fn answer_section(self) -> Seq<u8> {
        self.answers.map_values(|a: RecordView| a.wire()).flatten()
    }

    /// The message on the wire: the header, the questions, the answers.
    pub open spec fn wire(self) -> Seq<u8> {
        self.header.wire() + self.question_section() + self.answer_section()
    }

    /// The header's counts are those of the sections, as far as sixteen bits
    /// can tell them, and the sections that a message never has are empty.
    pub open spec fn counts_derived(self) -> bool {
        &&& self.header.qdcount == low16(self.questions.len())
        &&& self.header.ancount == low16(self.answers.len())
        &&& self.header.nscount == 0
        &&& self.header.arcount == 0
    }
}

/// A message of direction `Dir`.
#[derive(Debug)]
pub struct Message<Dir> {
    header: Header<Dir>,
    question: Vec<Question>,
    answer: Vec<ResourceRecord>,
}

impl<Dir> View for Message<Dir> {
    type V = MessageView;

    closed spec fn view(&self) -> MessageView {
        MessageView {
            header: self.header@,
            questions: self.question@.map_values(|q: Question| q@),
            answers: self.answer@.map_values(|a: ResourceRecord| a@),
        }
    }
}

impl<Dir> Clone for Message<Dir> {
    /// A second message with the same content.
    fn clone(&self) -> (r: Self)
        ensures
            r@ == self@,
    {
        proof {
            use_type_invariant(self);
        }
        let question = self.question.clone();
        let answer = self.answer.clone();
        assert(question@.map_values(|q: Question| q@) =~= self@.questions);
        assert(answer@.map_values(|a: ResourceRecord| a@) =~= self@.answers);
        Message { header: self.header, question, answer }
    }
}

impl Message<Response> {
    /// A response with the given identifier, questions and answers. The
    /// header's counts are taken from the two lists: their lengths, cut down
    /// to sixteen bits.
    pub fn response(id: u16, question: Vec<Question>, answer: Vec<ResourceRecord>) -> (m: Self)
        ensures
            m@ == (MessageView {
                header: HeaderView {
                    id,
                    flags: QR,
                    qdcount: low16(question@.len()),
                    ancount: low16(answer@.len()),
                    nscount: 0,
                    arcount: 0,
                },
                questions: question@.map_values(|q: Question| q@),
                answers: answer@.map_values(|a: ResourceRecord| a@),
            }),
            m@.counts_derived(),
            question@.len() <= u16::MAX ==> m@.header.qdcount == question@.len(),
            answer@.len() <= u16::MAX ==> m@.header.ancount == answer@.len(),
    {
        let mut header = Header::response(id);
        header.set_counts(count16(question.len()), count16(answer.len()));
        Self { header, question, answer }
    }
}

impl<Dir> Message<Dir> {
    #[verifier::type_invariant]
    spec fn valid(&self) -> bool {
        self@.counts_derived()
    }

    /// The message on the wire.
    pub fn to_be_bytes(&self) -> (bytes: Vec<u8>)
        ensures
            bytes@ == self@.wire(),
            self@.counts_derived(),
    {
        proof {
            use_type_invariant(self);
        }
        let header = self.header.to_be_bytes();
        let mut bytes: Vec<u8> = Vec::new();
        append(&mut bytes, header.as_slice());
        assert(bytes@ =~= self@.header.wire());
        let ghost questions = self@.questions.map_values(|q: QuestionView| q.wire());
        let mut i: usize = 0;
        while i < self.question.len()
            invariant
                i <= self.question.len(),
                questions == self@.questions.map_values(|q: QuestionView| q.wire()),
                bytes@ == self@.header.wire() + questions.take(i as int).flatten(),
            decreases self.question.len() - i,
        {
            let one = self.question[i].to_be_bytes();
            proof {
                assert(questions.take(i + 1) =~= questions.take(i as int).push(one@));
                questions.take(i as int).lemma_flatten_push(one@);
            }
            append(&mut bytes, one.as_slice());
            i = i + 1;
        }
        assert(questions.take(i as int) =~= questions);
        let ghost answers = self@.answers.map_values(|a: RecordView| a.wire());
        let mut j: usize = 0;
        while j < self.answer.len()
            invariant
                j <= self.answer.len(),
                answers == self@.answers.map_values(|a: RecordView| a.wire()),
                bytes@ == self@.header.wire() + self@.question_section() + answers.take(
                    j as int,
                ).flatten(),
            decreases self.answer.len() - j,
        {
            let one = self.answer[j].to_be_bytes();
            proof {
                assert(answers.take(j + 1) =~= answers.take(j as int).push(one@));
                answers.take(j as int).lemma_flatten_push(one@);
            }
            append(&mut bytes, one.as_slice());
            j = j + 1;
        }
        assert(answers.take(j as int) =~= answers);
        bytes
    }
}

/// The number of entries of a section as the header holds it: the length,
/// cut down to sixteen bits.
fn count16(len: usize) -> (n: u16)
    ensures
        n == low16(len as nat),
        len <= u16::MAX ==> n == len,
{
    let n = #[verifier::truncate] (len as u16);
    assert(n == len % 0x1_0000) by (bit_vector)
        requires
            n == len as u16,
    ;
    n
}

} // verus!
