//! The DNS message codec: header, questions and answers of a wire frame.

pub mod hosts;
pub mod resolver;
pub mod utils;

use vstd::prelude::*;
use crate::dns::hosts::Hosts;
use crate::dns::resolver::{lookup, table_reply};
use crate::dns::utils::{bit_at, field_at, get_bit, get_value, set_bit, set_value, with_bit, with_field};
use crate::endian::{
    be16, be16_bytes, be32, be32_bytes, copy_bytes, lemma_be16_bytes, lemma_be16_value,
    lemma_be32_bytes, lemma_be32_value, push_be16, push_be32, read_be16, read_be32,
};

verus! {

/// The flags word of a header, taken apart. From the top bit down: QR,
/// OPCODE (4 bits), AA, TC, RD, RA, three reserved bits, RCODE (4 bits).
#[derive(Clone, Copy, Debug, PartialEq, Eq, Structural)]
pub struct Flags {
    /// Bit 15: set in a response.
    pub qr: bool,
    /// Bits 11 to 14: the kind of query.
    pub opcode: u8,
    /// Bit 10: authoritative answer.
    pub aa: bool,
    /// Bit 9: truncated.
    pub tc: bool,
    /// Bit 8: recursion desired.
    pub rd: bool,
    /// Bit 7: recursion available.
    pub ra: bool,
    /// Bits 4 to 6: reserved.
    pub rsv: u8,
    /// Bits 0 to 3: the response code.
    pub ret_code: u8,
}

impl Flags {
    /// Whether each field fits into its bits.
    pub open spec fn wf(self) -> bool {
        self.opcode < 16 && self.rsv < 8 && self.ret_code < 16
    }

    /// The flags that a word holds.
    pub open spec fn of_word(data: u16) -> Flags {
        Flags {
            qr: bit_at(data, 15),
            opcode: field_at(data, 11, 4) as u8,
            aa: bit_at(data, 10),
            tc: bit_at(data, 9),
            rd: bit_at(data, 8),
            ra: bit_at(data, 7),
            rsv: field_at(data, 4, 3) as u8,
            ret_code: field_at(data, 0, 4) as u8,
        }
    }

    /// The word that holds these flags.
    pub open spec fn word(self) -> u16 {
        let w = with_bit(0, 15, self.qr);
        let w = with_field(w, 11, 4, self.opcode as u16);
        let w = with_bit(w, 10, self.aa);
        let w = with_bit(w, 9, self.tc);
        let w = with_bit(w, 8, self.rd);
        let w = with_bit(w, 7, self.ra);
        let w = with_field(w, 4, 3, self.rsv as u16);
        with_field(w, 0, 4, self.ret_code as u16)
    }

    /// Takes a flags word apart.
    pub fn parse(data: u16) -> (flags: Flags)
        ensures
            flags == Flags::of_word(data),
            flags.wf(),
    {
        assert(field_at(data, 11, 4) < 16 && field_at(data, 4, 3) < 8 && field_at(data, 0, 4) < 16)
            by (bit_vector);
        Flags {
            qr: get_bit(data, 15),
            opcode: get_value(data, 11, 4) as u8,
            aa: get_bit(data, 10),
            tc: get_bit(data, 9),
            rd: get_bit(data, 8),
            ra: get_bit(data, 7),
            rsv: get_value(data, 4, 3) as u8,
            ret_code: get_value(data, 0, 4) as u8,
        }
    }

    /// Packs the flags into a word and gives its two octets, high first.
    pub fn to_be_bytes(&self) -> (bytes: [u8; 2])
        ensures
            bytes@ == be16_bytes(self.word()),
    {
        let mut data: u16 = 0;
        data = set_bit(data, 15, self.qr);
        data = set_value(data, 11, 4, self.opcode as u16);
        data = set_bit(data, 10, self.aa);
        data = set_bit(data, 9, self.tc);
        data = set_bit(data, 8, self.rd);
        data = set_bit(data, 7, self.ra);
        data = set_value(data, 4, 3, self.rsv as u16);
        data = set_value(data, 0, 4, self.ret_code as u16);
        let bytes: [u8; 2] = [(data / 256) as u8, (data % 256) as u8];
        assert(bytes@ == be16_bytes(self.word()));
        bytes
    }
}

/// Packing the flags of a word gives the word back.
pub proof fn lemma_flags_of_word(data: u16)
    ensures
        Flags::of_word(data).word() == data,
        Flags::of_word(data).wf(),
{
    let f = Flags::of_word(data);
    assert(field_at(data, 11, 4) < 16 && field_at(data, 4, 3) < 8 && field_at(data, 0, 4) < 16)
        by (bit_vector);
    let qr = bit_at(data, 15);
    let opcode = field_at(data, 11, 4);
    let aa = bit_at(data, 10);
    let tc = bit_at(data, 9);
    let rd = bit_at(data, 8);
    let ra = bit_at(data, 7);
    let rsv = field_at(data, 4, 3);
    let ret_code = field_at(data, 0, 4);
    assert(f.opcode as u16 == opcode && f.rsv as u16 == rsv && f.ret_code as u16 == ret_code);
    assert(with_field(
        with_field(
            with_bit(
                with_bit(
                    with_bit(with_bit(with_field(with_bit(0, 15, qr), 11, 4, opcode), 10, aa), 9, tc),
                    8,
                    rd,
                ),
                7,
                ra,
            ),
            4,
            3,
            rsv,
        ),
        0,
        4,
        ret_code,
    ) == data) by (bit_vector)
        requires
            qr == bit_at(data, 15),
            opcode == field_at(data, 11, 4),
            aa == bit_at(data, 10),
            tc == bit_at(data, 9),
            rd == bit_at(data, 8),
            ra == bit_at(data, 7),
            rsv == field_at(data, 4, 3),
            ret_code == field_at(data, 0, 4),
    ;
}

/// Taking the word of flags apart gives the flags back, where each field
/// fits into its bits.
pub proof fn lemma_flags_word(flags: Flags)
    requires
        flags.wf(),
    ensures
        Flags::of_word(flags.word()) == flags,
{
    let qr = flags.qr;
    let opcode = flags.opcode as u16;
    let aa = flags.aa;
    let tc = flags.tc;
    let rd = flags.rd;
    let ra = flags.ra;
    let rsv = flags.rsv as u16;
    let ret_code = flags.ret_code as u16;
    let w = flags.word();
    assert(w == with_field(
        with_field(
            with_bit(
                with_bit(
                    with_bit(with_bit(with_field(with_bit(0, 15, qr), 11, 4, opcode), 10, aa), 9, tc),
                    8,
                    rd,
                ),
                7,
                ra,
            ),
            4,
            3,
            rsv,
        ),
        0,
        4,
        ret_code,
    ));
    assert(bit_at(w, 15) == qr && field_at(w, 11, 4) == opcode && bit_at(w, 10) == aa && bit_at(
        w,
        9,
    ) == tc && bit_at(w, 8) == rd && bit_at(w, 7) == ra && field_at(w, 4, 3) == rsv && field_at(
        w,
        0,
        4,
    ) == ret_code) by (bit_vector)
        requires
            opcode < 16,
            rsv < 8,
            ret_code < 16,
            w == with_field(
                with_field(
                    with_bit(
                        with_bit(
                            with_bit(
                                with_bit(with_field(with_bit(0, 15, qr), 11, 4, opcode), 10, aa),
                                9,
                                tc,
                            ),
                            8,
                            rd,
                        ),
                        7,
                        ra,
                    ),
                    4,
                    3,
                    rsv,
                ),
                0,
                4,
                ret_code,
            ),
    ;
}

/// The twelve octets at the head of a message.
#[derive(Clone, Copy, Debug, PartialEq, Eq, Structural)]
pub struct Header {
    /// The transaction id, by which a client matches replies to queries.
    pub identifier: u16,
    /// The flags.
    pub flags: Flags,
    /// How many questions follow.
    pub question_count: u16,
    /// How many answers follow the questions.
    pub answer_count: u16,
    /// How many authority records follow the answers.
    pub authority_count: u16,
    /// How many additional records follow the authority records.
    pub additional_count: u16,
}

impl Header {
    /// The header that the first twelve octets of `data` hold.
    pub open spec fn of_bytes(data: Seq<u8>) -> Header
        recommends
            data.len() >= 12,
    {
        Header {
            identifier: be16(data[0], data[1]),
            flags: Flags::of_word(be16(data[2], data[3])),
            question_count: be16(data[4], data[5]),
            answer_count: be16(data[6], data[7]),
            authority_count: be16(data[8], data[9]),
            additional_count: be16(data[10], data[11]),
        }
    }

    /// The twelve octets of the header.
    pub open spec fn bytes(self) -> Seq<u8> {
        be16_bytes(self.identifier) + be16_bytes(self.flags.word()) + be16_bytes(
            self.question_count,
        ) + be16_bytes(self.answer_count) + be16_bytes(self.authority_count) + be16_bytes(
            self.additional_count,
        )
    }

    /// The header of an authoritative reply with `answer_count` answers:
    /// the transaction id, the reserved bits and the question count are
    /// kept, QR and AA are set, the other flags and both codes are zero,
    /// and no authority or additional records are announced.
    pub open spec fn reply_to(self, answer_count: u16) -> Header {
        Header {
            identifier: self.identifier,
            flags: Flags {
                qr: true,
                opcode: 0,
                aa: true,
                tc: false,
                rd: false,
                ra: false,
                rsv: self.flags.rsv,
                ret_code: 0,
            },
            question_count: self.question_count,
            answer_count: answer_count,
            authority_count: 0,
            additional_count: 0,
        }
    }

    /// Reads the header at the head of `data`.
    pub fn parse(data: &[u8]) -> (header: Header)
        requires
            data.len() >= 12,
        ensures
            header == Header::of_bytes(data@),
            header.flags.wf(),
    {
        Header {
            identifier: read_be16(data, 0),
            flags: Flags::parse(read_be16(data, 2)),
            question_count: read_be16(data, 4),
            answer_count: read_be16(data, 6),
            authority_count: read_be16(data, 8),
            additional_count: read_be16(data, 10),
        }
    }

    /// The header of the reply to a message with this header.
    pub fn reply(&self, answer_count: u16) -> (header: Header)
        ensures
            header == self.reply_to(answer_count),
    {
        Header {
            identifier: self.identifier,
            flags: Flags {
                qr: true,
                opcode: 0,
                aa: true,
                tc: false,
                rd: false,
                ra: false,
                rsv: self.flags.rsv,
                ret_code: 0,
            },
            question_count: self.question_count,
            answer_count,
            authority_count: 0,
            additional_count: 0,
        }
    }

    /// The twelve octets of the header.
    pub fn stringify(&self) -> (data: Vec<u8>)
        ensures
            data@ == self.bytes(),
    {
        let mut data: Vec<u8> = Vec::new();
        push_be16(&mut data, self.identifier);
        let flags = self.flags.to_be_bytes();
        data.extend_from_slice(flags.as_slice());
        push_be16(&mut data, self.question_count);
        push_be16(&mut data, self.answer_count);
        push_be16(&mut data, self.authority_count);
        push_be16(&mut data, self.additional_count);
        assert(data@ == self.bytes());
        data
    }
}

/// Reading the octets of a header gives the header back, where each field
/// of its flags fits into its bits.
pub proof fn lemma_header_round_trip(header: Header, tail: Seq<u8>)
    requires
        header.flags.wf(),
    ensures
        header.bytes().len() == 12,
        Header::of_bytes(header.bytes() + tail) == header,
{
    lemma_flags_word(header.flags);
    lemma_be16_value(header.identifier);
    lemma_be16_value(header.flags.word());
    lemma_be16_value(header.question_count);
    lemma_be16_value(header.answer_count);
    lemma_be16_value(header.authority_count);
    lemma_be16_value(header.additional_count);
    let b = header.bytes() + tail;
    assert(b[0] == be16_bytes(header.identifier)[0]);
    assert(b[1] == be16_bytes(header.identifier)[1]);
    assert(b[2] == be16_bytes(header.flags.word())[0]);
    assert(b[3] == be16_bytes(header.flags.word())[1]);
    assert(b[4] == be16_bytes(header.question_count)[0]);
    assert(b[5] == be16_bytes(header.question_count)[1]);
    assert(b[6] == be16_bytes(header.answer_count)[0]);
    assert(b[7] == be16_bytes(header.answer_count)[1]);
    assert(b[8] == be16_bytes(header.authority_count)[0]);
    assert(b[9] == be16_bytes(header.authority_count)[1]);
    assert(b[10] == be16_bytes(header.additional_count)[0]);
    assert(b[11] == be16_bytes(header.additional_count)[1]);
}

/// How many octets the name at the head of `data` takes, its closing
/// zero octet included: the labels are walked, each by its length octet,
/// up to the first label of length zero. `None` where `data` ends first.
/// Compression pointers are not followed: an octet of `0xC0` or more
/// counts as a length like any other.
pub open spec fn name_len(data: Seq<u8>) -> Option<nat>
    decreases data.len(),
{
    if data.len() == 0 {
        None
    } else if data[0] == 0 {
        Some(1)
    } else {
        let step = data[0] as nat + 1;
        if step >= data.len() {
            None
        } else {
            match name_len(data.skip(step as int)) {
                Some(n) => Some(step + n),
                None => None,
            }
        }
    }
}

/// Whether `name` is one whole name on the wire: labels and the closing
/// zero octet, nothing behind it.
pub open spec fn is_wire_name(name: Seq<u8>) -> bool {
    name_len(name) == Some(name.len())
}

/// A question: what is asked of which name.
#[derive(Debug, PartialEq, Eq)]
pub struct Question {
    /// The name as it stood on the wire, closing zero octet included.
    pub name: Vec<u8>,
    /// The record type asked for: 1 for A, 28 for AAAA.
    pub qtype: u16,
    /// The class: 1 for the internet.
    pub class: u16,
}

/// A `Question` over sequences.
pub struct QuestionView {
    pub name: Seq<u8>,
    pub qtype: u16,
    pub class: u16,
}

impl View for Question {
    type V = QuestionView;

    open spec fn view(&self) -> QuestionView {
        QuestionView { name: self.name@, qtype: self.qtype, class: self.class }
    }
}

impl QuestionView {
    /// Whether the name is one whole name on the wire.
    pub open spec fn wf(self) -> bool {
        is_wire_name(self.name)
    }

    /// The wire form: the name, the type and the class.
    pub open spec fn bytes(self) -> Seq<u8> {
        self.name + be16_bytes(self.qtype) + be16_bytes(self.class)
    }
}

/// The question at the head of `data` and the octets it takes, or `None`
/// where `data` ends first.
pub open spec fn question_at(data: Seq<u8>) -> Option<(QuestionView, nat)> {
    match name_len(data) {
        None => None,
        Some(len) => {
            let n = len as int;
            if data.len() < n + 4 {
                None
            } else {
                Some(
                    (
                        QuestionView {
                            name: data.take(n),
                            qtype: be16(data[n], data[n + 1]),
                            class: be16(data[n + 2], data[n + 3]),
                        },
                        len + 4,
                    ),
                )
            }
        },
    }
}

/// The first `count` questions of `data`, one behind the other, and the
/// octets they take together.
pub open spec fn questions_at(count: nat, data: Seq<u8>) -> Option<(Seq<QuestionView>, nat)>
    decreases count,
{
    if count == 0 {
        Some((Seq::empty(), 0))
    } else {
        match questions_at((count - 1) as nat, data) {
            None => None,
            Some((questions, used)) => match question_at(data.skip(used as int)) {
                None => None,
                Some((question, n)) => Some((questions.push(question), used + n)),
            },
        }
    }
}

/// The wire forms of questions, one behind the other.
pub open spec fn questions_bytes(questions: Seq<QuestionView>) -> Seq<u8>
    decreases questions.len(),
{
    if questions.len() == 0 {
        Seq::empty()
    } else {
        questions_bytes(questions.drop_last()) + questions.last().bytes()
    }
}

/// The views of a list of questions.
pub open spec fn questions_view(questions: Seq<Question>) -> Seq<QuestionView> {
    Seq::new(questions.len(), |i: int| questions[i]@)
}

impl Clone for Question {
    fn clone(&self) -> (copy: Question)
        ensures
            copy@ == self@,
    {
        Question { name: copy_bytes(self.name.as_slice()), qtype: self.qtype, class: self.class }
    }
}

impl Question {
    /// How many octets the name at the head of `data` takes.
    pub fn get_name_len(data: &[u8]) -> (len: Option<usize>)
        ensures
            len is Some <==> name_len(data@) is Some,
            len is Some ==> len->0 as nat == name_len(data@)->0 && len->0 <= data.len(),
    {
        let mut index: usize = 0;
        assert(data@.skip(0) == data@);
        loop
            invariant
                index <= data.len(),
                name_len(data@) == match name_len(data@.skip(index as int)) {
                    Some(n) => Some(index as nat + n),
                    None => None,
                },
            decreases data.len() - index,
        {
            if index >= data.len() {
                return None;
            }
            let ghost rest = data@.skip(index as int);
            assert(rest[0] == data@[index as int]);
            if data[index] == 0 {
                return Some(index + 1);
            }
            let step: usize = data[index] as usize + 1;
            if step >= data.len() - index {
                return None;
            }
            assert(rest.skip(step as int) == data@.skip(index + step));
            index = index + step;
        }
    }

    /// Reads the question at the head of `data` and says how many octets
    /// it took.
    pub fn parse(data: &[u8]) -> (parsed: Option<(Question, usize)>)
        ensures
            match parsed {
                Some((question, used)) => question_at(data@) == Some((question@, used as nat))
                    && used <= data.len(),
                None => question_at(data@) is None,
            },
    {
        let name_len = match Question::get_name_len(data) {
            Some(n) => n,
            None => {
                return None;
            },
        };
        if data.len() - name_len < 4 {
            return None;
        }
        let question = Question {
            name: copy_bytes(&data[0..name_len]),
            qtype: read_be16(data, name_len),
            class: read_be16(data, name_len + 2),
        };
        assert(data@.subrange(0, name_len as int) == data@.take(name_len as int));
        Some((question, name_len + 4))
    }

    /// Reads `count` questions, one behind the other, and says how many
    /// octets they took.
    pub fn parse_many(count: u16, data: &[u8]) -> (parsed: Option<(Vec<Question>, usize)>)
        ensures
            match parsed {
                Some((questions, used)) => questions_at(count as nat, data@) == Some(
                    (questions_view(questions@), used as nat),
                ) && used <= data.len(),
                None => questions_at(count as nat, data@) is None,
            },
    {
        let mut last: usize = 0;
        let mut questions: Vec<Question> = Vec::new();
        let mut i: u16 = 0;
        assert(questions_view(questions@) == Seq::<QuestionView>::empty());
        while i < count
            invariant
                i <= count,
                last <= data.len(),
                questions_at(i as nat, data@) == Some((questions_view(questions@), last as nat)),
            decreases count - i,
        {
            let rest = &data[last..data.len()];
            assert(rest@ == data@.skip(last as int));
            match Question::parse(rest) {
                None => {
                    proof {
                        lemma_questions_stop(i as nat, count as nat, data@);
                    }
                    return None;
                },
                Some((question, len)) => {
                    let ghost before = questions_view(questions@);
                    questions.push(question);
                    assert(questions_view(questions@) == before.push(question@));
                    last = last + len;
                    i = i + 1;
                },
            }
        }
        Some((questions, last))
    }

    /// The wire form of the question.
    pub fn stringify(&self) -> (data: Vec<u8>)
        ensures
            data@ == self@.bytes(),
    {
        let mut data: Vec<u8> = Vec::new();
        data.extend_from_slice(self.name.as_slice());
        push_be16(&mut data, self.qtype);
        push_be16(&mut data, self.class);
        data
    }
}

/// Where the first `i` questions can be read and the next cannot, no
/// larger number of questions can.
proof fn lemma_questions_stop(i: nat, count: nat, data: Seq<u8>)
    requires
        i < count,
        questions_at(i, data) matches Some((_, used)) && question_at(data.skip(used as int))
            is None,
    ensures
        questions_at(count, data) is None,
    decreases count,
{
    if count == i + 1 {
    } else {
        lemma_questions_stop(i, (count - 1) as nat, data);
    }
}

/// An answer: a resource record.
#[derive(Clone, Debug, PartialEq, Eq)]
pub struct Answer {
    /// The name as it stands on the wire, closing zero octet included.
    pub name: Vec<u8>,
    /// The record type: 1 for A, 28 for AAAA.
    pub rtype: u16,
    /// The class: 1 for the internet.
    pub class: u16,
    /// For how many seconds the record may be kept.
    pub ttl: u32,
    /// The length of the record data.
    pub resource_data_length: u16,
    /// The record data.
    pub resource_data: Vec<u8>,
}

/// An `Answer` over sequences.
pub struct AnswerView {
    pub name: Seq<u8>,
    pub rtype: u16,
    pub class: u16,
    pub ttl: u32,
    pub resource_data_length: u16,
    pub resource_data: Seq<u8>,
}

impl View for Answer {
    type V = AnswerView;

    open spec fn view(&self) -> AnswerView {
        AnswerView {
            name: self.name@,
            rtype: self.rtype,
            class: self.class,
            ttl: self.ttl,
            resource_data_length: self.resource_data_length,
            resource_data: self.resource_data@,
        }
    }
}

impl AnswerView {
    /// Whether the name is one whole name on the wire and the length is
    /// that of the record data.
    pub open spec fn wf(self) -> bool {
        is_wire_name(self.name) && self.resource_data_length == self.resource_data.len()
    }

    /// The wire form: name, type, class, time to live, length and data.
    pub open spec fn bytes(self) -> Seq<u8> {
        self.name + be16_bytes(self.rtype) + be16_bytes(self.class) + be32_bytes(self.ttl)
            + be16_bytes(self.resource_data_length) + self.resource_data
    }

    /// The answer to `question` with the given time to live and record
    /// data. The length field holds the length of the data modulo 65536.
    pub open spec fn build(question: QuestionView, ttl: u32, value: Seq<u8>) -> AnswerView {
        AnswerView {
            name: question.name,
            rtype: question.qtype,
            class: question.class,
            ttl: ttl,
            resource_data_length: (value.len() % 0x1_0000) as u16,
            resource_data: value,
        }
    }
}

/// The answer at the head of `data` and the octets it takes, or `None`
/// where `data` ends first: name, type and class as in a question, then
/// four octets of time to live, two of length, and that many of data.
pub open spec fn answer_at(data: Seq<u8>) -> Option<(AnswerView, nat)> {
    match question_at(data) {
        None => None,
        Some((question, used)) => {
            let n = used as int;
            if data.len() < n + 6 {
                None
            } else {
                let length = be16(data[n + 4], data[n + 5]);
                if data.len() < n + 6 + length {
                    None
                } else {
                    Some(
                        (
                            AnswerView {
                                name: question.name,
                                rtype: question.qtype,
                                class: question.class,
                                ttl: be32(data[n], data[n + 1], data[n + 2], data[n + 3]),
                                resource_data_length: length,
                                resource_data: data.subrange(n + 6, n + 6 + length),
                            },
                            used + 6 + length as nat,
                        ),
                    )
                }
            }
        },
    }
}

/// The first `count` answers of `data`, one behind the other, and the
/// octets they take together.
pub open spec fn answers_at(count: nat, data: Seq<u8>) -> Option<(Seq<AnswerView>, nat)>
    decreases count,
{
    if count == 0 {
        Some((Seq::empty(), 0))
    } else {
        match answers_at((count - 1) as nat, data) {
            None => None,
            Some((answers, used)) => match answer_at(data.skip(used as int)) {
                None => None,
                Some((answer, n)) => Some((answers.push(answer), used + n)),
            },
        }
    }
}

/// The wire forms of answers, one behind the other.
pub open spec fn answers_bytes(answers: Seq<AnswerView>) -> Seq<u8>
    decreases answers.len(),
{
    if answers.len() == 0 {
        Seq::empty()
    } else {
        answers_bytes(answers.drop_last()) + answers.last().bytes()
    }
}

/// The views of a list of answers.
pub open spec fn answers_view(answers: Seq<Answer>) -> Seq<AnswerView> {
    Seq::new(answers.len(), |i: int| answers[i]@)
}

impl Answer {
    /// Reads the answer at the head of `data` and says how many octets
    /// it took.
    pub fn parse(data: &[u8]) -> (parsed: Option<(Answer, usize)>)
        ensures
            match parsed {
                Some((answer, used)) => answer_at(data@) == Some((answer@, used as nat))
                    && used <= data.len(),
                None => answer_at(data@) is None,
            },
    {
        let (question, len) = match Question::parse(data) {
            Some(parsed) => parsed,
            None => {
                return None;
            },
        };
        if data.len() - len < 6 {
            return None;
        }
        let resource_data_length = read_be16(data, len + 4);
        if data.len() - len - 6 < resource_data_length as usize {
            return None;
        }
        let end: usize = len + 6 + resource_data_length as usize;
        let answer = Answer {
            ttl: read_be32(data, len),
            resource_data_length,
            resource_data: copy_bytes(&data[len + 6..end]),
            name: question.name,
            class: question.class,
            rtype: question.qtype,
        };
        Some((answer, end))
    }

    /// Reads `count` answers, one behind the other, and says how many
    /// octets they took.
    pub fn parse_many(count: u16, data: &[u8]) -> (parsed: Option<(Vec<Answer>, usize)>)
        ensures
            match parsed {
                Some((answers, used)) => answers_at(count as nat, data@) == Some(
                    (answers_view(answers@), used as nat),
                ) && used <= data.len(),
                None => answers_at(count as nat, data@) is None,
            },
    {
        let mut last: usize = 0;
        let mut answers: Vec<Answer> = Vec::new();
        let mut i: u16 = 0;
        assert(answers_view(answers@) == Seq::<AnswerView>::empty());
        while i < count
            invariant
                i <= count,
                last <= data.len(),
                answers_at(i as nat, data@) == Some((answers_view(answers@), last as nat)),
            decreases count - i,
        {
            let rest = &data[last..data.len()];
            assert(rest@ == data@.skip(last as int));
            match Answer::parse(rest) {
                None => {
                    proof {
                        lemma_answers_stop(i as nat, count as nat, data@);
                    }
                    return None;
                },
                Some((answer, len)) => {
                    let ghost before = answers_view(answers@);
                    answers.push(answer);
                    assert(answers_view(answers@) == before.push(answer@));
                    last = last + len;
                    i = i + 1;
                },
            }
        }
        Some((answers, last))
    }

    /// The answer to `question` with the given time to live and record
    /// data.
    pub fn build(question: &Question, ttl: u32, value: &[u8]) -> (answer: Answer)
        ensures
            answer@ == AnswerView::build(question@, ttl, value@),
    {
        let length: usize = value.len() % 0x1_0000;
        Answer {
            name: copy_bytes(question.name.as_slice()),
            rtype: question.qtype,
            class: question.class,
            ttl,
            resource_data_length: length as u16,
            resource_data: copy_bytes(value),
        }
    }

    /// The wire form of the answer.
    pub fn stringify(&self) -> (data: Vec<u8>)
        ensures
            data@ == self@.bytes(),
    {
        let mut data: Vec<u8> = Vec::new();
        data.extend_from_slice(self.name.as_slice());
        push_be16(&mut data, self.rtype);
        push_be16(&mut data, self.class);
        push_be32(&mut data, self.ttl);
        push_be16(&mut data, self.resource_data_length);
        data.extend_from_slice(self.resource_data.as_slice());
        data
    }
}

/// Where the first `i` answers can be read and the next cannot, no larger
/// number of answers can.
proof fn lemma_answers_stop(i: nat, count: nat, data: Seq<u8>)
    requires
        i < count,
        answers_at(i, data) matches Some((_, used)) && answer_at(data.skip(used as int)) is None,
    ensures
        answers_at(count, data) is None,
    decreases count,
{
    if count == i + 1 {
    } else {
        lemma_answers_stop(i, (count - 1) as nat, data);
    }
}

/// A DNS message: header, questions and answers; what follows the
/// answers (authority and additional records) is kept as it came, unread.
#[derive(Clone, Debug, PartialEq, Eq)]
pub struct Frame {
    /// The header.
    pub header: Header,
    /// The questions, in the order of the wire.
    pub question: Vec<Question>,
    /// The answers, in the order of the wire.
    pub answer: Vec<Answer>,
    /// The octets behind the answers.
    pub rest: Vec<u8>,
}

/// A `Frame` over sequences.
pub struct FrameView {
    pub header: Header,
    pub question: Seq<QuestionView>,
    pub answer: Seq<AnswerView>,
    pub rest: Seq<u8>,
}

impl View for Frame {
    type V = FrameView;

    open spec fn view(&self) -> FrameView {
        FrameView {
            header: self.header,
            question: questions_view(self.question@),
            answer: answers_view(self.answer@),
            rest: self.rest@,
        }
    }
}

impl FrameView {
    /// Whether the frame can stand on the wire as it is: the fields of
    /// the flags fit into their bits, the counts of the header are the
    /// numbers of questions and answers, and every question and answer is
    /// well formed.
    pub open spec fn wf(self) -> bool {
        &&& self.header.flags.wf()
        &&& self.header.question_count == self.question.len()
        &&& self.header.answer_count == self.answer.len()
        &&& forall|i: int| 0 <= i < self.question.len() ==> (#[trigger] self.question[i]).wf()
        &&& forall|i: int| 0 <= i < self.answer.len() ==> (#[trigger] self.answer[i]).wf()
    }

    /// The wire form: the header, then each question, then each answer.
    pub open spec fn bytes(self) -> Seq<u8> {
        self.header.bytes() + questions_bytes(self.question) + answers_bytes(self.answer)
    }

    /// The reply to this frame with the given answers: a reply header
    /// that counts the answers (modulo 65536), the questions unchanged,
    /// and nothing behind the answers.
    pub open spec fn reply(self, answers: Seq<AnswerView>) -> FrameView {
        FrameView {
            header: self.header.reply_to((answers.len() % 0x1_0000) as u16),
            question: self.question,
            answer: answers,
            rest: Seq::empty(),
        }
    }
}

/// The frame that `data` holds: twelve octets of header, as many
/// questions as the header counts, as many answers as it counts, and the
/// rest. `None` where `data` ends before the last answer does.
pub open spec fn frame_at(data: Seq<u8>) -> Option<FrameView> {
    if data.len() < 12 {
        None
    } else {
        let header = Header::of_bytes(data);
        match questions_at(header.question_count as nat, data.skip(12)) {
            None => None,
            Some((questions, used)) => match answers_at(
                header.answer_count as nat,
                data.skip(12 + used as int),
            ) {
                None => None,
                Some((answers, more)) => Some(
                    FrameView {
                        header: header,
                        question: questions,
                        answer: answers,
                        rest: data.skip(12 + used as int + more as int),
                    },
                ),
            },
        }
    }
}

impl Frame {
    /// Reads a message, or `None` where `data` ends before the last
    /// answer does.
    pub fn try_parse(data: &[u8]) -> (frame: Option<Frame>)
        ensures
            match frame {
                Some(f) => frame_at(data@) == Some(f@),
                None => frame_at(data@) is None,
            },
    {
        if data.len() < 12 {
            return None;
        }
        let header = Header::parse(data);
        let after_header = &data[12..data.len()];
        assert(after_header@ == data@.skip(12));
        let (questions, len) = match Question::parse_many(header.question_count, after_header) {
            Some(parsed) => parsed,
            None => {
                return None;
            },
        };
        let after_questions = &data[12 + len..data.len()];
        assert(after_questions@ == data@.skip(12 + len));
        let (answers, more) = match Answer::parse_many(header.answer_count, after_questions) {
            Some(parsed) => parsed,
            None => {
                return None;
            },
        };
        let rest = copy_bytes(&data[12 + len + more..data.len()]);
        assert(rest@ == data@.skip(12 + len + more));
        Some(Frame { header, question: questions, answer: answers, rest })
    }

    /// Reads a message that holds all that its header counts.
    pub fn parse(data: &[u8]) -> (frame: Frame)
        requires
            frame_at(data@) is Some,
        ensures
            frame_at(data@) == Some(frame@),
    {
        match Frame::try_parse(data) {
            Some(frame) => frame,
            None => vstd::pervasive::unreached(),
        }
    }

    /// The reply to this message with the given answers.
    pub fn create_reply(&self, answers: Vec<Answer>) -> (reply: Frame)
        ensures
            reply@ == self@.reply(answers_view(answers@)),
    {
        let count: usize = answers.len() % 0x1_0000;
        let mut question: Vec<Question> = Vec::new();
        let mut i: usize = 0;
        while i < self.question.len()
            invariant
                i <= self.question.len(),
                questions_view(question@) == questions_view(self.question@).take(i as int),
            decreases self.question.len() - i,
        {
            let ghost before = questions_view(question@);
            let copy = self.question[i].clone();
            question.push(copy);
            assert(questions_view(question@) == before.push(copy@));
            i = i + 1;
        }
        assert(questions_view(self.question@).take(self.question.len() as int)
            == questions_view(self.question@));
        Frame {
            header: self.header.reply(count as u16),
            question,
            answer: answers,
            rest: Vec::new(),
        }
    }

    /// The wire form of the message: the header, then each question and
    /// each answer in order.
    pub fn stringify(&self) -> (data: Vec<u8>)
        ensures
            data@ == self@.bytes(),
    {
        let mut data = self.header.stringify();
        let mut i: usize = 0;
        while i < self.question.len()
            invariant
                i <= self.question.len(),
                data@ == self.header.bytes() + questions_bytes(
                    questions_view(self.question@).take(i as int),
                ),
            decreases self.question.len() - i,
        {
            let mut question = self.question[i].stringify();
            data.append(&mut question);
            proof {
                let all = questions_view(self.question@);
                assert(all.take(i + 1).drop_last() == all.take(i as int));
            }
            i = i + 1;
        }
        assert(questions_view(self.question@).take(self.question.len() as int)
            == questions_view(self.question@));
        let ghost head = data@;
        let mut j: usize = 0;
        while j < self.answer.len()
            invariant
                j <= self.answer.len(),
                head == self.header.bytes() + questions_bytes(questions_view(self.question@)),
                data@ == head + answers_bytes(answers_view(self.answer@).take(j as int)),
            decreases self.answer.len() - j,
        {
            let mut answer = self.answer[j].stringify();
            data.append(&mut answer);
            proof {
                let all = answers_view(self.answer@);
                assert(all.take(j + 1).drop_last() == all.take(j as int));
            }
            j = j + 1;
        }
        assert(answers_view(self.answer@).take(self.answer.len() as int) == answers_view(
            self.answer@,
        ));
        data
    }
}

/// A whole name at the head of a byte string is read as that name,
/// whatever follows it.
pub proof fn lemma_name_prefix(name: Seq<u8>, tail: Seq<u8>)
    requires
        is_wire_name(name),
    ensures
        name_len(name + tail) == Some(name.len()),
    decreases name.len(),
{
    let data = name + tail;
    assert(data[0] == name[0]);
    if name[0] != 0 {
        let step = name[0] as int + 1;
        assert(data.skip(step) == name.skip(step) + tail);
        lemma_name_prefix(name.skip(step), tail);
    }
}

/// Reading the wire form of a well-formed question gives the question
/// back, whatever follows it.
pub proof fn lemma_question_round_trip(question: QuestionView, tail: Seq<u8>)
    requires
        question.wf(),
    ensures
        question_at(question.bytes() + tail) == Some((question, question.bytes().len())),
{
    let data = question.bytes() + tail;
    let n = question.name.len() as int;
    let kind = be16_bytes(question.qtype);
    let class = be16_bytes(question.class);
    assert(data =~= question.name + (kind + class + tail));
    lemma_name_prefix(question.name, kind + class + tail);
    lemma_be16_value(question.qtype);
    lemma_be16_value(question.class);
    assert(data.take(n) =~= question.name);
    assert(data[n] == kind[0] && data[n + 1] == kind[1]);
    assert(data[n + 2] == class[0] && data[n + 3] == class[1]);
}

/// Reading the wire forms of well-formed questions gives the questions
/// back, whatever follows them.
pub proof fn lemma_questions_round_trip(questions: Seq<QuestionView>, tail: Seq<u8>)
    requires
        forall|i: int| 0 <= i < questions.len() ==> (#[trigger] questions[i]).wf(),
    ensures
        questions_at(questions.len(), questions_bytes(questions) + tail) == Some(
            (questions, questions_bytes(questions).len()),
        ),
    decreases questions.len(),
{
    if questions.len() > 0 {
        let front = questions.drop_last();
        let last = questions.last();
        let data = questions_bytes(questions) + tail;
        assert(data == questions_bytes(front) + (last.bytes() + tail));
        assert forall|i: int| 0 <= i < front.len() implies (#[trigger] front[i]).wf() by {
            assert(front[i] == questions[i]);
        }
        lemma_questions_round_trip(front, last.bytes() + tail);
        assert(data.skip(questions_bytes(front).len() as int) == last.bytes() + tail);
        lemma_question_round_trip(last, tail);
        assert(front.push(last) == questions);
    }
}

/// Reading the wire form of a well-formed answer gives the answer back,
/// whatever follows it.
pub proof fn lemma_answer_round_trip(answer: AnswerView, tail: Seq<u8>)
    requires
        answer.wf(),
    ensures
        answer_at(answer.bytes() + tail) == Some((answer, answer.bytes().len())),
{
    let data = answer.bytes() + tail;
    let question = QuestionView { name: answer.name, qtype: answer.rtype, class: answer.class };
    let ttl = be32_bytes(answer.ttl);
    let len = be16_bytes(answer.resource_data_length);
    let behind = ttl + len + answer.resource_data + tail;
    assert(data =~= question.bytes() + behind);
    lemma_question_round_trip(question, behind);
    lemma_be32_value(answer.ttl);
    lemma_be16_value(answer.resource_data_length);
    let n = question.bytes().len() as int;
    assert(data[n] == ttl[0] && data[n + 1] == ttl[1] && data[n + 2] == ttl[2] && data[n + 3]
        == ttl[3]);
    assert(data[n + 4] == len[0] && data[n + 5] == len[1]);
    assert(data.subrange(n + 6, n + 6 + answer.resource_data_length) =~= answer.resource_data);
}

/// Reading the wire forms of well-formed answers gives the answers back,
/// whatever follows them.
pub proof fn lemma_answers_round_trip(answers: Seq<AnswerView>, tail: Seq<u8>)
    requires
        forall|i: int| 0 <= i < answers.len() ==> (#[trigger] answers[i]).wf(),
    ensures
        answers_at(answers.len(), answers_bytes(answers) + tail) == Some(
            (answers, answers_bytes(answers).len()),
        ),
    decreases answers.len(),
{
    if answers.len() > 0 {
        let front = answers.drop_last();
        let last = answers.last();
        let data = answers_bytes(answers) + tail;
        assert(data == answers_bytes(front) + (last.bytes() + tail));
        assert forall|i: int| 0 <= i < front.len() implies (#[trigger] front[i]).wf() by {
            assert(front[i] == answers[i]);
        }
        lemma_answers_round_trip(front, last.bytes() + tail);
        assert(data.skip(answers_bytes(front).len() as int) == last.bytes() + tail);
        lemma_answer_round_trip(last, tail);
        assert(front.push(last) == answers);
    }
}

/// Reading the wire form of a well-formed frame gives back its header,
/// its questions and its answers, each as it was, and nothing behind
/// them.
pub proof fn lemma_frame_round_trip(frame: FrameView)
    requires
        frame.wf(),
    ensures
        frame_at(frame.bytes()) == Some(
            FrameView {
                header: frame.header,
                question: frame.question,
                answer: frame.answer,
                rest: Seq::empty(),
            },
        ),
{
    let data = frame.bytes();
    let questions = questions_bytes(frame.question);
    let answers = answers_bytes(frame.answer);
    assert(data == frame.header.bytes() + (questions + answers));
    lemma_header_round_trip(frame.header, questions + answers);
    assert(data.skip(12) == questions + answers);
    lemma_questions_round_trip(frame.question, answers);
    assert(data.skip(12 + questions.len() as int) == answers + Seq::<u8>::empty());
    lemma_answers_round_trip(frame.answer, Seq::empty());
    assert(data.skip(12 + questions.len() as int + answers.len() as int) == Seq::<u8>::empty());
}

/// Answers a query from the hosts table alone: the reply holds the
/// answers of the table to each question, which may be none.
pub fn handle(hosts: &Hosts, data: &[u8]) -> (reply: Vec<u8>)
    requires
        frame_at(data@) is Some,
    ensures
        reply@ == table_reply(hosts@, frame_at(data@)->0).bytes(),
{
    let frame = Frame::parse(data);
    let answers = lookup(hosts, &frame);
    let reply_frame = frame.create_reply(answers);
    reply_frame.stringify()
}

/// The reply to a well-formed frame with well-formed answers, at most
/// 65535 of them, is well formed.
pub proof fn lemma_reply_wf(frame: FrameView, answers: Seq<AnswerView>)
    requires
        frame.wf(),
        answers.len() <= 0xFFFF,
        forall|i: int| 0 <= i < answers.len() ==> (#[trigger] answers[i]).wf(),
    ensures
        frame.reply(answers).wf(),
        frame.reply(answers).header.identifier == frame.header.identifier,
{
}

/// The name that is read at the head of a byte string is one whole name
/// and lies within the byte string.
pub proof fn lemma_name_read(data: Seq<u8>)
    requires
        name_len(data) is Some,
    ensures
        name_len(data)->0 <= data.len(),
        is_wire_name(data.take(name_len(data)->0 as int)),
    decreases data.len(),
{
    let n = name_len(data)->0 as int;
    if data[0] == 0 {
        assert(data.take(1)[0] == 0);
    } else {
        let step = data[0] as int + 1;
        let rest = data.skip(step);
        lemma_name_read(rest);
        let name = data.take(n);
        assert(name[0] == data[0]);
        assert(name.skip(step) == rest.take(n - step));
    }
}

/// The question that is read at the head of a byte string is well formed,
/// and its wire form is what was read.
pub proof fn lemma_question_read(data: Seq<u8>)
    requires
        question_at(data) is Some,
    ensures
        ({
            let (question, used) = question_at(data)->0;
            &&& used <= data.len()
            &&& question.wf()
            &&& question.bytes() == data.take(used as int)
        }),
{
    lemma_name_read(data);
    let (question, used) = question_at(data)->0;
    let n = name_len(data)->0 as int;
    lemma_be16_bytes(data[n], data[n + 1]);
    lemma_be16_bytes(data[n + 2], data[n + 3]);
    let kind = seq![data[n], data[n + 1]];
    let class = seq![data[n + 2], data[n + 3]];
    assert(question.bytes() == data.take(n) + kind + class);
    assert(data.take(n) + kind + class =~= data.take(n + 4));
}

/// The questions that are read at the head of a byte string are as many
/// as were asked for and well formed, and their wire forms are what was
/// read.
pub proof fn lemma_questions_read(count: nat, data: Seq<u8>)
    requires
        questions_at(count, data) is Some,
    ensures
        ({
            let (questions, used) = questions_at(count, data)->0;
            &&& used <= data.len()
            &&& questions.len() == count
            &&& forall|i: int| 0 <= i < questions.len() ==> (#[trigger] questions[i]).wf()
            &&& questions_bytes(questions) == data.take(used as int)
        }),
    decreases count,
{
    if count > 0 {
        lemma_questions_read((count - 1) as nat, data);
        let (front, before) = questions_at((count - 1) as nat, data)->0;
        let rest = data.skip(before as int);
        lemma_question_read(rest);
        let (last, n) = question_at(rest)->0;
        let (questions, used) = questions_at(count, data)->0;
        assert(questions == front.push(last));
        assert(questions.drop_last() == front);
        assert(questions_bytes(questions) == questions_bytes(front) + last.bytes());
        assert(data.take(before as int) + rest.take(n as int) =~= data.take(used as int));
        assert forall|i: int| 0 <= i < questions.len() implies (#[trigger] questions[i]).wf() by {
            if i < front.len() {
                assert(questions[i] == front[i]);
            }
        }
    } else {
        assert(data.take(0) =~= Seq::<u8>::empty());
    }
}

/// The answer that is read at the head of a byte string is well formed,
/// and its wire form is what was read.
pub proof fn lemma_answer_read(data: Seq<u8>)
    requires
        answer_at(data) is Some,
    ensures
        ({
            let (answer, used) = answer_at(data)->0;
            &&& used <= data.len()
            &&& answer.wf()
            &&& answer.bytes() == data.take(used as int)
        }),
{
    lemma_question_read(data);
    let (question, taken) = question_at(data)->0;
    let n = taken as int;
    let (answer, used) = answer_at(data)->0;
    let length = be16(data[n + 4], data[n + 5]);
    lemma_be32_bytes(data[n], data[n + 1], data[n + 2], data[n + 3]);
    lemma_be16_bytes(data[n + 4], data[n + 5]);
    let ttl = seq![data[n], data[n + 1], data[n + 2], data[n + 3]];
    let len = seq![data[n + 4], data[n + 5]];
    let rdata = data.subrange(n + 6, n + 6 + length);
    assert(answer.name + be16_bytes(answer.rtype) + be16_bytes(answer.class) == question.bytes());
    assert(answer.bytes() == data.take(n) + ttl + len + rdata);
    assert(data.take(n) + ttl =~= data.take(n + 4));
    assert(data.take(n + 4) + len =~= data.take(n + 6));
    assert(data.take(n + 6) + rdata =~= data.take(n + 6 + length));
}

/// The answers that are read at the head of a byte string are as many as
/// were asked for and well formed, and their wire forms are what was
/// read.
pub proof fn lemma_answers_read(count: nat, data: Seq<u8>)
    requires
        answers_at(count, data) is Some,
    ensures
        ({
            let (answers, used) = answers_at(count, data)->0;
            &&& used <= data.len()
            &&& answers.len() == count
            &&& forall|i: int| 0 <= i < answers.len() ==> (#[trigger] answers[i]).wf()
            &&& answers_bytes(answers) == data.take(used as int)
        }),
    decreases count,
{
    if count > 0 {
        lemma_answers_read((count - 1) as nat, data);
        let (front, before) = answers_at((count - 1) as nat, data)->0;
        let rest = data.skip(before as int);
        lemma_answer_read(rest);
        let (last, n) = answer_at(rest)->0;
        let (answers, used) = answers_at(count, data)->0;
        assert(answers == front.push(last));
        assert(answers.drop_last() == front);
        assert(answers_bytes(answers) == answers_bytes(front) + last.bytes());
        assert(data.take(before as int) + rest.take(n as int) =~= data.take(used as int));
        assert forall|i: int| 0 <= i < answers.len() implies (#[trigger] answers[i]).wf() by {
            if i < front.len() {
                assert(answers[i] == front[i]);
            }
        }
    } else {
        assert(data.take(0) =~= Seq::<u8>::empty());
    }
}

/// The octets of the header that is read at the head of a byte string
/// are the first twelve of the byte string.
pub proof fn lemma_header_read(data: Seq<u8>)
    requires
        data.len() >= 12,
    ensures
        Header::of_bytes(data).flags.wf(),
        Header::of_bytes(data).bytes() == data.take(12),
{
    lemma_flags_of_word(be16(data[2], data[3]));
    lemma_be16_bytes(data[0], data[1]);
    lemma_be16_bytes(data[2], data[3]);
    lemma_be16_bytes(data[4], data[5]);
    lemma_be16_bytes(data[6], data[7]);
    lemma_be16_bytes(data[8], data[9]);
    lemma_be16_bytes(data[10], data[11]);
    assert(seq![data[0], data[1]] + seq![data[2], data[3]] + seq![data[4], data[5]] + seq![
        data[6],
        data[7],
    ] + seq![data[8], data[9]] + seq![data[10], data[11]] =~= data.take(12));
}

/// The frame that is read from a byte string is well formed, and its wire
/// form with what it keeps unread behind it is the byte string.
pub proof fn lemma_frame_read(data: Seq<u8>)
    requires
        frame_at(data) is Some,
    ensures
        (frame_at(data)->0).wf(),
        (frame_at(data)->0).bytes() + (frame_at(data)->0).rest == data,
{
    let frame = frame_at(data)->0;
    lemma_header_read(data);
    let after_header = data.skip(12);
    lemma_questions_read(frame.header.question_count as nat, after_header);
    let (questions, used) = questions_at(frame.header.question_count as nat, after_header)->0;
    let after_questions = data.skip(12 + used as int);
    lemma_answers_read(frame.header.answer_count as nat, after_questions);
    let (answers, more) = answers_at(frame.header.answer_count as nat, after_questions)->0;
    assert(frame.bytes() + frame.rest =~= data) by {
        assert(frame.header.bytes() == data.take(12));
        assert(questions_bytes(questions) == after_header.take(used as int));
        assert(answers_bytes(answers) == after_questions.take(more as int));
        assert(frame.rest == data.skip(12 + used as int + more as int));
    }
}

} // verus!
