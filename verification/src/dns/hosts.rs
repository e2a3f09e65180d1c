//! The hosts table: address records by name and type, as the hosts file
//! of the system gives them.

use vstd::prelude::*;
use vstd::string::*;
use crate::address::IpAddress;
use crate::dns::utils::{transform_domain, wire_name};
use crate::dns::{answers_view, Answer, AnswerView, Question, QuestionView};
use crate::endian::{copy_bytes, same_bytes};
use crate::text::{config_lines, line_pairs, pairs_view};

verus! {

/// For how many seconds an answer from the hosts table may be kept.
pub const TTL: u32 = 600;

/// The record types that the table serves.
#[derive(Clone, Copy, Debug, PartialEq, Eq, Structural)]
pub enum RecordType {
    /// An IPv4 address: type 1.
    A,
    /// An IPv6 address: type 28.
    AAAA,
}

impl RecordType {
    /// The number of the type on the wire.
    pub open spec fn spec_code(self) -> u16 {
        match self {
            RecordType::A => 1,
            RecordType::AAAA => 28,
        }
    }

    /// The number of the type on the wire.
    #[verifier::when_used_as_spec(spec_code)]
    pub fn code(self) -> (c: u16)
        ensures
            c == self.spec_code(),
    {
        match self {
            RecordType::A => 1,
            RecordType::AAAA => 28,
        }
    }

    /// The type of the record that holds `address`.
    pub open spec fn of(address: IpAddress) -> RecordType {
        match address {
            IpAddress::V4(_) => RecordType::A,
            IpAddress::V6(_) => RecordType::AAAA,
        }
    }
}

/// A line of the hosts file: an address and the first name behind it,
/// both as they are written.
#[derive(Clone, Debug, PartialEq, Eq)]
pub struct HostLine {
    /// The address, as text.
    pub address: String,
    /// The name, dotted.
    pub name: String,
}

/// A `HostLine` over sequences.
pub struct HostLineView {
    pub address: Seq<char>,
    pub name: Seq<char>,
}

impl View for HostLine {
    type V = HostLineView;

    open spec fn view(&self) -> HostLineView {
        HostLineView { address: self.address@, name: self.name@ }
    }
}

/// The views of a list of lines.
pub open spec fn lines_view(lines: Seq<HostLine>) -> Seq<HostLineView> {
    Seq::new(lines.len(), |i: int| lines[i]@)
}

/// The lines of a hosts file: of each line that is not empty and no
/// comment and has at least two words, the first word as the address and
/// the second as the name. Further names on a line are not read.
pub open spec fn host_lines(text: Seq<char>) -> Seq<HostLineView> {
    Seq::new(
        line_pairs(text).len(),
        |i: int| HostLineView { address: line_pairs(text)[i].0, name: line_pairs(text)[i].1 },
    )
}

/// Reads the text of a hosts file.
pub fn parse_hosts(text: &str) -> (lines: Vec<HostLine>)
    ensures
        lines_view(lines@) == host_lines(text@),
{
    let pairs = config_lines(text);
    let mut lines: Vec<HostLine> = Vec::new();
    let mut i: usize = 0;
    while i < pairs.len()
        invariant
            i <= pairs.len(),
            pairs_view(pairs@) == line_pairs(text@),
            lines_view(lines@) == host_lines(text@).take(i as int),
        decreases pairs.len() - i,
    {
        let ghost before = lines_view(lines@);
        let line = HostLine { address: pairs[i].0.clone(), name: pairs[i].1.clone() };
        assert(pairs_view(pairs@)[i as int] == (pairs@[i as int].0@, pairs@[i as int].1@));
        lines.push(line);
        assert(lines_view(lines@) == before.push(line@));
        i = i + 1;
    }
    assert(host_lines(text@).take(pairs.len() as int) == host_lines(text@));
    lines
}

/// A line of the hosts file with its address read.
#[derive(Clone, Debug, PartialEq, Eq)]
pub struct HostEntry {
    /// The name, dotted.
    pub name: String,
    /// The address.
    pub address: IpAddress,
}

/// An address record of the table.
#[derive(Clone, Debug, PartialEq, Eq)]
pub struct Record {
    /// The name in wire form.
    pub name: Vec<u8>,
    /// The record type.
    pub rtype: RecordType,
    /// The record data: four octets for A, sixteen for AAAA.
    pub value: Vec<u8>,
}

/// A `Record` over sequences.
pub struct RecordView {
    pub name: Seq<u8>,
    pub rtype: RecordType,
    pub value: Seq<u8>,
}

impl View for Record {
    type V = RecordView;

    open spec fn view(&self) -> RecordView {
        RecordView { name: self.name@, rtype: self.rtype, value: self.value@ }
    }
}

/// The record that an entry stands for: the wire form of its name, the
/// type of its address family, and the octets of its address.
pub open spec fn record_of(name: Seq<char>, address: IpAddress) -> RecordView {
    RecordView {
        name: wire_name(vstd::utf8::encode_utf8(name)),
        rtype: RecordType::of(address),
        value: address.octets(),
    }
}

/// `records` with `record` at its end, unless it is there already.
pub open spec fn with_record(records: Seq<RecordView>, record: RecordView) -> Seq<RecordView> {
    if records.contains(record) {
        records
    } else {
        records.push(record)
    }
}

/// `records` with the records of the first `n` entries, one after another.
pub open spec fn with_entries(records: Seq<RecordView>, entries: Seq<HostEntry>, n: nat) -> Seq<
    RecordView,
>
    decreases n,
{
    if n == 0 {
        records
    } else {
        with_record(
            with_entries(records, entries, (n - 1) as nat),
            record_of(entries[n - 1].name@, entries[n - 1].address),
        )
    }
}

/// The record data under `name` and the type with number `code`, in the
/// order in which the records were entered.
pub open spec fn values_for(records: Seq<RecordView>, name: Seq<u8>, code: u16) -> Seq<Seq<u8>>
    decreases records.len(),
{
    if records.len() == 0 {
        Seq::empty()
    } else {
        let front = values_for(records.drop_last(), name, code);
        let last = records.last();
        if last.name == name && last.rtype.spec_code() == code {
            front.push(last.value)
        } else {
            front
        }
    }
}

/// The answers to `question` that hold the given record data, in order.
pub open spec fn answers_for(question: QuestionView, values: Seq<Seq<u8>>) -> Seq<AnswerView> {
    Seq::new(values.len(), |i: int| AnswerView::build(question, TTL, values[i]))
}

/// The hosts table.
#[derive(Clone, Debug, PartialEq, Eq)]
pub struct Hosts {
    /// The records, in the order in which they were entered.
    pub records: Vec<Record>,
}

impl View for Hosts {
    type V = Seq<RecordView>;

    open spec fn view(&self) -> Seq<RecordView> {
        Seq::new(self.records@.len(), |i: int| self.records@[i]@)
    }
}

impl RecordView {
    /// Whether the record data has the length of its type: four octets
    /// for A, sixteen for AAAA.
    pub open spec fn wf(self) -> bool {
        match self.rtype {
            RecordType::A => self.value.len() == 4,
            RecordType::AAAA => self.value.len() == 16,
        }
    }
}

impl Hosts {
    /// Whether no record stands twice in the table and every record has
    /// data of the length of its type.
    pub open spec fn wf(&self) -> bool {
        &&& self@.no_duplicates()
        &&& forall|i: int| 0 <= i < self@.len() ==> (#[trigger] self@[i]).wf()
    }

    /// Whether the table holds the record.
    fn contains(&self, name: &[u8], rtype: RecordType, value: &[u8]) -> (found: bool)
        ensures
            found == self@.contains(RecordView { name: name@, rtype: rtype, value: value@ }),
    {
        let ghost wanted = RecordView { name: name@, rtype: rtype, value: value@ };
        let mut i: usize = 0;
        while i < self.records.len()
            invariant
                i <= self.records.len(),
                wanted == (RecordView { name: name@, rtype: rtype, value: value@ }),
                forall|k: int| 0 <= k < i ==> self@[k] != wanted,
            decreases self.records.len() - i,
        {
            let record = &self.records[i];
            if record.rtype == rtype && same_bytes(record.name.as_slice(), name) && same_bytes(
                record.value.as_slice(),
                value,
            ) {
                assert(self@[i as int] == wanted);
                return true;
            }
            assert(self@[i as int] != wanted);
            i = i + 1;
        }
        false
    }

    /// Enters the records of `entries`, in order. A record that the table
    /// holds already is not entered again.
    pub fn insert_records(&mut self, entries: &[HostEntry])
        ensures
            final(self)@ == with_entries(old(self)@, entries@, entries@.len()),
            old(self).wf() ==> final(self).wf(),
    {
        let mut i: usize = 0;
        while i < entries.len()
            invariant
                i <= entries.len(),
                self@ == with_entries(old(self)@, entries@, i as nat),
                old(self).wf() ==> self.wf(),
            decreases entries.len() - i,
        {
            let entry = &entries[i];
            let domain = transform_domain(entry.name.as_str());
            let class_type: RecordType;
            let record_value: Vec<u8>;
            match entry.address {
                IpAddress::V4(octets) => {
                    class_type = RecordType::A;
                    record_value = copy_bytes(octets.as_slice());
                },
                IpAddress::V6(octets) => {
                    class_type = RecordType::AAAA;
                    record_value = copy_bytes(octets.as_slice());
                },
            }
            let ghost record = record_of(entry.name@, entry.address);
            assert(record == (RecordView {
                name: domain@,
                rtype: class_type,
                value: record_value@,
            }));
            let ghost before = self@;
            if !self.contains(domain.as_slice(), class_type, record_value.as_slice()) {
                self.records.push(Record { name: domain, rtype: class_type, value: record_value });
                assert(self@ == before.push(record));
                proof {
                    if old(self).wf() {
                        assert forall|a: int, b: int|
                            0 <= a < self@.len() && 0 <= b < self@.len() && a != b implies self@[a]
                            != self@[b] by {
                            if a < before.len() {
                                assert(self@[a] == before[a]);
                            }
                            if b < before.len() {
                                assert(self@[b] == before[b]);
                            }
                        }
                        assert forall|a: int| 0 <= a < self@.len() implies (#[trigger] self@[a]).wf() by {
                            if a < before.len() {
                                assert(self@[a] == before[a]);
                            }
                        }
                    }
                }
            }
            i = i + 1;
        }
    }

    /// A table with the records of `entries`.
    pub fn build(entries: &[HostEntry]) -> (hosts: Hosts)
        ensures
            hosts@ == with_entries(Seq::empty(), entries@, entries@.len()),
            hosts.wf(),
    {
        let mut me = Hosts { records: Vec::new() };
        assert(me@ == Seq::<RecordView>::empty());
        me.insert_records(entries);
        me
    }

    /// The answers to `question` from the table: one for each record
    /// under the exact name and the type of the question, each with a
    /// time to live of 600 seconds. `None` where there is no such record.
    pub fn search(&self, question: &Question) -> (found: Option<Vec<Answer>>)
        ensures
            match found {
                Some(answers) => answers@.len() > 0 && answers_view(answers@) == answers_for(
                    question@,
                    values_for(self@, question@.name, question@.qtype),
                ),
                None => values_for(self@, question@.name, question@.qtype).len() == 0,
            },
    {
        let mut answers: Vec<Answer> = Vec::new();
        let mut i: usize = 0;
        assert(self@.take(0) == Seq::<RecordView>::empty());
        assert(answers_view(answers@) == answers_for(question@, Seq::empty()));
        while i < self.records.len()
            invariant
                i <= self.records.len(),
                answers_view(answers@) == answers_for(
                    question@,
                    values_for(self@.take(i as int), question@.name, question@.qtype),
                ),
                answers@.len() == values_for(
                    self@.take(i as int),
                    question@.name,
                    question@.qtype,
                ).len(),
            decreases self.records.len() - i,
        {
            let record = &self.records[i];
            proof {
                assert(self@.take(i + 1).drop_last() == self@.take(i as int));
                assert(self@.take(i + 1).last() == record@);
            }
            if record.rtype.code() == question.qtype && same_bytes(
                record.name.as_slice(),
                question.name.as_slice(),
            ) {
                let ghost before = answers_view(answers@);
                let answer = Answer::build(question, TTL, record.value.as_slice());
                answers.push(answer);
                assert(answers_view(answers@) == before.push(answer@));
            }
            i = i + 1;
        }
        assert(self@.take(self.records.len() as int) == self@);
        if answers.len() > 0 {
            Some(answers)
        } else {
            None
        }
    }
}

} // verus!
