//! The resolver: answers from the hosts table where it has any, and
//! hands the query on to an upstream name server where it has none.

use vstd::prelude::*;
use vstd::string::*;
use crate::address::{IpAddress, SocketAddress};
use crate::dns::hosts::{answers_for, values_for, Hosts, RecordView};
use crate::dns::{
    answers_view, frame_at, Answer, AnswerView, Frame, FrameView, QuestionView,
};
use crate::endian::copy_bytes;
use crate::text::{config_lines, line_pairs, pairs_view};

verus! {

/// The port of a name server.
pub const DNS_PORT: u16 = 53;

/// The most octets that are read of a query.
pub const QUERY_LIMIT: usize = 1024;

/// The most octets that are read of a datagram from upstream.
pub const UPSTREAM_LIMIT: usize = 10240;

/// How many datagrams from upstream are kept for a reader that lags.
pub const UPSTREAM_BACKLOG: usize = 10;

/// The answers of the table to the first `n` of `questions`, one
/// question after the other.
pub open spec fn lookups(records: Seq<RecordView>, questions: Seq<QuestionView>, n: nat) -> Seq<
    AnswerView,
>
    decreases n,
{
    if n == 0 {
        Seq::empty()
    } else {
        let question = questions[n - 1];
        lookups(records, questions, (n - 1) as nat) + answers_for(
            question,
            values_for(records, question.name, question.qtype),
        )
    }
}

/// What becomes of a query.
#[derive(Clone, Debug, PartialEq, Eq)]
pub enum Resolution {
    /// The table has answers: this reply goes to the client.
    Reply(Vec<u8>),
    /// The table has none: the query goes upstream as it came.
    Forward,
    /// The datagram is no whole message: nothing is sent.
    Ignore,
}

/// A `Resolution` over sequences.
pub enum ResolutionView {
    Reply(Seq<u8>),
    Forward,
    Ignore,
}

impl View for Resolution {
    type V = ResolutionView;

    open spec fn view(&self) -> ResolutionView {
        match *self {
            Resolution::Reply(data) => ResolutionView::Reply(data@),
            Resolution::Forward => ResolutionView::Forward,
            Resolution::Ignore => ResolutionView::Ignore,
        }
    }
}

/// The reply to `frame` from the table: the answers to each of its
/// questions, in a reply frame.
pub open spec fn table_reply(records: Seq<RecordView>, frame: FrameView) -> FrameView {
    frame.reply(lookups(records, frame.question, frame.question.len()))
}

/// What becomes of the query `data`: with at least one answer from the
/// table, the reply in wire form; with none, the query is forwarded; a
/// datagram that is no whole message is ignored.
pub open spec fn resolution(records: Seq<RecordView>, data: Seq<u8>) -> ResolutionView {
    match frame_at(data) {
        None => ResolutionView::Ignore,
        Some(frame) => if lookups(records, frame.question, frame.question.len()).len() == 0 {
            ResolutionView::Forward
        } else {
            ResolutionView::Reply(table_reply(records, frame).bytes())
        },
    }
}

/// Collects the answers of the table to each question of `frame`.
pub fn lookup(hosts: &Hosts, frame: &Frame) -> (answers: Vec<Answer>)
    ensures
        answers_view(answers@) == lookups(hosts@, frame@.question, frame@.question.len()),
{
    let mut answers: Vec<Answer> = Vec::new();
    let mut i: usize = 0;
    assert(answers_view(answers@) == Seq::<AnswerView>::empty());
    while i < frame.question.len()
        invariant
            i <= frame.question.len(),
            answers_view(answers@) == lookups(hosts@, frame@.question, i as nat),
        decreases frame.question.len() - i,
    {
        let question = &frame.question[i];
        assert(frame@.question[i as int] == question@);
        match hosts.search(question) {
            Some(mut results) => {
                let ghost before = answers_view(answers@);
                let ghost found = answers_view(results@);
                answers.append(&mut results);
                assert(answers_view(answers@) == before + found);
            },
            None => {
                assert(answers_for(
                    question@,
                    values_for(hosts@, question@.name, question@.qtype),
                ) == Seq::<AnswerView>::empty());
            },
        }
        i = i + 1;
    }
    answers
}

/// Decides what becomes of a query.
pub fn resolve(hosts: &Hosts, data: &[u8]) -> (outcome: Resolution)
    ensures
        outcome@ == resolution(hosts@, data@),
{
    let frame = match Frame::try_parse(data) {
        Some(frame) => frame,
        None => {
            return Resolution::Ignore;
        },
    };
    let answers = lookup(hosts, &frame);
    if answers.len() == 0 {
        return Resolution::Forward;
    }
    let reply_frame = frame.create_reply(answers);
    Resolution::Reply(reply_frame.stringify())
}

/// The second words of the first `n` pairs whose first word is
/// `nameserver`.
pub open spec fn nameservers_of(pairs: Seq<(Seq<char>, Seq<char>)>, n: nat) -> Seq<Seq<char>>
    decreases n,
{
    if n == 0 {
        Seq::empty()
    } else {
        let front = nameservers_of(pairs, (n - 1) as nat);
        if pairs[n - 1].0 == "nameserver"@ {
            front.push(pairs[n - 1].1)
        } else {
            front
        }
    }
}

/// The name servers of a resolver configuration: the word behind
/// `nameserver` of each line that starts with it, as written.
pub open spec fn nameservers(text: Seq<char>) -> Seq<Seq<char>> {
    nameservers_of(line_pairs(text), line_pairs(text).len())
}

/// The views of a list of strings.
pub open spec fn strings_view(strings: Seq<String>) -> Seq<Seq<char>> {
    Seq::new(strings.len(), |i: int| strings[i]@)
}

/// Reads the text of a resolver configuration and returns the addresses
/// of its name servers, as they are written.
pub fn parse_resolv_conf(text: &str) -> (servers: Vec<String>)
    ensures
        strings_view(servers@) == nameservers(text@),
{
    let pairs = config_lines(text);
    let keyword = String::from_str("nameserver");
    let mut servers: Vec<String> = Vec::new();
    let mut i: usize = 0;
    assert(strings_view(servers@) == Seq::<Seq<char>>::empty());
    while i < pairs.len()
        invariant
            i <= pairs.len(),
            keyword@ == "nameserver"@,
            pairs_view(pairs@) == line_pairs(text@),
            strings_view(servers@) == nameservers_of(line_pairs(text@), i as nat),
        decreases pairs.len() - i,
    {
        assert(pairs_view(pairs@)[i as int] == (pairs@[i as int].0@, pairs@[i as int].1@));
        if pairs[i].0 == keyword {
            let ghost before = strings_view(servers@);
            let server = pairs[i].1.clone();
            servers.push(server);
            assert(strings_view(servers@) == before.push(server@));
        }
        i = i + 1;
    }
    servers
}

/// Why a query could not be handed on.
#[derive(Clone, Copy, Debug, PartialEq, Eq, Structural)]
pub enum UpstreamError {
    /// No name server is configured.
    UpstreamUnavailable,
}

/// Whether `datagram` answers `query`: both hold a transaction id, and
/// it is the same.
pub open spec fn answers_query(query: Seq<u8>, datagram: Seq<u8>) -> bool {
    query.len() >= 2 && datagram.len() >= 2 && query[0] == datagram[0] && query[1] == datagram[1]
}

/// What the resolver does next.
#[derive(Clone, Debug, PartialEq, Eq)]
pub enum Step {
    /// Send these octets to the client.
    Reply(Vec<u8>),
    /// Send these octets to the name server and wait for its datagrams.
    Forward(SocketAddress, Vec<u8>),
    /// Keep waiting for datagrams of the name server.
    Wait,
    /// Send nothing.
    Nothing,
}

/// A `Step` over sequences.
pub enum StepView {
    Reply(Seq<u8>),
    Forward(SocketAddress, Seq<u8>),
    Wait,
    Nothing,
}

impl View for Step {
    type V = StepView;

    open spec fn view(&self) -> StepView {
        match *self {
            Step::Reply(data) => StepView::Reply(data@),
            Step::Forward(server, data) => StepView::Forward(server, data@),
            Step::Wait => StepView::Wait,
            Step::Nothing => StepView::Nothing,
        }
    }
}

/// The resolver: the configured name servers and the query that waits
/// for its answer from upstream, if one does. Queries are taken one at a
/// time.
#[derive(Clone, Debug, PartialEq, Eq)]
pub struct Resolver {
    /// The name servers, in the order of the configuration.
    pub servers: Vec<SocketAddress>,
    /// The query that was handed on and is not answered yet.
    pub pending: Option<Vec<u8>>,
}

impl Resolver {
    /// The query that waits for its answer, if one does.
    pub open spec fn waiting(&self) -> Option<Seq<u8>> {
        match self.pending {
            Some(query) => Some(query@),
            None => None,
        }
    }

    /// A resolver for the name servers at `addresses`, each at port 53.
    pub fn new(addresses: &[IpAddress]) -> (resolver: Resolver)
        ensures
            resolver.waiting() is None,
            resolver.servers@.len() == addresses@.len(),
            forall|i: int|
                0 <= i < addresses@.len() ==> (#[trigger] resolver.servers@[i]) == (SocketAddress {
                    ip: addresses@[i],
                    port: DNS_PORT,
                }),
    {
        let mut servers: Vec<SocketAddress> = Vec::new();
        let mut i: usize = 0;
        while i < addresses.len()
            invariant
                i <= addresses.len(),
                servers@.len() == i,
                forall|k: int|
                    0 <= k < i ==> (#[trigger] servers@[k]) == (SocketAddress {
                        ip: addresses@[k],
                        port: DNS_PORT,
                    }),
            decreases addresses.len() - i,
        {
            servers.push(SocketAddress { ip: addresses[i], port: DNS_PORT });
            i = i + 1;
        }
        Resolver { servers, pending: None }
    }

    /// The name server that queries go to: the first configured one.
    pub fn select(&self) -> (server: Result<SocketAddress, UpstreamError>)
        ensures
            match server {
                Ok(address) => self.servers@.len() > 0 && address == self.servers@[0],
                Err(e) => self.servers@.len() == 0 && e == UpstreamError::UpstreamUnavailable,
            },
    {
        if self.servers.len() == 0 {
            Err(UpstreamError::UpstreamUnavailable)
        } else {
            Ok(self.servers[0])
        }
    }

    /// Takes a query of a client. With answers from `hosts`, the reply is
    /// returned. Without, the query goes to the first name server as it
    /// came and waits for its answer; with no name server configured,
    /// nothing is sent. A datagram that is no whole message is ignored. A
    /// query that was waiting is given up.
    pub fn resolve(&mut self, hosts: &Hosts, data: &[u8]) -> (step: Step)
        ensures
            final(self).servers@ == old(self).servers@,
            match resolution(hosts@, data@) {
                ResolutionView::Reply(reply) => step@ == StepView::Reply(reply) && final(self).waiting() is None,
                ResolutionView::Forward => if old(self).servers@.len() == 0 {
                    step@ == StepView::Nothing && final(self).waiting() is None
                } else {
                    step@ == StepView::Forward(old(self).servers@[0], data@) && final(self).waiting() == Some(data@)
                },
                ResolutionView::Ignore => step@ == StepView::Nothing && final(self).waiting()
                    is None,
            },
    {
        self.pending = None;
        match resolve(hosts, data) {
            Resolution::Reply(reply) => Step::Reply(reply),
            Resolution::Forward => match self.select() {
                Ok(server) => {
                    self.pending = Some(copy_bytes(data));
                    Step::Forward(server, copy_bytes(data))
                },
                Err(_) => Step::Nothing,
            },
            Resolution::Ignore => Step::Nothing,
        }
    }

    /// Takes a datagram from upstream. The first one with the
    /// transaction id of the waiting query is its answer and goes to the
    /// client as it came; any other is passed over.
    pub fn receive(&mut self, datagram: &[u8]) -> (step: Step)
        ensures
            final(self).servers@ == old(self).servers@,
            if old(self).waiting() matches Some(query) && answers_query(query, datagram@) {
                step@ == StepView::Reply(datagram@) && final(self).waiting() is None
            } else {
                step@ == StepView::Wait && final(self).waiting() == old(self).waiting()
            },
    {
        let matched = match &self.pending {
            Some(query) => query.len() >= 2 && datagram.len() >= 2 && query[0] == datagram[0]
                && query[1] == datagram[1],
            None => false,
        };
        if matched {
            self.pending = None;
            Step::Reply(copy_bytes(datagram))
        } else {
            Step::Wait
        }
    }

    /// Takes note that upstream failed: the waiting query is given up and
    /// nothing is sent.
    pub fn fail(&mut self) -> (step: Step)
        ensures
            final(self).servers@ == old(self).servers@,
            final(self).waiting() is None,
            step@ == StepView::Nothing,
    {
        self.pending = None;
        Step::Nothing
    }
}

/// The answers of a table to well-formed questions are well formed,
/// where the records of the table are.
pub proof fn lemma_lookups_wf(records: Seq<RecordView>, questions: Seq<QuestionView>, n: nat)
    requires
        n <= questions.len(),
        forall|i: int| 0 <= i < questions.len() ==> (#[trigger] questions[i]).wf(),
        forall|i: int| 0 <= i < records.len() ==> (#[trigger] records[i]).wf(),
    ensures
        forall|i: int|
            0 <= i < lookups(records, questions, n).len() ==> (#[trigger] lookups(
                records,
                questions,
                n,
            )[i]).wf(),
    decreases n,
{
    if n > 0 {
        lemma_lookups_wf(records, questions, (n - 1) as nat);
        let question = questions[n - 1];
        let values = values_for(records, question.name, question.qtype);
        lemma_values_short(records, question.name, question.qtype);
        let front = lookups(records, questions, (n - 1) as nat);
        let here = answers_for(question, values);
        assert forall|i: int| 0 <= i < (front + here).len() implies (#[trigger] (front + here)[i]).wf() by {
            if i >= front.len() {
                assert((front + here)[i] == here[i - front.len()]);
                assert(values[i - front.len()].len() <= 16);
            }
        }
    }
}

/// The record data that a table of well-formed records holds has at most
/// sixteen octets.
proof fn lemma_values_short(records: Seq<RecordView>, name: Seq<u8>, code: u16)
    requires
        forall|i: int| 0 <= i < records.len() ==> (#[trigger] records[i]).wf(),
    ensures
        forall|i: int|
            0 <= i < values_for(records, name, code).len() ==> (#[trigger] values_for(
                records,
                name,
                code,
            )[i]).len() <= 16,
    decreases records.len(),
{
    if records.len() > 0 {
        assert forall|i: int| 0 <= i < records.drop_last().len() implies (
        #[trigger] records.drop_last()[i]).wf() by {
            assert(records.drop_last()[i] == records[i]);
        }
        lemma_values_short(records.drop_last(), name, code);
        assert(records.last().wf());
        let front = values_for(records.drop_last(), name, code);
        let all = values_for(records, name, code);
        assert forall|i: int| 0 <= i < all.len() implies (#[trigger] all[i]).len() <= 16 by {
            if i < front.len() {
                assert(all[i] == front[i]);
            }
        }
    }
}

/// The reply of a table to a well-formed query, with at most 65535
/// answers, is a well-formed message with the transaction id of the
/// query, and reading its wire form gives it back.
pub proof fn lemma_table_reply(records: Seq<RecordView>, frame: FrameView)
    requires
        frame.wf(),
        forall|i: int| 0 <= i < records.len() ==> (#[trigger] records[i]).wf(),
        lookups(records, frame.question, frame.question.len()).len() <= 0xFFFF,
    ensures
        table_reply(records, frame).wf(),
        table_reply(records, frame).header.identifier == frame.header.identifier,
        frame_at(table_reply(records, frame).bytes()) == Some(table_reply(records, frame)),
{
    lemma_lookups_wf(records, frame.question, frame.question.len());
    let answers = lookups(records, frame.question, frame.question.len());
    crate::dns::lemma_reply_wf(frame, answers);
    crate::dns::lemma_frame_round_trip(frame.reply(answers));
}

/// A reply that the resolver makes from a table of well-formed records,
/// with at most 65535 answers, reads back as a message with the
/// transaction id and the questions of the query and the answers of the
/// table.
pub proof fn lemma_resolution_reply(records: Seq<RecordView>, data: Seq<u8>)
    requires
        forall|i: int| 0 <= i < records.len() ==> (#[trigger] records[i]).wf(),
        resolution(records, data) is Reply,
        lookups(records, frame_at(data)->0.question, frame_at(data)->0.question.len()).len()
            <= 0xFFFF,
    ensures
        ({
            let query = frame_at(data)->0;
            let reply = frame_at(resolution(records, data)->Reply_0);
            &&& reply is Some
            &&& reply->0.header.identifier == query.header.identifier
            &&& reply->0.header.flags.qr
            &&& reply->0.question == query.question
            &&& reply->0.answer == lookups(records, query.question, query.question.len())
            &&& reply->0.answer.len() > 0
        }),
{
    crate::dns::lemma_frame_read(data);
    lemma_table_reply(records, frame_at(data)->0);
}

} // verus!
