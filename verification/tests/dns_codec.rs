use rust_proxy::address::{IpAddress, SocketAddress};
use rust_proxy::dns::hosts::{parse_hosts, HostEntry, HostLine, Hosts, Record, RecordType, TTL};
use rust_proxy::dns::resolver::{
    lookup, parse_resolv_conf, resolve, Resolution, Resolver, Step, UpstreamError, DNS_PORT,
};
use rust_proxy::dns::{handle, Answer, Flags, Frame, Header, Question};

fn query(id: u16, name: &[u8], qtype: u16) -> Vec<u8> {
    let mut data = Vec::new();
    data.extend_from_slice(&id.to_be_bytes());
    data.extend_from_slice(&[0x01, 0x00, 0x00, 0x01, 0x00, 0x00, 0x00, 0x00, 0x00, 0x00]);
    data.extend_from_slice(name);
    data.extend_from_slice(&qtype.to_be_bytes());
    data.extend_from_slice(&[0x00, 0x01]);
    data
}

fn foo_local() -> Hosts {
    Hosts::build(&[HostEntry {
        name: String::from("foo.local"),
        address: IpAddress::V4([10, 0, 0, 1]),
    }])
}

#[test]
fn flags_parse_takes_the_word_apart() {
    let flags = Flags::parse(0x8180);
    assert_eq!(
        flags,
        Flags {
            qr: true,
            opcode: 0,
            aa: false,
            tc: false,
            rd: true,
            ra: true,
            rsv: 0,
            ret_code: 0
        }
    );
    let flags = Flags::parse(0x7a73);
    assert_eq!(
        flags,
        Flags {
            qr: false,
            opcode: 15,
            aa: false,
            tc: true,
            rd: false,
            ra: false,
            rsv: 7,
            ret_code: 3
        }
    );
}

#[test]
fn flags_round_trip_for_every_word() {
    for word in 0..=u16::MAX {
        let flags = Flags::parse(word);
        assert_eq!(flags.to_be_bytes(), word.to_be_bytes());
    }
}

#[test]
fn flags_to_be_bytes_of_a_reply() {
    let flags = Flags {
        qr: true,
        opcode: 0,
        aa: true,
        tc: false,
        rd: false,
        ra: false,
        rsv: 0,
        ret_code: 0,
    };
    assert_eq!(flags.to_be_bytes(), [0x84, 0x00]);
}

#[test]
fn header_parse_and_stringify() {
    let bytes = [0x12, 0x34, 0x01, 0x00, 0x00, 0x01, 0x00, 0x02, 0x00, 0x03, 0x00, 0x04];
    let header = Header::parse(&bytes);
    assert_eq!(header.identifier, 0x1234);
    assert!(header.flags.rd);
    assert!(!header.flags.qr);
    assert_eq!(header.question_count, 1);
    assert_eq!(header.answer_count, 2);
    assert_eq!(header.authority_count, 3);
    assert_eq!(header.additional_count, 4);
    assert_eq!(header.stringify(), bytes.to_vec());
}

#[test]
fn header_reply_keeps_id_reserved_bits_and_question_count() {
    let bytes = [0xbe, 0xef, 0x7f, 0xff, 0x00, 0x02, 0x00, 0x09, 0x00, 0x03, 0x00, 0x04];
    let header = Header::parse(&bytes);
    let reply = header.reply(5);
    assert_eq!(reply.identifier, 0xbeef);
    assert_eq!(
        reply.flags,
        Flags {
            qr: true,
            opcode: 0,
            aa: true,
            tc: false,
            rd: false,
            ra: false,
            rsv: 7,
            ret_code: 0
        }
    );
    assert_eq!(reply.question_count, 2);
    assert_eq!(reply.answer_count, 5);
    assert_eq!(reply.authority_count, 0);
    assert_eq!(reply.additional_count, 0);
    assert_eq!(
        reply.stringify(),
        vec![0xbe, 0xef, 0x84, 0x70, 0x00, 0x02, 0x00, 0x05, 0x00, 0x00, 0x00, 0x00]
    );
}

#[test]
fn name_length_walks_the_labels() {
    assert_eq!(Question::get_name_len(b"\x03foo\x05local\x00rest"), Some(11));
    assert_eq!(Question::get_name_len(b"\x00"), Some(1));
    assert_eq!(Question::get_name_len(b"\x00\x01\x02"), Some(1));
    assert_eq!(Question::get_name_len(b""), None);
    assert_eq!(Question::get_name_len(b"\x03fo"), None);
    assert_eq!(Question::get_name_len(b"\x03foo"), None);
    assert_eq!(Question::get_name_len(b"\x02a\x00\x00"), Some(4));
}

#[test]
fn name_length_does_not_follow_pointers() {
    let mut data = vec![0xc0u8];
    data.extend_from_slice(&[b'x'; 192]);
    data.push(0);
    assert_eq!(Question::get_name_len(&data), Some(194));
    assert_eq!(Question::get_name_len(&[0xc0, 0x0c]), None);
}

#[test]
fn question_parse_keeps_the_name_verbatim() {
    let data = b"\x03foo\x05local\x00\x00\x1c\x00\x01tail";
    let (question, used) = Question::parse(data).unwrap();
    assert_eq!(used, 15);
    assert_eq!(question.name, b"\x03foo\x05local\x00".to_vec());
    assert_eq!(question.qtype, 28);
    assert_eq!(question.class, 1);
    assert_eq!(question.stringify(), data[..15].to_vec());
    assert_eq!(Question::parse(&data[..14]), None);
    assert_eq!(question.clone(), question);
}

#[test]
fn question_parse_many_reads_in_order() {
    let mut data = Vec::new();
    data.extend_from_slice(b"\x01a\x00\x00\x01\x00\x01");
    data.extend_from_slice(b"\x01b\x00\x00\x1c\x00\x01");
    let (questions, used) = Question::parse_many(2, &data).unwrap();
    assert_eq!(used, 14);
    assert_eq!(questions.len(), 2);
    assert_eq!(questions[0].name, b"\x01a\x00".to_vec());
    assert_eq!(questions[1].name, b"\x01b\x00".to_vec());
    assert_eq!(questions[1].qtype, 28);
    assert_eq!(Question::parse_many(3, &data), None);
    assert_eq!(Question::parse_many(0, &data), Some((vec![], 0)));
}

#[test]
fn answer_parse_takes_as_much_data_as_the_length_says() {
    let data = b"\x01a\x00\x00\x01\x00\x01\x00\x00\x02\x58\x00\x04\x0a\x00\x00\x01more";
    let (answer, used) = Answer::parse(data).unwrap();
    assert_eq!(used, 17);
    assert_eq!(
        answer,
        Answer {
            name: b"\x01a\x00".to_vec(),
            rtype: 1,
            class: 1,
            ttl: 600,
            resource_data_length: 4,
            resource_data: vec![10, 0, 0, 1],
        }
    );
    assert_eq!(answer.stringify(), data[..17].to_vec());
    assert_eq!(Answer::parse(&data[..16]), None);
    assert_eq!(Answer::parse(&data[..12]), None);
}

#[test]
fn answer_parse_many_reads_in_order() {
    let mut data = Vec::new();
    data.extend_from_slice(b"\x01a\x00\x00\x01\x00\x01\x00\x00\x00\x01\x00\x01\x07");
    data.extend_from_slice(b"\x00\x00\x1c\x00\x01\x01\x02\x03\x04\x00\x00");
    let (answers, used) = Answer::parse_many(2, &data).unwrap();
    assert_eq!(used, data.len());
    assert_eq!(answers[0].resource_data, vec![7]);
    assert_eq!(answers[1].name, vec![0]);
    assert_eq!(answers[1].ttl, 0x01020304);
    assert_eq!(answers[1].resource_data, Vec::<u8>::new());
    assert_eq!(Answer::parse_many(3, &data), None);
}

#[test]
fn answer_build_copies_the_question() {
    let question = Question { name: b"\x03foo\x00".to_vec(), qtype: 28, class: 1 };
    let answer = Answer::build(&question, 600, &[0; 16]);
    assert_eq!(answer.name, question.name);
    assert_eq!(answer.rtype, 28);
    assert_eq!(answer.class, 1);
    assert_eq!(answer.ttl, 600);
    assert_eq!(answer.resource_data_length, 16);
    assert_eq!(answer.resource_data, vec![0; 16]);
}

#[test]
fn frame_parse_reads_header_questions_and_answers() {
    let data = query(0x1234, b"\x03foo\x05local\x00", 1);
    let frame = Frame::parse(&data);
    assert_eq!(frame.header.identifier, 0x1234);
    assert_eq!(frame.header.question_count, 1);
    assert_eq!(frame.question.len(), 1);
    assert_eq!(frame.question[0].name, b"\x03foo\x05local\x00".to_vec());
    assert_eq!(frame.question[0].qtype, 1);
    assert_eq!(frame.answer.len(), 0);
    assert_eq!(frame.rest, Vec::<u8>::new());
    assert_eq!(frame.stringify(), data);
}

#[test]
fn frame_keeps_what_follows_the_answers() {
    let mut data = query(7, b"\x01a\x00", 1);
    data[11] = 1;
    data.extend_from_slice(b"\x00\x00\x29\x10\x00\x00\x00\x00\x00\x00\x00");
    let frame = Frame::try_parse(&data).unwrap();
    assert_eq!(frame.header.additional_count, 1);
    assert_eq!(frame.rest, b"\x00\x00\x29\x10\x00\x00\x00\x00\x00\x00\x00".to_vec());
    assert_eq!(frame.stringify(), data[..data.len() - 11].to_vec());
}

#[test]
fn frame_try_parse_refuses_what_is_cut_short() {
    let data = query(1, b"\x03foo\x00", 1);
    for len in 0..data.len() {
        assert_eq!(Frame::try_parse(&data[..len]), None, "length {len}");
    }
    assert!(Frame::try_parse(&data).is_some());
    let mut two = data.clone();
    two[5] = 2;
    assert_eq!(Frame::try_parse(&two), None);
    let mut answer = data.clone();
    answer[7] = 1;
    assert_eq!(Frame::try_parse(&answer), None);
}

#[test]
fn frame_round_trip_keeps_counts_and_names() {
    let frame = Frame {
        header: Header {
            identifier: 0xabcd,
            flags: Flags::parse(0x8580),
            question_count: 2,
            answer_count: 2,
            authority_count: 0,
            additional_count: 0,
        },
        question: vec![
            Question { name: b"\x07example\x03com\x00".to_vec(), qtype: 1, class: 1 },
            Question { name: b"\x00".to_vec(), qtype: 28, class: 1 },
        ],
        answer: vec![
            Answer {
                name: b"\x07example\x03com\x00".to_vec(),
                rtype: 1,
                class: 1,
                ttl: 600,
                resource_data_length: 4,
                resource_data: vec![1, 2, 3, 4],
            },
            Answer {
                name: b"\x00".to_vec(),
                rtype: 28,
                class: 1,
                ttl: u32::MAX,
                resource_data_length: 0,
                resource_data: vec![],
            },
        ],
        rest: vec![],
    };
    let parsed = Frame::parse(&frame.stringify());
    assert_eq!(parsed, frame);
    assert_eq!(parsed.header.question_count, 2);
    assert_eq!(parsed.header.answer_count, 2);
    assert_eq!(parsed.question[0].name, frame.question[0].name);
    assert_eq!(parsed.question[1].name, frame.question[1].name);
}

#[test]
fn create_reply_counts_the_answers() {
    let data = query(0x0102, b"\x01a\x00", 1);
    let frame = Frame::parse(&data);
    let answers = vec![
        Answer::build(&frame.question[0], 600, &[1, 1, 1, 1]),
        Answer::build(&frame.question[0], 600, &[2, 2, 2, 2]),
    ];
    let reply = frame.create_reply(answers.clone());
    assert_eq!(reply.header.identifier, 0x0102);
    assert_eq!(reply.header.answer_count, 2);
    assert!(reply.header.flags.qr);
    assert!(reply.header.flags.aa);
    assert!(!reply.header.flags.rd);
    assert_eq!(reply.question, frame.question);
    assert_eq!(reply.answer, answers);
    assert_eq!(reply.rest, Vec::<u8>::new());
    let none = frame.create_reply(vec![]);
    assert_eq!(none.header.answer_count, 0);
}

#[test]
fn hosts_hit_answers_with_the_address() {
    let hosts = foo_local();
    let data = query(0x1234, b"\x03foo\x05local\x00", 1);
    let expected: Vec<u8> = vec![
        0x12, 0x34, 0x84, 0x00, 0x00, 0x01, 0x00, 0x01, 0x00, 0x00, 0x00, 0x00, 0x03, b'f', b'o',
        b'o', 0x05, b'l', b'o', b'c', b'a', b'l', 0x00, 0x00, 0x01, 0x00, 0x01, 0x03, b'f', b'o',
        b'o', 0x05, b'l', b'o', b'c', b'a', b'l', 0x00, 0x00, 0x01, 0x00, 0x01, 0x00, 0x00, 0x02,
        0x58, 0x00, 0x04, 0x0a, 0x00, 0x00, 0x01,
    ];
    assert_eq!(resolve(&hosts, &data), Resolution::Reply(expected.clone()));
    assert_eq!(handle(&hosts, &data), expected);
    let reply = Frame::parse(&expected);
    assert_eq!(reply.header.identifier, 0x1234);
    assert_eq!(reply.answer.len(), 1);
    assert_eq!(reply.answer[0].ttl, 600);
    assert_eq!(reply.answer[0].resource_data, vec![0x0a, 0x00, 0x00, 0x01]);
}

#[test]
fn hosts_miss_is_forwarded() {
    let hosts = foo_local();
    assert_eq!(resolve(&hosts, &query(1, b"\x03bar\x05local\x00", 1)), Resolution::Forward);
    assert_eq!(resolve(&hosts, &query(1, b"\x03foo\x05local\x00", 28)), Resolution::Forward);
    assert_eq!(resolve(&hosts, &query(1, b"\x03FOO\x05local\x00", 1)), Resolution::Forward);
    assert_eq!(resolve(&hosts, &query(1, b"\x03foo\x05local\x00", 5)), Resolution::Forward);
}

#[test]
fn what_is_no_message_is_ignored() {
    let hosts = foo_local();
    assert_eq!(resolve(&hosts, &[]), Resolution::Ignore);
    assert_eq!(resolve(&hosts, &[0; 11]), Resolution::Ignore);
    let data = query(1, b"\x03foo\x05local\x00", 1);
    assert_eq!(resolve(&hosts, &data[..data.len() - 1]), Resolution::Ignore);
}

#[test]
fn a_message_without_questions_is_forwarded() {
    let hosts = foo_local();
    assert_eq!(resolve(&hosts, &[0; 12]), Resolution::Forward);
}

#[test]
fn handle_replies_even_without_answers() {
    let hosts = foo_local();
    let data = query(0x0a0b, b"\x03bar\x00", 1);
    let reply = handle(&hosts, &data);
    let frame = Frame::parse(&reply);
    assert_eq!(frame.header.identifier, 0x0a0b);
    assert_eq!(frame.header.answer_count, 0);
    assert!(frame.header.flags.qr);
    assert_eq!(frame.question[0].name, b"\x03bar\x00".to_vec());
    assert_eq!(frame.answer.len(), 0);
}

#[test]
fn lookup_gathers_answers_of_all_questions() {
    let hosts = Hosts::build(&[
        HostEntry { name: String::from("a"), address: IpAddress::V4([1, 1, 1, 1]) },
        HostEntry { name: String::from("b"), address: IpAddress::V4([2, 2, 2, 2]) },
        HostEntry { name: String::from("a"), address: IpAddress::V4([3, 3, 3, 3]) },
    ]);
    let mut data = vec![0, 9, 1, 0, 0, 3, 0, 0, 0, 0, 0, 0];
    data.extend_from_slice(b"\x01b\x00\x00\x01\x00\x01");
    data.extend_from_slice(b"\x01c\x00\x00\x01\x00\x01");
    data.extend_from_slice(b"\x01a\x00\x00\x01\x00\x01");
    let frame = Frame::parse(&data);
    let answers = lookup(&hosts, &frame);
    let values: Vec<Vec<u8>> = answers.iter().map(|a| a.resource_data.clone()).collect();
    assert_eq!(values, vec![vec![2, 2, 2, 2], vec![1, 1, 1, 1], vec![3, 3, 3, 3]]);
    assert_eq!(answers[0].name, b"\x01b\x00".to_vec());
    assert_eq!(answers[1].name, b"\x01a\x00".to_vec());
}

#[test]
fn hosts_table_drops_duplicates() {
    let mut hosts = Hosts::build(&[]);
    assert_eq!(hosts.records.len(), 0);
    let entry = || HostEntry { name: String::from("foo.local"), address: IpAddress::V4([10, 0, 0, 1]) };
    hosts.insert_records(&[entry(), entry()]);
    assert_eq!(hosts.records.len(), 1);
    hosts.insert_records(&[entry()]);
    assert_eq!(hosts.records.len(), 1);
    hosts.insert_records(&[HostEntry {
        name: String::from("foo.local."),
        address: IpAddress::V4([10, 0, 0, 1]),
    }]);
    assert_eq!(hosts.records.len(), 1);
    hosts.insert_records(&[HostEntry {
        name: String::from("foo.local"),
        address: IpAddress::V4([10, 0, 0, 2]),
    }]);
    assert_eq!(hosts.records.len(), 2);
    assert_eq!(
        hosts.records[0],
        Record {
            name: b"\x03foo\x05local\x00".to_vec(),
            rtype: RecordType::A,
            value: vec![10, 0, 0, 1]
        }
    );
}

#[test]
fn hosts_search_matches_name_and_type() {
    let v6 = [0x20, 0x01, 0x0d, 0xb8, 0, 0, 0, 0, 0, 0, 0, 0, 0, 0, 0, 1];
    let hosts = Hosts::build(&[
        HostEntry { name: String::from("foo.local"), address: IpAddress::V4([10, 0, 0, 1]) },
        HostEntry { name: String::from("foo.local"), address: IpAddress::V6(v6) },
        HostEntry { name: String::from("foo.local"), address: IpAddress::V4([10, 0, 0, 2]) },
    ]);
    let a = Question { name: b"\x03foo\x05local\x00".to_vec(), qtype: 1, class: 1 };
    let found = hosts.search(&a).unwrap();
    assert_eq!(found.len(), 2);
    assert_eq!(found[0].resource_data, vec![10, 0, 0, 1]);
    assert_eq!(found[1].resource_data, vec![10, 0, 0, 2]);
    assert_eq!(found[0].ttl, 600);
    assert_eq!(TTL, 600);
    assert_eq!(found[0].resource_data_length, 4);
    let aaaa = Question { name: b"\x03foo\x05local\x00".to_vec(), qtype: 28, class: 1 };
    let found = hosts.search(&aaaa).unwrap();
    assert_eq!(found.len(), 1);
    assert_eq!(found[0].resource_data, v6.to_vec());
    assert_eq!(found[0].resource_data_length, 16);
    assert_eq!(found[0].rtype, 28);
    let other = Question { name: b"\x03bar\x05local\x00".to_vec(), qtype: 1, class: 1 };
    assert_eq!(hosts.search(&other), None);
    let mx = Question { name: b"\x03foo\x05local\x00".to_vec(), qtype: 15, class: 1 };
    assert_eq!(hosts.search(&mx), None);
}

#[test]
fn record_type_codes() {
    assert_eq!(RecordType::A.code(), 1);
    assert_eq!(RecordType::AAAA.code(), 28);
}

#[test]
fn parse_hosts_reads_address_and_first_name() {
    let text = "# comment\n\n127.0.0.1\tlocalhost loopback\n  10.0.0.1 foo.local  \r\n::1 ip6-localhost\nlonely\n   # indented comment\nnot-an-address  name";
    let lines = parse_hosts(text);
    assert_eq!(
        lines,
        vec![
            HostLine { address: String::from("127.0.0.1"), name: String::from("localhost") },
            HostLine { address: String::from("10.0.0.1"), name: String::from("foo.local") },
            HostLine { address: String::from("::1"), name: String::from("ip6-localhost") },
            HostLine { address: String::from("not-an-address"), name: String::from("name") },
        ]
    );
    assert_eq!(parse_hosts(""), vec![]);
    assert_eq!(parse_hosts("\n\n\n"), vec![]);
    assert_eq!(parse_hosts("#1.1.1.1 a"), vec![]);
}

#[test]
fn parse_hosts_agrees_with_std_on_lines_and_words() {
    let text = "1.1.1.1 a\u{a0}b c\n\u{2003}2.2.2.2\u{c}x\u{3000}\n3.3.3.3\u{b}y z\r\n\r4.4.4.4 w\r";
    let mut expected = Vec::new();
    for line in text.lines() {
        let line = line.trim();
        if line.is_empty() || line.starts_with("#") {
            continue;
        }
        let parts: Vec<&str> = line.split_ascii_whitespace().collect();
        if parts.len() >= 2 {
            expected.push(HostLine {
                address: String::from(parts[0]),
                name: String::from(parts[1]),
            });
        }
    }
    assert_eq!(parse_hosts(text), expected);
    assert_eq!(expected.len(), 4);
}

#[test]
fn parse_resolv_conf_takes_the_nameserver_lines() {
    let text = "# generated\nnameserver 8.8.8.8\nsearch lan\n  nameserver\t1.1.1.1 extra\nnameserver\nnameserverx 9.9.9.9\noptions ndots:1\nnameserver fe80::1";
    assert_eq!(
        parse_resolv_conf(text),
        vec![String::from("8.8.8.8"), String::from("1.1.1.1"), String::from("fe80::1")]
    );
    assert_eq!(parse_resolv_conf(""), Vec::<String>::new());
}

#[test]
fn resolver_answers_from_the_table() {
    let hosts = foo_local();
    let mut resolver = Resolver::new(&[IpAddress::V4([8, 8, 8, 8])]);
    let data = query(0x1234, b"\x03foo\x05local\x00", 1);
    let step = resolver.resolve(&hosts, &data);
    assert_eq!(step, Step::Reply(handle(&hosts, &data)));
    assert_eq!(resolver.pending, None);
}

#[test]
fn resolver_forwards_to_the_first_name_server() {
    let hosts = foo_local();
    let mut resolver =
        Resolver::new(&[IpAddress::V4([8, 8, 8, 8]), IpAddress::V4([1, 1, 1, 1])]);
    assert_eq!(
        resolver.servers,
        vec![
            SocketAddress { ip: IpAddress::V4([8, 8, 8, 8]), port: 53 },
            SocketAddress { ip: IpAddress::V4([1, 1, 1, 1]), port: 53 }
        ]
    );
    assert_eq!(DNS_PORT, 53);
    let data = query(0x1234, b"\x03bar\x05local\x00", 1);
    let step = resolver.resolve(&hosts, &data);
    assert_eq!(
        step,
        Step::Forward(SocketAddress { ip: IpAddress::V4([8, 8, 8, 8]), port: 53 }, data.clone())
    );
    assert_eq!(resolver.pending, Some(data.clone()));
    assert_eq!(resolver.receive(&[0x12, 0x35, 1, 2, 3]), Step::Wait);
    assert_eq!(resolver.receive(&[0x12]), Step::Wait);
    assert_eq!(resolver.receive(&[]), Step::Wait);
    assert_eq!(resolver.pending, Some(data));
    assert_eq!(resolver.receive(&[0x12, 0x34, 9, 9, 9]), Step::Reply(vec![0x12, 0x34, 9, 9, 9]));
    assert_eq!(resolver.pending, None);
    assert_eq!(resolver.receive(&[0x12, 0x34, 9, 9, 9]), Step::Wait);
}

#[test]
fn resolver_without_name_servers_sends_nothing() {
    let hosts = foo_local();
    let mut resolver = Resolver::new(&[]);
    assert_eq!(resolver.select(), Err(UpstreamError::UpstreamUnavailable));
    let data = query(0x1234, b"\x03bar\x05local\x00", 1);
    assert_eq!(resolver.resolve(&hosts, &data), Step::Nothing);
    assert_eq!(resolver.pending, None);
    assert_eq!(resolver.resolve(&hosts, &[1, 2, 3]), Step::Nothing);
}

#[test]
fn resolver_gives_up_on_failure() {
    let hosts = foo_local();
    let mut resolver = Resolver::new(&[IpAddress::V6([0; 16])]);
    assert_eq!(resolver.select(), Ok(SocketAddress { ip: IpAddress::V6([0; 16]), port: 53 }));
    let data = query(0x1234, b"\x03bar\x05local\x00", 1);
    resolver.resolve(&hosts, &data);
    assert_eq!(resolver.fail(), Step::Nothing);
    assert_eq!(resolver.pending, None);
}
