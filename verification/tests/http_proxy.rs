use rust_proxy::http::{is_tcp, parse_target_server, plan, plan_request, HttpPlan, ESTABLISHED};

fn s(text: &str) -> String {
    String::from(text)
}

#[test]
fn parse_target_server_takes_the_host_header() {
    assert_eq!(
        parse_target_server(&s("CONNECT example.com:443 HTTP/1.1\r\nHost: example.com:443\r\n\r\n")),
        "example.com:443"
    );
    assert_eq!(
        parse_target_server(&s("GET / HTTP/1.1\r\nUser-Agent: x\r\nHost: example.com\r\n\r\n")),
        "example.com:80"
    );
    assert_eq!(parse_target_server(&s("Host: a")), "a:80");
    assert_eq!(parse_target_server(&s("Host: a:1\r\nHost: b:2\r\n")), "a:1");
}

#[test]
fn parse_target_server_without_a_host_header() {
    assert_eq!(parse_target_server(&s("")), "");
    assert_eq!(parse_target_server(&s("GET / HTTP/1.1\r\n\r\n")), "");
    assert_eq!(parse_target_server(&s("GET / HTTP/1.1\r\nhost: example.com\r\n\r\n")), "");
    assert_eq!(parse_target_server(&s("GET / HTTP/1.1\r\nHost:example.com\r\n\r\n")), "");
    assert_eq!(parse_target_server(&s("GET / HTTP/1.1\r\nHost\r\n\r\n")), "");
    assert_eq!(parse_target_server(&s("GET / HTTP/1.1\r\n Host: example.com\r\n\r\n")), "");
    assert_eq!(parse_target_server(&s("GET / HTTP/1.1\nHost: example.com\n\n")), "");
    assert_eq!(parse_target_server(&s("X-Host: example.com\r\n")), "");
}

#[test]
fn parse_target_server_cuts_the_value_at_the_next_separator() {
    assert_eq!(parse_target_server(&s("Host: a: b\r\n")), "a:80");
    assert_eq!(parse_target_server(&s("Host: \r\n")), ":80");
    assert_eq!(parse_target_server(&s("Host: : x\r\n")), ":80");
    assert_eq!(parse_target_server(&s("Host: [::1]:8080\r\n")), "[::1]:8080");
    assert_eq!(parse_target_server(&s("Host: a\rb\r\n")), "a\rb:80");
}

#[test]
fn parse_target_server_agrees_with_splitting() {
    let requests = [
        "GET http://a/ HTTP/1.1\r\nAccept: */*\r\nHost: a.example\r\nConnection: close\r\n\r\nbody: Host: x",
        "POST / HTTP/1.0\r\nContent-Type: text/plain\r\n\r\nHost: late.example\r\n",
        "GET / HTTP/1.1\r\nHost: é.example:8080\r\n\r\n",
        "Key: Host: x\r\nHost: y\r\n",
    ];
    for request in requests {
        let mut expected = String::new();
        for line in request.split("\r\n") {
            let arr: Vec<_> = line.split(": ").collect();
            if arr[0] == "Host" && arr.len() > 1 {
                let port = if arr[1].contains(":") { "" } else { ":80" };
                expected = arr[1].to_string() + port;
                break;
            }
        }
        assert_eq!(parse_target_server(&s(request)), expected);
    }
}

#[test]
fn is_tcp_looks_at_the_method() {
    assert!(is_tcp(&s("CONNECT example.com:443 HTTP/1.1\r\nHost: example.com:443\r\n\r\n")));
    assert!(is_tcp(&s("CONNECT")));
    assert!(is_tcp(&s("CONNECT\r\nGET")));
    assert!(is_tcp(&s("CONNECT ")));
    assert!(!is_tcp(&s("GET / HTTP/1.1\r\nHost: example.com\r\n\r\n")));
    assert!(!is_tcp(&s("connect example.com:443 HTTP/1.1\r\n")));
    assert!(!is_tcp(&s(" CONNECT example.com:443 HTTP/1.1\r\n")));
    assert!(!is_tcp(&s("CONNECTX example.com:443 HTTP/1.1\r\n")));
    assert!(!is_tcp(&s("GET\r\nCONNECT x")));
    assert!(!is_tcp(&s("")));
}

#[test]
fn plan_for_connect_is_a_tunnel() {
    let request = b"CONNECT example.com:443 HTTP/1.1\r\nHost: example.com:443\r\n\r\n";
    assert_eq!(
        plan(request),
        HttpPlan::Tunnel {
            target: s("example.com:443"),
            reply: b"HTTP/1.1 200 Connection Established\r\n\r\n".to_vec(),
        }
    );
    assert_eq!(ESTABLISHED, "HTTP/1.1 200 Connection Established\r\n\r\n");
}

#[test]
fn plan_for_other_methods_forwards_the_request() {
    let request = b"GET http://example.com/ HTTP/1.1\r\nHost: example.com\r\n\r\n";
    assert_eq!(
        plan(request),
        HttpPlan::Forward { target: s("example.com:80"), request: request.to_vec() }
    );
}

#[test]
fn plan_without_a_host_header_closes() {
    assert_eq!(plan(b"GET / HTTP/1.1\r\n\r\n"), HttpPlan::Close);
    assert_eq!(plan(b"CONNECT example.com:443 HTTP/1.1\r\n\r\n"), HttpPlan::Close);
    assert_eq!(plan(b""), HttpPlan::Close);
}

#[test]
fn plan_reads_ill_formed_octets_as_replacement_characters() {
    let request = b"GET / HTTP/1.1\r\nHost: a\xffb\r\n\r\n";
    assert_eq!(
        plan(request),
        HttpPlan::Forward { target: s("a\u{fffd}b:80"), request: request.to_vec() }
    );
}

#[test]
fn plan_request_takes_text_and_octets_as_given() {
    assert_eq!(
        plan_request(&s("GET / HTTP/1.1\r\nHost: h\r\n\r\n"), &[1, 2, 3]),
        HttpPlan::Forward { target: s("h:80"), request: vec![1, 2, 3] }
    );
    assert_eq!(
        plan_request(&s("CONNECT h:1 HTTP/1.1\r\nHost: h:1\r\n\r\n"), &[]),
        HttpPlan::Tunnel { target: s("h:1"), reply: ESTABLISHED.as_bytes().to_vec() }
    );
    assert_eq!(plan_request(&s("CONNECT h:1 HTTP/1.1\r\n\r\n"), &[9]), HttpPlan::Close);
}
