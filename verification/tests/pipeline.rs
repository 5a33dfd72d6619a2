use asn_lookup::ip::IpAddress;
use asn_lookup::report::{
    no_data_line, plan_invocation, present, result_header, unresolved_line, usage_line,
    InvocationPlan, Presentation,
};
use asn_lookup::resolve::{first_answer, ResolutionError, ResolveOutcome};
use asn_lookup::whois::{build_query, WhoisAction, WhoisError, WhoisSession, WhoisState};

fn v4(a: u8, b: u8, c: u8, d: u8) -> IpAddress {
    IpAddress::V4 { octets: [a, b, c, d] }
}

#[test]
fn ipv4_text_is_dotted_decimal() {
    assert_eq!(v4(8, 8, 8, 8).text(), "8.8.8.8");
    assert_eq!(v4(192, 168, 0, 1).text(), "192.168.0.1");
    assert_eq!(v4(255, 255, 255, 255).text(), "255.255.255.255");
    assert_eq!(v4(0, 0, 0, 0).text(), "0.0.0.0");
    assert_eq!(v4(10, 99, 100, 7).text(), "10.99.100.7");
}

#[test]
fn ipv6_text_is_canonical() {
    let ip = IpAddress::V6 { segments: [0x2001, 0xdb8, 0, 0, 0, 0, 0, 1] };
    assert_eq!(ip.text(), "2001:db8::1");
    let zero = IpAddress::V6 { segments: [0; 8] };
    assert_eq!(zero.text(), "::");
    let loopback = IpAddress::V6 { segments: [0, 0, 0, 0, 0, 0, 0, 1] };
    assert_eq!(loopback.text(), "::1");
    let leading = IpAddress::V6 { segments: [1, 0, 0, 0, 0, 0, 0, 0] };
    assert_eq!(leading.text(), "1::");
    let full = IpAddress::V6 {
        segments: [0xabcd, 0xef01, 0x23, 0x4, 0xffff, 0x100, 0x10, 0xf],
    };
    assert_eq!(full.text(), "abcd:ef01:23:4:ffff:100:10:f");
}

#[test]
fn ipv6_zero_compression_picks_the_display_run() {
    // A tie between runs goes to the leftmost; a longer later run wins;
    // a single zero group is never compressed.
    let tied = IpAddress::V6 { segments: [1, 0, 0, 2, 0, 0, 3, 4] };
    assert_eq!(tied.text(), "1::2:0:0:3:4");
    let longer_later = IpAddress::V6 { segments: [1, 0, 0, 2, 0, 0, 0, 3] };
    assert_eq!(longer_later.text(), "1:0:0:2::3");
    let single = IpAddress::V6 { segments: [1, 0, 2, 3, 4, 5, 6, 7] };
    assert_eq!(single.text(), "1:0:2:3:4:5:6:7");
}

#[test]
fn ipv4_mapped_ipv6_uses_mixed_notation() {
    let ip = IpAddress::V6 { segments: [0, 0, 0, 0, 0, 0xffff, 0x102, 0x304] };
    assert_eq!(ip.text(), "::ffff:1.2.3.4");
    let zero = IpAddress::V6 { segments: [0, 0, 0, 0, 0, 0xffff, 0, 0] };
    assert_eq!(zero.text(), "::ffff:0.0.0.0");
}

#[test]
fn query_line_uses_verbose_bulk_syntax() {
    assert_eq!(build_query(&v4(1, 2, 3, 4)), " -v 1.2.3.4\r\n");
    let ip = IpAddress::V6 { segments: [0x2001, 0xdb8, 0, 0, 0, 0, 0, 1] };
    assert_eq!(build_query(&ip), " -v 2001:db8::1\r\n");
}

#[test]
fn first_answer_picks_the_first() {
    let answers = vec![v4(1, 1, 1, 1), v4(8, 8, 8, 8)];
    match first_answer(&answers) {
        ResolveOutcome::Found { address } => assert_eq!(address, v4(1, 1, 1, 1)),
        ResolveOutcome::NotFound => panic!("two answers must yield an address"),
    }
}

#[test]
fn empty_answer_set_is_not_found() {
    let answers: Vec<IpAddress> = Vec::new();
    assert!(matches!(first_answer(&answers), ResolveOutcome::NotFound));
}

#[test]
fn wrong_argument_counts_show_usage() {
    assert!(matches!(plan_invocation(1), InvocationPlan::ShowUsage));
    assert!(matches!(plan_invocation(3), InvocationPlan::ShowUsage));
    assert!(matches!(plan_invocation(0), InvocationPlan::ShowUsage));
    assert!(matches!(plan_invocation(2), InvocationPlan::Lookup));
    assert_eq!(usage_line("asn_lookup"), "Usage: asn_lookup <domain>");
}

#[test]
fn unresolved_domain_message() {
    assert_eq!(
        unresolved_line("this-domain-does-not-exist-zzz.invalid"),
        "Could not resolve the domain: this-domain-does-not-exist-zzz.invalid"
    );
}

#[test]
fn no_data_message_names_the_address() {
    assert_eq!(
        no_data_line(&v4(203, 0, 113, 9)),
        "Could not retrieve ASN information for IP: 203.0.113.9"
    );
}

#[test]
fn fixed_header_line() {
    assert_eq!(
        result_header(),
        "AS      | IP               | BGP Prefix          | CC | Registry | Allocated  | AS Name"
    );
}

#[test]
fn successful_lookup_prints_header_then_data() {
    // A lookup that resolves and gets a reply with data: the presentation
    // is the fixed header followed by the shaped text, never the no-data
    // message.
    assert!(matches!(plan_invocation(2), InvocationPlan::Lookup));
    let answers = vec![v4(142, 250, 80, 46)];
    let address = match first_answer(&answers) {
        ResolveOutcome::Found { address } => address,
        ResolveOutcome::NotFound => panic!("one answer must yield an address"),
    };
    let mut session = WhoisSession::new(address);
    assert!(matches!(session.begin(), WhoisAction::OpenConnection));
    match session.on_connect(Ok(())) {
        WhoisAction::SendQuery { query } => assert_eq!(query, " -v 142.250.80.46\r\n"),
        _ => panic!("a successful connect must lead to the query"),
    }
    assert!(matches!(session.on_write(Ok(())), WhoisAction::ReadToEnd));
    session.begin_read();
    let raw = b"AS | IP | AS Name\n15169 | 142.250.80.46 | GOOGLE, US\n".to_vec();
    assert!(matches!(session.on_read(Ok(raw)), WhoisAction::Stop));
    let shaped = match session.state {
        WhoisState::Complete { shaped } => shaped,
        _ => panic!("a successful read must complete the session"),
    };
    match present(&address, shaped) {
        Presentation::Table { header, body } => {
            assert_eq!(
                header,
                "AS      | IP               | BGP Prefix          | CC | Registry | Allocated  | AS Name"
            );
            assert_eq!(body, b"15169 | 142.250.80.46 | GOOGLE, US".to_vec());
        }
        Presentation::NoData { .. } => panic!("a reply with data must present the table"),
    }
}

#[test]
fn header_only_reply_presents_no_data() {
    let address = v4(198, 51, 100, 1);
    let mut session = WhoisSession::new(address);
    session.begin();
    session.on_connect(Ok(()));
    session.on_write(Ok(()));
    session.begin_read();
    session.on_read(Ok(b"AS | IP | AS Name\n".to_vec()));
    let shaped = match session.state {
        WhoisState::Complete { shaped } => shaped,
        _ => panic!("a successful read must complete the session"),
    };
    assert!(shaped.is_empty());
    match present(&address, shaped) {
        Presentation::NoData { line } => {
            assert_eq!(line, "Could not retrieve ASN information for IP: 198.51.100.1");
        }
        Presentation::Table { .. } => panic!("an empty reply must present no data"),
    }
}

#[test]
fn connection_refused_fails_with_connect_error() {
    // A refused TCP connection signals a connection failure; it never
    // reaches the reading phase and never looks like an empty reply.
    let mut session = WhoisSession::new(v4(1, 1, 1, 1));
    session.begin();
    let action = session.on_connect(Err(String::from("connection refused")));
    assert!(matches!(action, WhoisAction::Stop));
    match &session.state {
        WhoisState::Failed { error } => match error {
            WhoisError::Connect { context } => assert_eq!(context.as_str(), "connection refused"),
            _ => panic!("a connect failure must be tagged as such"),
        },
        _ => panic!("a failed connect must end the session"),
    }
    match &session.state {
        WhoisState::Failed { error } => {
            assert_eq!(error.message(), "WHOIS connection failed: connection refused");
        }
        _ => unreachable!(),
    }
}

#[test]
fn write_and_read_failures_keep_their_phase() {
    let mut session = WhoisSession::new(v4(1, 1, 1, 1));
    session.begin();
    session.on_connect(Ok(()));
    session.on_write(Err(String::from("broken pipe")));
    match &session.state {
        WhoisState::Failed { error } => {
            assert!(matches!(error, WhoisError::Write { .. }));
            assert_eq!(error.message(), "WHOIS write failed: broken pipe");
        }
        _ => panic!("a failed write must end the session"),
    }

    let mut session = WhoisSession::new(v4(1, 1, 1, 1));
    session.begin();
    session.on_connect(Ok(()));
    session.on_write(Ok(()));
    session.begin_read();
    session.on_read(Err(String::from("connection reset")));
    match &session.state {
        WhoisState::Failed { error } => {
            assert!(matches!(error, WhoisError::Read { .. }));
            assert_eq!(error.message(), "WHOIS read failed: connection reset");
        }
        _ => panic!("a failed read must end the session"),
    }
}

#[test]
fn resolution_error_keeps_its_context() {
    let error = ResolutionError::new(String::from("no DNS server reachable"));
    assert_eq!(error.context, "no DNS server reachable");
    assert_eq!(error.message(), "Resolution failed: no DNS server reachable");
}
