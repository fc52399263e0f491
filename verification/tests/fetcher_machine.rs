use dns_syncer::error::Error;
use dns_syncer::fetcher::backend::AddrFamily;
use dns_syncer::fetcher::backend::FetcherBackend;
use dns_syncer::fetcher::http_fetcher::find_arg;
use dns_syncer::fetcher::http_fetcher::FetchAction;
use dns_syncer::fetcher::http_fetcher::FetchEvent;
use dns_syncer::fetcher::http_fetcher::FetchState;
use dns_syncer::fetcher::http_fetcher::HttpFetcher;
use dns_syncer::record::FetcherRecordSet;
use dns_syncer::record::IpAddr;
use dns_syncer::record::Ipv4Addr;
use dns_syncer::record::Ipv6Addr;
use dns_syncer::record::Param;
use dns_syncer::record::PublicIp;
use dns_syncer::record::RecordContent;

const SECOND: u64 = 1000;

fn args(entries: &[(&str, &str)]) -> Vec<Param> {
    entries.iter().map(|(n, v)| Param { name: n.to_string(), value: v.to_string() }).collect()
}

fn v4(last: u8) -> Ipv4Addr {
    Ipv4Addr::new(203, 0, 113, last)
}

fn v6(last: u16) -> Ipv6Addr {
    Ipv6Addr::new(0x2001, 0xdb8, 0, 0, 0, 0, 0, last)
}

fn body(status: u16, text: &str) -> FetchEvent {
    FetchEvent::Response { status, body: text.to_string() }
}

/// Answers every request of a live fetch and returns the requests in order.
fn answer_all(
    fetcher: &mut HttpFetcher,
    mut state: FetchState,
    mut action: FetchAction,
    now: u64,
) -> (Vec<(String, AddrFamily)>, Result<FetcherRecordSet, Error>) {
    let mut asked = Vec::new();
    let mut count: u8 = 0;
    loop {
        let event = match action {
            FetchAction::Get { url, family } => {
                asked.push((url.clone(), family));
                count += 1;
                let literal = match family {
                    AddrFamily::V4 => format!("203.0.113.{}", count),
                    AddrFamily::V6 => format!("2001:db8::{:x}", count),
                };
                if url.contains("cdn-cgi") {
                    body(200, &format!("h=x\nip={}\nloc=AU\n", literal))
                } else {
                    body(200, &format!("{}\n", literal))
                }
            }
            FetchAction::ParseAddress { literal: _, family } => match family {
                AddrFamily::V4 => FetchEvent::Address(Ok(IpAddr::V4(v4(count)))),
                AddrFamily::V6 => FetchEvent::Address(Ok(IpAddr::V6(v6(count as u16)))),
            },
            FetchAction::Done(result) => return (asked, result),
        };
        let next = fetcher.resume(state, event, now);
        state = next.0;
        action = next.1;
    }
}

#[test]
fn default_fetcher_asks_every_backend_v4_before_v6() {
    let mut fetcher = HttpFetcher::new();
    assert!(!fetcher.is_fresh(0));
    let (state, action) = fetcher.fetch(5 * SECOND);
    assert!(!state.is_finished());
    let (asked, result) = answer_all(&mut fetcher, state, action, 6 * SECOND);
    assert_eq!(
        asked,
        vec![
            ("https://1.1.1.1/cdn-cgi/trace".to_string(), AddrFamily::V4),
            ("https://[2606:4700:4700::1111]/cdn-cgi/trace".to_string(), AddrFamily::V6),
            ("http://4.ipw.cn".to_string(), AddrFamily::V4),
            ("http://6.ipw.cn".to_string(), AddrFamily::V6),
        ]
    );
    let set = result.unwrap();
    assert_eq!(set.len(), 4);
    assert_eq!(set.get(0).value, RecordContent::A(v4(1)));
    assert_eq!(set.get(1).value, RecordContent::AAAA(v6(2)));
    assert_eq!(set.get(2).value, RecordContent::A(v4(3)));
    assert_eq!(set.get(3).value, RecordContent::AAAA(v6(4)));
    assert_eq!(set.get(0).labels[0].tuple_ref(), ("backend", "cloudflare"));
    assert_eq!(set.get(1).labels[0].tuple_ref(), ("backend", "cloudflare"));
    assert_eq!(set.get(2).labels[0].tuple_ref(), ("backend", "ipw"));
    assert_eq!(set.get(3).labels[0].tuple_ref(), ("backend", "ipw"));
    // The backend asked last decides.
    assert_eq!(PublicIp::from(set), PublicIp::new(Some(v4(3)), Some(v6(4))));
}

#[test]
fn literal_is_handed_out_for_parsing() {
    let mut fetcher = HttpFetcher::new();
    let (state, _) = fetcher.fetch(0);
    let (state, action) = fetcher.resume(state, body(200, "fl=1\nip=155.156.157.158\nts=1\n"), 0);
    assert_eq!(
        action,
        FetchAction::ParseAddress { literal: "155.156.157.158".to_string(), family: AddrFamily::V4 }
    );
    let (_, action) = fetcher.resume(state, FetchEvent::Address(Ok(IpAddr::V4(v4(1)))), 0);
    assert_eq!(
        action,
        FetchAction::Get {
            url: "https://[2606:4700:4700::1111]/cdn-cgi/trace".to_string(),
            family: AddrFamily::V6
        }
    );
}

#[test]
fn result_is_reused_within_thirty_seconds_and_refetched_after() {
    let mut fetcher = HttpFetcher::new();
    let (state, action) = fetcher.fetch(100 * SECOND);
    let (asked, first) = answer_all(&mut fetcher, state, action, 100 * SECOND);
    assert_eq!(asked.len(), 4);
    let first = first.unwrap();

    for later in [100 * SECOND, 101 * SECOND, 129 * SECOND, 130 * SECOND - 1] {
        assert!(fetcher.is_fresh(later));
        let (state, action) = fetcher.fetch(later);
        assert!(state.is_finished());
        assert_eq!(action, FetchAction::Done(Ok(first.clone())));
    }
    // A clock reading before the fetch counts as no time passed.
    assert!(fetcher.is_fresh(50 * SECOND));

    for later in [130 * SECOND, 131 * SECOND, 1000 * SECOND] {
        assert!(!fetcher.is_fresh(later));
        let (_, action) = fetcher.fetch(later);
        assert_eq!(
            action,
            FetchAction::Get { url: "https://1.1.1.1/cdn-cgi/trace".to_string(), family: AddrFamily::V4 }
        );
    }
    let (state, action) = fetcher.fetch(130 * SECOND);
    let (asked, second) = answer_all(&mut fetcher, state, action, 130 * SECOND);
    assert_eq!(asked.len(), 4);
    assert_eq!(second.unwrap().len(), 4);
    assert!(fetcher.is_fresh(159 * SECOND));
    assert!(!fetcher.is_fresh(160 * SECOND));
}

#[test]
fn failure_aborts_the_fetch_and_keeps_the_last_good_result() {
    let mut fetcher = HttpFetcher::new();
    let (state, action) = fetcher.fetch(0);
    let (_, good) = answer_all(&mut fetcher, state, action, 0);
    let good = good.unwrap();

    let failures: Vec<(Vec<FetchEvent>, Error)> = vec![
        (
            vec![FetchEvent::Unreachable("connection refused".to_string())],
            Error::HttpError("connection refused".to_string()),
        ),
        (vec![body(503, "ip=1.2.3.4")], Error::HttpError("get returns non-200 status: 503".to_string())),
        (vec![body(199, "ip=1.2.3.4")], Error::HttpError("get returns non-200 status: 199".to_string())),
        (
            vec![body(200, "no address here")],
            Error::ParseError("cannot find ip in cloudflare response v4".to_string()),
        ),
        (
            vec![body(200, "ip=nonsense"), FetchEvent::Address(Err("invalid IPv4 address syntax".to_string()))],
            Error::ParseError("invalid IPv4 address syntax".to_string()),
        ),
        (
            vec![body(200, "ip=::1"), FetchEvent::Address(Ok(IpAddr::V6(v6(1))))],
            Error::ParseError("address is not of the family that was asked for".to_string()),
        ),
        (
            vec![FetchEvent::Address(Ok(IpAddr::V4(v4(1))))],
            Error::GlobalFetcherError("event does not answer the pending action".to_string()),
        ),
        (
            vec![body(204, "ip=1.2.3.4"), body(200, "ip=1.2.3.4")],
            Error::GlobalFetcherError("event does not answer the pending action".to_string()),
        ),
    ];
    for (events, expected) in failures {
        let (mut state, mut action) = fetcher.fetch(60 * SECOND);
        for event in events {
            let next = fetcher.resume(state, event, 61 * SECOND);
            state = next.0;
            action = next.1;
        }
        assert_eq!(action, FetchAction::Done(Err(expected)));
        assert!(state.is_finished());
        // The result of the earlier fetch is still there, as old as it was.
        assert!(fetcher.is_fresh(29 * SECOND));
        assert!(!fetcher.is_fresh(30 * SECOND));
        assert_eq!(fetcher.fetch(10 * SECOND).1, FetchAction::Done(Ok(good.clone())));
    }
}

#[test]
fn success_status_is_any_2xx() {
    let mut fetcher = HttpFetcher::new();
    for status in [200u16, 204, 299] {
        let (state, _) = fetcher.fetch(0);
        let (_, action) = fetcher.resume(state, body(status, "ip=1.2.3.4"), 0);
        assert!(matches!(action, FetchAction::ParseAddress { .. }));
    }
    for status in [0u16, 199, 300, 404] {
        let (state, _) = fetcher.fetch(0);
        let (_, action) = fetcher.resume(state, body(status, "ip=1.2.3.4"), 0);
        assert!(matches!(action, FetchAction::Done(Err(Error::HttpError(_)))));
    }
}

#[test]
fn arguments_choose_backends_and_lifetime() {
    let mut only_ipw =
        HttpFetcher::new_with_args(args(&[("enabled", "ipw"), ("cache_alive_time", "5")]));
    let (state, action) = only_ipw.fetch(0);
    let (asked, result) = answer_all(&mut only_ipw, state, action, 0);
    assert_eq!(
        asked,
        vec![
            ("http://4.ipw.cn".to_string(), AddrFamily::V4),
            ("http://6.ipw.cn".to_string(), AddrFamily::V6)
        ]
    );
    assert_eq!(result.unwrap().len(), 2);
    assert!(only_ipw.is_fresh(5 * SECOND - 1));
    assert!(!only_ipw.is_fresh(5 * SECOND));

    // The first argument of a name counts; the order of the list is kept.
    let mut swapped = HttpFetcher::new_with_args(args(&[
        ("enabled", "ipw,cloudflare"),
        ("enabled", "cloudflare"),
        ("cache_alive_time", "+7"),
        ("cache_alive_time", "9"),
    ]));
    let (state, action) = swapped.fetch(0);
    let (asked, _) = answer_all(&mut swapped, state, action, 0);
    assert_eq!(asked.len(), 4);
    assert_eq!(asked[0].0, "http://4.ipw.cn");
    assert_eq!(asked[2].0, "https://1.1.1.1/cdn-cgi/trace");
    assert!(swapped.is_fresh(7 * SECOND - 1));
    assert!(!swapped.is_fresh(7 * SECOND));

    // Without a list all backends are asked; without a lifetime nothing is kept.
    let mut unlisted = HttpFetcher::new_with_args(args(&[("other", "x")]));
    let (state, action) = unlisted.fetch(0);
    let (asked, _) = answer_all(&mut unlisted, state, action, 0);
    assert_eq!(asked.len(), 4);
    assert!(!unlisted.is_fresh(0));

    // No argument at all gives the default fetcher.
    assert_eq!(HttpFetcher::new_with_args(vec![]), HttpFetcher::new());
}

#[test]
fn unusable_arguments_are_recognised() {
    assert!(HttpFetcher::args_are_valid(&args(&[])));
    assert!(HttpFetcher::args_are_valid(&args(&[("enabled", "cloudflare,ipw")])));
    assert!(HttpFetcher::args_are_valid(&args(&[("cache_alive_time", "0")])));
    assert!(!HttpFetcher::args_are_valid(&args(&[("enabled", "1.1.1.1,ipinfo.io")])));
    assert!(!HttpFetcher::args_are_valid(&args(&[("enabled", "")])));
    assert!(!HttpFetcher::args_are_valid(&args(&[("enabled", "ipw,")])));
    assert!(!HttpFetcher::args_are_valid(&args(&[("enabled", "ipw"), ("cache_alive_time", "soon")])));
    assert!(!HttpFetcher::args_are_valid(&args(&[("cache_alive_time", "-1")])));
    assert!(HttpFetcher::try_new_with_args(args(&[("enabled", "dns")])).is_none());
    assert!(HttpFetcher::try_new_with_args(args(&[("enabled", "ipw")])).is_some());
    assert_eq!(find_arg(&args(&[("a", "1"), ("a", "2")]), "a"), Some("1"));
    assert_eq!(find_arg(&args(&[("a", "1")]), "b"), None);
    let names = vec!["ipw".to_string(), "cloudflare".to_string(), "ipw".to_string()];
    assert!(HttpFetcher::backends_are_known(&names));
    assert_eq!(
        HttpFetcher::backends_from_types(&names),
        vec![FetcherBackend::Ipw, FetcherBackend::Cloudflare, FetcherBackend::Ipw]
    );
    assert_eq!(
        HttpFetcher::backends_from_types(&vec![]),
        vec![FetcherBackend::Cloudflare, FetcherBackend::Ipw]
    );
    assert!(!HttpFetcher::backends_are_known(&vec!["Cloudflare".to_string()]));
}
