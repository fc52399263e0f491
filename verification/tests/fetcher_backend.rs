use dns_syncer::error::Error;
use dns_syncer::fetcher::backend::AddrFamily;
use dns_syncer::fetcher::backend::CloudflareFetcher;
use dns_syncer::fetcher::backend::FetcherBackend;
use dns_syncer::fetcher::backend::IpwFetcher;

#[test]
fn test_fetcher_parse_v4_content() {
    let content = r#"
fl=490f68
h=1.1.1.1
ip=155.156.157.158
ts=1743642238.374
visit_scheme=https
uag=
colo=SYD
sliver=none
http=http/1.1
loc=AU
tls=TLSv1.2
sni=plaintext
warp=off
gateway=off
rbi=off
kex=P-256"#;
    let (ip, labels) = CloudflareFetcher::parse_content(content).unwrap();
    assert_eq!(ip, "155.156.157.158");
    assert_eq!(labels.len(), 1);
}

#[test]
fn test_fetcher_parse_v6_content() {
    let content = r#"
fl=465f162
h=[2606:3007:4007::1111]
ip=2604:5006:8:1d0::4b:d000
ts=1744159940.969
visit_scheme=https
uag=curl/7.88.1
colo=SJC
sliver=none
http=http/2
loc=US
tls=TLSv1.3
sni=off
warp=off
gateway=off
rbi=off
kex=X25519
    "#;
    let (ip, labels) = CloudflareFetcher::parse_content(content).unwrap();
    assert_eq!(ip, "2604:5006:8:1d0::4b:d000");
    assert_eq!(labels.len(), 1);
}

#[test]
fn trace_label_names_the_backend() {
    let (_, labels) = CloudflareFetcher::parse_content("ip=1.2.3.4\n").unwrap();
    assert_eq!(labels[0].tuple_ref(), ("backend", "cloudflare"));
    let (_, labels) = IpwFetcher::parse_content("1.2.3.4").unwrap();
    assert_eq!(labels[0].tuple_ref(), ("backend", "ipw"));
}

#[test]
fn trace_without_ip_line_is_an_error() {
    let r = CloudflareFetcher::parse_content("fl=490f68\nh=1.1.1.1\nts=1743642238.374\n");
    assert_eq!(
        r.unwrap_err(),
        Error::ParseError("cannot find ip in cloudflare response v4".to_string())
    );
    assert!(CloudflareFetcher::parse_content("").is_err());
    // The key has to start the line.
    assert!(CloudflareFetcher::parse_content("zip=1.2.3.4\n").is_err());
}

#[test]
fn trace_takes_the_first_ip_line_and_the_whole_value() {
    let (ip, _) = CloudflareFetcher::parse_content("ip=1.1.1.1\nip=2.2.2.2\n").unwrap();
    assert_eq!(ip, "1.1.1.1");
    let (ip, _) = CloudflareFetcher::parse_content("h=x\nip=a=b\n").unwrap();
    assert_eq!(ip, "a=b");
    let (ip, _) = CloudflareFetcher::parse_content("ip=").unwrap();
    assert_eq!(ip, "");
}

#[test]
fn trace_line_break_may_carry_a_carriage_return() {
    let (ip, _) = CloudflareFetcher::parse_content("h=x\r\nip=9.9.9.9\r\nloc=AU\r\n").unwrap();
    assert_eq!(ip, "9.9.9.9");
    // Without a line feed after it, the carriage return is part of the line.
    let (ip, _) = CloudflareFetcher::parse_content("ip=9.9.9.9\r").unwrap();
    assert_eq!(ip, "9.9.9.9\r");
}

#[test]
fn echo_body_is_trimmed() {
    let (ip, labels) = IpwFetcher::parse_content("  203.0.113.5\r\n").unwrap();
    assert_eq!(ip, "203.0.113.5");
    assert_eq!(labels.len(), 1);
    let (ip, _) = IpwFetcher::parse_content("\u{3000}2001:db8::1\u{85}\n").unwrap();
    assert_eq!(ip, "2001:db8::1");
    let (ip, _) = IpwFetcher::parse_content(" \t ").unwrap();
    assert_eq!(ip, "");
}

#[test]
fn backend_urls() {
    assert_eq!(CloudflareFetcher::v4_url(), "https://1.1.1.1/cdn-cgi/trace");
    assert_eq!(CloudflareFetcher::v6_url(), "https://[2606:4700:4700::1111]/cdn-cgi/trace");
    assert_eq!(IpwFetcher::v4_url(), "http://4.ipw.cn");
    assert_eq!(IpwFetcher::v6_url(), "http://6.ipw.cn");
    assert_eq!(FetcherBackend::Cloudflare.url(AddrFamily::V6), CloudflareFetcher::v6_url());
    assert_eq!(FetcherBackend::Ipw.url(AddrFamily::V4), IpwFetcher::v4_url());
    assert_eq!(FetcherBackend::Cloudflare.name(), "cloudflare");
    assert_eq!(FetcherBackend::Ipw.name(), "ipw");
}

#[test]
fn backend_dispatches_to_its_format() {
    let body = "h=1.1.1.1\nip=1.2.3.4\n";
    let (ip, _) = FetcherBackend::Cloudflare.parse_content(body).unwrap();
    assert_eq!(ip, "1.2.3.4");
    let (ip, _) = FetcherBackend::Ipw.parse_content(body).unwrap();
    assert_eq!(ip, "h=1.1.1.1\nip=1.2.3.4");
}

#[test]
fn trace_parsing_agrees_with_line_by_line_reading() {
    let samples = [
        "",
        "\n",
        "ip=",
        "ip=\n",
        "ip",
        "i\np=1",
        "a=b\nip=1.2.3.4",
        "a=b\r\nip=1.2.3.4\r\n",
        "a=b\rip=1.2.3.4\n",
        "ip=1.2.3.4\r\r\n",
        "\r\nip=::1",
        "\n\n\nip=x\n\n",
        " ip=1.2.3.4\nip=5.6.7.8",
        "IP=1.2.3.4\n",
        "ip=é\nip=2",
        "x\nip=1=2=3\n",
        "h=1\nipx=2\nip=3",
    ];
    for body in samples {
        let expected = body
            .lines()
            .find(|line| line.starts_with("ip="))
            .map(|line| line.splitn(2, '=').collect::<Vec<&str>>()[1].to_string());
        let got = CloudflareFetcher::parse_content(body).ok().map(|(ip, _)| ip);
        assert_eq!(got, expected, "{:?}", body);
    }
}
