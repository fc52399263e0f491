use vstd::prelude::*;
use vstd::string::StrSliceExecFns;
use vstd::string::StringExecFns;
use crate::error::Error;
use crate::error::ErrorView;
use crate::record::RecordLabel;
use crate::record::RecordLabelView;
use crate::text::chars_of;
use crate::text::find_char;
use crate::text::find_from;
use crate::text::matches_at;
use crate::text::trim;
use crate::text::trimmed;

verus! {

/// The two address families that a host can be reached by.
#[derive(Debug, Clone, Copy, PartialEq, Eq, Structural)]
pub enum AddrFamily {
    V4,
    V6,
}

/// The services that can tell this host its public address.
#[derive(Debug, Clone, Copy, PartialEq, Eq, Structural)]
pub enum FetcherBackend {
    /// Cloudflare's trace endpoint.
    Cloudflare,
    /// The plain-text echo service.
    Ipw,
}

/// The line of `s` that starts at `from`, without its line break. A
/// carriage return just before the line feed belongs to the line break.
pub open spec fn line_at(s: Seq<char>, from: int) -> Seq<char> {
    let end = find_from(s, '\n', from);
    if from < end < s.len() && s[end - 1] == '\r' {
        s.subrange(from, end - 1)
    } else {
        s.subrange(from, end)
    }
}

/// The value of the first line at or after `from` that starts with `ip=`.
pub open spec fn trace_ip_from(s: Seq<char>, from: int) -> Option<Seq<char>>
    decreases s.len() - from,
{
    let end = find_from(s, '\n', from);
    if from < 0 || from >= s.len() || end < from {
        None
    } else if "ip="@.is_prefix_of(line_at(s, from)) {
        Some(line_at(s, from).skip(3))
    } else if end >= s.len() {
        None
    } else {
        trace_ip_from(s, end + 1)
    }
}

/// What a trace body says the caller's address is: the rest of its first
/// line that starts with `ip=`.
pub open spec fn trace_ip(s: Seq<char>) -> Option<Seq<char>> {
    trace_ip_from(s, 0)
}

/// The one label that names the backend a result came from.
pub open spec fn backend_labels(name: Seq<char>) -> Seq<RecordLabelView> {
    seq![RecordLabelView { key: "backend"@, val: name }]
}

fn labels_for(name: &str) -> (r: Vec<RecordLabel>)
    ensures
        r.deep_view() == backend_labels(name@),
{
    let mut labels: Vec<RecordLabel> = Vec::new();
    labels.push(RecordLabel::new(String::from_str("backend"), String::from_str(name)));
    assert(labels.deep_view() =~= backend_labels(name@));
    labels
}

/// The text of the error for a trace body without an `ip=` line.
pub open spec fn missing_ip_message() -> Seq<char> {
    "cannot find ip in cloudflare response v4"@
}

/// Cloudflare's trace endpoint, which answers with lines of `key=value`.
pub struct CloudflareFetcher;

impl CloudflareFetcher {
    pub fn v4_url() -> (r: &'static str)
        ensures
            r@ == "https://1.1.1.1/cdn-cgi/trace"@,
    {
        "https://1.1.1.1/cdn-cgi/trace"
    }

    pub fn v6_url() -> (r: &'static str)
        ensures
            r@ == "https://[2606:4700:4700::1111]/cdn-cgi/trace"@,
    {
        "https://[2606:4700:4700::1111]/cdn-cgi/trace"
    }

    /// The address literal in a trace body, with the backend's label. A
    /// body without an `ip=` line is an error.
    pub fn parse_content(content: &str) -> (r: Result<(String, Vec<RecordLabel>), Error>)
        ensures
            match trace_ip(content@) {
                Some(ip) => r is Ok && r->Ok_0.0@ == ip && r->Ok_0.1.deep_view() == backend_labels(
                    "cloudflare"@,
                ),
                None => r is Err && r->Err_0@ == ErrorView::ParseError(missing_ip_message()),
            },
    {
        let v = chars_of(content);
        let prefix = chars_of("ip=");
        proof {
            reveal_strlit("ip=");
        }
        let mut from: usize = 0;
        while from < v.len()
            invariant
                v@ == content@,
                prefix@ == "ip="@,
                prefix@.len() == 3,
                from <= v.len(),
                trace_ip(content@) == trace_ip_from(content@, from as int),
            decreases v.len() - from,
        {
            let end = find_char(&v, '\n', from);
            let line_end = if from < end && end < v.len() && v[end - 1] == '\r' {
                end - 1
            } else {
                end
            };
            assert(line_at(v@, from as int) == v@.subrange(from as int, line_end as int));
            if line_end - from >= 3 && matches_at(&v, from, &prefix) {
                let ghost line = line_at(v@, from as int);
                assert(line.subrange(0, 3) =~= v@.subrange(from as int, from + 3));
                assert(line.skip(3) =~= v@.subrange(from + 3, line_end as int));
                let ip = String::from_str(content.substring_char(from + 3, line_end));
                return Ok((ip, labels_for("cloudflare")));
            }
            proof {
                let line = line_at(v@, from as int);
                if line.len() >= 3 {
                    assert(line.subrange(0, 3) =~= v@.subrange(from as int, from + 3));
                }
            }
            if end >= v.len() {
                from = v.len();
            } else {
                from = end + 1;
            }
        }
        Err(Error::ParseError(String::from_str("cannot find ip in cloudflare response v4")))
    }
}

/// The plain-text echo service, which answers with the caller's address
/// and nothing else.
pub struct IpwFetcher;

impl IpwFetcher {
    pub fn v4_url() -> (r: &'static str)
        ensures
            r@ == "http://4.ipw.cn"@,
    {
        "http://4.ipw.cn"
    }

    pub fn v6_url() -> (r: &'static str)
        ensures
            r@ == "http://6.ipw.cn"@,
    {
        "http://6.ipw.cn"
    }

    /// The address literal in an echo body: the whole body without the
    /// white space around it, with the backend's label.
    pub fn parse_content(content: &str) -> (r: Result<(String, Vec<RecordLabel>), Error>)
        ensures
            r is Ok,
            r->Ok_0.0@ == trimmed(content@),
            r->Ok_0.1.deep_view() == backend_labels("ipw"@),
    {
        Ok((String::from_str(trim(content)), labels_for("ipw")))
    }
}

impl FetcherBackend {
    /// The name of the backend in configurations and labels.
    pub open spec fn spec_name(self) -> Seq<char> {
        match self {
            FetcherBackend::Cloudflare => "cloudflare"@,
            FetcherBackend::Ipw => "ipw"@,
        }
    }

    /// The address that echoes the caller's address of `family`.
    pub open spec fn spec_url(self, family: AddrFamily) -> Seq<char> {
        match (self, family) {
            (FetcherBackend::Cloudflare, AddrFamily::V4) => "https://1.1.1.1/cdn-cgi/trace"@,
            (FetcherBackend::Cloudflare, AddrFamily::V6) => "https://[2606:4700:4700::1111]/cdn-cgi/trace"@,
            (FetcherBackend::Ipw, AddrFamily::V4) => "http://4.ipw.cn"@,
            (FetcherBackend::Ipw, AddrFamily::V6) => "http://6.ipw.cn"@,
        }
    }

    /// What a response body of this backend says: the address literal and
    /// the backend's label, or why the body says nothing.
    pub open spec fn parsed(self, body: Seq<char>) -> Result<(Seq<char>, Seq<RecordLabelView>), ErrorView> {
        match self {
            FetcherBackend::Cloudflare => match trace_ip(body) {
                Some(ip) => Ok((ip, backend_labels("cloudflare"@))),
                None => Err(ErrorView::ParseError(missing_ip_message())),
            },
            FetcherBackend::Ipw => Ok((trimmed(body), backend_labels("ipw"@))),
        }
    }

    /// The name of the backend in configurations and labels.
    pub fn name(&self) -> (r: &'static str)
        ensures
            r@ == self.spec_name(),
    {
        match self {
            FetcherBackend::Cloudflare => "cloudflare",
            FetcherBackend::Ipw => "ipw",
        }
    }

    /// The address that echoes the caller's address of `family`.
    pub fn url(&self, family: AddrFamily) -> (r: &'static str)
        ensures
            r@ == self.spec_url(family),
    {
        match (self, family) {
            (FetcherBackend::Cloudflare, AddrFamily::V4) => CloudflareFetcher::v4_url(),
            (FetcherBackend::Cloudflare, AddrFamily::V6) => CloudflareFetcher::v6_url(),
            (FetcherBackend::Ipw, AddrFamily::V4) => IpwFetcher::v4_url(),
            (FetcherBackend::Ipw, AddrFamily::V6) => IpwFetcher::v6_url(),
        }
    }

    /// Reads a response body of this backend.
    pub fn parse_content(&self, content: &str) -> (r: Result<(String, Vec<RecordLabel>), Error>)
        ensures
            match self.parsed(content@) {
                Ok(p) => r is Ok && r->Ok_0.0@ == p.0 && r->Ok_0.1.deep_view() == p.1,
                Err(e) => r is Err && r->Err_0@ == e,
            },
    {
        match self {
            FetcherBackend::Cloudflare => CloudflareFetcher::parse_content(content),
            FetcherBackend::Ipw => IpwFetcher::parse_content(content),
        }
    }
}

} // verus!
