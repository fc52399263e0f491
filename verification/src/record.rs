use vstd::prelude::*;
use vstd::string::StringExecFns;
use vstd::std_specs::convert::FromSpecImpl;
use crate::error::Error;
use crate::error::ErrorView;

verus! {

/// An IPv4 address, held as its four octets in network order.
#[derive(Debug, Clone, Copy, PartialEq, Eq, Hash)]
pub struct Ipv4Addr {
    octets: [u8; 4],
}

impl Ipv4Addr {
    /// The octets of the address, most significant first.
    pub closed spec fn spec_octets(&self) -> Seq<u8> {
        self.octets@
    }

    /// The address `a.b.c.d`.
    pub fn new(a: u8, b: u8, c: u8, d: u8) -> (r: Self)
        ensures
            r.spec_octets() == seq![a, b, c, d],
    {
        let r = Ipv4Addr { octets: [a, b, c, d] };
        assert(r.octets@ =~= seq![a, b, c, d]);
        r
    }

    /// The four octets of the address.
    pub fn octets(&self) -> (r: [u8; 4])
        ensures
            r@ == self.spec_octets(),
    {
        self.octets
    }
}

/// An IPv6 address, held as its eight 16-bit segments in network order.
#[derive(Debug, Clone, Copy, PartialEq, Eq, Hash)]
pub struct Ipv6Addr {
    segments: [u16; 8],
}

impl Ipv6Addr {
    /// The segments of the address, most significant first.
    pub closed spec fn spec_segments(&self) -> Seq<u16> {
        self.segments@
    }

    /// The address `a:b:c:d:e:f:g:h`.
    pub fn new(a: u16, b: u16, c: u16, d: u16, e: u16, f: u16, g: u16, h: u16) -> (r: Self)
        ensures
            r.spec_segments() == seq![a, b, c, d, e, f, g, h],
    {
        let r = Ipv6Addr { segments: [a, b, c, d, e, f, g, h] };
        assert(r.segments@ =~= seq![a, b, c, d, e, f, g, h]);
        r
    }

    /// The eight segments of the address.
    pub fn segments(&self) -> (r: [u16; 8])
        ensures
            r@ == self.spec_segments(),
    {
        self.segments
    }
}

/// An address of either family.
#[derive(Debug, Clone, Copy, PartialEq, Eq, Hash)]
pub enum IpAddr {
    V4(Ipv4Addr),
    V6(Ipv6Addr),
}

/// The public addresses of this host, one per address family at most.
#[derive(Debug, Clone, Copy, PartialEq)]
pub struct PublicIp {
    pub v4: Option<Ipv4Addr>,
    pub v6: Option<Ipv6Addr>,
}

impl PublicIp {
    pub fn new(v4: Option<Ipv4Addr>, v6: Option<Ipv6Addr>) -> (r: Self)
        ensures
            r == (PublicIp { v4, v6 }),
    {
        Self { v4, v6 }
    }

    /// Both addresses, IPv4 first.
    pub fn ips(&self) -> (r: (Option<Ipv4Addr>, Option<Ipv6Addr>))
        ensures
            r == (self.v4, self.v6),
    {
        (self.v4, self.v6)
    }

    /// An IPv4 address and no IPv6 address.
    pub fn new_v4(v4: Ipv4Addr) -> (r: Self)
        ensures
            r == (PublicIp { v4: Some(v4), v6: None }),
    {
        Self { v4: Some(v4), v6: None }
    }

    /// An IPv6 address and no IPv4 address.
    pub fn new_v6(v6: Ipv6Addr) -> (r: Self)
        ensures
            r == (PublicIp { v4: None, v6: Some(v6) }),
    {
        Self { v4: None, v6: Some(v6) }
    }

    pub fn set_v4(&mut self, v4: Ipv4Addr)
        ensures
            *final(self) == (PublicIp { v4: Some(v4), v6: old(self).v6 }),
    {
        self.v4 = Some(v4);
    }

    pub fn set_v6(&mut self, v6: Ipv6Addr)
        ensures
            *final(self) == (PublicIp { v4: old(self).v4, v6: Some(v6) }),
    {
        self.v6 = Some(v6);
    }

    pub fn get_v4(&self) -> (r: Option<&Ipv4Addr>)
        ensures
            r == match self.v4 {
                Some(ip) => Some(&ip),
                None => None,
            },
    {
        self.v4.as_ref()
    }

    pub fn get_v6(&self) -> (r: Option<&Ipv6Addr>)
        ensures
            r == match self.v6 {
                Some(ip) => Some(&ip),
                None => None,
            },
    {
        self.v6.as_ref()
    }
}

/// The name of a zone at a provider.
pub type ZoneName = String;

/// A note on where a fetched record came from.
#[derive(Debug, PartialEq)]
pub struct RecordLabel {
    key: String,
    val: String,
}

/// The mathematical content of a [`RecordLabel`].
pub struct RecordLabelView {
    pub key: Seq<char>,
    pub val: Seq<char>,
}

impl View for RecordLabel {
    type V = RecordLabelView;

    closed spec fn view(&self) -> RecordLabelView {
        RecordLabelView { key: self.key@, val: self.val@ }
    }
}

impl DeepView for RecordLabel {
    type V = RecordLabelView;

    open spec fn deep_view(&self) -> RecordLabelView {
        self@
    }
}

impl RecordLabel {
    pub fn new(key: String, val: String) -> (r: Self)
        ensures
            r@ == (RecordLabelView { key: key@, val: val@ }),
    {
        Self { key, val }
    }

    /// The key and the value of the label.
    pub fn tuple_ref(&self) -> (r: (&str, &str))
        ensures
            r.0@ == self@.key,
            r.1@ == self@.val,
    {
        (self.key.as_str(), self.val.as_str())
    }
}

impl Clone for RecordLabel {
    fn clone(&self) -> (r: Self)
        ensures
            r@ == self@,
    {
        RecordLabel { key: self.key.clone(), val: self.val.clone() }
    }
}

/// What accompanies a record: a comment and labels.
#[derive(Debug, PartialEq)]
pub struct RecordMeta {
    comment: Option<String>,
    labels: Vec<RecordLabel>,
}

/// The mathematical content of a [`RecordMeta`].
pub struct RecordMetaView {
    pub comment: Option<Seq<char>>,
    pub labels: Seq<RecordLabelView>,
}

impl View for RecordMeta {
    type V = RecordMetaView;

    closed spec fn view(&self) -> RecordMetaView {
        RecordMetaView { comment: self.comment.deep_view(), labels: self.labels.deep_view() }
    }
}

impl Default for RecordMeta {
    fn default() -> (r: Self)
        ensures
            r@ == (RecordMetaView { comment: None, labels: Seq::empty() }),
    {
        let r = RecordMeta { comment: None, labels: Vec::new() };
        assert(r.labels.deep_view() =~= Seq::empty());
        r
    }
}

impl RecordMeta {
    /// Replaces the comment.
    pub fn set_comment(&mut self, comment: String)
        ensures
            final(self)@ == (RecordMetaView { comment: Some(comment@), ..old(self)@ }),
    {
        self.comment = Some(comment);
    }

    /// Adds `label` after the labels that are there.
    pub fn append_label(&mut self, label: RecordLabel)
        ensures
            final(self)@ == (RecordMetaView {
                labels: old(self)@.labels.push(label@),
                ..old(self)@
            }),
    {
        let ghost before = self.labels.deep_view();
        self.labels.push(label);
        assert(self.labels.deep_view() =~= before.push(label@));
    }

    /// The comment and the labels.
    pub fn split(self) -> (r: (Option<String>, Vec<RecordLabel>))
        ensures
            r.0.deep_view() == self@.comment,
            r.1.deep_view() == self@.labels,
    {
        (self.comment, self.labels)
    }
}

impl Clone for RecordMeta {
    fn clone(&self) -> (r: Self)
        ensures
            r@ == self@,
    {
        RecordMeta { comment: clone_optional_text(&self.comment), labels: clone_labels(&self.labels) }
    }
}

/// The kind of a DNS record.
#[derive(Debug, Clone, Copy, PartialEq, Eq, Structural)]
pub enum RecordType {
    A,
    AAAA,
    CNAME,
    /// No record type.
    Unspecified,
}

impl RecordType {
    /// The name of the record type as providers spell it.
    pub open spec fn spec_as_str(&self) -> Seq<char> {
        match self {
            RecordType::A => "A"@,
            RecordType::AAAA => "AAAA"@,
            RecordType::CNAME => "CNAME"@,
            RecordType::Unspecified => "None"@,
        }
    }

    pub fn as_str(&self) -> (r: &'static str)
        ensures
            r@ == self.spec_as_str(),
    {
        match self {
            RecordType::A => "A",
            RecordType::AAAA => "AAAA",
            RecordType::CNAME => "CNAME",
            RecordType::Unspecified => "None",
        }
    }
}

/// What a record holds.
#[derive(Debug, PartialEq)]
pub enum RecordContent {
    /// An IPv4 address.
    A(Ipv4Addr),
    /// An IPv6 address.
    AAAA(Ipv6Addr),
    /// The name this record is an alias of.
    CNAME(String),
    /// A record of the given kind whose value is to be taken from the
    /// detected public address.
    Unassigned(RecordType),
    /// Nothing usable.
    Unknown,
}

/// The mathematical content of a [`RecordContent`].
pub enum RecordContentView {
    A(Ipv4Addr),
    AAAA(Ipv6Addr),
    CNAME(Seq<char>),
    Unassigned(RecordType),
    Unknown,
}

impl RecordContentView {
    /// Whether the content can be sent to a provider as it is.
    pub open spec fn is_concrete(self) -> bool {
        self is A || self is AAAA || self is CNAME
    }
}

impl View for RecordContent {
    type V = RecordContentView;

    open spec fn view(&self) -> RecordContentView {
        match self {
            RecordContent::A(ip) => RecordContentView::A(*ip),
            RecordContent::AAAA(ip) => RecordContentView::AAAA(*ip),
            RecordContent::CNAME(name) => RecordContentView::CNAME(name@),
            RecordContent::Unassigned(ty) => RecordContentView::Unassigned(*ty),
            RecordContent::Unknown => RecordContentView::Unknown,
        }
    }
}

impl DeepView for RecordContent {
    type V = RecordContentView;

    open spec fn deep_view(&self) -> RecordContentView {
        self@
    }
}

impl RecordContent {
    pub fn is_unknown(&self) -> (r: bool)
        ensures
            r == (self@ is Unknown),
    {
        matches!(self, RecordContent::Unknown)
    }

    pub fn is_unassigned(&self) -> (r: bool)
        ensures
            r == (self@ is Unassigned),
    {
        matches!(self, RecordContent::Unassigned(_))
    }
}

impl Clone for RecordContent {
    fn clone(&self) -> (r: Self)
        ensures
            r@ == self@,
    {
        match self {
            RecordContent::A(ip) => RecordContent::A(*ip),
            RecordContent::AAAA(ip) => RecordContent::AAAA(*ip),
            RecordContent::CNAME(name) => RecordContent::CNAME(name.clone()),
            RecordContent::Unassigned(ty) => RecordContent::Unassigned(*ty),
            RecordContent::Unknown => RecordContent::Unknown,
        }
    }
}

/// One result of asking a backend for this host's address.
#[derive(Debug, PartialEq)]
pub struct FetcherRecord {
    pub value: RecordContent,
    pub labels: Vec<RecordLabel>,
}

/// The mathematical content of a [`FetcherRecord`].
pub struct FetcherRecordView {
    pub value: RecordContentView,
    pub labels: Seq<RecordLabelView>,
}

impl View for FetcherRecord {
    type V = FetcherRecordView;

    open spec fn view(&self) -> FetcherRecordView {
        FetcherRecordView { value: self.value@, labels: self.labels.deep_view() }
    }
}

impl DeepView for FetcherRecord {
    type V = FetcherRecordView;

    open spec fn deep_view(&self) -> FetcherRecordView {
        self@
    }
}

/// A copy of `labels`.
pub fn clone_labels(labels: &Vec<RecordLabel>) -> (r: Vec<RecordLabel>)
    ensures
        r.deep_view() == labels.deep_view(),
{
    let mut out: Vec<RecordLabel> = Vec::new();
    let mut i: usize = 0;
    while i < labels.len()
        invariant
            i <= labels.len(),
            out.len() == i,
            forall|k: int| 0 <= k < i ==> out@[k]@ == labels@[k]@,
        decreases labels.len() - i,
    {
        out.push(labels[i].clone());
        i += 1;
    }
    assert(out.deep_view() =~= labels.deep_view());
    out
}

impl FetcherRecord {
    pub fn new(value: RecordContent) -> (r: Self)
        ensures
            r@ == (FetcherRecordView { value: value@, labels: Seq::empty() }),
    {
        let r = Self { value, labels: Vec::new() };
        assert(r.labels.deep_view() =~= Seq::empty());
        r
    }

    pub fn new_v4(value: Ipv4Addr) -> (r: Self)
        ensures
            r@ == (FetcherRecordView { value: RecordContentView::A(value), labels: Seq::empty() }),
    {
        Self::new(RecordContent::A(value))
    }

    pub fn new_v6(value: Ipv6Addr) -> (r: Self)
        ensures
            r@ == (FetcherRecordView {
                value: RecordContentView::AAAA(value),
                labels: Seq::empty(),
            }),
    {
        Self::new(RecordContent::AAAA(value))
    }

    /// An IPv4 result with the labels of its origin.
    pub fn new_v4_with_labels(value: Ipv4Addr, labels: Vec<RecordLabel>) -> (r: Self)
        ensures
            r@ == (FetcherRecordView {
                value: RecordContentView::A(value),
                labels: labels.deep_view(),
            }),
    {
        Self { value: RecordContent::A(value), labels }
    }

    /// An IPv6 result with the labels of its origin.
    pub fn new_v6_with_labels(value: Ipv6Addr, labels: Vec<RecordLabel>) -> (r: Self)
        ensures
            r@ == (FetcherRecordView {
                value: RecordContentView::AAAA(value),
                labels: labels.deep_view(),
            }),
    {
        Self { value: RecordContent::AAAA(value), labels }
    }
}

impl Clone for FetcherRecord {
    fn clone(&self) -> (r: Self)
        ensures
            r@ == self@,
    {
        FetcherRecord { value: self.value.clone(), labels: clone_labels(&self.labels) }
    }
}

/// The results of one pass over the backends, in the order they were asked.
#[derive(Debug, PartialEq)]
pub struct FetcherRecordSet {
    contents: Vec<FetcherRecord>,
}

impl View for FetcherRecordSet {
    type V = Seq<FetcherRecordView>;

    closed spec fn view(&self) -> Seq<FetcherRecordView> {
        self.contents.deep_view()
    }
}

impl DeepView for FetcherRecordSet {
    type V = Seq<FetcherRecordView>;

    open spec fn deep_view(&self) -> Seq<FetcherRecordView> {
        self@
    }
}

impl FetcherRecordSet {
    pub fn new() -> (r: Self)
        ensures
            r@ == Seq::<FetcherRecordView>::empty(),
    {
        let r = Self { contents: Vec::new() };
        assert(r.contents.deep_view() =~= Seq::empty());
        r
    }

    pub fn is_empty(&self) -> (r: bool)
        ensures
            r == (self@.len() == 0),
    {
        self.contents.len() == 0
    }

    /// The number of results.
    pub fn len(&self) -> (r: usize)
        ensures
            r == self@.len(),
    {
        self.contents.len()
    }

    /// The result at position `i`.
    pub fn get(&self, i: usize) -> (r: &FetcherRecord)
        requires
            i < self@.len(),
        ensures
            r@ == self@[i as int],
    {
        &self.contents[i]
    }

    pub fn push(&mut self, content: FetcherRecord)
        ensures
            final(self)@ == old(self)@.push(content@),
    {
        let ghost before = self.contents.deep_view();
        self.contents.push(content);
        assert(self.contents.deep_view() =~= before.push(content@));
    }
}

impl Default for FetcherRecordSet {
    fn default() -> (r: Self)
        ensures
            r@ == Seq::<FetcherRecordView>::empty(),
    {
        Self::new()
    }
}

impl Clone for FetcherRecordSet {
    fn clone(&self) -> (r: Self)
        ensures
            r@ == self@,
    {
        let mut out: Vec<FetcherRecord> = Vec::new();
        let mut i: usize = 0;
        while i < self.contents.len()
            invariant
                i <= self.contents.len(),
                out.len() == i,
                forall|k: int| 0 <= k < i ==> out@[k]@ == self.contents@[k]@,
            decreases self.contents.len() - i,
        {
            out.push(self.contents[i].clone());
            i += 1;
        }
        assert(out.deep_view() =~= self.contents.deep_view());
        FetcherRecordSet { contents: out }
    }
}

/// The last IPv4 address among `records`, if any.
pub open spec fn last_v4(records: Seq<FetcherRecordView>) -> Option<Ipv4Addr>
    decreases records.len(),
{
    if records.len() == 0 {
        None
    } else {
        match records.last().value {
            RecordContentView::A(ip) => Some(ip),
            _ => last_v4(records.drop_last()),
        }
    }
}

/// The last IPv6 address among `records`, if any.
pub open spec fn last_v6(records: Seq<FetcherRecordView>) -> Option<Ipv6Addr>
    decreases records.len(),
{
    if records.len() == 0 {
        None
    } else {
        match records.last().value {
            RecordContentView::AAAA(ip) => Some(ip),
            _ => last_v6(records.drop_last()),
        }
    }
}

impl From<FetcherRecordSet> for PublicIp {
    /// Where several results report the same family, the last one counts.
    fn from(set: FetcherRecordSet) -> (r: Self)
    {
        let mut v4: Option<Ipv4Addr> = None;
        let mut v6: Option<Ipv6Addr> = None;
        let mut i: usize = 0;
        while i < set.contents.len()
            invariant
                i <= set.contents.len(),
                v4 == last_v4(set@.take(i as int)),
                v6 == last_v6(set@.take(i as int)),
            decreases set.contents.len() - i,
        {
            proof {
                assert(set@.take(i + 1).drop_last() =~= set@.take(i as int));
            }
            match &set.contents[i].value {
                RecordContent::A(ip) => {
                    v4 = Some(*ip);
                },
                RecordContent::AAAA(ip) => {
                    v6 = Some(*ip);
                },
                _ => {},
            }
            i += 1;
        }
        assert(set@.take(i as int) =~= set@);
        PublicIp::new(v4, v6)
    }
}

impl FromSpecImpl<FetcherRecordSet> for PublicIp {
    open spec fn obeys_from_spec() -> bool {
        true
    }

    open spec fn from_spec(set: FetcherRecordSet) -> Self {
        PublicIp { v4: last_v4(set@), v6: last_v6(set@) }
    }
}

/// How long resolvers may keep a record.
#[derive(Debug, Clone, Copy, PartialEq, Eq, Structural)]
pub enum TTL {
    /// This many seconds.
    Value(u32),
    /// As long as the provider sees fit.
    Auto,
}

impl Default for TTL {
    fn default() -> (r: Self)
        ensures
            r == TTL::Auto,
    {
        Self::Auto
    }
}

/// What the configuration asks to be done with a record.
#[derive(Debug, Clone, Copy, PartialEq, Eq, Structural)]
pub enum RecordOp {
    Create,
    Purge,
}

impl Default for RecordOp {
    fn default() -> (r: Self)
        ensures
            r == RecordOp::Create,
    {
        Self::Create
    }
}

/// A named setting that one provider or fetcher understands.
#[derive(Debug, PartialEq)]
pub struct ProviderParam {
    pub name: String,
    pub value: String,
}

/// The mathematical content of a [`ProviderParam`].
pub struct ProviderParamView {
    pub name: Seq<char>,
    pub value: Seq<char>,
}

impl View for ProviderParam {
    type V = ProviderParamView;

    open spec fn view(&self) -> ProviderParamView {
        ProviderParamView { name: self.name@, value: self.value@ }
    }
}

impl DeepView for ProviderParam {
    type V = ProviderParamView;

    open spec fn deep_view(&self) -> ProviderParamView {
        self@
    }
}

impl Clone for ProviderParam {
    fn clone(&self) -> (r: Self)
        ensures
            r@ == self@,
    {
        ProviderParam { name: self.name.clone(), value: self.value.clone() }
    }
}

/// A free-form setting: a name and a value.
pub type Param = ProviderParam;

/// A copy of `params`.
pub fn clone_params(params: &Vec<ProviderParam>) -> (r: Vec<ProviderParam>)
    ensures
        r.deep_view() == params.deep_view(),
{
    let mut out: Vec<ProviderParam> = Vec::new();
    let mut i: usize = 0;
    while i < params.len()
        invariant
            i <= params.len(),
            out.len() == i,
            forall|k: int| 0 <= k < i ==> out@[k]@ == params@[k]@,
        decreases params.len() - i,
    {
        out.push(params[i].clone());
        i += 1;
    }
    assert(out.deep_view() =~= params.deep_view());
    out
}

/// A copy of `text`.
pub fn clone_optional_text(text: &Option<String>) -> (r: Option<String>)
    ensures
        r.deep_view() == text.deep_view(),
{
    match text {
        Some(t) => Some(t.clone()),
        None => None,
    }
}

/// A record as one provider is to hold it in one zone.
#[derive(Debug, PartialEq)]
pub struct ProviderRecord {
    pub name: String,
    pub content: RecordContent,
    pub comment: Option<String>,
    pub op: RecordOp,
    pub ttl: TTL,
    pub params: Vec<ProviderParam>,
}

/// The mathematical content of a [`ProviderRecord`].
pub struct ProviderRecordView {
    pub name: Seq<char>,
    pub content: RecordContentView,
    pub comment: Option<Seq<char>>,
    pub op: RecordOp,
    pub ttl: TTL,
    pub params: Seq<ProviderParamView>,
}

impl View for ProviderRecord {
    type V = ProviderRecordView;

    open spec fn view(&self) -> ProviderRecordView {
        ProviderRecordView {
            name: self.name@,
            content: self.content@,
            comment: self.comment.deep_view(),
            op: self.op,
            ttl: self.ttl,
            params: self.params.deep_view(),
        }
    }
}

impl DeepView for ProviderRecord {
    type V = ProviderRecordView;

    open spec fn deep_view(&self) -> ProviderRecordView {
        self@
    }
}

impl Clone for ProviderRecord {
    fn clone(&self) -> (r: Self)
        ensures
            r@ == self@,
    {
        ProviderRecord {
            name: self.name.clone(),
            content: self.content.clone(),
            comment: clone_optional_text(&self.comment),
            op: self.op,
            ttl: self.ttl,
            params: clone_params(&self.params),
        }
    }
}

/// Why content of kind `ty` could not be filled: the family of address
/// that is missing, or that no address fills such a record.
pub open spec fn unfilled_message(ty: RecordType) -> Seq<char> {
    "content is declared as "@ + ty.spec_as_str() + match ty {
        RecordType::A => " but no v4 address is provided"@,
        RecordType::AAAA => " but no v6 address is provided"@,
        _ => ", which no public address can fill"@,
    }
}

/// What an unassigned content becomes once the public address is known:
/// the address of the family that the record's kind names, or the reason
/// why there is none. Content that is not unassigned is refused.
pub open spec fn assigned_content(content: RecordContentView, ip: PublicIp) -> Result<
    RecordContentView,
    ErrorView,
> {
    match content {
        RecordContentView::Unassigned(ty) => {
            if ty == RecordType::A && ip.v4 is Some {
                Ok(RecordContentView::A(ip.v4->0))
            } else if ty == RecordType::AAAA && ip.v6 is Some {
                Ok(RecordContentView::AAAA(ip.v6->0))
            } else {
                Err(ErrorView::Provider(unfilled_message(ty)))
            }
        },
        _ => Err(
            ErrorView::Provider(
                "content should be have a type like A or AAAA, but it is not. Maybe a bug?"@,
            ),
        ),
    }
}

impl ProviderRecord {
    /// Fills an unassigned content from the detected public addresses.
    /// On failure the record is left as it was.
    pub fn assign_public_ip_if_unassigned(
        &mut self,
        v4: Option<Ipv4Addr>,
        v6: Option<Ipv6Addr>,
    ) -> (r: Result<(), Error>)
        ensures
            match assigned_content(old(self)@.content, PublicIp { v4, v6 }) {
                Ok(content) => r is Ok && final(self)@ == (ProviderRecordView {
                    content,
                    ..old(self)@
                }),
                Err(e) => r is Err && r->Err_0@ == e && final(self)@ == old(self)@,
            },
    {
        match &self.content {
            RecordContent::Unassigned(ty) => {
                let ty = *ty;
                if ty == RecordType::A && v4.is_some() {
                    self.content = RecordContent::A(v4.unwrap());
                    Ok(())
                } else if ty == RecordType::AAAA && v6.is_some() {
                    self.content = RecordContent::AAAA(v6.unwrap());
                    Ok(())
                } else {
                    let reason = match ty {
                        RecordType::A => " but no v4 address is provided",
                        RecordType::AAAA => " but no v6 address is provided",
                        _ => ", which no public address can fill",
                    };
                    let message = String::from_str("content is declared as ").concat(
                        ty.as_str(),
                    ).concat(reason);
                    Err(Error::Provider(message))
                }
            },
            _ => Err(
                Error::Provider(
                    String::from_str(
                        "content should be have a type like A or AAAA, but it is not. Maybe a bug?",
                    ),
                ),
            ),
        }
    }
}

} // verus!
