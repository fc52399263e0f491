use vstd::prelude::*;

pub mod account;
pub mod remote;
pub mod reply;
pub mod sync;

use vstd::string::StringExecFns;
use crate::config::first_value;
use crate::config::CfgProviderAuthentication;
use crate::error::Error;
use crate::error::ErrorView;
use crate::provider::cloudflare::sync::initial_state;
use crate::provider::cloudflare::sync::SyncAction;
use crate::provider::cloudflare::sync::SyncEvent;
use crate::provider::cloudflare::sync::SyncState;
use crate::provider::types::BackendRecords;
use crate::record::assigned_content;
use crate::record::ProviderParamView;
use crate::record::ProviderRecord;
use crate::record::ProviderRecordView;
use crate::record::PublicIp;
use crate::record::RecordContent;
use crate::record::RecordContentView;
use crate::record::RecordOp;
use crate::record::TTL;
use crate::text::ends_with;
use crate::text::str_eq;
use crate::wrapper::http::Header;
use crate::wrapper::http::HeaderKey;
use crate::wrapper::http::HeaderKeyView;
use crate::wrapper::http::HeaderView;

verus! {

/// How requests to the provider are authenticated.
#[derive(Debug, PartialEq)]
pub enum Auth {
    /// A bearer token.
    ApiToken(String),
    /// An account's e-mail address and its key.
    ApiKey { email: String, key: String },
}

/// The mathematical content of an [`Auth`].
pub enum AuthView {
    ApiToken(Seq<char>),
    ApiKey { email: Seq<char>, key: Seq<char> },
}

impl View for Auth {
    type V = AuthView;

    open spec fn view(&self) -> AuthView {
        match self {
            Auth::ApiToken(token) => AuthView::ApiToken(token@),
            Auth::ApiKey { email, key } => AuthView::ApiKey { email: email@, key: key@ },
        }
    }
}

impl AuthView {
    /// The headers that carry this authentication.
    pub open spec fn http_headers(self) -> Seq<HeaderView> {
        match self {
            AuthView::ApiToken(token) => seq![
                HeaderView { key: HeaderKeyView::Authorization, value: "Bearer "@ + token },
            ],
            AuthView::ApiKey { email, key } => seq![
                HeaderView { key: HeaderKeyView::Custom("X-Auth-Email"@), value: email },
                HeaderView { key: HeaderKeyView::Custom("X-Auth-Key"@), value: key },
            ],
        }
    }
}

impl Auth {
    /// The headers that carry this authentication.
    pub fn http_headers(&self) -> (r: Vec<Header>)
        ensures
            r.deep_view() == self@.http_headers(),
    {
        let mut headers: Vec<Header> = Vec::new();
        match self {
            Auth::ApiToken(token) => {
                headers.push(
                    Header::new(
                        HeaderKey::Authorization,
                        String::from_str("Bearer ").concat(token.as_str()),
                    ),
                );
            },
            Auth::ApiKey { email, key } => {
                headers.push(
                    Header::new(HeaderKey::Custom(String::from_str("X-Auth-Email")), email.clone()),
                );
                headers.push(
                    Header::new(HeaderKey::Custom(String::from_str("X-Auth-Key")), key.clone()),
                );
            },
        }
        assert(headers.deep_view() =~= self@.http_headers());
        headers
    }
}

impl Clone for Auth {
    fn clone(&self) -> (r: Self)
        ensures
            r@ == self@,
    {
        match self {
            Auth::ApiToken(token) => Auth::ApiToken(token.clone()),
            Auth::ApiKey { email, key } => Auth::ApiKey { email: email.clone(), key: key.clone() },
        }
    }
}

/// The authentication that a provider's configuration describes. Exactly
/// one mode has to be supplied: a token under the method `api_token`, or an
/// e-mail address and a key under the method `api_key`. Anything less is
/// refused, and so is the other mode beside it. An e-mail address or a key
/// alone is no mode: beside a token it is passed over.
pub open spec fn configured_auth(method: Seq<char>, params: Seq<crate::config::CfgParamView>) -> Result<
    AuthView,
    ErrorView,
> {
    let token = first_value(params, "api_token"@);
    let email = first_value(params, "email"@);
    let key = first_value(params, "key"@);
    if method == "api_token"@ {
        if token is None {
            Err(
                ErrorView::Provider(
                    "cloudflare authencation method is declared as api_token, but api_token is not found"@,
                ),
            )
        } else if email is Some && key is Some {
            Err(
                ErrorView::Provider(
                    "cloudflare authentication supplies both an api_token and an api_key"@,
                ),
            )
        } else {
            Ok(AuthView::ApiToken(token->0))
        }
    } else if method == "api_key"@ {
        if email is None || key is None {
            Err(ErrorView::Provider("cloudflare api_key auth requires both email and key"@))
        } else if token is Some {
            Err(
                ErrorView::Provider(
                    "cloudflare authentication supplies both an api_token and an api_key"@,
                ),
            )
        } else {
            Ok(AuthView::ApiKey { email: email->0, key: key->0 })
        }
    } else {
        Err(
            ErrorView::Provider(
                method + ": unsupported authentication method for cloudflare provider"@,
            ),
        )
    }
}

/// Authentication is accepted only where exactly one mode is supplied: a
/// token, or an e-mail address with a key, and never both.
pub proof fn lemma_exactly_one_mode(method: Seq<char>, params: Seq<crate::config::CfgParamView>)
    requires
        configured_auth(method, params) is Ok,
    ensures
        first_value(params, "api_token"@) is Some != (first_value(params, "email"@) is Some
            && first_value(params, "key"@) is Some),
        configured_auth(method, params)->Ok_0 is ApiToken <==> first_value(
            params,
            "api_token"@,
        ) is Some,
{
}

impl TryFrom<CfgProviderAuthentication> for Auth {
    type Error = Error;

    fn try_from(cfg: CfgProviderAuthentication) -> (r: Result<Self, Error>)
        ensures
            match configured_auth(cfg.method@, cfg.params@) {
                Ok(auth) => r is Ok && r->Ok_0@ == auth,
                Err(e) => r is Err && r->Err_0@ == e,
            },
    {
        let token = cfg.get_value_ref("api_token");
        let email = cfg.get_value_ref("email");
        let key = cfg.get_value_ref("key");
        if str_eq(cfg.method.as_str(), "api_token") {
            match token {
                None => Err(
                    Error::Provider(
                        String::from_str(
                            "cloudflare authencation method is declared as api_token, but api_token is not found",
                        ),
                    ),
                ),
                Some(token) => {
                    if email.is_some() && key.is_some() {
                        Err(
                            Error::Provider(
                                String::from_str(
                                    "cloudflare authentication supplies both an api_token and an api_key",
                                ),
                            ),
                        )
                    } else {
                        Ok(Auth::ApiToken(String::from_str(token)))
                    }
                },
            }
        } else if str_eq(cfg.method.as_str(), "api_key") {
            match (email, key) {
                (Some(email), Some(key)) => {
                    if token.is_some() {
                        Err(
                            Error::Provider(
                                String::from_str(
                                    "cloudflare authentication supplies both an api_token and an api_key",
                                ),
                            ),
                        )
                    } else {
                        Ok(
                            Auth::ApiKey {
                                email: String::from_str(email),
                                key: String::from_str(key),
                            },
                        )
                    }
                },
                _ => Err(
                    Error::Provider(
                        String::from_str("cloudflare api_key auth requires both email and key"),
                    ),
                ),
            }
        } else {
            Err(
                Error::Provider(
                    cfg.method.clone().concat(
                        ": unsupported authentication method for cloudflare provider",
                    ),
                ),
            )
        }
    }
}

impl vstd::std_specs::convert::TryFromSpecImpl<CfgProviderAuthentication> for Auth {
    /// The conversion is specified by `configured_auth`, over views.
    open spec fn obeys_try_from_spec() -> bool {
        false
    }

    open spec fn try_from_spec(cfg: CfgProviderAuthentication) -> Result<Self, Error> {
        arbitrary()
    }
}

/// The headers that every request to the provider carries.
pub struct Cli {
    headers: Vec<Header>,
}

impl Cli {
    /// The headers that every request carries: those of the
    /// authentication, then the content type.
    pub closed spec fn spec_headers(&self) -> Seq<HeaderView> {
        self.headers.deep_view()
    }

    pub fn new(auth: Auth) -> (r: Self)
        ensures
            r.spec_headers() == request_headers(auth@),
    {
        let mut headers = auth.http_headers();
        let ghost before = headers.deep_view();
        let header = Header::new(HeaderKey::ContentType, String::from_str("application/json"));
        headers.push(header);
        assert(headers.deep_view() =~= before.push(header@));
        Self { headers }
    }

    /// The headers that every request carries.
    pub fn default_headers(&self) -> (r: &Vec<Header>)
        ensures
            r.deep_view() == self.spec_headers(),
    {
        &self.headers
    }
}

/// The headers that every request under `auth` carries: those of the
/// authentication, then the content type of the provider's interface.
pub open spec fn request_headers(auth: AuthView) -> Seq<HeaderView> {
    auth.http_headers().push(
        HeaderView { key: HeaderKeyView::ContentType, value: "application/json"@ },
    )
}

/// One account at the provider, under the name that the configuration
/// gives it.
pub struct Cloudflare {
    name: String,
    cli: Cli,
}

/// The mathematical content of a [`Cloudflare`].
pub struct CloudflareView {
    /// The name that the configuration gives the provider.
    pub name: Seq<char>,
    /// The headers that every request of the provider carries.
    pub headers: Seq<HeaderView>,
}

impl View for Cloudflare {
    type V = CloudflareView;

    closed spec fn view(&self) -> CloudflareView {
        CloudflareView { name: self.name@, headers: self.cli.spec_headers() }
    }
}

impl DeepView for Cloudflare {
    type V = CloudflareView;

    open spec fn deep_view(&self) -> CloudflareView {
        self@
    }
}

impl Cloudflare {
    pub fn new(name: String, authentication: Auth) -> (r: Self)
        ensures
            r@ == (CloudflareView { name: name@, headers: request_headers(authentication@) }),
    {
        Self { name, cli: Cli::new(authentication) }
    }

    pub fn name(&self) -> (r: &str)
        ensures
            r@ == self@.name,
    {
        self.name.as_str()
    }

    /// The headers that every request of this provider carries.
    pub fn default_headers(&self) -> (r: &Vec<Header>)
        ensures
            r.deep_view() == self@.headers,
    {
        self.cli.default_headers()
    }

    /// Begins to bring the provider in line with `records`, given the
    /// public addresses `public_ip`: the first action to carry out, and the
    /// state to hand back with its outcome.
    pub fn sync(&self, records: BackendRecords, public_ip: PublicIp) -> (r: (SyncState, SyncAction))
        ensures
            (r.0@, r.1@) == initial_state(records@, public_ip).resolve_from(0),
            r.0@.well_formed(),
    {
        SyncState::start(records, public_ip)
    }

    /// Goes on with a synchronisation after the pending action was
    /// carried out.
    pub fn resume(&self, state: SyncState, event: SyncEvent) -> (r: (SyncState, SyncAction))
        ensures
            (r.0@, r.1@) == state@.step(event@),
            state@.well_formed(),
            r.0@.well_formed(),
    {
        state.step(event)
    }
}

/// A zone as the provider knows it.
#[derive(Debug, PartialEq)]
pub struct CfZone {
    pub id: String,
    pub name: String,
}

/// The mathematical content of a [`CfZone`].
pub struct CfZoneView {
    pub id: Seq<char>,
    pub name: Seq<char>,
}

impl View for CfZone {
    type V = CfZoneView;

    open spec fn view(&self) -> CfZoneView {
        CfZoneView { id: self.id@, name: self.name@ }
    }
}

impl DeepView for CfZone {
    type V = CfZoneView;

    open spec fn deep_view(&self) -> CfZoneView {
        self@
    }
}

impl Clone for CfZone {
    fn clone(&self) -> (r: Self)
        ensures
            r@ == self@,
    {
        CfZone { id: self.id.clone(), name: self.name.clone() }
    }
}

/// A record as the provider's interface carries it.
#[derive(Debug, PartialEq)]
pub struct CfRecord {
    pub id: String,
    pub name: String,
    pub comment: Option<String>,
    pub proxied: bool,
    pub ttl: u32,
    pub content: RecordContent,
}

/// The mathematical content of a [`CfRecord`].
pub struct CfRecordView {
    pub id: Seq<char>,
    pub name: Seq<char>,
    pub comment: Option<Seq<char>>,
    pub proxied: bool,
    pub ttl: u32,
    pub content: RecordContentView,
}

impl View for CfRecord {
    type V = CfRecordView;

    open spec fn view(&self) -> CfRecordView {
        CfRecordView {
            id: self.id@,
            name: self.name@,
            comment: self.comment.deep_view(),
            proxied: self.proxied,
            ttl: self.ttl,
            content: self.content@,
        }
    }
}

impl DeepView for CfRecord {
    type V = CfRecordView;

    open spec fn deep_view(&self) -> CfRecordView {
        self@
    }
}

/// Whether `params` ask for the provider's proxy: some setting is named
/// `proxied` and has the value `true`.
pub open spec fn wants_proxy(params: Seq<ProviderParamView>) -> bool {
    exists|i: int|
        0 <= i < params.len() && (#[trigger] params[i]).name == "proxied"@ && params[i].value
            == "true"@
}

/// The lifetime that the provider is told: 1 stands for "automatic".
pub open spec fn provider_ttl(ttl: TTL) -> u32 {
    match ttl {
        TTL::Auto => 1,
        TTL::Value(v) => v,
    }
}

/// The body that creates `record` at the provider.
pub open spec fn record_body(record: ProviderRecordView) -> CfRecordView {
    CfRecordView {
        id: Seq::empty(),
        name: record.name,
        comment: record.comment,
        proxied: wants_proxy(record.params),
        ttl: provider_ttl(record.ttl),
        content: record.content,
    }
}

impl From<ProviderRecord> for CfRecord {
    fn from(record: ProviderRecord) -> (r: Self)
        ensures
            r@ == record_body(record@),
    {
        let mut proxied = false;
        let mut i: usize = 0;
        while i < record.params.len()
            invariant
                i <= record.params.len(),
                proxied <==> exists|k: int|
                    0 <= k < i && (#[trigger] record.params.deep_view()[k]).name == "proxied"@
                        && record.params.deep_view()[k].value == "true"@,
            decreases record.params.len() - i,
        {
            let ghost k = i as int;
            if str_eq(record.params[i].name.as_str(), "proxied") && str_eq(
                record.params[i].value.as_str(),
                "true",
            ) {
                assert(record.params.deep_view()[k].name == "proxied"@);
                proxied = true;
            }
            i += 1;
        }
        let ttl = match record.ttl {
            TTL::Auto => 1,
            TTL::Value(v) => v,
        };
        Self {
            id: String::new(),
            name: record.name,
            comment: record.comment,
            content: record.content,
            ttl,
            proxied,
        }
    }
}

impl vstd::std_specs::convert::FromSpecImpl<ProviderRecord> for CfRecord {
    /// The conversion is specified by `record_body`, over views.
    open spec fn obeys_from_spec() -> bool {
        false
    }

    open spec fn from_spec(record: ProviderRecord) -> Self {
        arbitrary()
    }
}

/// The request to remove the record with this identifier.
#[derive(Debug, PartialEq)]
pub struct BatchRecordDelete {
    pub id: String,
}

impl View for BatchRecordDelete {
    type V = Seq<char>;

    open spec fn view(&self) -> Seq<char> {
        self.id@
    }
}

impl DeepView for BatchRecordDelete {
    type V = Seq<char>;

    open spec fn deep_view(&self) -> Seq<char> {
        self@
    }
}

/// Changes that the provider applies together or not at all.
#[derive(Debug, PartialEq)]
pub struct BatchRecord {
    pub deletes: Option<Vec<BatchRecordDelete>>,
    pub patches: Option<Vec<CfRecord>>,
    pub posts: Option<Vec<CfRecord>>,
}

/// The mathematical content of a [`BatchRecord`].
pub struct BatchRecordView {
    pub deletes: Option<Seq<Seq<char>>>,
    pub patches: Option<Seq<CfRecordView>>,
    pub posts: Option<Seq<CfRecordView>>,
}

impl View for BatchRecord {
    type V = BatchRecordView;

    open spec fn view(&self) -> BatchRecordView {
        BatchRecordView {
            deletes: self.deletes.deep_view(),
            patches: self.patches.deep_view(),
            posts: self.posts.deep_view(),
        }
    }
}

/// The identifiers of `records`, in order.
pub open spec fn identifiers(records: Seq<CfRecordView>) -> Seq<Seq<char>> {
    Seq::new(records.len(), |i: int| records[i].id)
}

/// The batch that replaces what the provider holds under a record's name:
/// it removes every record that was listed, whatever its kind, and creates
/// the one record.
pub open spec fn purge_batch_of(record: ProviderRecordView, listed: Seq<CfRecordView>) -> BatchRecordView {
    BatchRecordView {
        deletes: Some(identifiers(listed)),
        patches: None,
        posts: Some(seq![record_body(record)]),
    }
}

/// Composes the batch that replaces the listed records by `record`.
pub fn purge_batch(record: ProviderRecord, listed: &Vec<CfRecord>) -> (r: BatchRecord)
    ensures
        r@ == purge_batch_of(record@, listed.deep_view()),
{
    let mut deletes: Vec<BatchRecordDelete> = Vec::new();
    let mut i: usize = 0;
    while i < listed.len()
        invariant
            i <= listed.len(),
            deletes.len() == i,
            forall|k: int| 0 <= k < i ==> (#[trigger] deletes@[k]).id@ == listed@[k].id@,
        decreases listed.len() - i,
    {
        deletes.push(BatchRecordDelete { id: listed[i].id.clone() });
        i += 1;
    }
    assert(deletes.deep_view() =~= identifiers(listed.deep_view()));
    let mut posts: Vec<CfRecord> = Vec::new();
    let body = CfRecord::from(record);
    posts.push(body);
    assert(posts.deep_view() =~= seq![record_body(record@)]);
    BatchRecord { deletes: Some(deletes), patches: None, posts: Some(posts) }
}

/// The address that lists the zones named `name`.
pub open spec fn zone_list_url(name: Seq<char>) -> Seq<char> {
    "https://api.cloudflare.com/client/v4/zones?name="@ + name
}

/// The address that lists the records named `name` in the zone `zone_id`.
pub open spec fn records_by_name_url(zone_id: Seq<char>, name: Seq<char>) -> Seq<char> {
    "https://api.cloudflare.com/client/v4/zones/"@ + zone_id + "/dns_records?name="@ + name
}

/// The address that takes a batch for the zone `zone_id`.
pub open spec fn batch_url(zone_id: Seq<char>) -> Seq<char> {
    "https://api.cloudflare.com/client/v4/zones/"@ + zone_id + "/dns_records/batch"@
}

/// The name under which a record is kept in a zone: the record's own name
/// where it ends with the zone's name already, else the two joined by a dot.
pub open spec fn qualified_name(name: Seq<char>, zone: Seq<char>) -> Seq<char> {
    if zone.is_suffix_of(name) {
        name
    } else {
        name + "."@ + zone
    }
}

/// The name under which `name` is kept in the zone `zone`.
pub fn qualify(name: &str, zone: &str) -> (r: String)
    ensures
        r@ == qualified_name(name@, zone@),
{
    if ends_with(name, zone) {
        String::from_str(name)
    } else {
        String::from_str(name).concat(".").concat(zone)
    }
}

/// A name that is qualified for a zone is not qualified a second time.
pub proof fn lemma_qualified_once(name: Seq<char>, zone: Seq<char>)
    ensures
        zone.is_suffix_of(qualified_name(name, zone)),
        qualified_name(qualified_name(name, zone), zone) == qualified_name(name, zone),
{
    if !zone.is_suffix_of(name) {
        let q = name + "."@ + zone;
        assert(q.subrange(q.len() - zone.len(), q.len() as int) =~= zone);
    }
}

/// What is sent for `record` in a zone named `zone`: the operation is
/// always a purge, the name is qualified, and content that was left
/// unassigned is the public address of its family. Content that is
/// neither concrete nor fillable is refused.
pub open spec fn prepared(record: ProviderRecordView, zone: Seq<char>, ip: PublicIp) -> Result<
    ProviderRecordView,
    ErrorView,
> {
    let content = if record.content.is_concrete() {
        Ok(record.content)
    } else {
        assigned_content(record.content, ip)
    };
    match content {
        Ok(content) => Ok(
            ProviderRecordView {
                name: qualified_name(record.name, zone),
                content,
                op: RecordOp::Purge,
                ..record
            },
        ),
        Err(e) => Err(e),
    }
}

/// Prepares one record for a zone.
pub fn prepare_record(record: &ProviderRecord, zone: &CfZone, public_ip: &PublicIp) -> (r: Result<
    ProviderRecord,
    Error,
>)
    ensures
        match prepared(record@, zone@.name, *public_ip) {
            Ok(p) => r is Ok && r->Ok_0@ == p,
            Err(e) => r is Err && r->Err_0@ == e,
        },
{
    let mut record = record.clone();
    record.op = RecordOp::Purge;
    record.name = qualify(record.name.as_str(), zone.name.as_str());
    let concrete = match &record.content {
        RecordContent::A(_) => true,
        RecordContent::AAAA(_) => true,
        RecordContent::CNAME(_) => true,
        _ => false,
    };
    if !concrete {
        let (v4, v6) = public_ip.ips();
        match record.assign_public_ip_if_unassigned(v4, v6) {
            Ok(()) => {},
            Err(e) => {
                return Err(e);
            },
        }
    }
    Ok(record)
}

/// What is sent for the records of a zone: each record prepared, or the
/// first refusal. One record that cannot be prepared fails them all.
pub open spec fn prepared_all(records: Seq<ProviderRecordView>, zone: Seq<char>, ip: PublicIp) -> Result<
    Seq<ProviderRecordView>,
    ErrorView,
>
    decreases records.len(),
{
    if records.len() == 0 {
        Ok(Seq::empty())
    } else {
        match prepared_all(records.drop_last(), zone, ip) {
            Err(e) => Err(e),
            Ok(done) => match prepared(records.last(), zone, ip) {
                Ok(p) => Ok(done.push(p)),
                Err(e) => Err(e),
            },
        }
    }
}

/// Prepares every record of a zone before anything is sent for it.
pub fn prepare_zone(zone: &CfZone, records: &Vec<ProviderRecord>, public_ip: &PublicIp) -> (r: Result<
    Vec<ProviderRecord>,
    Error,
>)
    ensures
        match prepared_all(records.deep_view(), zone@.name, *public_ip) {
            Ok(p) => r is Ok && r->Ok_0.deep_view() == p,
            Err(e) => r is Err && r->Err_0@ == e,
        },
{
    let mut out: Vec<ProviderRecord> = Vec::new();
    let mut i: usize = 0;
    let ghost all = records.deep_view();
    assert(all.take(0) =~= Seq::empty());
    assert(out.deep_view() =~= Seq::empty());
    while i < records.len()
        invariant
            i <= records.len(),
            all == records.deep_view(),
            prepared_all(all.take(i as int), zone@.name, *public_ip) == Ok::<
                Seq<ProviderRecordView>,
                ErrorView,
            >(out.deep_view()),
        decreases records.len() - i,
    {
        proof {
            assert(all.take(i + 1).drop_last() =~= all.take(i as int));
            assert(all.take(i + 1).last() == records[i as int]@);
        }
        let ghost before = out.deep_view();
        match prepare_record(&records[i], zone, public_ip) {
            Ok(p) => {
                out.push(p);
                assert(out.deep_view() =~= before.push(p@));
            },
            Err(e) => {
                proof {
                    lemma_prepared_all_fails(all, i + 1, zone@.name, *public_ip);
                }
                return Err(e);
            },
        }
        i += 1;
    }
    assert(all.take(i as int) =~= all);
    Ok(out)
}

/// Once the first `count` records fail, so do all of them, for the same
/// reason.
pub proof fn lemma_prepared_all_fails(
    records: Seq<ProviderRecordView>,
    count: int,
    zone: Seq<char>,
    ip: PublicIp,
)
    requires
        0 <= count <= records.len(),
        prepared_all(records.take(count), zone, ip) is Err,
    ensures
        prepared_all(records, zone, ip) == prepared_all(records.take(count), zone, ip),
    decreases records.len() - count,
{
    if count < records.len() {
        assert(records.take(count + 1).drop_last() =~= records.take(count));
        lemma_prepared_all_fails(records, count + 1, zone, ip);
    } else {
        assert(records.take(count) =~= records);
    }
}

} // verus!
