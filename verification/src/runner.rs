use vstd::prelude::*;
use vstd::string::StringExecFns;
use crate::config::provider_params;
use crate::config::Cfg;
use crate::config::CfgFetcher;
use crate::config::CfgFetcherView;
use crate::config::CfgProvider;
use crate::config::CfgProviderView;
use crate::config::CfgRecordItem;
use crate::config::CfgRecordItemView;
use crate::config::CfgView;
use crate::error::Error;
use crate::error::unexpected_event;
use crate::error::unexpected_event_message;
use crate::error::ErrorView;
use crate::fetcher::backend::AddrFamily;
use crate::fetcher::http_fetcher::configured;
use crate::fetcher::http_fetcher::FetchAction;
use crate::fetcher::http_fetcher::FetchActionView;
use crate::fetcher::http_fetcher::FetchEvent;
use crate::fetcher::http_fetcher::FetchEventView;
use crate::fetcher::http_fetcher::FetchState;
use crate::fetcher::http_fetcher::FetchStateView;
use crate::fetcher::http_fetcher::valid_args;
use crate::fetcher::http_fetcher::HttpFetcher;
use crate::fetcher::http_fetcher::HttpFetcherView;
use crate::provider::cloudflare::configured_auth;
use crate::provider::cloudflare::request_headers;
use crate::provider::cloudflare::sync::initial_state;
use crate::provider::cloudflare::sync::SyncAction;
use crate::provider::cloudflare::sync::SyncActionView;
use crate::provider::cloudflare::sync::SyncEvent;
use crate::provider::cloudflare::sync::SyncEventView;
use crate::provider::cloudflare::sync::SyncState;
use crate::provider::cloudflare::sync::SyncStateView;
use crate::provider::cloudflare::BatchRecord;
use crate::provider::cloudflare::BatchRecordView;
use crate::record::last_v4;
use crate::record::last_v6;
use crate::record::FetcherRecordView;
use crate::record::PublicIp;
use crate::provider::cloudflare::Auth;
use crate::provider::cloudflare::Cloudflare;
use crate::provider::cloudflare::CloudflareView;
use crate::text::insert_sorted;
use crate::text::str_eq;
use crate::text::strictly_sorted;
use crate::topology::attaches_to;
use crate::topology::refers_to;
use crate::topology::to_provider_backends;
use crate::topology::topology_of;
use crate::topology::ProviderBackendView;
use crate::topology::ProviderTopology;

verus! {

/// Whether `name` is among `names`.
pub fn contains_name(names: &Vec<String>, name: &str) -> (r: bool)
    ensures
        r == names.deep_view().contains(name@),
{
    let mut i: usize = 0;
    while i < names.len()
        invariant
            i <= names.len(),
            forall|k: int| 0 <= k < i ==> names.deep_view()[k] != name@,
        decreases names.len() - i,
    {
        if str_eq(names[i].as_str(), name) {
            assert(names.deep_view()[i as int] == name@);
            return true;
        }
        i += 1;
    }
    false
}

/// The names of the providers that some record is attached to: each once,
/// in the order of dictionaries.
pub fn list_in_use_providers(records: &Vec<CfgRecordItem>) -> (r: Vec<String>)
    ensures
        strictly_sorted(r.deep_view()),
        forall|n: Seq<char>| r.deep_view().contains(n) <==> refers_to(records.deep_view(), n),
{
    let mut ret: Vec<String> = Vec::new();
    let ghost items = records.deep_view();
    let mut i: usize = 0;
    while i < records.len()
        invariant
            i <= records.len(),
            items == records.deep_view(),
            strictly_sorted(ret.deep_view()),
            forall|n: Seq<char>| ret.deep_view().contains(n) <==> refers_to(items.take(i as int), n),
        decreases records.len() - i,
    {
        let item = &records[i];
        let ghost attachments = item.providers.deep_view();
        let mut j: usize = 0;
        while j < item.providers.len()
            invariant
                i < records.len(),
                j <= item.providers.len(),
                items == records.deep_view(),
                *item == records@[i as int],
                attachments == item.providers.deep_view(),
                strictly_sorted(ret.deep_view()),
                forall|n: Seq<char>|
                    ret.deep_view().contains(n) <==> refers_to(items.take(i as int), n)
                        || attaches_to(attachments.take(j as int), n),
            decreases item.providers.len() - j,
        {
            let ghost before = ret.deep_view();
            let name = item.providers[j].name.clone();
            insert_sorted(&mut ret, name);
            proof {
                assert forall|n: Seq<char>| ret.deep_view().contains(n) <==> refers_to(
                    items.take(i as int),
                    n,
                ) || attaches_to(attachments.take(j + 1), n) by {
                    let shorter = attachments.take(j as int);
                    let longer = attachments.take(j + 1);
                    if attaches_to(shorter, n) {
                        let k = choose|k: int| 0 <= k < shorter.len() && (#[trigger] shorter[k]).name == n;
                        assert(longer[k].name == n);
                    }
                    if n == name@ {
                        assert(longer[j as int].name == n);
                    }
                    if attaches_to(longer, n) {
                        let k = choose|k: int| 0 <= k < longer.len() && (#[trigger] longer[k]).name == n;
                        if k < j {
                            assert(shorter[k].name == n);
                        }
                    }
                }
            }
            j += 1;
        }
        proof {
            assert(attachments.take(j as int) =~= attachments);
            assert forall|n: Seq<char>| ret.deep_view().contains(n) <==> refers_to(
                items.take(i + 1),
                n,
            ) by {
                let shorter = items.take(i as int);
                let longer = items.take(i + 1);
                assert(longer[i as int].providers == attachments);
                if refers_to(shorter, n) {
                    let k = choose|k: int|
                        0 <= k < shorter.len() && attaches_to((#[trigger] shorter[k]).providers, n);
                    assert(attaches_to(longer[k].providers, n));
                }
                if attaches_to(attachments, n) {
                    assert(attaches_to(longer[i as int].providers, n));
                }
                if refers_to(longer, n) {
                    let k = choose|k: int|
                        0 <= k < longer.len() && attaches_to((#[trigger] longer[k]).providers, n);
                    if k < i {
                        assert(attaches_to(shorter[k].providers, n));
                    }
                }
            }
        }
        i += 1;
    }
    assert(items.take(i as int) =~= items);
    ret
}

/// Whether one of `items` names the fetcher `name`.
pub open spec fn names_fetcher(items: Seq<CfgRecordItemView>, name: Seq<char>) -> bool {
    exists|i: int, j: int|
        0 <= i < items.len() && 0 <= j < items[i].fetchers.len() && (
        #[trigger] items[i].fetchers[j]) == name
}

/// Whether the fetcher `name` is needed: it is the source of the public
/// address, or some record names it.
pub open spec fn fetcher_in_use(
    items: Seq<CfgRecordItemView>,
    public_ip_fetcher: Seq<char>,
    name: Seq<char>,
) -> bool {
    name == public_ip_fetcher || names_fetcher(items, name)
}

/// The names of the fetchers that are needed: each once, in the order of
/// dictionaries.
pub fn list_in_use_fethers(records: &Vec<CfgRecordItem>, public_ip_fecher: &str) -> (r: Vec<String>)
    ensures
        strictly_sorted(r.deep_view()),
        forall|n: Seq<char>|
            r.deep_view().contains(n) <==> fetcher_in_use(records.deep_view(), public_ip_fecher@, n),
{
    let mut ret: Vec<String> = Vec::new();
    let ghost items = records.deep_view();
    let mut i: usize = 0;
    while i < records.len()
        invariant
            i <= records.len(),
            items == records.deep_view(),
            strictly_sorted(ret.deep_view()),
            forall|n: Seq<char>| ret.deep_view().contains(n) <==> names_fetcher(items.take(i as int), n),
        decreases records.len() - i,
    {
        let item = &records[i];
        let ghost fetchers = items[i as int].fetchers;
        let mut j: usize = 0;
        while j < item.fetchers.len()
            invariant
                i < records.len(),
                j <= item.fetchers.len(),
                items == records.deep_view(),
                *item == records@[i as int],
                fetchers == items[i as int].fetchers,
                fetchers.len() == item.fetchers.len(),
                strictly_sorted(ret.deep_view()),
                forall|n: Seq<char>|
                    ret.deep_view().contains(n) <==> names_fetcher(items.take(i as int), n)
                        || fetchers.take(j as int).contains(n),
            decreases item.fetchers.len() - j,
        {
            let name = item.fetchers[j].name.clone();
            assert(name@ == fetchers[j as int]);
            insert_sorted(&mut ret, name);
            proof {
                assert forall|n: Seq<char>| ret.deep_view().contains(n) <==> names_fetcher(
                    items.take(i as int),
                    n,
                ) || fetchers.take(j + 1).contains(n) by {
                    let shorter = fetchers.take(j as int);
                    let longer = fetchers.take(j + 1);
                    if shorter.contains(n) {
                        let k = choose|k: int| 0 <= k < shorter.len() && shorter[k] == n;
                        assert(longer[k] == n);
                    }
                    if n == name@ {
                        assert(longer[j as int] == n);
                    }
                    if longer.contains(n) {
                        let k = choose|k: int| 0 <= k < longer.len() && longer[k] == n;
                        if k < j {
                            assert(shorter[k] == n);
                        }
                    }
                }
            }
            j += 1;
        }
        proof {
            assert(fetchers.take(j as int) =~= fetchers);
            assert forall|n: Seq<char>| ret.deep_view().contains(n) <==> names_fetcher(
                items.take(i + 1),
                n,
            ) by {
                let shorter = items.take(i as int);
                let longer = items.take(i + 1);
                assert(longer[i as int].fetchers == fetchers);
                if names_fetcher(shorter, n) {
                    let (a, b) = choose|a: int, b: int|
                        0 <= a < shorter.len() && 0 <= b < shorter[a].fetchers.len() && (
                        #[trigger] shorter[a].fetchers[b]) == n;
                    assert(longer[a].fetchers[b] == n);
                }
                if fetchers.contains(n) {
                    let k = choose|k: int| 0 <= k < fetchers.len() && fetchers[k] == n;
                    assert(longer[i as int].fetchers[k] == n);
                }
                if names_fetcher(longer, n) {
                    let (a, b) = choose|a: int, b: int|
                        0 <= a < longer.len() && 0 <= b < longer[a].fetchers.len() && (
                        #[trigger] longer[a].fetchers[b]) == n;
                    if a < i {
                        assert(shorter[a].fetchers[b] == n);
                    } else {
                        assert(fetchers[b] == n);
                    }
                }
            }
        }
        i += 1;
    }
    assert(items.take(i as int) =~= items);
    insert_sorted(&mut ret, String::from_str(public_ip_fecher));
    ret
}

/// The providers that are materialised from `declared`, in that order:
/// those that some record is attached to and whose kind is `cloudflare`.
/// One of them whose authentication is unusable fails them all.
pub open spec fn provider_plan(
    items: Seq<CfgRecordItemView>,
    declared: Seq<CfgProviderView>,
) -> Result<Seq<CloudflareView>, ErrorView>
    decreases declared.len(),
{
    if declared.len() == 0 {
        Ok(Seq::empty())
    } else {
        let last = declared.last();
        match provider_plan(items, declared.drop_last()) {
            Err(e) => Err(e),
            Ok(done) => if refers_to(items, last.name) && last.kind == "cloudflare"@ {
                match configured_auth(last.authentication.method, last.authentication.params) {
                    Ok(auth) => Ok(
                        done.push(
                            CloudflareView { name: last.name, headers: request_headers(auth) },
                        ),
                    ),
                    Err(e) => Err(e),
                }
            } else {
                Ok(done)
            },
        }
    }
}

/// Once the first `count` declarations fail, so do all of them, for the
/// same reason.
pub proof fn lemma_provider_plan_fails(
    items: Seq<CfgRecordItemView>,
    declared: Seq<CfgProviderView>,
    count: int,
)
    requires
        0 <= count <= declared.len(),
        provider_plan(items, declared.take(count)) is Err,
    ensures
        provider_plan(items, declared) == provider_plan(items, declared.take(count)),
    decreases declared.len() - count,
{
    if count < declared.len() {
        assert(declared.take(count + 1).drop_last() =~= declared.take(count));
        lemma_provider_plan_fails(items, declared, count + 1);
    } else {
        assert(declared.take(count) =~= declared);
    }
}

/// Materialises the declared providers that are in use.
pub fn create_providers(records: &Vec<CfgRecordItem>, providers: &Vec<CfgProvider>) -> (r: Result<
    Vec<Cloudflare>,
    Error,
>)
    ensures
        match provider_plan(records.deep_view(), providers.deep_view()) {
            Ok(plan) => r is Ok && r->Ok_0.deep_view() == plan,
            Err(e) => r is Err && r->Err_0@ == e,
        },
{
    let in_use_providers = list_in_use_providers(records);
    let ghost items = records.deep_view();
    let ghost declared = providers.deep_view();
    let mut ret: Vec<Cloudflare> = Vec::new();
    let mut i: usize = 0;
    assert(declared.take(0) =~= Seq::empty());
    assert(ret.deep_view() =~= Seq::empty());
    while i < providers.len()
        invariant
            i <= providers.len(),
            items == records.deep_view(),
            declared == providers.deep_view(),
            forall|n: Seq<char>| in_use_providers.deep_view().contains(n) <==> refers_to(items, n),
            provider_plan(items, declared.take(i as int)) == Ok::<Seq<CloudflareView>, ErrorView>(
                ret.deep_view(),
            ),
        decreases providers.len() - i,
    {
        let provider = &providers[i];
        proof {
            assert(declared.take(i + 1).drop_last() =~= declared.take(i as int));
            assert(declared.take(i + 1).last() == provider@);
        }
        if contains_name(&in_use_providers, provider.name.as_str()) && str_eq(
            provider.kind.as_str(),
            "cloudflare",
        ) {
            match Auth::try_from(provider.authentication.clone()) {
                Ok(auth) => {
                    let ghost before = ret.deep_view();
                    let cloudflare = Cloudflare::new(provider.name.clone(), auth);
                    ret.push(cloudflare);
                    assert(ret.deep_view() =~= before.push(cloudflare@));
                },
                Err(e) => {
                    proof {
                        lemma_provider_plan_fails(items, declared, i + 1);
                    }
                    return Err(e);
                },
            }
        }
        i += 1;
    }
    assert(declared.take(i as int) =~= declared);
    Ok(ret)
}

/// A fetcher under the name that the configuration gives it.
#[derive(Debug, PartialEq)]
pub struct NamedFetcher {
    pub name: String,
    pub fetcher: HttpFetcher,
}

/// The mathematical content of a [`NamedFetcher`].
pub struct NamedFetcherView {
    pub name: Seq<char>,
    pub fetcher: HttpFetcherView,
}

impl View for NamedFetcher {
    type V = NamedFetcherView;

    open spec fn view(&self) -> NamedFetcherView {
        NamedFetcherView { name: self.name@, fetcher: self.fetcher@ }
    }
}

impl DeepView for NamedFetcher {
    type V = NamedFetcherView;

    open spec fn deep_view(&self) -> NamedFetcherView {
        self@
    }
}

/// The text of the error for a fetcher whose arguments are unusable.
pub open spec fn invalid_fetcher_message(name: Seq<char>) -> Seq<char> {
    "invalid arguments for fetcher: "@ + name
}

/// The fetchers that are materialised from `declared`, in that order:
/// those that are needed and whose kind is `http_fetcher`. One of them
/// whose arguments are unusable fails them all.
pub open spec fn fetcher_plan(
    items: Seq<CfgRecordItemView>,
    public_ip_fetcher: Seq<char>,
    declared: Seq<CfgFetcherView>,
) -> Result<Seq<NamedFetcherView>, ErrorView>
    decreases declared.len(),
{
    if declared.len() == 0 {
        Ok(Seq::empty())
    } else {
        let last = declared.last();
        match fetcher_plan(items, public_ip_fetcher, declared.drop_last()) {
            Err(e) => Err(e),
            Ok(done) => if fetcher_in_use(items, public_ip_fetcher, last.name) && last.kind
                == "http_fetcher"@ {
                if valid_args(provider_params(last.params)) {
                    Ok(
                        done.push(
                            NamedFetcherView {
                                name: last.name,
                                fetcher: configured(provider_params(last.params)),
                            },
                        ),
                    )
                } else {
                    Err(ErrorView::ParseError(invalid_fetcher_message(last.name)))
                }
            } else {
                Ok(done)
            },
        }
    }
}

/// Once the first `count` declarations fail, so do all of them, for the
/// same reason.
pub proof fn lemma_fetcher_plan_fails(
    items: Seq<CfgRecordItemView>,
    public_ip_fetcher: Seq<char>,
    declared: Seq<CfgFetcherView>,
    count: int,
)
    requires
        0 <= count <= declared.len(),
        fetcher_plan(items, public_ip_fetcher, declared.take(count)) is Err,
    ensures
        fetcher_plan(items, public_ip_fetcher, declared) == fetcher_plan(
            items,
            public_ip_fetcher,
            declared.take(count),
        ),
    decreases declared.len() - count,
{
    if count < declared.len() {
        assert(declared.take(count + 1).drop_last() =~= declared.take(count));
        lemma_fetcher_plan_fails(items, public_ip_fetcher, declared, count + 1);
    } else {
        assert(declared.take(count) =~= declared);
    }
}

/// Materialises the declared fetchers that are needed.
pub fn create_fetchers(
    records: &Vec<CfgRecordItem>,
    public_ip_fecher: &str,
    fetchers: &Vec<CfgFetcher>,
) -> (r: Result<Vec<NamedFetcher>, Error>)
    ensures
        match fetcher_plan(records.deep_view(), public_ip_fecher@, fetchers.deep_view()) {
            Ok(plan) => r is Ok && r->Ok_0.deep_view() == plan,
            Err(e) => r is Err && r->Err_0@ == e,
        },
{
    let in_use_fetchers = list_in_use_fethers(records, public_ip_fecher);
    let ghost items = records.deep_view();
    let ghost declared = fetchers.deep_view();
    let mut ret: Vec<NamedFetcher> = Vec::new();
    let mut i: usize = 0;
    assert(declared.take(0) =~= Seq::empty());
    assert(ret.deep_view() =~= Seq::empty());
    while i < fetchers.len()
        invariant
            i <= fetchers.len(),
            items == records.deep_view(),
            declared == fetchers.deep_view(),
            forall|n: Seq<char>|
                in_use_fetchers.deep_view().contains(n) <==> fetcher_in_use(
                    items,
                    public_ip_fecher@,
                    n,
                ),
            fetcher_plan(items, public_ip_fecher@, declared.take(i as int)) == Ok::<
                Seq<NamedFetcherView>,
                ErrorView,
            >(ret.deep_view()),
        decreases fetchers.len() - i,
    {
        let fetcher = &fetchers[i];
        proof {
            assert(declared.take(i + 1).drop_last() =~= declared.take(i as int));
            assert(declared.take(i + 1).last() == fetcher@);
        }
        if contains_name(&in_use_fetchers, fetcher.name.as_str()) && str_eq(
            fetcher.kind.as_str(),
            "http_fetcher",
        ) {
            match HttpFetcher::try_new_with_args(fetcher.params.to_provider_params()) {
                Some(http_fetcher) => {
                    let ghost before = ret.deep_view();
                    let named = NamedFetcher { name: fetcher.name.clone(), fetcher: http_fetcher };
                    ret.push(named);
                    assert(ret.deep_view() =~= before.push(named@));
                },
                None => {
                    proof {
                        lemma_fetcher_plan_fails(items, public_ip_fecher@, declared, i + 1);
                    }
                    return Err(
                        Error::ParseError(
                            String::from_str("invalid arguments for fetcher: ").concat(
                                fetcher.name.as_str(),
                            ),
                        ),
                    );
                },
            }
        }
        i += 1;
    }
    assert(declared.take(i as int) =~= declared);
    Ok(ret)
}

/// Everything that one pass needs: the fetchers and providers in use, the
/// name of the fetcher that tells the public address, and what each
/// provider is to hold.
pub struct Runner {
    pub global_fetcher_name: String,
    pub fetchers: Vec<NamedFetcher>,
    pub providers: Vec<Cloudflare>,
    pub record_per_provider: ProviderTopology,
}

/// The mathematical content of a [`Runner`].
pub struct RunnerView {
    pub global_fetcher_name: Seq<char>,
    pub fetchers: Seq<NamedFetcherView>,
    pub providers: Seq<CloudflareView>,
    pub record_per_provider: Seq<ProviderBackendView>,
}

impl View for Runner {
    type V = RunnerView;

    open spec fn view(&self) -> RunnerView {
        RunnerView {
            global_fetcher_name: self.global_fetcher_name@,
            fetchers: self.fetchers.deep_view(),
            providers: self.providers.deep_view(),
            record_per_provider: self.record_per_provider@,
        }
    }
}

/// The runner that a configuration describes, or the first reason why it
/// describes none: an unusable fetcher, then an unusable provider.
pub open spec fn runner_of(config: CfgView) -> Result<RunnerView, ErrorView> {
    match fetcher_plan(config.records, config.public_ip_fecher, config.fetchers) {
        Err(e) => Err(e),
        Ok(fetchers) => match provider_plan(config.records, config.providers) {
            Err(e) => Err(e),
            Ok(providers) => Ok(
                RunnerView {
                    global_fetcher_name: config.public_ip_fecher,
                    fetchers,
                    providers,
                    record_per_provider: topology_of(config.records),
                },
            ),
        },
    }
}

/// Materialises what a configuration describes.
pub fn init_runner(config: Cfg) -> (r: Result<Runner, Error>)
    ensures
        match runner_of(config@) {
            Ok(runner) => r is Ok && r->Ok_0@ == runner && r->Ok_0.record_per_provider.wf(),
            Err(e) => r is Err && r->Err_0@ == e,
        },
{
    let Cfg { check_interval: _, providers, fetchers, records, public_ip_fecher } = config;
    let fetchers = match create_fetchers(&records, public_ip_fecher.as_str(), &fetchers) {
        Ok(fetchers) => fetchers,
        Err(e) => {
            return Err(e);
        },
    };
    let providers = match create_providers(&records, &providers) {
        Ok(providers) => providers,
        Err(e) => {
            return Err(e);
        },
    };
    let record_per_provider = match to_provider_backends(records) {
        Ok(topology) => topology,
        Err(e) => {
            return Err(e);
        },
    };
    Ok(Runner { global_fetcher_name: public_ip_fecher, fetchers, providers, record_per_provider })
}

/// What the driver of a pass is asked to do next. Requests to a provider
/// say which of the runner's providers they are for, so that they can be
/// sent with its headers.
#[derive(Debug, PartialEq)]
pub enum RunAction {
    /// Get `url` from a local address of `family`.
    Get { url: String, family: AddrFamily },
    /// Read `literal` as an address of `family`.
    ParseAddress { literal: String, family: AddrFamily },
    /// Get `url`, which lists the zones of one name.
    ListZones { provider: usize, url: String },
    /// Get `url`, which lists the records of one name.
    ListRecords { provider: usize, url: String },
    /// Post `batch` to `url`.
    SubmitBatch { provider: usize, url: String, batch: BatchRecord },
    /// Nothing more: the pass ended with this result.
    Done(Result<(), Error>),
}

/// The mathematical content of a [`RunAction`].
pub enum RunActionView {
    Get { url: Seq<char>, family: AddrFamily },
    ParseAddress { literal: Seq<char>, family: AddrFamily },
    ListZones { provider: int, url: Seq<char> },
    ListRecords { provider: int, url: Seq<char> },
    SubmitBatch { provider: int, url: Seq<char>, batch: BatchRecordView },
    Done(Result<(), ErrorView>),
}

impl View for RunAction {
    type V = RunActionView;

    open spec fn view(&self) -> RunActionView {
        match self {
            RunAction::Get { url, family } => RunActionView::Get { url: url@, family: *family },
            RunAction::ParseAddress { literal, family } => RunActionView::ParseAddress {
                literal: literal@,
                family: *family,
            },
            RunAction::ListZones { provider, url } => RunActionView::ListZones {
                provider: *provider as int,
                url: url@,
            },
            RunAction::ListRecords { provider, url } => RunActionView::ListRecords {
                provider: *provider as int,
                url: url@,
            },
            RunAction::SubmitBatch { provider, url, batch } => RunActionView::SubmitBatch {
                provider: *provider as int,
                url: url@,
                batch: batch@,
            },
            RunAction::Done(Ok(_)) => RunActionView::Done(Ok(())),
            RunAction::Done(Err(e)) => RunActionView::Done(Err(e@)),
        }
    }
}

/// What the driver reports back after an action.
#[derive(Debug, PartialEq)]
pub enum RunEvent {
    /// The outcome of `Get` or `ParseAddress`.
    Fetch(FetchEvent),
    /// The reply to a request to a provider.
    Sync(SyncEvent),
}

/// The mathematical content of a [`RunEvent`].
pub enum RunEventView {
    Fetch(FetchEventView),
    Sync(SyncEventView),
}

impl View for RunEvent {
    type V = RunEventView;

    open spec fn view(&self) -> RunEventView {
        match self {
            RunEvent::Fetch(e) => RunEventView::Fetch(e@),
            RunEvent::Sync(e) => RunEventView::Sync(e@),
        }
    }
}

/// The progress of one pass.
#[derive(Debug, PartialEq)]
pub enum RunState {
    /// The public addresses are being fetched.
    Fetching(FetchState),
    /// The provider at `provider` is being brought in line with entry
    /// `index` of the topology, given the addresses `public_ip`.
    Syncing { index: usize, provider: usize, public_ip: PublicIp, state: SyncState },
    /// The pass is over.
    Finished,
}

/// The mathematical content of a [`RunState`].
pub enum RunStateView {
    Fetching(FetchStateView),
    Syncing { index: int, provider: int, public_ip: PublicIp, state: SyncStateView },
    Finished,
}

impl View for RunState {
    type V = RunStateView;

    open spec fn view(&self) -> RunStateView {
        match self {
            RunState::Fetching(state) => RunStateView::Fetching(state@),
            RunState::Syncing { index, provider, public_ip, state } => RunStateView::Syncing {
                index: *index as int,
                provider: *provider as int,
                public_ip: *public_ip,
                state: state@,
            },
            RunState::Finished => RunStateView::Finished,
        }
    }
}

/// The last position at which `names` holds `name`.
pub open spec fn last_named(names: Seq<Seq<char>>, name: Seq<char>) -> Option<int>
    decreases names.len(),
{
    if names.len() == 0 {
        None
    } else if names.last() == name {
        Some(names.len() - 1)
    } else {
        last_named(names.drop_last(), name)
    }
}

/// `last_named` is found by looking from the end.
pub proof fn lemma_last_named(names: Seq<Seq<char>>, name: Seq<char>, at: int)
    requires
        -1 <= at < names.len(),
        forall|k: int| at < k < names.len() ==> names[k] != name,
        at >= 0 ==> names[at] == name,
    ensures
        last_named(names, name) == if at >= 0 {
            Some(at)
        } else {
            None
        },
        last_named(names, name) matches Some(k) ==> 0 <= k < names.len(),
    decreases names.len(),
{
    if names.len() > 0 && at < names.len() - 1 {
        lemma_last_named(names.drop_last(), name, at);
    }
}

/// The names of `fetchers`, in order.
pub open spec fn named_fetchers(fetchers: Seq<NamedFetcherView>) -> Seq<Seq<char>> {
    Seq::new(fetchers.len(), |i: int| fetchers[i].name)
}

/// The names of `providers`, in order.
pub open spec fn named_providers(providers: Seq<CloudflareView>) -> Seq<Seq<char>> {
    Seq::new(providers.len(), |i: int| providers[i].name)
}

/// The public addresses that a fetched result gives: for each family the
/// last address of that family.
pub open spec fn public_ip_of(records: Seq<FetcherRecordView>) -> PublicIp {
    PublicIp { v4: last_v4(records), v6: last_v6(records) }
}

/// The text of the error for a fetcher that was not materialised.
pub open spec fn missing_fetcher_message(name: Seq<char>) -> Seq<char> {
    "fetcher is not available: "@ + name
}

/// The text of the error for a provider that was not materialised.
pub open spec fn missing_provider_message(name: Seq<char>) -> Seq<char> {
    "provider is not available: "@ + name
}

/// A request of a provider's synchronisation as a request of the pass.
pub open spec fn provider_action(provider: int, action: SyncActionView) -> RunActionView {
    match action {
        SyncActionView::ListZones { url } => RunActionView::ListZones { provider, url },
        SyncActionView::ListRecords { url } => RunActionView::ListRecords { provider, url },
        SyncActionView::SubmitBatch { url, batch } => RunActionView::SubmitBatch {
            provider,
            url,
            batch,
        },
        SyncActionView::Done(r) => RunActionView::Done(r),
    }
}

impl RunnerView {
    /// Where the fetcher that tells the public address stands.
    pub open spec fn global_fetcher(self) -> Option<int> {
        last_named(named_fetchers(self.fetchers), self.global_fetcher_name)
    }

    /// Turning to entry `index` of the topology with the addresses `ip`:
    /// its provider's synchronisation begins, entries with nothing to do
    /// are passed over, and past the last entry the pass has succeeded. An
    /// entry whose provider was not materialised ends the pass.
    pub open spec fn sync_from(self, index: int, ip: PublicIp) -> (RunStateView, RunActionView)
        decreases self.record_per_provider.len() - index,
    {
        if index < 0 || index >= self.record_per_provider.len() {
            (RunStateView::Finished, RunActionView::Done(Ok(())))
        } else {
            let entry = self.record_per_provider[index];
            match last_named(named_providers(self.providers), entry.name) {
                None => (
                    RunStateView::Finished,
                    RunActionView::Done(
                        Err(ErrorView::Provider(missing_provider_message(entry.name))),
                    ),
                ),
                Some(provider) => {
                    let (state, action) = initial_state(entry.zones, ip).resolve_from(0);
                    self.after_sync(index, provider, ip, state, action)
                },
            }
        }
    }

    /// What follows an action of a provider's synchronisation: the action
    /// itself, or, where the synchronisation is over, its error or the
    /// next entry of the topology.
    pub open spec fn after_sync(
        self,
        index: int,
        provider: int,
        ip: PublicIp,
        state: SyncStateView,
        action: SyncActionView,
    ) -> (RunStateView, RunActionView)
        decreases self.record_per_provider.len() - index, 0int,
        when 0 <= index < self.record_per_provider.len()
    {
        match action {
            SyncActionView::Done(Ok(_)) => self.sync_from(index + 1, ip),
            SyncActionView::Done(Err(e)) => (RunStateView::Finished, RunActionView::Done(Err(e))),
            _ => (
                RunStateView::Syncing { index, provider, public_ip: ip, state },
                provider_action(provider, action),
            ),
        }
    }

    /// What follows an action of the fetch: the action itself, or, where
    /// the fetch is over, its error or the synchronisation of the first
    /// entry of the topology with the addresses that were fetched.
    pub open spec fn after_fetch(self, state: FetchStateView, action: FetchActionView) -> (
        RunStateView,
        RunActionView,
    ) {
        match action {
            FetchActionView::Get { url, family } => (
                RunStateView::Fetching(state),
                RunActionView::Get { url, family },
            ),
            FetchActionView::ParseAddress { literal, family } => (
                RunStateView::Fetching(state),
                RunActionView::ParseAddress { literal, family },
            ),
            FetchActionView::Done(Err(e)) => (RunStateView::Finished, RunActionView::Done(Err(e))),
            FetchActionView::Done(Ok(records)) => self.sync_from(0, public_ip_of(records)),
        }
    }

    /// The start of a pass at time `now`: the public addresses are asked
    /// of the fetcher that the configuration names for it.
    pub open spec fn begin(self, now: u64) -> (RunStateView, RunActionView) {
        match self.global_fetcher() {
            None => (
                RunStateView::Finished,
                RunActionView::Done(
                    Err(
                        ErrorView::GlobalFetcherError(
                            missing_fetcher_message(self.global_fetcher_name),
                        ),
                    ),
                ),
            ),
            Some(k) => {
                let (state, action) = self.fetchers[k].fetcher.begin(now);
                self.after_fetch(state, action)
            },
        }
    }

    /// The runner, the state and the action that follow `event`.
    ///
    /// The public addresses are fetched once. A failed fetch ends the pass
    /// before any provider is touched. Then every entry of the topology is
    /// synchronised in turn, each with the same addresses; the first
    /// failure ends the pass.
    pub open spec fn step(self, state: RunStateView, event: RunEventView, now: u64) -> (
        RunnerView,
        RunStateView,
        RunActionView,
    ) {
        match (state, event) {
            (RunStateView::Fetching(fetch), RunEventView::Fetch(e)) => match self.global_fetcher() {
                None => (
                    self,
                    RunStateView::Finished,
                    RunActionView::Done(
                        Err(
                            ErrorView::GlobalFetcherError(
                                missing_fetcher_message(self.global_fetcher_name),
                            ),
                        ),
                    ),
                ),
                Some(k) => {
                    let (fetcher, next, action) = self.fetchers[k].fetcher.step(fetch, e, now);
                    let runner = RunnerView {
                        fetchers: self.fetchers.update(
                            k,
                            NamedFetcherView { name: self.fetchers[k].name, fetcher },
                        ),
                        ..self
                    };
                    let (state, action) = runner.after_fetch(next, action);
                    (runner, state, action)
                },
            },
            (
                RunStateView::Syncing { index, provider, public_ip, state },
                RunEventView::Sync(e),
            ) => {
                if 0 <= index < self.record_per_provider.len() {
                    let (next, action) = state.step(e);
                    let (state, action) = self.after_sync(index, provider, public_ip, next, action);
                    (self, state, action)
                } else {
                    (
                        self,
                        RunStateView::Finished,
                        RunActionView::Done(Err(ErrorView::Provider(unexpected_event_message()))),
                    )
                }
            },
            _ => (
                self,
                RunStateView::Finished,
                RunActionView::Done(Err(ErrorView::Provider(unexpected_event_message()))),
            ),
        }
    }
}

fn as_run_action(provider: usize, action: SyncAction) -> (r: RunAction)
    ensures
        r@ == provider_action(provider as int, action@),
{
    match action {
        SyncAction::ListZones { url } => RunAction::ListZones { provider, url },
        SyncAction::ListRecords { url } => RunAction::ListRecords { provider, url },
        SyncAction::SubmitBatch { url, batch } => RunAction::SubmitBatch { provider, url, batch },
        SyncAction::Done(r) => RunAction::Done(r),
    }
}

impl Runner {
    /// Where the fetcher that tells the public address stands.
    pub fn global_fetcher(&self) -> (r: Option<usize>)
        ensures
            r.is_some() == self@.global_fetcher().is_some(),
            r matches Some(k) ==> self@.global_fetcher() == Some(k as int) && k
                < self.fetchers.len(),
    {
        let ghost names = named_fetchers(self@.fetchers);
        let mut i: usize = self.fetchers.len();
        while i > 0
            invariant
                i <= self.fetchers.len(),
                names == named_fetchers(self@.fetchers),
                forall|k: int| i <= k < names.len() ==> names[k] != self.global_fetcher_name@,
            decreases i,
        {
            i -= 1;
            if str_eq(self.fetchers[i].name.as_str(), self.global_fetcher_name.as_str()) {
                proof {
                    lemma_last_named(names, self.global_fetcher_name@, i as int);
                }
                return Some(i);
            }
        }
        proof {
            lemma_last_named(names, self.global_fetcher_name@, -1);
        }
        None
    }

    /// Where the provider `name` stands.
    pub fn find_provider(&self, name: &str) -> (r: Option<usize>)
        ensures
            r.is_some() == last_named(named_providers(self@.providers), name@).is_some(),
            r matches Some(k) ==> last_named(named_providers(self@.providers), name@) == Some(
                k as int,
            ) && k < self.providers.len(),
    {
        let ghost names = named_providers(self@.providers);
        let mut i: usize = self.providers.len();
        while i > 0
            invariant
                i <= self.providers.len(),
                names == named_providers(self@.providers),
                forall|k: int| i <= k < names.len() ==> names[k] != name@,
            decreases i,
        {
            i -= 1;
            if str_eq(self.providers[i].name(), name) {
                proof {
                    lemma_last_named(names, name@, i as int);
                }
                return Some(i);
            }
        }
        proof {
            lemma_last_named(names, name@, -1);
        }
        None
    }

    fn sync_from(&self, index: usize, ip: PublicIp) -> (r: (RunState, RunAction))
        ensures
            (r.0@, r.1@) == self@.sync_from(index as int, ip),
    {
        let mut i: usize = index;
        while i < self.record_per_provider.len()
            invariant
                self@.sync_from(index as int, ip) == self@.sync_from(i as int, ip),
            decreases self@.record_per_provider.len() - i,
        {
            let entry = self.record_per_provider.provider(i);
            match self.find_provider(entry.name.as_str()) {
                None => {
                    return (
                        RunState::Finished,
                        RunAction::Done(
                            Err(
                                Error::Provider(
                                    String::from_str("provider is not available: ").concat(
                                        entry.name.as_str(),
                                    ),
                                ),
                            ),
                        ),
                    );
                },
                Some(provider) => {
                    let (state, action) = self.providers[provider].sync(entry.record.clone(), ip);
                    match action {
                        SyncAction::Done(Ok(())) => {},
                        SyncAction::Done(Err(e)) => {
                            return (RunState::Finished, RunAction::Done(Err(e)));
                        },
                        other => {
                            let action = as_run_action(provider, other);
                            return (
                                RunState::Syncing { index: i, provider, public_ip: ip, state },
                                action,
                            );
                        },
                    }
                },
            }
            i += 1;
        }
        (RunState::Finished, RunAction::Done(Ok(())))
    }

    fn after_sync(
        &self,
        index: usize,
        provider: usize,
        ip: PublicIp,
        state: SyncState,
        action: SyncAction,
    ) -> (r: (RunState, RunAction))
        requires
            index < self@.record_per_provider.len(),
        ensures
            (r.0@, r.1@) == self@.after_sync(index as int, provider as int, ip, state@, action@),
    {
        match action {
            SyncAction::Done(Ok(())) => {
                let count = self.record_per_provider.len();
                assert(index < count);
                self.sync_from(index + 1, ip)
            },
            SyncAction::Done(Err(e)) => (RunState::Finished, RunAction::Done(Err(e))),
            other => {
                let action = as_run_action(provider, other);
                (RunState::Syncing { index, provider, public_ip: ip, state }, action)
            },
        }
    }

    fn after_fetch(&self, state: FetchState, action: FetchAction) -> (r: (RunState, RunAction))
        ensures
            (r.0@, r.1@) == self@.after_fetch(state@, action@),
    {
        match action {
            FetchAction::Get { url, family } => (
                RunState::Fetching(state),
                RunAction::Get { url, family },
            ),
            FetchAction::ParseAddress { literal, family } => (
                RunState::Fetching(state),
                RunAction::ParseAddress { literal, family },
            ),
            FetchAction::Done(Err(e)) => (RunState::Finished, RunAction::Done(Err(e))),
            FetchAction::Done(Ok(records)) => {
                let ip = PublicIp::from(records);
                self.sync_from(0, ip)
            },
        }
    }

    fn missing_fetcher(&self) -> (r: (RunState, RunAction))
        ensures
            r.0@ == RunStateView::Finished,
            r.1@ == RunActionView::Done(
                Err(ErrorView::GlobalFetcherError(missing_fetcher_message(self@.global_fetcher_name))),
            ),
    {
        (
            RunState::Finished,
            RunAction::Done(
                Err(
                    Error::GlobalFetcherError(
                        String::from_str("fetcher is not available: ").concat(
                            self.global_fetcher_name.as_str(),
                        ),
                    ),
                ),
            ),
        )
    }

    /// Begins a pass at time `now`, in milliseconds of a clock that does
    /// not run backwards: the first action to carry out, and the state to
    /// hand back with its outcome.
    pub fn run(&self, now: u64) -> (r: (RunState, RunAction))
        ensures
            (r.0@, r.1@) == self@.begin(now),
    {
        match self.global_fetcher() {
            None => self.missing_fetcher(),
            Some(k) => {
                let (state, action) = self.fetchers[k].fetcher.fetch(now);
                self.after_fetch(state, action)
            },
        }
    }

    /// Goes on with a pass after the pending action was carried out; `now`
    /// is the time at which it was.
    pub fn resume(&mut self, state: RunState, event: RunEvent, now: u64) -> (r: (
        RunState,
        RunAction,
    ))
        ensures
            (final(self)@, r.0@, r.1@) == old(self)@.step(state@, event@, now),
    {
        match (state, event) {
            (RunState::Fetching(fetch), RunEvent::Fetch(e)) => {
                match self.global_fetcher() {
                    None => self.missing_fetcher(),
                    Some(k) => {
                        let ghost before = self@;
                        let (next, action) = self.fetchers[k].fetcher.resume(fetch, e, now);
                        proof {
                            assert(self@.fetchers =~= before.fetchers.update(
                                k as int,
                                NamedFetcherView {
                                    name: before.fetchers[k as int].name,
                                    fetcher: self.fetchers[k as int].fetcher@,
                                },
                            ));
                        }
                        self.after_fetch(next, action)
                    },
                }
            },
            (RunState::Syncing { index, provider, public_ip, state }, RunEvent::Sync(e)) => {
                if index < self.record_per_provider.len() {
                    let (next, action) = state.step(e);
                    self.after_sync(index, provider, public_ip, next, action)
                } else {
                    (
                        RunState::Finished,
                        RunAction::Done(
                            Err(
                                Error::Provider(
                                    unexpected_event(),
                                ),
                            ),
                        ),
                    )
                }
            },
            _ => (
                RunState::Finished,
                RunAction::Done(
                    Err(
                        Error::Provider(
                            unexpected_event(),
                        ),
                    ),
                ),
            ),
        }
    }
}

/// Whether a pass in `state` synchronises with the addresses `ip`, if it
/// synchronises at all.
pub open spec fn reads(state: RunStateView, ip: PublicIp) -> bool {
    match state {
        RunStateView::Syncing { public_ip, state, .. } => public_ip == ip && state.public_ip == ip,
        _ => true,
    }
}

/// Whichever entry of the topology a pass turns to, its provider is
/// synchronised with the addresses that the pass has fetched.
pub proof fn lemma_sync_from_reads(runner: RunnerView, index: int, ip: PublicIp)
    ensures
        reads(runner.sync_from(index, ip).0, ip),
    decreases runner.record_per_provider.len() - index,
{
    if 0 <= index < runner.record_per_provider.len() {
        lemma_sync_from_reads(runner, index + 1, ip);
    }
}

/// All providers of one pass act on the same reading of the public
/// addresses: a step of a synchronisation that reads `ip` leads to one
/// that reads `ip`, for the same provider or the next.
pub proof fn lemma_one_reading_for_every_provider(
    runner: RunnerView,
    state: RunStateView,
    event: RunEventView,
    now: u64,
    ip: PublicIp,
)
    requires
        state is Syncing,
        reads(state, ip),
    ensures
        reads(runner.step(state, event, now).1, ip),
        runner.step(state, event, now).0 == runner,
{
    match (state, event) {
        (RunStateView::Syncing { index, provider, public_ip, state }, RunEventView::Sync(e)) => {
            if 0 <= index < runner.record_per_provider.len() {
                lemma_sync_from_reads(runner, index + 1, ip);
            }
        },
        _ => {},
    }
}

/// The addresses that the providers are synchronised with are those that
/// the fetch has handed out.
pub proof fn lemma_fetch_decides_reading(
    runner: RunnerView,
    state: FetchStateView,
    records: Seq<FetcherRecordView>,
)
    ensures
        reads(
            runner.after_fetch(state, FetchActionView::Done(Ok(records))).0,
            public_ip_of(records),
        ),
{
    lemma_sync_from_reads(runner, 0, public_ip_of(records));
}

/// A fetch that fails ends the pass with its error before any provider is
/// asked anything.
pub proof fn lemma_failed_fetch_ends_pass(runner: RunnerView, state: FetchStateView, e: ErrorView)
    ensures
        runner.after_fetch(state, FetchActionView::Done(Err(e))) == (
            RunStateView::Finished,
            RunActionView::Done(Err(e)),
        ),
{
}

/// A pass that is over stays over.
pub proof fn lemma_finished_pass_is_final(runner: RunnerView, event: RunEventView, now: u64)
    ensures
        runner.step(RunStateView::Finished, event, now).0 == runner,
        runner.step(RunStateView::Finished, event, now).1 is Finished,
        runner.step(RunStateView::Finished, event, now).2 is Done,
{
}

/// Whether `action`, if it is a request to a provider, says which of the
/// runner's providers it is for.
pub open spec fn addressed(runner: RunnerView, action: RunActionView) -> bool {
    match action {
        RunActionView::ListZones { provider, .. } => 0 <= provider < runner.providers.len(),
        RunActionView::ListRecords { provider, .. } => 0 <= provider < runner.providers.len(),
        RunActionView::SubmitBatch { provider, .. } => 0 <= provider < runner.providers.len(),
        _ => true,
    }
}

/// Whether a pass in `state`, if it synchronises, synchronises one of the
/// runner's providers.
pub open spec fn engaged(runner: RunnerView, state: RunStateView) -> bool {
    match state {
        RunStateView::Syncing { provider, .. } => 0 <= provider < runner.providers.len(),
        _ => true,
    }
}

/// `last_named` answers with a position of the list.
pub proof fn lemma_last_named_in_range(names: Seq<Seq<char>>, name: Seq<char>)
    ensures
        last_named(names, name) matches Some(k) ==> 0 <= k < names.len() && names[k] == name,
    decreases names.len(),
{
    if names.len() > 0 && names.last() != name {
        lemma_last_named_in_range(names.drop_last(), name);
    }
}

/// Whichever entry of the topology a pass turns to, what it asks of a
/// provider is addressed to one of the runner's providers.
pub proof fn lemma_sync_from_is_addressed(runner: RunnerView, index: int, ip: PublicIp)
    ensures
        addressed(runner, runner.sync_from(index, ip).1),
        engaged(runner, runner.sync_from(index, ip).0),
    decreases runner.record_per_provider.len() - index,
{
    if 0 <= index < runner.record_per_provider.len() {
        lemma_last_named_in_range(
            named_providers(runner.providers),
            runner.record_per_provider[index].name,
        );
        lemma_sync_from_is_addressed(runner, index + 1, ip);
    }
}

/// Every request to a provider is addressed to one of the runner's
/// providers, from the start of a pass to its end.
pub proof fn lemma_requests_are_addressed(
    runner: RunnerView,
    state: RunStateView,
    event: RunEventView,
    now: u64,
)
    requires
        engaged(runner, state),
    ensures
        addressed(runner.step(state, event, now).0, runner.step(state, event, now).2),
        engaged(runner.step(state, event, now).0, runner.step(state, event, now).1),
        addressed(runner, runner.begin(now).1),
        engaged(runner, runner.begin(now).0),
{
    match runner.global_fetcher() {
        Some(k) => {
            let (fetch, action) = runner.fetchers[k].fetcher.begin(now);
            match action {
                FetchActionView::Done(Ok(records)) => {
                    lemma_sync_from_is_addressed(runner, 0, public_ip_of(records));
                },
                _ => {},
            }
        },
        None => {},
    }
    match (state, event) {
        (RunStateView::Fetching(fetch), RunEventView::Fetch(e)) => {
            match runner.global_fetcher() {
                Some(k) => {
                    let (fetcher, next, action) = runner.fetchers[k].fetcher.step(fetch, e, now);
                    let after = runner.step(state, event, now).0;
                    match action {
                        FetchActionView::Done(Ok(records)) => {
                            lemma_sync_from_is_addressed(after, 0, public_ip_of(records));
                        },
                        _ => {},
                    }
                },
                None => {},
            }
        },
        (RunStateView::Syncing { index, provider, public_ip, state: sync }, RunEventView::Sync(e)) => {
            if 0 <= index < runner.record_per_provider.len() {
                lemma_sync_from_is_addressed(runner, index + 1, public_ip);
            }
        },
        _ => {},
    }
}

} // verus!
