use vstd::prelude::*;
use vstd::string::StringExecFns;
use crate::error::Error;
use crate::error::unexpected_event;
use crate::error::unexpected_event_message;
use crate::error::ErrorView;
use crate::fetcher::backend::AddrFamily;
use crate::fetcher::backend::FetcherBackend;
use crate::record::clone_labels;
use crate::record::FetcherRecord;
use crate::record::FetcherRecordSet;
use crate::record::FetcherRecordView;
use crate::record::IpAddr;
use crate::record::Param;
use crate::record::ProviderParamView;
use crate::record::RecordContentView;
use crate::record::RecordLabel;
use crate::record::RecordLabelView;
use crate::text::decimal;
use crate::text::parse_u64;
use crate::text::parsed_u64;
use crate::text::split;
use crate::text::split_on;
use crate::text::str_eq;
use crate::text::u64_to_string;

verus! {

/// The value of the first of `args` named `key`.
pub open spec fn arg_value(args: Seq<ProviderParamView>, key: Seq<char>) -> Option<Seq<char>>
    decreases args.len(),
{
    if args.len() == 0 {
        None
    } else if args.first().name == key {
        Some(args.first().value)
    } else {
        arg_value(args.drop_first(), key)
    }
}

/// `arg_value` finds the entry at the first position whose name is `key`.
pub proof fn lemma_arg_value(args: Seq<ProviderParamView>, key: Seq<char>, at: int)
    requires
        0 <= at <= args.len(),
        forall|k: int| 0 <= k < at ==> args[k].name != key,
        at < args.len() ==> args[at].name == key,
    ensures
        arg_value(args, key) == if at < args.len() {
            Some(args[at].value)
        } else {
            None
        },
    decreases at,
{
    if at > 0 {
        lemma_arg_value(args.drop_first(), key, at - 1);
    }
}

/// The value of the first of `args` named `key`.
pub fn find_arg<'a>(args: &'a Vec<Param>, key: &str) -> (r: Option<&'a str>)
    ensures
        r.deep_view() == arg_value(args.deep_view(), key@),
{
    let mut i: usize = 0;
    while i < args.len()
        invariant
            i <= args.len(),
            forall|k: int| 0 <= k < i ==> args.deep_view()[k].name != key@,
        decreases args.len() - i,
    {
        if str_eq(args[i].name.as_str(), key) {
            proof {
                lemma_arg_value(args.deep_view(), key@, i as int);
            }
            return Some(args[i].value.as_str());
        }
        i += 1;
    }
    proof {
        lemma_arg_value(args.deep_view(), key@, i as int);
    }
    None
}

/// The backend that a configuration calls `name`.
pub open spec fn backend_named(name: Seq<char>) -> Option<FetcherBackend> {
    if name == "cloudflare"@ {
        Some(FetcherBackend::Cloudflare)
    } else if name == "ipw"@ {
        Some(FetcherBackend::Ipw)
    } else {
        None
    }
}

/// Whether each of `names` is the name of a backend.
pub open spec fn known_backends(names: Seq<Seq<char>>) -> bool {
    forall|i: int| 0 <= i < names.len() ==> (#[trigger] backend_named(names[i])) is Some
}

/// The backends that are asked when none is chosen: all of them.
pub open spec fn default_backends() -> Seq<FetcherBackend> {
    seq![FetcherBackend::Cloudflare, FetcherBackend::Ipw]
}

/// The backends that `names` choose, in order; all of them where no name
/// is given.
pub open spec fn backends_named(names: Seq<Seq<char>>) -> Seq<FetcherBackend> {
    if names.len() == 0 {
        default_backends()
    } else {
        Seq::new(names.len(), |i: int| backend_named(names[i])->0)
    }
}

/// The lifetime of a fetched result when none is configured, in seconds.
pub const DEFAULT_CACHE_ALIVE_SECS: u64 = 30;

/// Whether `args` can configure a fetcher: the backends that `enabled`
/// lists are known, and `cache_alive_time` is a number of seconds.
pub open spec fn valid_args(args: Seq<ProviderParamView>) -> bool {
    &&& arg_value(args, "enabled"@) matches Some(names) ==> known_backends(split_on(names, ','))
    &&& arg_value(args, "cache_alive_time"@) matches Some(secs) ==> parsed_u64(secs) is Some
}

/// The fetcher that `args` configure. Without any argument it is the
/// default fetcher. Otherwise `enabled` lists the backends, separated by
/// commas, and `cache_alive_time` gives the lifetime of a result in
/// seconds; a missing list means all backends, a missing lifetime none.
pub open spec fn configured(args: Seq<ProviderParamView>) -> HttpFetcherView {
    if args.len() == 0 {
        HttpFetcherView {
            backends: default_backends(),
            last_fetch_time: 0,
            cache_alive_time: DEFAULT_CACHE_ALIVE_SECS,
            cache: None,
        }
    } else {
        HttpFetcherView {
            backends: match arg_value(args, "enabled"@) {
                Some(names) => backends_named(split_on(names, ',')),
                None => default_backends(),
            },
            last_fetch_time: 0,
            cache_alive_time: match arg_value(args, "cache_alive_time"@) {
                Some(secs) => parsed_u64(secs)->0,
                None => 0,
            },
            cache: None,
        }
    }
}

/// Asks the enabled backends for this host's public addresses and keeps
/// the last result for a while.
#[derive(Debug, PartialEq)]
pub struct HttpFetcher {
    backends: Vec<FetcherBackend>,
    last_fetch_time: u64,
    cache_alive_time: u64,
    cache: Option<FetcherRecordSet>,
}

/// The mathematical content of an [`HttpFetcher`].
pub struct HttpFetcherView {
    /// The backends to ask, in order. There is at least one.
    pub backends: Seq<FetcherBackend>,
    /// When the kept result was fetched, in milliseconds of the caller's
    /// clock.
    pub last_fetch_time: u64,
    /// For how many seconds a result is kept.
    pub cache_alive_time: u64,
    /// The kept result.
    pub cache: Option<Seq<FetcherRecordView>>,
}

impl View for HttpFetcher {
    type V = HttpFetcherView;

    closed spec fn view(&self) -> HttpFetcherView {
        HttpFetcherView {
            backends: self.backends@,
            last_fetch_time: self.last_fetch_time,
            cache_alive_time: self.cache_alive_time,
            cache: self.cache.deep_view(),
        }
    }
}

/// The milliseconds from `last` to `now` on a clock that does not run
/// backwards.
pub open spec fn elapsed_millis(now: u64, last: u64) -> int {
    if now >= last {
        now - last
    } else {
        0
    }
}

impl HttpFetcherView {
    /// Whether the kept result may be handed out at time `now`: there is
    /// one, it is not empty, and it is younger than the lifetime.
    pub open spec fn is_fresh(self, now: u64) -> bool {
        &&& self.cache matches Some(records)
        &&& records.len() > 0
        &&& elapsed_millis(now, self.last_fetch_time) < self.cache_alive_time * 1000
    }
}

impl HttpFetcher {
    /// A fetcher always has a backend to ask.
    #[verifier::type_invariant]
    spec fn has_backends(self) -> bool {
        self.backends@.len() > 0
    }

    /// The backends that `backend_types` name; all of them where no name
    /// is given.
    pub fn backends_from_types(backend_types: &Vec<String>) -> (r: Vec<FetcherBackend>)
        requires
            known_backends(backend_types.deep_view()),
        ensures
            r@ == backends_named(backend_types.deep_view()),
    {
        let mut ret: Vec<FetcherBackend> = Vec::new();
        let mut i: usize = 0;
        while i < backend_types.len()
            invariant
                i <= backend_types.len(),
                known_backends(backend_types.deep_view()),
                ret.len() == i,
                forall|k: int|
                    0 <= k < i ==> ret@[k] == backend_named(backend_types.deep_view()[k])->0,
            decreases backend_types.len() - i,
        {
            assert(backend_named(backend_types.deep_view()[i as int]) is Some);
            if str_eq(backend_types[i].as_str(), "cloudflare") {
                ret.push(FetcherBackend::Cloudflare);
            } else {
                ret.push(FetcherBackend::Ipw);
            }
            i += 1;
        }
        if ret.len() == 0 {
            ret.push(FetcherBackend::Cloudflare);
            ret.push(FetcherBackend::Ipw);
        }
        assert(ret@ =~= backends_named(backend_types.deep_view()));
        ret
    }

    /// Whether each of `backend_types` is the name of a backend.
    pub fn backends_are_known(backend_types: &Vec<String>) -> (r: bool)
        ensures
            r == known_backends(backend_types.deep_view()),
    {
        let mut i: usize = 0;
        while i < backend_types.len()
            invariant
                i <= backend_types.len(),
                forall|k: int|
                    0 <= k < i ==> (#[trigger] backend_named(backend_types.deep_view()[k])) is Some,
            decreases backend_types.len() - i,
        {
            if !str_eq(backend_types[i].as_str(), "cloudflare") && !str_eq(
                backend_types[i].as_str(),
                "ipw",
            ) {
                assert(backend_named(backend_types.deep_view()[i as int]) is None);
                return false;
            }
            i += 1;
        }
        true
    }

    /// The default fetcher: every backend, and results kept for thirty
    /// seconds.
    pub fn new() -> (r: Self)
        ensures
            r@ == configured(Seq::empty()),
    {
        let mut backends: Vec<FetcherBackend> = Vec::new();
        backends.push(FetcherBackend::Cloudflare);
        backends.push(FetcherBackend::Ipw);
        assert(backends@ =~= default_backends());
        Self {
            backends,
            cache_alive_time: DEFAULT_CACHE_ALIVE_SECS,
            cache: None,
            last_fetch_time: 0,
        }
    }

    /// Whether `args` can configure a fetcher.
    pub fn args_are_valid(args: &Vec<Param>) -> (r: bool)
        ensures
            r == valid_args(args.deep_view()),
    {
        let enabled_ok = match find_arg(args, "enabled") {
            Some(names) => {
                let pieces = split(names, ',');
                Self::backends_are_known(&pieces)
            },
            None => true,
        };
        let alive_ok = match find_arg(args, "cache_alive_time") {
            Some(secs) => parse_u64(secs).is_some(),
            None => true,
        };
        enabled_ok && alive_ok
    }

    /// The fetcher that `args` configure.
    pub fn new_with_args(args: Vec<Param>) -> (r: Self)
        requires
            valid_args(args.deep_view()),
        ensures
            r@ == configured(args.deep_view()),
    {
        if args.len() == 0 {
            return Self::new();
        }
        let backends = match find_arg(&args, "enabled") {
            Some(names) => {
                let pieces = split(names, ',');
                Self::backends_from_types(&pieces)
            },
            None => {
                let none: Vec<String> = Vec::new();
                assert(none.deep_view() =~= Seq::empty());
                Self::backends_from_types(&none)
            },
        };
        let cache_alive_time = match find_arg(&args, "cache_alive_time") {
            Some(secs) => parse_u64(secs).unwrap(),
            None => 0,
        };
        Self { backends, cache_alive_time, cache: None, last_fetch_time: 0 }
    }

    /// The fetcher that `args` configure, if they can configure one.
    pub fn try_new_with_args(args: Vec<Param>) -> (r: Option<Self>)
        ensures
            valid_args(args.deep_view()) ==> r is Some && r->0@ == configured(args.deep_view()),
            !valid_args(args.deep_view()) ==> r is None,
    {
        if Self::args_are_valid(&args) {
            Some(Self::new_with_args(args))
        } else {
            None
        }
    }

    /// Whether the kept result may be handed out at time `now`.
    pub fn is_fresh(&self, now: u64) -> (r: bool)
        ensures
            r == self@.is_fresh(now),
    {
        match &self.cache {
            None => false,
            Some(records) => {
                let elapsed: u64 = if now >= self.last_fetch_time {
                    now - self.last_fetch_time
                } else {
                    0
                };
                !records.is_empty() && (elapsed as u128) < (self.cache_alive_time as u128) * 1000
            },
        }
    }
}

/// What the driver of a fetch is asked to do next.
#[derive(Debug, PartialEq)]
pub enum FetchAction {
    /// Get `url` from a local address of `family`, and report what came
    /// back as [`FetchEvent::Response`] or [`FetchEvent::Unreachable`].
    Get { url: String, family: AddrFamily },
    /// Read `literal` as an address of `family`, and report the result as
    /// [`FetchEvent::Address`].
    ParseAddress { literal: String, family: AddrFamily },
    /// Nothing more: the fetch ended with this result.
    Done(Result<FetcherRecordSet, Error>),
}

/// The mathematical content of a [`FetchAction`].
pub enum FetchActionView {
    Get { url: Seq<char>, family: AddrFamily },
    ParseAddress { literal: Seq<char>, family: AddrFamily },
    Done(Result<Seq<FetcherRecordView>, ErrorView>),
}

impl View for FetchAction {
    type V = FetchActionView;

    open spec fn view(&self) -> FetchActionView {
        match self {
            FetchAction::Get { url, family } => FetchActionView::Get { url: url@, family: *family },
            FetchAction::ParseAddress { literal, family } => FetchActionView::ParseAddress {
                literal: literal@,
                family: *family,
            },
            FetchAction::Done(Ok(records)) => FetchActionView::Done(Ok(records@)),
            FetchAction::Done(Err(e)) => FetchActionView::Done(Err(e@)),
        }
    }
}

/// What the driver reports back after an action.
#[derive(Debug, PartialEq)]
pub enum FetchEvent {
    /// A response arrived, with this status and body.
    Response { status: u16, body: String },
    /// No response arrived; the text says why.
    Unreachable(String),
    /// The address that a literal denotes, or why it denotes none.
    Address(Result<IpAddr, String>),
}

/// The mathematical content of a [`FetchEvent`].
pub enum FetchEventView {
    Response { status: u16, body: Seq<char> },
    Unreachable(Seq<char>),
    Address(Result<IpAddr, Seq<char>>),
}

impl View for FetchEvent {
    type V = FetchEventView;

    open spec fn view(&self) -> FetchEventView {
        match self {
            FetchEvent::Response { status, body } => FetchEventView::Response {
                status: *status,
                body: body@,
            },
            FetchEvent::Unreachable(reason) => FetchEventView::Unreachable(reason@),
            FetchEvent::Address(Ok(ip)) => FetchEventView::Address(Ok(*ip)),
            FetchEvent::Address(Err(reason)) => FetchEventView::Address(Err(reason@)),
        }
    }
}

/// What a fetch is waiting for.
#[derive(Debug, PartialEq)]
pub enum Awaiting {
    /// The response of the current backend.
    Body,
    /// The address that the current backend's literal denotes; `labels`
    /// are those of the backend.
    Address { labels: Vec<RecordLabel> },
    /// Nothing: the fetch is over.
    Nothing,
}

/// The mathematical content of an [`Awaiting`].
pub enum AwaitingView {
    Body,
    Address { labels: Seq<RecordLabelView> },
    Nothing,
}

impl View for Awaiting {
    type V = AwaitingView;

    open spec fn view(&self) -> AwaitingView {
        match self {
            Awaiting::Body => AwaitingView::Body,
            Awaiting::Address { labels } => AwaitingView::Address { labels: labels.deep_view() },
            Awaiting::Nothing => AwaitingView::Nothing,
        }
    }
}

/// The progress of one fetch.
#[derive(Debug, PartialEq)]
pub struct FetchState {
    backend_index: usize,
    family: AddrFamily,
    awaiting: Awaiting,
    collected: FetcherRecordSet,
}

/// The mathematical content of a [`FetchState`].
pub struct FetchStateView {
    /// The position of the backend that is being asked.
    pub backend_index: int,
    /// The address family that it is being asked for.
    pub family: AddrFamily,
    /// What is being waited for.
    pub awaiting: AwaitingView,
    /// The results so far, in the order they came.
    pub collected: Seq<FetcherRecordView>,
}

impl View for FetchState {
    type V = FetchStateView;

    closed spec fn view(&self) -> FetchStateView {
        FetchStateView {
            backend_index: self.backend_index as int,
            family: self.family,
            awaiting: self.awaiting@,
            collected: self.collected@,
        }
    }
}

/// The family that an address belongs to.
pub open spec fn family_of(ip: IpAddr) -> AddrFamily {
    match ip {
        IpAddr::V4(_) => AddrFamily::V4,
        IpAddr::V6(_) => AddrFamily::V6,
    }
}

/// The result that reports `ip` with `labels`.
pub open spec fn record_of(ip: IpAddr, labels: Seq<RecordLabelView>) -> FetcherRecordView {
    match ip {
        IpAddr::V4(a) => FetcherRecordView { value: RecordContentView::A(a), labels },
        IpAddr::V6(a) => FetcherRecordView { value: RecordContentView::AAAA(a), labels },
    }
}

/// The text of the error for a response whose status is not a success.
pub open spec fn bad_status_message(status: u16) -> Seq<char> {
    "get returns non-200 status: "@ + decimal(status as nat)
}

/// The text of the error for an address of the other family.
pub open spec fn wrong_family_message() -> Seq<char> {
    "address is not of the family that was asked for"@
}

impl FetchStateView {
    /// The state in which a live fetch starts.
    pub open spec fn initial() -> FetchStateView {
        FetchStateView {
            backend_index: 0,
            family: AddrFamily::V4,
            awaiting: AwaitingView::Body,
            collected: Seq::empty(),
        }
    }

    /// The state once the fetch is over.
    pub open spec fn finished(self) -> FetchStateView {
        FetchStateView { awaiting: AwaitingView::Nothing, ..self }
    }
}

impl HttpFetcherView {
    /// Whether there is a backend to ask.
    pub open spec fn well_formed(self) -> bool {
        self.backends.len() > 0
    }

    /// The request to the backend at `index` for `family`.
    pub open spec fn request(self, index: int, family: AddrFamily) -> FetchActionView {
        FetchActionView::Get { url: self.backends[index].spec_url(family), family }
    }

    /// The start of a fetch at time `now`: a fresh result is handed out as
    /// it is kept, without any request; else the first backend is asked
    /// for its IPv4 address.
    pub open spec fn begin(self, now: u64) -> (FetchStateView, FetchActionView) {
        if self.is_fresh(now) {
            (FetchStateView::initial().finished(), FetchActionView::Done(Ok(self.cache->0)))
        } else {
            (FetchStateView::initial(), self.request(0, AddrFamily::V4))
        }
    }

    /// The end of a fetch with an error: the kept result stays as it is.
    pub open spec fn fail(self, state: FetchStateView, e: ErrorView) -> (
        HttpFetcherView,
        FetchStateView,
        FetchActionView,
    ) {
        (self, state.finished(), FetchActionView::Done(Err(e)))
    }

    /// What follows once the current request has given `record`: the same
    /// backend is asked for IPv6 after IPv4, then the next backend is
    /// asked; after the last one the results are kept with the time `now`
    /// and handed out.
    pub open spec fn proceed(self, state: FetchStateView, record: FetcherRecordView, now: u64) -> (
        HttpFetcherView,
        FetchStateView,
        FetchActionView,
    ) {
        let collected = state.collected.push(record);
        if state.family == AddrFamily::V4 {
            (
                self,
                FetchStateView {
                    family: AddrFamily::V6,
                    awaiting: AwaitingView::Body,
                    collected,
                    ..state
                },
                self.request(state.backend_index, AddrFamily::V6),
            )
        } else if state.backend_index + 1 < self.backends.len() {
            (
                self,
                FetchStateView {
                    backend_index: state.backend_index + 1,
                    family: AddrFamily::V4,
                    awaiting: AwaitingView::Body,
                    collected,
                },
                self.request(state.backend_index + 1, AddrFamily::V4),
            )
        } else {
            (
                HttpFetcherView { cache: Some(collected), last_fetch_time: now, ..self },
                FetchStateView { collected, ..state }.finished(),
                FetchActionView::Done(Ok(collected)),
            )
        }
    }

    /// The fetcher, the state and the action that follow `event`.
    ///
    /// Any request that fails ends the whole fetch: a missing response, a
    /// status outside 200 to 299, a body that the backend's format does
    /// not fit, a literal that is no address of the family asked for.
    pub open spec fn step(self, state: FetchStateView, event: FetchEventView, now: u64) -> (
        HttpFetcherView,
        FetchStateView,
        FetchActionView,
    ) {
        if !(0 <= state.backend_index < self.backends.len()) {
            self.fail(state, ErrorView::GlobalFetcherError(unexpected_event_message()))
        } else {
            match (state.awaiting, event) {
                (AwaitingView::Body, FetchEventView::Unreachable(reason)) => self.fail(
                    state,
                    ErrorView::HttpError(reason),
                ),
                (AwaitingView::Body, FetchEventView::Response { status, body }) => {
                    if !(200 <= status <= 299) {
                        self.fail(state, ErrorView::HttpError(bad_status_message(status)))
                    } else {
                        match self.backends[state.backend_index].parsed(body) {
                            Err(e) => self.fail(state, e),
                            Ok((literal, labels)) => (
                                self,
                                FetchStateView { awaiting: AwaitingView::Address { labels }, ..state },
                                FetchActionView::ParseAddress { literal, family: state.family },
                            ),
                        }
                    }
                },
                (AwaitingView::Address { .. }, FetchEventView::Address(Err(reason))) => self.fail(
                    state,
                    ErrorView::ParseError(reason),
                ),
                (AwaitingView::Address { labels }, FetchEventView::Address(Ok(ip))) => {
                    if family_of(ip) != state.family {
                        self.fail(state, ErrorView::ParseError(wrong_family_message()))
                    } else {
                        self.proceed(state, record_of(ip, labels), now)
                    }
                },
                _ => self.fail(state, ErrorView::GlobalFetcherError(unexpected_event_message())),
            }
        }
    }
}

impl FetchState {
    /// Whether the fetch is over.
    pub fn is_finished(&self) -> (r: bool)
        ensures
            r == (self@.awaiting is Nothing),
    {
        matches!(self.awaiting, Awaiting::Nothing)
    }

    fn fail(self, e: Error) -> (r: (FetchState, FetchAction))
        ensures
            r.0@ == self@.finished(),
            r.1@ == FetchActionView::Done(Err(e@)),
    {
        (FetchState { awaiting: Awaiting::Nothing, ..self }, FetchAction::Done(Err(e)))
    }
}

impl HttpFetcher {
    fn request(&self, index: usize, family: AddrFamily) -> (r: FetchAction)
        requires
            index < self@.backends.len(),
        ensures
            r@ == self@.request(index as int, family),
    {
        FetchAction::Get { url: String::from_str(self.backends[index].url(family)), family }
    }

    /// Begins a fetch at time `now`, in milliseconds of a clock that does
    /// not run backwards: the first action to carry out, and the state to
    /// hand back with its outcome.
    pub fn fetch(&self, now: u64) -> (r: (FetchState, FetchAction))
        ensures
            self@.well_formed(),
            (r.0@, r.1@) == self@.begin(now),
    {
        proof {
            use_type_invariant(self);
        }
        let state = FetchState {
            backend_index: 0,
            family: AddrFamily::V4,
            awaiting: Awaiting::Body,
            collected: FetcherRecordSet::new(),
        };
        if let Some(records) = &self.cache {
            if self.is_fresh(now) {
                return (
                    FetchState { awaiting: Awaiting::Nothing, ..state },
                    FetchAction::Done(Ok(records.clone())),
                );
            }
        }
        let action = self.request(0, AddrFamily::V4);
        (state, action)
    }

    /// Goes on with a fetch after the pending action was carried out;
    /// `now` is the time at which it was.
    pub fn resume(&mut self, state: FetchState, event: FetchEvent, now: u64) -> (r: (
        FetchState,
        FetchAction,
    ))
        ensures
            old(self)@.well_formed(),
            final(self)@.well_formed(),
            (final(self)@, r.0@, r.1@) == old(self)@.step(state@, event@, now),
    {
        proof {
            use_type_invariant(&*self);
        }
        if state.backend_index >= self.backends.len() {
            return state.fail(
                Error::GlobalFetcherError(
                    unexpected_event(),
                ),
            );
        }
        let FetchState { backend_index, family, awaiting, collected } = state;
        match (awaiting, event) {
            (Awaiting::Body, FetchEvent::Unreachable(reason)) => {
                let state = FetchState { backend_index, family, awaiting: Awaiting::Body, collected };
                state.fail(Error::HttpError(reason))
            },
            (Awaiting::Body, FetchEvent::Response { status, body }) => {
                let state = FetchState { backend_index, family, awaiting: Awaiting::Body, collected };
                if status < 200 || status > 299 {
                    let number = u64_to_string(status as u64);
                    state.fail(
                        Error::HttpError(
                            String::from_str("get returns non-200 status: ").concat(
                                number.as_str(),
                            ),
                        ),
                    )
                } else {
                    match self.backends[backend_index].parse_content(body.as_str()) {
                        Err(e) => state.fail(e),
                        Ok((literal, labels)) => (
                            FetchState { awaiting: Awaiting::Address { labels }, ..state },
                            FetchAction::ParseAddress { literal, family },
                        ),
                    }
                }
            },
            (Awaiting::Address { labels }, FetchEvent::Address(Err(reason))) => {
                let state = FetchState {
                    backend_index,
                    family,
                    awaiting: Awaiting::Address { labels },
                    collected,
                };
                state.fail(Error::ParseError(reason))
            },
            (Awaiting::Address { labels }, FetchEvent::Address(Ok(ip))) => {
                let record = match (ip, family) {
                    (IpAddr::V4(a), AddrFamily::V4) => Some(
                        FetcherRecord::new_v4_with_labels(a, clone_labels(&labels)),
                    ),
                    (IpAddr::V6(a), AddrFamily::V6) => Some(
                        FetcherRecord::new_v6_with_labels(a, clone_labels(&labels)),
                    ),
                    _ => None,
                };
                match record {
                    None => {
                        let state = FetchState {
                            backend_index,
                            family,
                            awaiting: Awaiting::Address { labels },
                            collected,
                        };
                        state.fail(
                            Error::ParseError(
                                String::from_str("address is not of the family that was asked for"),
                            ),
                        )
                    },
                    Some(record) => {
                        let mut collected = collected;
                        collected.push(record);
                        match family {
                            AddrFamily::V4 => {
                                let action = self.request(backend_index, AddrFamily::V6);
                                (
                                    FetchState {
                                        backend_index,
                                        family: AddrFamily::V6,
                                        awaiting: Awaiting::Body,
                                        collected,
                                    },
                                    action,
                                )
                            },
                            AddrFamily::V6 => {
                                if backend_index + 1 < self.backends.len() {
                                    let action = self.request(backend_index + 1, AddrFamily::V4);
                                    (
                                        FetchState {
                                            backend_index: backend_index + 1,
                                            family: AddrFamily::V4,
                                            awaiting: Awaiting::Body,
                                            collected,
                                        },
                                        action,
                                    )
                                } else {
                                    self.cache = Some(collected.clone());
                                    self.last_fetch_time = now;
                                    let result = collected.clone();
                                    (
                                        FetchState {
                                            backend_index,
                                            family,
                                            awaiting: Awaiting::Nothing,
                                            collected,
                                        },
                                        FetchAction::Done(Ok(result)),
                                    )
                                }
                            },
                        }
                    },
                }
            },
            (awaiting, _) => {
                let state = FetchState { backend_index, family, awaiting, collected };
                state.fail(
                    Error::GlobalFetcherError(
                        unexpected_event(),
                    ),
                )
            },
        }
    }
}

} // verus!
