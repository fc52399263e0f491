use vstd::prelude::*;
use crate::record::clone_optional_text;
use crate::record::ProviderParam;
use crate::record::ProviderParamView;
use crate::record::ProviderRecord;
use crate::record::ProviderRecordView;
use crate::record::RecordContent;
use crate::record::RecordContentView;
use crate::record::RecordOp;
use crate::record::ZoneName;
use crate::record::TTL;

verus! {

/// A named setting as the configuration gives it.
#[derive(Debug, PartialEq)]
pub struct CfgParam {
    pub name: String,
    pub value: String,
}

/// The mathematical content of a [`CfgParam`].
pub struct CfgParamView {
    pub name: Seq<char>,
    pub value: Seq<char>,
}

impl View for CfgParam {
    type V = CfgParamView;

    open spec fn view(&self) -> CfgParamView {
        CfgParamView { name: self.name@, value: self.value@ }
    }
}

impl DeepView for CfgParam {
    type V = CfgParamView;

    open spec fn deep_view(&self) -> CfgParamView {
        self@
    }
}

impl Clone for CfgParam {
    fn clone(&self) -> (r: Self)
        ensures
            r@ == self@,
    {
        CfgParam { name: self.name.clone(), value: self.value.clone() }
    }
}

/// The settings of one configuration entry, in the order written.
#[derive(Debug, PartialEq)]
pub struct CfgParamList {
    pub list: Vec<CfgParam>,
}

impl View for CfgParamList {
    type V = Seq<CfgParamView>;

    open spec fn view(&self) -> Seq<CfgParamView> {
        self.list.deep_view()
    }
}

impl DeepView for CfgParamList {
    type V = Seq<CfgParamView>;

    open spec fn deep_view(&self) -> Seq<CfgParamView> {
        self@
    }
}

/// The value of the first setting of `params` named `key`.
pub open spec fn first_value(params: Seq<CfgParamView>, key: Seq<char>) -> Option<Seq<char>>
    decreases params.len(),
{
    if params.len() == 0 {
        None
    } else if params.first().name == key {
        Some(params.first().value)
    } else {
        first_value(params.drop_first(), key)
    }
}

/// `first_value` finds the entry at the first position whose name is `key`.
pub proof fn lemma_first_value(params: Seq<CfgParamView>, key: Seq<char>, at: int)
    requires
        0 <= at <= params.len(),
        forall|k: int| 0 <= k < at ==> params[k].name != key,
        at < params.len() ==> params[at].name == key,
    ensures
        first_value(params, key) == if at < params.len() {
            Some(params[at].value)
        } else {
            None
        },
    decreases at,
{
    if at > 0 {
        lemma_first_value(params.drop_first(), key, at - 1);
    }
}

impl CfgParamList {
    /// The number of settings.
    pub fn len(&self) -> (r: usize)
        ensures
            r == self@.len(),
    {
        self.list.len()
    }

    /// The settings, one after the other.
    pub fn iter(&self) -> (r: core::slice::Iter<'_, CfgParam>)
        ensures
            vstd::std_specs::iter::IteratorSpec::remaining(&r) == self.list@.as_ref(),
    {
        broadcast use vstd::std_specs::slice::axiom_spec_slice_iter;

        self.list.as_slice().iter()
    }

    /// The value of the first setting named `key`.
    pub fn get_value_ref(&self, key: &str) -> (r: Option<&str>)
        ensures
            r.deep_view() == first_value(self@, key@),
    {
        let mut i: usize = 0;
        while i < self.list.len()
            invariant
                i <= self.list.len(),
                forall|k: int| 0 <= k < i ==> self@[k].name != key@,
            decreases self.list.len() - i,
        {
            if crate::text::str_eq(self.list[i].name.as_str(), key) {
                proof {
                    lemma_first_value(self@, key@, i as int);
                }
                return Some(self.list[i].value.as_str());
            }
            i += 1;
        }
        proof {
            lemma_first_value(self@, key@, i as int);
        }
        None
    }

    /// The settings as a provider takes them.
    pub fn to_provider_params(&self) -> (r: Vec<ProviderParam>)
        ensures
            r.deep_view() == provider_params(self@),
    {
        let mut out: Vec<ProviderParam> = Vec::new();
        let mut i: usize = 0;
        while i < self.list.len()
            invariant
                i <= self.list.len(),
                out.len() == i,
                forall|k: int|
                    0 <= k < i ==> out@[k]@ == (ProviderParamView {
                        name: self@[k].name,
                        value: self@[k].value,
                    }),
            decreases self.list.len() - i,
        {
            out.push(
                ProviderParam {
                    name: self.list[i].name.clone(),
                    value: self.list[i].value.clone(),
                },
            );
            i += 1;
        }
        assert(out.deep_view() =~= provider_params(self@));
        out
    }
}

impl Default for CfgParamList {
    fn default() -> (r: Self)
        ensures
            r@ == Seq::<CfgParamView>::empty(),
    {
        let r = CfgParamList { list: Vec::new() };
        assert(r.list.deep_view() =~= Seq::empty());
        r
    }
}

impl Clone for CfgParamList {
    fn clone(&self) -> (r: Self)
        ensures
            r@ == self@,
    {
        let mut out: Vec<CfgParam> = Vec::new();
        let mut i: usize = 0;
        while i < self.list.len()
            invariant
                i <= self.list.len(),
                out.len() == i,
                forall|k: int| 0 <= k < i ==> out@[k]@ == self.list@[k]@,
            decreases self.list.len() - i,
        {
            out.push(self.list[i].clone());
            i += 1;
        }
        assert(out.deep_view() =~= self.list.deep_view());
        CfgParamList { list: out }
    }
}

/// The settings of a configuration entry as a provider takes them: the
/// same names and values in the same order.
pub open spec fn provider_params(params: Seq<CfgParamView>) -> Seq<ProviderParamView> {
    Seq::new(
        params.len(),
        |i: int| ProviderParamView { name: params[i].name, value: params[i].value },
    )
}

/// A record as the configuration declares it.
#[derive(Debug, PartialEq)]
pub struct CfgRecord {
    pub name: String,
    pub content: RecordContent,
    pub comment: Option<String>,
    pub op: RecordOp,
    pub ttl: TTL,
}

/// The mathematical content of a [`CfgRecord`].
pub struct CfgRecordView {
    pub name: Seq<char>,
    pub content: RecordContentView,
    pub comment: Option<Seq<char>>,
    pub op: RecordOp,
    pub ttl: TTL,
}

impl View for CfgRecord {
    type V = CfgRecordView;

    open spec fn view(&self) -> CfgRecordView {
        CfgRecordView {
            name: self.name@,
            content: self.content@,
            comment: self.comment.deep_view(),
            op: self.op,
            ttl: self.ttl,
        }
    }
}

impl DeepView for CfgRecord {
    type V = CfgRecordView;

    open spec fn deep_view(&self) -> CfgRecordView {
        self@
    }
}

/// The record that a declared record becomes under one attachment: its own
/// name, content, comment, operation and lifetime, with the attachment's
/// settings.
pub open spec fn projected(record: CfgRecordView, params: Seq<CfgParamView>) -> ProviderRecordView {
    ProviderRecordView {
        name: record.name,
        content: record.content,
        comment: record.comment,
        op: record.op,
        ttl: record.ttl,
        params: provider_params(params),
    }
}

impl CfgRecord {
    pub fn into_provider_record(self, params: &CfgParamList) -> (r: ProviderRecord)
        ensures
            r@ == projected(self@, params@),
    {
        ProviderRecord {
            name: self.name,
            content: self.content,
            comment: self.comment,
            op: self.op,
            ttl: self.ttl,
            params: params.to_provider_params(),
        }
    }
}

impl Clone for CfgRecord {
    fn clone(&self) -> (r: Self)
        ensures
            r@ == self@,
    {
        CfgRecord {
            name: self.name.clone(),
            content: self.content.clone(),
            comment: clone_optional_text(&self.comment),
            op: self.op,
            ttl: self.ttl,
        }
    }
}

/// A fetcher that a record names.
#[derive(Debug, PartialEq)]
pub struct CfgRecordFetcher {
    pub name: String,
}

/// Where a declared record is to be kept: a provider, zones there, and
/// settings for that provider.
#[derive(Debug, PartialEq)]
pub struct CfgRecordProvider {
    pub name: String,
    pub zones: Vec<ZoneName>,
    pub params: CfgParamList,
}

/// The mathematical content of a [`CfgRecordProvider`].
pub struct CfgRecordProviderView {
    pub name: Seq<char>,
    pub zones: Seq<Seq<char>>,
    pub params: Seq<CfgParamView>,
}

impl View for CfgRecordProvider {
    type V = CfgRecordProviderView;

    open spec fn view(&self) -> CfgRecordProviderView {
        CfgRecordProviderView {
            name: self.name@,
            zones: self.zones.deep_view(),
            params: self.params@,
        }
    }
}

impl DeepView for CfgRecordProvider {
    type V = CfgRecordProviderView;

    open spec fn deep_view(&self) -> CfgRecordProviderView {
        self@
    }
}

/// A declared record with its attachments.
#[derive(Debug, PartialEq)]
pub struct CfgRecordItem {
    pub record: CfgRecord,
    pub providers: Vec<CfgRecordProvider>,
    pub fetchers: Vec<CfgRecordFetcher>,
}

/// The mathematical content of a [`CfgRecordItem`].
pub struct CfgRecordItemView {
    pub record: CfgRecordView,
    pub providers: Seq<CfgRecordProviderView>,
    pub fetchers: Seq<Seq<char>>,
}

/// The names of `fetchers`, in order.
pub open spec fn fetcher_names(fetchers: Seq<CfgRecordFetcher>) -> Seq<Seq<char>> {
    Seq::new(fetchers.len(), |i: int| fetchers[i].name@)
}

impl View for CfgRecordItem {
    type V = CfgRecordItemView;

    open spec fn view(&self) -> CfgRecordItemView {
        CfgRecordItemView {
            record: self.record@,
            providers: self.providers.deep_view(),
            fetchers: fetcher_names(self.fetchers@),
        }
    }
}

impl DeepView for CfgRecordItem {
    type V = CfgRecordItemView;

    open spec fn deep_view(&self) -> CfgRecordItemView {
        self@
    }
}

/// How a provider is to be authenticated with.
#[derive(Debug, PartialEq)]
pub struct CfgProviderAuthentication {
    pub method: String,
    pub params: CfgParamList,
}

/// The mathematical content of a [`CfgProviderAuthentication`].
pub struct CfgProviderAuthenticationView {
    pub method: Seq<char>,
    pub params: Seq<CfgParamView>,
}

impl View for CfgProviderAuthentication {
    type V = CfgProviderAuthenticationView;

    open spec fn view(&self) -> CfgProviderAuthenticationView {
        CfgProviderAuthenticationView { method: self.method@, params: self.params@ }
    }
}

impl Clone for CfgProviderAuthentication {
    fn clone(&self) -> (r: Self)
        ensures
            r@ == self@,
    {
        CfgProviderAuthentication { method: self.method.clone(), params: self.params.clone() }
    }
}

impl CfgProviderAuthentication {
    /// The value of the first parameter named `key`.
    pub fn get_value_ref(&self, key: &str) -> (r: Option<&str>)
        ensures
            r.deep_view() == first_value(self.params@, key@),
    {
        self.params.get_value_ref(key)
    }
}

/// A provider as the configuration declares it.
#[derive(Debug, PartialEq)]
pub struct CfgProvider {
    pub name: String,
    pub kind: String,
    pub authentication: CfgProviderAuthentication,
}

/// The mathematical content of a [`CfgProvider`].
pub struct CfgProviderView {
    pub name: Seq<char>,
    pub kind: Seq<char>,
    pub authentication: CfgProviderAuthenticationView,
}

impl View for CfgProvider {
    type V = CfgProviderView;

    open spec fn view(&self) -> CfgProviderView {
        CfgProviderView {
            name: self.name@,
            kind: self.kind@,
            authentication: self.authentication@,
        }
    }
}

impl DeepView for CfgProvider {
    type V = CfgProviderView;

    open spec fn deep_view(&self) -> CfgProviderView {
        self@
    }
}

/// A fetcher as the configuration declares it.
#[derive(Debug, PartialEq)]
pub struct CfgFetcher {
    pub name: String,
    pub kind: String,
    pub params: CfgParamList,
}

/// The mathematical content of a [`CfgFetcher`].
pub struct CfgFetcherView {
    pub name: Seq<char>,
    pub kind: Seq<char>,
    pub params: Seq<CfgParamView>,
}

impl View for CfgFetcher {
    type V = CfgFetcherView;

    open spec fn view(&self) -> CfgFetcherView {
        CfgFetcherView { name: self.name@, kind: self.kind@, params: self.params@ }
    }
}

impl DeepView for CfgFetcher {
    type V = CfgFetcherView;

    open spec fn deep_view(&self) -> CfgFetcherView {
        self@
    }
}

/// A whole configuration, already checked by whoever loaded it.
#[derive(Debug, PartialEq)]
pub struct Cfg {
    pub check_interval: u64,
    pub fetchers: Vec<CfgFetcher>,
    pub providers: Vec<CfgProvider>,
    pub records: Vec<CfgRecordItem>,
    pub public_ip_fecher: String,
}

/// The mathematical content of a [`Cfg`].
pub struct CfgView {
    pub check_interval: u64,
    pub fetchers: Seq<CfgFetcherView>,
    pub providers: Seq<CfgProviderView>,
    pub records: Seq<CfgRecordItemView>,
    pub public_ip_fecher: Seq<char>,
}

impl View for Cfg {
    type V = CfgView;

    open spec fn view(&self) -> CfgView {
        CfgView {
            check_interval: self.check_interval,
            fetchers: self.fetchers.deep_view(),
            providers: self.providers.deep_view(),
            records: self.records.deep_view(),
            public_ip_fecher: self.public_ip_fecher@,
        }
    }
}

} // verus!
