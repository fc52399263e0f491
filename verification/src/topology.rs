use vstd::prelude::*;
use crate::config::projected;
use crate::config::CfgParamList;
use crate::config::CfgParamView;
use crate::config::CfgRecord;
use crate::config::CfgRecordItem;
use crate::config::CfgRecordItemView;
use crate::config::CfgRecordProvider;
use crate::config::CfgRecordProviderView;
use crate::config::CfgRecordView;
use crate::error::Error;
use crate::provider::types::distinct_zones;
use crate::provider::types::has_zone;
use crate::provider::types::records_of;
use crate::provider::types::zone_at;
use crate::provider::types::with_record;
use crate::provider::types::BackendRecords;
use crate::provider::types::ZoneEntryView;
use crate::record::ProviderRecordView;
use crate::record::ZoneName;

verus! {

/// The records that one provider is to hold.
#[derive(Debug, PartialEq)]
pub struct ProviderBackend {
    pub name: String,
    pub record: BackendRecords,
}

/// The mathematical content of a [`ProviderBackend`].
pub struct ProviderBackendView {
    pub name: Seq<char>,
    pub zones: Seq<ZoneEntryView>,
}

impl View for ProviderBackend {
    type V = ProviderBackendView;

    open spec fn view(&self) -> ProviderBackendView {
        ProviderBackendView { name: self.name@, zones: self.record@ }
    }
}

impl DeepView for ProviderBackend {
    type V = ProviderBackendView;

    open spec fn deep_view(&self) -> ProviderBackendView {
        self@
    }
}

/// Whether `providers` has an entry for `name`.
pub open spec fn has_provider(providers: Seq<ProviderBackendView>, name: Seq<char>) -> bool {
    exists|i: int| 0 <= i < providers.len() && (#[trigger] providers[i]).name == name
}

/// The position of the entry for `name` in `providers`.
pub open spec fn provider_at(providers: Seq<ProviderBackendView>, name: Seq<char>) -> int {
    choose|i: int| 0 <= i < providers.len() && (#[trigger] providers[i]).name == name
}

/// Whether no provider has two entries, and no zone two entries under one
/// provider.
pub open spec fn well_formed(providers: Seq<ProviderBackendView>) -> bool {
    &&& forall|i: int, j: int|
        0 <= i < j < providers.len() ==> (#[trigger] providers[i]).name != (
        #[trigger] providers[j]).name
    &&& forall|i: int| 0 <= i < providers.len() ==> distinct_zones((#[trigger] providers[i]).zones)
}

/// `providers` with an entry for `name`: a new last entry without zones
/// where there was none.
pub open spec fn with_provider(providers: Seq<ProviderBackendView>, name: Seq<char>) -> Seq<
    ProviderBackendView,
> {
    if has_provider(providers, name) {
        providers
    } else {
        providers.push(ProviderBackendView { name, zones: Seq::empty() })
    }
}

/// `providers` with `record` added to `zone` under the provider `name`,
/// which has an entry.
pub open spec fn with_pending(
    providers: Seq<ProviderBackendView>,
    name: Seq<char>,
    zone: Seq<char>,
    record: ProviderRecordView,
) -> Seq<ProviderBackendView> {
    let i = provider_at(providers, name);
    providers.update(
        i,
        ProviderBackendView { name, zones: with_record(providers[i].zones, zone, record) },
    )
}

/// `providers` after one attachment's first `zones` were gone through.
pub open spec fn after_zones(
    providers: Seq<ProviderBackendView>,
    name: Seq<char>,
    record: CfgRecordView,
    params: Seq<CfgParamView>,
    zones: Seq<Seq<char>>,
) -> Seq<ProviderBackendView>
    decreases zones.len(),
{
    if zones.len() == 0 {
        providers
    } else {
        with_pending(
            after_zones(providers, name, record, params, zones.drop_last()),
            name,
            zones.last(),
            projected(record, params),
        )
    }
}

/// `providers` after one attachment of `record`: the provider has an
/// entry, and each zone that the attachment names has one more record.
pub open spec fn after_attachment(
    providers: Seq<ProviderBackendView>,
    record: CfgRecordView,
    attachment: CfgRecordProviderView,
) -> Seq<ProviderBackendView> {
    after_zones(
        with_provider(providers, attachment.name),
        attachment.name,
        record,
        attachment.params,
        attachment.zones,
    )
}

/// `providers` after these attachments of `record`, taken in order.
pub open spec fn after_attachments(
    providers: Seq<ProviderBackendView>,
    record: CfgRecordView,
    attachments: Seq<CfgRecordProviderView>,
) -> Seq<ProviderBackendView>
    decreases attachments.len(),
{
    if attachments.len() == 0 {
        providers
    } else {
        after_attachment(
            after_attachments(providers, record, attachments.drop_last()),
            record,
            attachments.last(),
        )
    }
}

/// `providers` after these declared records, taken in order.
pub open spec fn after_items(
    providers: Seq<ProviderBackendView>,
    items: Seq<CfgRecordItemView>,
) -> Seq<ProviderBackendView>
    decreases items.len(),
{
    if items.len() == 0 {
        providers
    } else {
        after_attachments(
            after_items(providers, items.drop_last()),
            items.last().record,
            items.last().providers,
        )
    }
}

/// The topology that a list of declared records describes.
pub open spec fn topology_of(items: Seq<CfgRecordItemView>) -> Seq<ProviderBackendView> {
    after_items(Seq::empty(), items)
}

/// What each provider is to hold, provider by provider. No provider has
/// two entries, and the providers stand in the order in which they were
/// first named.
#[derive(Debug, PartialEq)]
pub struct ProviderTopology {
    providers: Vec<ProviderBackend>,
}

impl View for ProviderTopology {
    type V = Seq<ProviderBackendView>;

    closed spec fn view(&self) -> Seq<ProviderBackendView> {
        self.providers.deep_view()
    }
}

impl ProviderTopology {
    /// Whether the value is well formed.
    pub open spec fn wf(&self) -> bool {
        well_formed(self@)
    }

    /// No providers.
    pub fn new() -> (r: Self)
        ensures
            r@ == Seq::<ProviderBackendView>::empty(),
            r.wf(),
    {
        let r = ProviderTopology { providers: Vec::new() };
        assert(r.providers.deep_view() =~= Seq::empty());
        r
    }

    /// The number of providers.
    pub fn len(&self) -> (r: usize)
        ensures
            r == self@.len(),
    {
        self.providers.len()
    }

    /// The provider at position `i`.
    pub fn provider(&self, i: usize) -> (r: &ProviderBackend)
        requires
            i < self@.len(),
        ensures
            r@ == self@[i as int],
    {
        &self.providers[i]
    }

    /// The position of the provider `name`, if it has an entry.
    pub fn position(&self, name: &str) -> (r: Option<usize>)
        requires
            self.wf(),
        ensures
            r is Some <==> has_provider(self@, name@),
            r is Some ==> r->0 == provider_at(self@, name@),
    {
        let mut i: usize = 0;
        while i < self.providers.len()
            invariant
                i <= self.providers.len(),
                self.wf(),
                forall|k: int| 0 <= k < i ==> (#[trigger] self@[k]).name != name@,
            decreases self.providers.len() - i,
        {
            if crate::text::str_eq(self.providers[i].name.as_str(), name) {
                assert(self@[i as int].name == name@);
                return Some(i);
            }
            i += 1;
        }
        None
    }

    /// Makes sure that the provider `name` has an entry.
    pub fn ensure_provider(&mut self, name: &str) -> (at: usize)
        requires
            old(self).wf(),
        ensures
            final(self).wf(),
            final(self)@ == with_provider(old(self)@, name@),
            has_provider(final(self)@, name@),
            at == provider_at(final(self)@, name@),
    {
        match self.position(name) {
            Some(i) => i,
            None => {
                let ghost before = self@;
                let i = self.providers.len();
                let entry = ProviderBackend {
                    name: name.to_owned(),
                    record: BackendRecords::new(),
                };
                self.providers.push(entry);
                assert(self@ =~= before.push(
                    ProviderBackendView { name: name@, zones: Seq::empty() },
                ));
                assert(self@[i as int].name == name@);
                i
            },
        }
    }
}

impl Default for ProviderTopology {
    fn default() -> (r: Self)
        ensures
            r@ == Seq::<ProviderBackendView>::empty(),
            r.wf(),
    {
        Self::new()
    }
}

/// Adds to `zone` the record that `record` becomes under an attachment
/// with these settings.
pub fn add_zone_record(
    backend_records: &mut BackendRecords,
    zone: ZoneName,
    record: &CfgRecord,
    params: &CfgParamList,
)
    requires
        old(backend_records).wf(),
    ensures
        final(backend_records).wf(),
        final(backend_records)@ == with_record(
            old(backend_records)@,
            zone@,
            projected(record@, params@),
        ),
{
    let provider_record = record.clone().into_provider_record(params);
    backend_records.add_record(zone, provider_record);
}

/// Adds one attachment of `record` to the topology.
pub fn process_provider(
    records_map: &mut ProviderTopology,
    record: &CfgRecord,
    provider: CfgRecordProvider,
)
    requires
        old(records_map).wf(),
    ensures
        final(records_map).wf(),
        final(records_map)@ == after_attachment(old(records_map)@, record@, provider@),
{
    let at = records_map.ensure_provider(provider.name.as_str());
    let ghost start = records_map@;
    let ghost name = provider.name@;
    let ghost zones = provider.zones.deep_view();
    let mut i: usize = 0;
    while i < provider.zones.len()
        invariant
            i <= provider.zones.len(),
            records_map.wf(),
            zones == provider.zones.deep_view(),
            name == provider.name@,
            at < records_map@.len(),
            records_map@.len() == start.len(),
            has_provider(records_map@, name),
            at == provider_at(records_map@, name),
            records_map@ == after_zones(start, name, record@, provider.params@, zones.take(i as int)),
        decreases provider.zones.len() - i,
    {
        let ghost before = records_map@;
        let zone = provider.zones[i].clone();
        add_zone_record(&mut records_map.providers[at].record, zone, record, &provider.params);
        proof {
            assert(zones.take(i + 1).drop_last() =~= zones.take(i as int));
            assert(zones.take(i + 1).last() == zone@);
            let after = with_pending(before, name, zone@, projected(record@, provider.params@));
            assert(records_map@ =~= after);
            assert(records_map@[at as int].name == name);
        }
        i += 1;
    }
    assert(zones.take(i as int) =~= zones);
}

/// Adds every attachment of one declared record to the topology.
pub fn process_record_item(records_map: &mut ProviderTopology, item: CfgRecordItem)
    requires
        old(records_map).wf(),
    ensures
        final(records_map).wf(),
        final(records_map)@ == after_attachments(old(records_map)@, item@.record, item@.providers),
{
    let ghost start = records_map@;
    let ghost attachments = item.providers.deep_view();
    let ghost elements = item.providers@;
    let CfgRecordItem { record, providers, fetchers: _ } = item;
    for provider in it: providers
        invariant
            records_map.wf(),
            it.seq() == elements,
            attachments == Seq::new(elements.len(), |k: int| elements[k]@),
            records_map@ == after_attachments(start, record@, attachments.take(it.index())),
    {
        proof {
            assert(attachments.take(it.index() + 1).drop_last() =~= attachments.take(it.index()));
            assert(attachments.take(it.index() + 1).last() == provider@);
        }
        process_provider(records_map, &record, provider);
    }
    assert(attachments.take(attachments.len() as int) =~= attachments);
}

/// Groups the declared records by provider and zone.
pub fn to_provider_backends(cfg_records: Vec<CfgRecordItem>) -> (r: Result<ProviderTopology, Error>)
    ensures
        r is Ok,
        r->Ok_0.wf(),
        r->Ok_0@ == topology_of(cfg_records.deep_view()),
{
    let mut ret = ProviderTopology::new();
    let ghost elements = cfg_records@;
    let ghost items = cfg_records.deep_view();
    for item in it: cfg_records
        invariant
            ret.wf(),
            it.seq() == elements,
            items == Seq::new(elements.len(), |k: int| elements[k]@),
            ret@ == after_items(Seq::empty(), items.take(it.index())),
    {
        proof {
            assert(items.take(it.index() + 1).drop_last() =~= items.take(it.index()));
            assert(items.take(it.index() + 1).last() == item@);
        }
        process_record_item(&mut ret, item);
    }
    assert(items.take(items.len() as int) =~= items);
    Ok(ret)
}

/// One record that is to stand in one zone under one provider.
pub struct Pending {
    pub provider: Seq<char>,
    pub zone: Seq<char>,
    pub record: ProviderRecordView,
}

/// What one attachment of `record` asks for: one record for each zone that
/// the attachment names.
pub open spec fn attachment_pendings(
    record: CfgRecordView,
    attachment: CfgRecordProviderView,
) -> Seq<Pending> {
    Seq::new(
        attachment.zones.len(),
        |i: int|
            Pending {
                provider: attachment.name,
                zone: attachment.zones[i],
                record: projected(record, attachment.params),
            },
    )
}

/// What these attachments of `record` ask for, in order.
pub open spec fn record_pendings(
    record: CfgRecordView,
    attachments: Seq<CfgRecordProviderView>,
) -> Seq<Pending>
    decreases attachments.len(),
{
    if attachments.len() == 0 {
        Seq::empty()
    } else {
        record_pendings(record, attachments.drop_last()) + attachment_pendings(
            record,
            attachments.last(),
        )
    }
}

/// What a list of declared records asks for: one entry for every record,
/// attachment and zone, in the order of the configuration.
pub open spec fn all_pendings(items: Seq<CfgRecordItemView>) -> Seq<Pending>
    decreases items.len(),
{
    if items.len() == 0 {
        Seq::empty()
    } else {
        all_pendings(items.drop_last()) + record_pendings(items.last().record, items.last().providers)
    }
}

/// The records among `pendings` that are meant for `zone` under `provider`.
pub open spec fn selected(pendings: Seq<Pending>, provider: Seq<char>, zone: Seq<char>) -> Seq<
    ProviderRecordView,
> {
    pendings.filter(|p: Pending| p.provider == provider && p.zone == zone).map_values(
        |p: Pending| p.record,
    )
}

/// The records that `providers` holds for `zone` under `provider`: none
/// where either has no entry.
pub open spec fn pending_in(
    providers: Seq<ProviderBackendView>,
    provider: Seq<char>,
    zone: Seq<char>,
) -> Seq<ProviderRecordView> {
    if has_provider(providers, provider) {
        records_of(providers[provider_at(providers, provider)].zones, zone)
    } else {
        Seq::empty()
    }
}

/// The one record that `pending` adds for `zone` under `provider`, if it
/// is meant for them.
pub open spec fn contribution(pending: Pending, provider: Seq<char>, zone: Seq<char>) -> Seq<
    ProviderRecordView,
> {
    if pending.provider == provider && pending.zone == zone {
        seq![pending.record]
    } else {
        Seq::empty()
    }
}

/// Selecting from two lists one after the other is selecting from each.
pub proof fn lemma_selected_add(a: Seq<Pending>, b: Seq<Pending>, provider: Seq<char>, zone: Seq<char>)
    ensures
        selected(a + b, provider, zone) == selected(a, provider, zone) + selected(b, provider, zone),
{
    let pred = |p: Pending| p.provider == provider && p.zone == zone;
    Seq::filter_distributes_over_add(a, b, pred);
    assert(selected(a + b, provider, zone) =~= selected(a, provider, zone) + selected(
        b,
        provider,
        zone,
    ));
}

/// Selecting from a list with one more entry adds that entry's contribution.
pub proof fn lemma_selected_push(a: Seq<Pending>, p: Pending, provider: Seq<char>, zone: Seq<char>)
    ensures
        selected(a.push(p), provider, zone) == selected(a, provider, zone) + contribution(
            p,
            provider,
            zone,
        ),
{
    let pred = |p: Pending| p.provider == provider && p.zone == zone;
    assert(a.push(p) =~= a + seq![p]);
    lemma_selected_add(a, seq![p], provider, zone);
    reveal(Seq::filter);
    assert(seq![p].drop_last() =~= Seq::<Pending>::empty());
    assert(Seq::<Pending>::empty().filter(pred) =~= Seq::<Pending>::empty());
    assert(selected(seq![p], provider, zone) =~= contribution(p, provider, zone));
}

/// Adding a record to a zone table changes what that zone holds, and
/// nothing else.
pub proof fn lemma_with_record(
    zones: Seq<ZoneEntryView>,
    name: Seq<char>,
    record: ProviderRecordView,
    other: Seq<char>,
)
    requires
        distinct_zones(zones),
    ensures
        distinct_zones(with_record(zones, name, record)),
        has_zone(with_record(zones, name, record), other) <==> has_zone(zones, other) || other
            == name,
        records_of(with_record(zones, name, record), other) == if other == name {
            records_of(zones, other).push(record)
        } else {
            records_of(zones, other)
        },
{
    let w = with_record(zones, name, record);
    if has_zone(zones, name) {
        let i = zone_at(zones, name);
        assert(w.len() == zones.len());
        assert forall|k: int| 0 <= k < w.len() implies (#[trigger] w[k]).name == zones[k].name by {}
        assert(distinct_zones(w)) by {
            assert forall|a: int, b: int| 0 <= a < b < w.len() implies (#[trigger] w[a]).name != (
            #[trigger] w[b]).name by {
                assert(zones[a].name != zones[b].name);
            }
        }
        if has_zone(zones, other) {
            let j = zone_at(zones, other);
            assert(w[j].name == other);
            assert(has_zone(w, other));
            let j2 = zone_at(w, other);
            assert(zones[j2].name == other);
            assert(j2 == j) by {
                if j2 < j {
                    assert(zones[j2].name != zones[j].name);
                } else if j < j2 {
                    assert(zones[j].name != zones[j2].name);
                }
            }
            if other == name {
                assert(i == j);
            } else {
                assert(i != j);
            }
        } else {
            if has_zone(w, other) {
                let j2 = zone_at(w, other);
                assert(zones[j2].name == other);
                assert(false);
            }
        }
    } else {
        let n = zones.len() as int;
        assert(w.len() == n + 1);
        assert(w[n].name == name);
        assert forall|k: int| 0 <= k < n implies (#[trigger] w[k]) == zones[k] by {}
        assert(distinct_zones(w)) by {
            assert forall|a: int, b: int| 0 <= a < b < w.len() implies (#[trigger] w[a]).name != (
            #[trigger] w[b]).name by {
                if b < n {
                    assert(zones[a].name != zones[b].name);
                } else {
                    assert(zones[a].name != name);
                }
            }
        }
        if other == name {
            assert(has_zone(w, other));
            let j2 = zone_at(w, other);
            if j2 < n {
                assert(zones[j2].name == name);
                assert(false);
            }
            assert(records_of(w, other) =~= records_of(zones, other).push(record));
        } else if has_zone(zones, other) {
            let j = zone_at(zones, other);
            assert(w[j].name == other);
            assert(has_zone(w, other));
            let j2 = zone_at(w, other);
            assert(j2 < n);
            assert(zones[j2].name == other);
            assert(j2 == j) by {
                if j2 < j {
                    assert(zones[j2].name != zones[j].name);
                } else if j < j2 {
                    assert(zones[j].name != zones[j2].name);
                }
            }
        } else {
            if has_zone(w, other) {
                let j2 = zone_at(w, other);
                assert(j2 < n);
                assert(zones[j2].name == other);
                assert(false);
            }
        }
    }
}

/// In a well-formed list the entry for a provider is the only one with
/// its name.
pub proof fn lemma_provider_at(providers: Seq<ProviderBackendView>, name: Seq<char>, at: int)
    requires
        well_formed(providers),
        0 <= at < providers.len(),
        providers[at].name == name,
    ensures
        has_provider(providers, name),
        provider_at(providers, name) == at,
{
    let j = provider_at(providers, name);
    if j < at {
        assert(providers[j].name != providers[at].name);
    } else if at < j {
        assert(providers[at].name != providers[j].name);
    }
}

/// Giving a provider an entry changes no zone's records.
pub proof fn lemma_with_provider(
    providers: Seq<ProviderBackendView>,
    name: Seq<char>,
    other: Seq<char>,
    zone: Seq<char>,
)
    requires
        well_formed(providers),
    ensures
        well_formed(with_provider(providers, name)),
        has_provider(with_provider(providers, name), name),
        has_provider(with_provider(providers, name), other) <==> has_provider(providers, other)
            || other == name,
        pending_in(with_provider(providers, name), other, zone) == pending_in(
            providers,
            other,
            zone,
        ),
{
    let w = with_provider(providers, name);
    if !has_provider(providers, name) {
        let n = providers.len() as int;
        assert(w[n].name == name);
        assert forall|k: int| 0 <= k < n implies (#[trigger] w[k]) == providers[k] by {}
        assert(well_formed(w)) by {
            assert forall|a: int, b: int| 0 <= a < b < w.len() implies (#[trigger] w[a]).name != (
            #[trigger] w[b]).name by {
                if b < n {
                    assert(providers[a].name != providers[b].name);
                } else {
                    assert(providers[a].name != name);
                }
            }
            assert forall|a: int| 0 <= a < w.len() implies distinct_zones(
                (#[trigger] w[a]).zones,
            ) by {
                if a < n {
                    assert(distinct_zones(providers[a].zones));
                }
            }
        }
        lemma_provider_at(w, name, n);
        if other == name {
            assert(!has_zone(w[n].zones, zone));
        } else if has_provider(providers, other) {
            let j = provider_at(providers, other);
            lemma_provider_at(w, other, j);
        } else {
            if has_provider(w, other) {
                let j = provider_at(w, other);
                assert(providers[j].name == other);
                assert(false);
            }
        }
    }
}

/// Adding a record for a zone under a provider changes what that zone
/// holds there, and nothing else.
pub proof fn lemma_with_pending(
    providers: Seq<ProviderBackendView>,
    name: Seq<char>,
    zone: Seq<char>,
    record: ProviderRecordView,
    other: Seq<char>,
    other_zone: Seq<char>,
)
    requires
        well_formed(providers),
        has_provider(providers, name),
    ensures
        well_formed(with_pending(providers, name, zone, record)),
        has_provider(with_pending(providers, name, zone, record), other) <==> has_provider(
            providers,
            other,
        ),
        pending_in(with_pending(providers, name, zone, record), other, other_zone) == pending_in(
            providers,
            other,
            other_zone,
        ) + contribution(Pending { provider: name, zone, record }, other, other_zone),
{
    let w = with_pending(providers, name, zone, record);
    let i = provider_at(providers, name);
    lemma_with_record(providers[i].zones, zone, record, other_zone);
    assert forall|k: int| 0 <= k < w.len() implies (#[trigger] w[k]).name == providers[k].name by {}
    assert(well_formed(w)) by {
        assert forall|a: int, b: int| 0 <= a < b < w.len() implies (#[trigger] w[a]).name != (
        #[trigger] w[b]).name by {
            assert(providers[a].name != providers[b].name);
        }
        assert forall|a: int| 0 <= a < w.len() implies distinct_zones((#[trigger] w[a]).zones) by {
            assert(distinct_zones(providers[a].zones));
        }
    }
    if has_provider(providers, other) {
        let j = provider_at(providers, other);
        lemma_provider_at(w, other, j);
        if other == name {
            assert(i == j);
            assert(pending_in(w, other, other_zone) =~= pending_in(providers, other, other_zone)
                + contribution(Pending { provider: name, zone, record }, other, other_zone));
        } else {
            assert(w[j] == providers[j]);
            assert(pending_in(w, other, other_zone) =~= pending_in(providers, other, other_zone)
                + contribution(Pending { provider: name, zone, record }, other, other_zone));
        }
    } else {
        if has_provider(w, other) {
            let j = provider_at(w, other);
            assert(providers[j].name == other);
            assert(false);
        }
        assert(pending_in(w, other, other_zone) =~= pending_in(providers, other, other_zone)
            + contribution(Pending { provider: name, zone, record }, other, other_zone));
    }
}

/// What going through the zones of one attachment adds.
pub proof fn lemma_after_zones(
    providers: Seq<ProviderBackendView>,
    record: CfgRecordView,
    attachment: CfgRecordProviderView,
    count: int,
    other: Seq<char>,
    zone: Seq<char>,
)
    requires
        well_formed(providers),
        has_provider(providers, attachment.name),
        0 <= count <= attachment.zones.len(),
    ensures
        well_formed(
            after_zones(
                providers,
                attachment.name,
                record,
                attachment.params,
                attachment.zones.take(count),
            ),
        ),
        has_provider(
            after_zones(
                providers,
                attachment.name,
                record,
                attachment.params,
                attachment.zones.take(count),
            ),
            other,
        ) <==> has_provider(providers, other),
        pending_in(
            after_zones(
                providers,
                attachment.name,
                record,
                attachment.params,
                attachment.zones.take(count),
            ),
            other,
            zone,
        ) == pending_in(providers, other, zone) + selected(
            attachment_pendings(record, attachment).take(count),
            other,
            zone,
        ),
    decreases count,
{
    let name = attachment.name;
    let zones = attachment.zones;
    let all = attachment_pendings(record, attachment);
    if count == 0 {
        assert(zones.take(0) =~= Seq::empty());
        assert(all.take(0) =~= Seq::empty());
        reveal(Seq::filter);
        assert(selected(Seq::empty(), other, zone) =~= Seq::empty());
        assert(pending_in(providers, other, zone) + Seq::empty() =~= pending_in(
            providers,
            other,
            zone,
        ));
    } else {
        lemma_after_zones(providers, record, attachment, count - 1, other, zone);
        lemma_after_zones(providers, record, attachment, count - 1, name, zone);
        let before = after_zones(providers, name, record, attachment.params, zones.take(count - 1));
        assert(zones.take(count).drop_last() =~= zones.take(count - 1));
        assert(zones.take(count).last() == zones[count - 1]);
        let added = Pending {
            provider: name,
            zone: zones[count - 1],
            record: projected(record, attachment.params),
        };
        lemma_with_pending(before, name, zones[count - 1], added.record, other, zone);
        assert(all.take(count) =~= all.take(count - 1).push(added));
        lemma_selected_push(all.take(count - 1), added, other, zone);
        assert(pending_in(providers, other, zone) + selected(all.take(count), other, zone)
            =~= pending_in(providers, other, zone) + selected(all.take(count - 1), other, zone)
            + contribution(added, other, zone));
    }
}

/// Whether one of `attachments` names the provider `name`.
pub open spec fn attaches_to(attachments: Seq<CfgRecordProviderView>, name: Seq<char>) -> bool {
    exists|j: int| 0 <= j < attachments.len() && (#[trigger] attachments[j]).name == name
}

/// Whether one of `items` has an attachment that names the provider `name`.
pub open spec fn refers_to(items: Seq<CfgRecordItemView>, name: Seq<char>) -> bool {
    exists|i: int| 0 <= i < items.len() && attaches_to((#[trigger] items[i]).providers, name)
}

/// What one attachment adds to a topology.
pub proof fn lemma_after_attachment(
    providers: Seq<ProviderBackendView>,
    record: CfgRecordView,
    attachment: CfgRecordProviderView,
    other: Seq<char>,
    zone: Seq<char>,
)
    requires
        well_formed(providers),
    ensures
        well_formed(after_attachment(providers, record, attachment)),
        has_provider(after_attachment(providers, record, attachment), other) <==> has_provider(
            providers,
            other,
        ) || other == attachment.name,
        pending_in(after_attachment(providers, record, attachment), other, zone) == pending_in(
            providers,
            other,
            zone,
        ) + selected(attachment_pendings(record, attachment), other, zone),
{
    lemma_with_provider(providers, attachment.name, other, zone);
    let start = with_provider(providers, attachment.name);
    let n = attachment.zones.len() as int;
    lemma_after_zones(start, record, attachment, n, other, zone);
    assert(attachment.zones.take(n) =~= attachment.zones);
    assert(attachment_pendings(record, attachment).take(n) =~= attachment_pendings(
        record,
        attachment,
    ));
}

/// What the attachments of one record add to a topology.
pub proof fn lemma_after_attachments(
    providers: Seq<ProviderBackendView>,
    record: CfgRecordView,
    attachments: Seq<CfgRecordProviderView>,
    other: Seq<char>,
    zone: Seq<char>,
)
    requires
        well_formed(providers),
    ensures
        well_formed(after_attachments(providers, record, attachments)),
        has_provider(after_attachments(providers, record, attachments), other) <==> has_provider(
            providers,
            other,
        ) || attaches_to(attachments, other),
        pending_in(after_attachments(providers, record, attachments), other, zone) == pending_in(
            providers,
            other,
            zone,
        ) + selected(record_pendings(record, attachments), other, zone),
    decreases attachments.len(),
{
    if attachments.len() == 0 {
        reveal(Seq::filter);
        assert(selected(Seq::empty(), other, zone) =~= Seq::empty());
        assert(pending_in(providers, other, zone) + Seq::empty() =~= pending_in(
            providers,
            other,
            zone,
        ));
    } else {
        let front = attachments.drop_last();
        let last = attachments.last();
        lemma_after_attachments(providers, record, front, other, zone);
        let before = after_attachments(providers, record, front);
        lemma_after_attachment(before, record, last, other, zone);
        lemma_selected_add(
            record_pendings(record, front),
            attachment_pendings(record, last),
            other,
            zone,
        );
        assert(pending_in(providers, other, zone) + selected(
            record_pendings(record, attachments),
            other,
            zone,
        ) =~= pending_in(providers, other, zone) + selected(
            record_pendings(record, front),
            other,
            zone,
        ) + selected(attachment_pendings(record, last), other, zone));
        if attaches_to(front, other) {
            let j = choose|j: int| 0 <= j < front.len() && (#[trigger] front[j]).name == other;
            assert(attachments[j].name == other);
        }
        if other == last.name {
            assert(attachments[attachments.len() - 1].name == other);
        }
        if attaches_to(attachments, other) {
            let j = choose|j: int|
                0 <= j < attachments.len() && (#[trigger] attachments[j]).name == other;
            if j < front.len() {
                assert(front[j].name == other);
            }
        }
    }
}

/// What a list of declared records adds to a topology.
pub proof fn lemma_after_items(
    providers: Seq<ProviderBackendView>,
    items: Seq<CfgRecordItemView>,
    other: Seq<char>,
    zone: Seq<char>,
)
    requires
        well_formed(providers),
    ensures
        well_formed(after_items(providers, items)),
        has_provider(after_items(providers, items), other) <==> has_provider(providers, other)
            || refers_to(items, other),
        pending_in(after_items(providers, items), other, zone) == pending_in(
            providers,
            other,
            zone,
        ) + selected(all_pendings(items), other, zone),
    decreases items.len(),
{
    if items.len() == 0 {
        reveal(Seq::filter);
        assert(selected(Seq::empty(), other, zone) =~= Seq::empty());
        assert(pending_in(providers, other, zone) + Seq::empty() =~= pending_in(
            providers,
            other,
            zone,
        ));
    } else {
        let front = items.drop_last();
        let last = items.last();
        lemma_after_items(providers, front, other, zone);
        let before = after_items(providers, front);
        lemma_after_attachments(before, last.record, last.providers, other, zone);
        lemma_selected_add(
            all_pendings(front),
            record_pendings(last.record, last.providers),
            other,
            zone,
        );
        assert(pending_in(providers, other, zone) + selected(all_pendings(items), other, zone)
            =~= pending_in(providers, other, zone) + selected(all_pendings(front), other, zone)
            + selected(record_pendings(last.record, last.providers), other, zone));
        if refers_to(front, other) {
            let i = choose|i: int|
                0 <= i < front.len() && attaches_to((#[trigger] front[i]).providers, other);
            assert(attaches_to(items[i].providers, other));
        }
        if attaches_to(last.providers, other) {
            assert(attaches_to(items[items.len() - 1].providers, other));
        }
        if refers_to(items, other) {
            let i = choose|i: int|
                0 <= i < items.len() && attaches_to((#[trigger] items[i]).providers, other);
            if i < front.len() {
                assert(attaches_to(front[i].providers, other));
            }
        }
    }
}

/// The topology of a configuration holds, for every provider and zone,
/// exactly the records that the configuration attaches to them, in the
/// order of the configuration: records that name the same provider and
/// zone are appended, none replaces another. A provider has an entry if
/// and only if some record names it.
pub proof fn lemma_topology_holds_what_is_attached(
    items: Seq<CfgRecordItemView>,
    provider: Seq<char>,
    zone: Seq<char>,
)
    ensures
        well_formed(topology_of(items)),
        has_provider(topology_of(items), provider) <==> refers_to(items, provider),
        pending_in(topology_of(items), provider, zone) == selected(
            all_pendings(items),
            provider,
            zone,
        ),
{
    let none = Seq::<ProviderBackendView>::empty();
    assert(well_formed(none));
    lemma_after_items(none, items, provider, zone);
    assert(!has_provider(none, provider));
    assert(pending_in(none, provider, zone) + selected(all_pendings(items), provider, zone)
        =~= selected(all_pendings(items), provider, zone));
}

/// The names of `providers`, in order.
pub open spec fn provider_names(providers: Seq<ProviderBackendView>) -> Seq<Seq<char>> {
    Seq::new(providers.len(), |i: int| providers[i].name)
}

/// Going through the zones of an attachment adds no provider and moves
/// none.
pub proof fn lemma_after_zones_keeps_names(
    providers: Seq<ProviderBackendView>,
    name: Seq<char>,
    record: CfgRecordView,
    params: Seq<CfgParamView>,
    zones: Seq<Seq<char>>,
)
    requires
        has_provider(providers, name),
    ensures
        provider_names(after_zones(providers, name, record, params, zones)) == provider_names(
            providers,
        ),
        has_provider(after_zones(providers, name, record, params, zones), name),
    decreases zones.len(),
{
    if zones.len() > 0 {
        lemma_after_zones_keeps_names(providers, name, record, params, zones.drop_last());
        let before = after_zones(providers, name, record, params, zones.drop_last());
        let after = after_zones(providers, name, record, params, zones);
        let i = provider_at(before, name);
        assert(after[i].name == name);
        assert(provider_names(after) =~= provider_names(before));
    }
}

/// The providers of a topology stand in the order in which the
/// configuration first names them: what more records add comes after what
/// is there, and nothing that is there moves or goes.
pub proof fn lemma_topology_keeps_first_mention_order(
    providers: Seq<ProviderBackendView>,
    items: Seq<CfgRecordItemView>,
    count: int,
)
    requires
        0 <= count <= items.len(),
    ensures
        provider_names(after_items(providers, items.take(count))).is_prefix_of(
            provider_names(after_items(providers, items)),
        ),
    decreases items.len() - count,
{
    if count < items.len() {
        lemma_topology_keeps_first_mention_order(providers, items, count + 1);
        let shorter = items.take(count);
        let longer = items.take(count + 1);
        assert(longer.drop_last() =~= shorter);
        assert(longer.last() == items[count]);
        lemma_attachments_keep_order(
            after_items(providers, shorter),
            items[count].record,
            items[count].providers,
        );
        let a = provider_names(after_items(providers, shorter));
        let b = provider_names(after_items(providers, longer));
        let c = provider_names(after_items(providers, items));
        assert(a =~= c.subrange(0, a.len() as int)) by {
            assert(b == c.subrange(0, b.len() as int));
            assert(a == b.subrange(0, a.len() as int));
        }
    } else {
        assert(items.take(count) =~= items);
    }
}

/// The attachments of one record add providers after those that are
/// there.
pub proof fn lemma_attachments_keep_order(
    providers: Seq<ProviderBackendView>,
    record: CfgRecordView,
    attachments: Seq<CfgRecordProviderView>,
)
    ensures
        provider_names(providers).is_prefix_of(
            provider_names(after_attachments(providers, record, attachments)),
        ),
    decreases attachments.len(),
{
    if attachments.len() > 0 {
        let front = attachments.drop_last();
        let last = attachments.last();
        lemma_attachments_keep_order(providers, record, front);
        let before = after_attachments(providers, record, front);
        let started = with_provider(before, last.name);
        assert(has_provider(started, last.name)) by {
            if !has_provider(before, last.name) {
                assert(started[before.len() as int].name == last.name);
            }
        }
        lemma_after_zones_keeps_names(started, last.name, record, last.params, last.zones);
        let a = provider_names(providers);
        let b = provider_names(before);
        let c = provider_names(started);
        assert(b =~= c.subrange(0, b.len() as int));
        assert(a =~= c.subrange(0, a.len() as int)) by {
            assert(a == b.subrange(0, a.len() as int));
        }
    } else {
        let a = provider_names(providers);
        assert(a =~= a.subrange(0, a.len() as int));
    }
}

} // verus!
