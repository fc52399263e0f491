use vstd::prelude::*;
use vstd::string::StringExecFns;
use crate::error::Error;
use crate::error::unexpected_event;
use crate::error::unexpected_event_message;
use crate::error::ErrorView;
use crate::provider::cloudflare::batch_url;
use crate::provider::cloudflare::identifiers;
use crate::provider::cloudflare::prepare_zone;
use crate::provider::cloudflare::prepared;
use crate::provider::cloudflare::record_body;
use crate::provider::cloudflare::prepared_all;
use crate::provider::cloudflare::purge_batch;
use crate::provider::cloudflare::purge_batch_of;
use crate::provider::cloudflare::records_by_name_url;
use crate::provider::cloudflare::reply::ApiReply;
use crate::provider::cloudflare::zone_list_url;
use crate::provider::cloudflare::BatchRecord;
use crate::provider::cloudflare::BatchRecordView;
use crate::provider::cloudflare::CfRecord;
use crate::provider::cloudflare::CfRecordView;
use crate::provider::cloudflare::CfZone;
use crate::provider::cloudflare::CfZoneView;
use crate::provider::types::BackendRecords;
use crate::provider::types::ZoneEntryView;
use crate::record::ProviderRecord;
use crate::record::ProviderRecordView;
use crate::record::PublicIp;
use crate::record::ZoneName;

verus! {

/// What the driver of a synchronisation is asked to do next.
#[derive(Debug, PartialEq)]
pub enum SyncAction {
    /// Get `url`, which lists the zones of one name, and report the reply
    /// as [`SyncEvent::Zones`].
    ListZones { url: String },
    /// Get `url`, which lists the records of one name, and report the
    /// reply as [`SyncEvent::Records`].
    ListRecords { url: String },
    /// Post `batch` to `url` and report the reply as [`SyncEvent::Batch`].
    SubmitBatch { url: String, batch: BatchRecord },
    /// Nothing more: the synchronisation ended with this result.
    Done(Result<(), Error>),
}

/// The mathematical content of a [`SyncAction`].
pub enum SyncActionView {
    ListZones { url: Seq<char> },
    ListRecords { url: Seq<char> },
    SubmitBatch { url: Seq<char>, batch: BatchRecordView },
    Done(Result<(), ErrorView>),
}

impl View for SyncAction {
    type V = SyncActionView;

    open spec fn view(&self) -> SyncActionView {
        match self {
            SyncAction::ListZones { url } => SyncActionView::ListZones { url: url@ },
            SyncAction::ListRecords { url } => SyncActionView::ListRecords { url: url@ },
            SyncAction::SubmitBatch { url, batch } => SyncActionView::SubmitBatch {
                url: url@,
                batch: batch@,
            },
            SyncAction::Done(Ok(_)) => SyncActionView::Done(Ok(())),
            SyncAction::Done(Err(e)) => SyncActionView::Done(Err(e@)),
        }
    }
}

/// What the driver reports back after an action.
#[derive(Debug, PartialEq)]
pub enum SyncEvent {
    /// The reply to [`SyncAction::ListZones`].
    Zones(ApiReply<Vec<CfZone>>),
    /// The reply to [`SyncAction::ListRecords`].
    Records(ApiReply<Vec<CfRecord>>),
    /// The reply to [`SyncAction::SubmitBatch`].
    Batch(ApiReply<()>),
}

/// The mathematical content of a [`SyncEvent`]: what the reply yields.
pub enum SyncEventView {
    Zones(Result<Seq<CfZoneView>, ErrorView>),
    Records(Result<Seq<CfRecordView>, ErrorView>),
    Batch(Result<(), ErrorView>),
}

impl View for SyncEvent {
    type V = SyncEventView;

    open spec fn view(&self) -> SyncEventView {
        match self {
            SyncEvent::Zones(reply) => SyncEventView::Zones(
                match reply.outcome() {
                    Ok(zones) => Ok(zones.deep_view()),
                    Err(e) => Err(e),
                },
            ),
            SyncEvent::Records(reply) => SyncEventView::Records(
                match reply.outcome() {
                    Ok(records) => Ok(records.deep_view()),
                    Err(e) => Err(e),
                },
            ),
            SyncEvent::Batch(reply) => SyncEventView::Batch(reply.batch_outcome()),
        }
    }
}

/// What a synchronisation is waiting for.
#[derive(Debug, PartialEq)]
pub enum SyncStage {
    /// The zones that carry the current zone's name.
    Resolving,
    /// The records that the provider holds under the name of the record at
    /// `index` of `prepared`.
    Listing { zone: CfZone, prepared: Vec<ProviderRecord>, index: usize },
    /// The provider's verdict on the batch for the record at `index`.
    Submitting { zone: CfZone, prepared: Vec<ProviderRecord>, index: usize },
    /// Nothing: the synchronisation is over.
    Finished,
}

/// The mathematical content of a [`SyncStage`].
pub enum SyncStageView {
    Resolving,
    Listing { zone: CfZoneView, prepared: Seq<ProviderRecordView>, index: int },
    Submitting { zone: CfZoneView, prepared: Seq<ProviderRecordView>, index: int },
    Finished,
}

impl View for SyncStage {
    type V = SyncStageView;

    open spec fn view(&self) -> SyncStageView {
        match self {
            SyncStage::Resolving => SyncStageView::Resolving,
            SyncStage::Listing { zone, prepared, index } => SyncStageView::Listing {
                zone: zone@,
                prepared: prepared.deep_view(),
                index: *index as int,
            },
            SyncStage::Submitting { zone, prepared, index } => SyncStageView::Submitting {
                zone: zone@,
                prepared: prepared.deep_view(),
                index: *index as int,
            },
            SyncStage::Finished => SyncStageView::Finished,
        }
    }
}

/// The progress of one provider's synchronisation.
#[derive(Debug, PartialEq)]
pub struct SyncState {
    zones: BackendRecords,
    public_ip: PublicIp,
    zone_index: usize,
    stage: SyncStage,
    skipped: Vec<ZoneName>,
}

/// The mathematical content of a [`SyncState`].
pub struct SyncStateView {
    /// The zones to synchronise, with their records.
    pub zones: Seq<ZoneEntryView>,
    /// The public addresses that unassigned records are filled from.
    pub public_ip: PublicIp,
    /// The position of the zone that is being worked on.
    pub zone_index: int,
    /// What is being waited for.
    pub stage: SyncStageView,
    /// The zones that the provider does not know, in the order met.
    pub skipped: Seq<Seq<char>>,
}

impl View for SyncState {
    type V = SyncStateView;

    closed spec fn view(&self) -> SyncStateView {
        SyncStateView {
            zones: self.zones@,
            public_ip: self.public_ip,
            zone_index: self.zone_index as int,
            stage: self.stage@,
            skipped: self.skipped.deep_view(),
        }
    }
}

impl SyncStateView {
    /// Whether the positions in the state point at something.
    pub open spec fn well_formed(self) -> bool {
        match self.stage {
            SyncStageView::Resolving => 0 <= self.zone_index < self.zones.len(),
            SyncStageView::Listing { prepared, index, .. } => 0 <= self.zone_index
                < self.zones.len() && 0 <= index < prepared.len(),
            SyncStageView::Submitting { prepared, index, .. } => 0 <= self.zone_index
                < self.zones.len() && 0 <= index < prepared.len(),
            SyncStageView::Finished => true,
        }
    }

    /// The state once the synchronisation is over.
    pub open spec fn finished(self) -> SyncStateView {
        SyncStateView { stage: SyncStageView::Finished, ..self }
    }

    /// Turning to the zone at `index`: its name is looked up, or, past the
    /// last zone, the synchronisation has succeeded.
    pub open spec fn resolve_from(self, index: int) -> (SyncStateView, SyncActionView) {
        if 0 <= index < self.zones.len() {
            (
                SyncStateView { zone_index: index, stage: SyncStageView::Resolving, ..self },
                SyncActionView::ListZones { url: zone_list_url(self.zones[index].name) },
            )
        } else {
            (self.finished(), SyncActionView::Done(Ok(())))
        }
    }

    /// Turning to the record at `index` of a resolved zone: the records
    /// under its name are listed, or, past the last record, the next zone
    /// is turned to.
    pub open spec fn list_from(
        self,
        zone: CfZoneView,
        prepared: Seq<ProviderRecordView>,
        index: int,
    ) -> (SyncStateView, SyncActionView) {
        if 0 <= index < prepared.len() {
            (
                SyncStateView { stage: SyncStageView::Listing { zone, prepared, index }, ..self },
                SyncActionView::ListRecords {
                    url: records_by_name_url(zone.id, prepared[index].name),
                },
            )
        } else {
            self.resolve_from(self.zone_index + 1)
        }
    }

    /// The end of the synchronisation with an error.
    pub open spec fn fail(self, e: ErrorView) -> (SyncStateView, SyncActionView) {
        (self.finished(), SyncActionView::Done(Err(e)))
    }

    /// The state and the action that follow `event`.
    ///
    /// A zone that the provider does not know is skipped. A zone name that
    /// several zones carry ends the synchronisation, and so does any
    /// failed request and any record of the zone that cannot be prepared:
    /// nothing is sent for a zone before all its records are. Each
    /// prepared record is then synchronised by one listing and one batch.
    pub open spec fn step(self, event: SyncEventView) -> (SyncStateView, SyncActionView) {
        match (self.stage, event) {
            (SyncStageView::Resolving, SyncEventView::Zones(Err(e))) => self.fail(e),
            (SyncStageView::Resolving, SyncEventView::Zones(Ok(found))) => {
                let name = self.zones[self.zone_index].name;
                if found.len() == 0 {
                    SyncStateView { skipped: self.skipped.push(name), ..self }.resolve_from(
                        self.zone_index + 1,
                    )
                } else if found.len() > 1 {
                    self.fail(ErrorView::ParseError(ambiguous_zone_message(name)))
                } else {
                    match prepared_all(
                        self.zones[self.zone_index].records,
                        found[0].name,
                        self.public_ip,
                    ) {
                        Err(e) => self.fail(e),
                        Ok(prepared) => self.list_from(found[0], prepared, 0),
                    }
                }
            },
            (SyncStageView::Listing { .. }, SyncEventView::Records(Err(e))) => self.fail(e),
            (
                SyncStageView::Listing { zone, prepared, index },
                SyncEventView::Records(Ok(listed)),
            ) => (
                SyncStateView {
                    stage: SyncStageView::Submitting { zone, prepared, index },
                    ..self
                },
                SyncActionView::SubmitBatch {
                    url: batch_url(zone.id),
                    batch: purge_batch_of(prepared[index], listed),
                },
            ),
            (SyncStageView::Submitting { .. }, SyncEventView::Batch(Err(e))) => self.fail(e),
            (SyncStageView::Submitting { zone, prepared, index }, SyncEventView::Batch(Ok(_))) => {
                self.list_from(zone, prepared, index + 1)
            },
            _ => self.fail(ErrorView::Provider(unexpected_event_message())),
        }
    }
}

/// The text of the error for a zone name that several zones carry.
pub open spec fn ambiguous_zone_message(name: Seq<char>) -> Seq<char> {
    "multiple zones found: "@ + name
}

/// The state in which a synchronisation of `zones` starts.
pub open spec fn initial_state(zones: Seq<ZoneEntryView>, public_ip: PublicIp) -> SyncStateView {
    SyncStateView {
        zones,
        public_ip,
        zone_index: 0,
        stage: SyncStageView::Finished,
        skipped: Seq::empty(),
    }
}

impl SyncState {
    /// The positions in a state always point at something.
    #[verifier::type_invariant]
    spec fn positions_are_valid(self) -> bool {
        self@.well_formed()
    }

    /// Whether the synchronisation is over.
    pub fn is_finished(&self) -> (r: bool)
        ensures
            r == (self@.stage is Finished),
    {
        matches!(self.stage, SyncStage::Finished)
    }

    /// The zones that the provider does not know, in the order met.
    pub fn skipped(&self) -> (r: &Vec<ZoneName>)
        ensures
            r.deep_view() == self@.skipped,
    {
        &self.skipped
    }

    fn fail(self, e: Error) -> (r: (SyncState, SyncAction))
        ensures
            (r.0@, r.1@) == self@.fail(e@),
    {
        (SyncState { stage: SyncStage::Finished, ..self }, SyncAction::Done(Err(e)))
    }

    fn resolve_from(self, index: usize) -> (r: (SyncState, SyncAction))
        ensures
            (r.0@, r.1@) == self@.resolve_from(index as int),
            r.0@.well_formed(),
    {
        if index < self.zones.len() {
            let url = String::from_str("https://api.cloudflare.com/client/v4/zones?name=").concat(
                self.zones.zone(index).name.as_str(),
            );
            (
                SyncState { zone_index: index, stage: SyncStage::Resolving, ..self },
                SyncAction::ListZones { url },
            )
        } else {
            (SyncState { stage: SyncStage::Finished, ..self }, SyncAction::Done(Ok(())))
        }
    }

    fn list_from(self, zone: CfZone, prepared: Vec<ProviderRecord>, index: usize) -> (r: (
        SyncState,
        SyncAction,
    ))
        requires
            0 <= self@.zone_index < self@.zones.len(),
        ensures
            (r.0@, r.1@) == self@.list_from(zone@, prepared.deep_view(), index as int),
            r.0@.well_formed(),
    {
        if index < prepared.len() {
            let url = String::from_str("https://api.cloudflare.com/client/v4/zones/").concat(
                zone.id.as_str(),
            ).concat("/dns_records?name=").concat(prepared[index].name.as_str());
            (
                SyncState { stage: SyncStage::Listing { zone, prepared, index }, ..self },
                SyncAction::ListRecords { url },
            )
        } else {
            let count = self.zones.len();
            assert(self.zone_index < count);
            let next = self.zone_index + 1;
            self.resolve_from(next)
        }
    }

    /// Begins the synchronisation of `records` with the public addresses
    /// `public_ip`.
    pub fn start(records: BackendRecords, public_ip: PublicIp) -> (r: (SyncState, SyncAction))
        ensures
            (r.0@, r.1@) == initial_state(records@, public_ip).resolve_from(0),
            r.0@.well_formed(),
    {
        let state = SyncState {
            zones: records,
            public_ip,
            zone_index: 0,
            stage: SyncStage::Finished,
            skipped: Vec::new(),
        };
        assert(state.skipped.deep_view() =~= Seq::empty());
        state.resolve_from(0)
    }

    /// Takes the reply to the pending action and says what to do next.
    pub fn step(self, event: SyncEvent) -> (r: (SyncState, SyncAction))
        ensures
            (r.0@, r.1@) == self@.step(event@),
            self@.well_formed(),
            r.0@.well_formed(),
    {
        proof {
            use_type_invariant(&self);
        }
        let SyncState { zones, public_ip, zone_index, stage, skipped } = self;
        match (stage, event) {
            (SyncStage::Resolving, SyncEvent::Zones(reply)) => {
                let state = SyncState {
                    zones,
                    public_ip,
                    zone_index,
                    stage: SyncStage::Resolving,
                    skipped,
                };
                match reply.into_result() {
                    Err(e) => state.fail(e),
                    Ok(found) => {
                        let mut found = found;
                        if found.len() == 0 {
                            let SyncState { zones, public_ip, zone_index, stage, skipped } = state;
                            let mut skipped = skipped;
                            let ghost before = skipped.deep_view();
                            let name = zones.zone(zone_index).name.clone();
                            skipped.push(name);
                            assert(skipped.deep_view() =~= before.push(name@));
                            let count = zones.len();
                            assert(zone_index < count);
                            let state = SyncState { zones, public_ip, zone_index, stage, skipped };
                            state.resolve_from(zone_index + 1)
                        } else if found.len() > 1 {
                            let message = String::from_str("multiple zones found: ").concat(
                                state.zones.zone(zone_index).name.as_str(),
                            );
                            state.fail(Error::ParseError(message))
                        } else {
                            let ghost only = found.deep_view()[0];
                            let zone = found.pop().unwrap();
                            assert(zone@ == only);
                            match prepare_zone(
                                &zone,
                                &state.zones.zone(zone_index).records.records,
                                &state.public_ip,
                            ) {
                                Err(e) => state.fail(e),
                                Ok(prepared) => state.list_from(zone, prepared, 0),
                            }
                        }
                    },
                }
            },
            (SyncStage::Listing { zone, prepared, index }, SyncEvent::Records(reply)) => {
                match reply.into_result() {
                    Err(e) => {
                        let state = SyncState {
                            zones,
                            public_ip,
                            zone_index,
                            stage: SyncStage::Listing { zone, prepared, index },
                            skipped,
                        };
                        state.fail(e)
                    },
                    Ok(listed) => {
                        let url = String::from_str(
                            "https://api.cloudflare.com/client/v4/zones/",
                        ).concat(zone.id.as_str()).concat("/dns_records/batch");
                        let batch = purge_batch(prepared[index].clone(), &listed);
                        (
                            SyncState {
                                zones,
                                public_ip,
                                zone_index,
                                stage: SyncStage::Submitting { zone, prepared, index },
                                skipped,
                            },
                            SyncAction::SubmitBatch { url, batch },
                        )
                    },
                }
            },
            (SyncStage::Submitting { zone, prepared, index }, SyncEvent::Batch(reply)) => {
                match reply.into_batch_result() {
                    Err(e) => {
                        let state = SyncState {
                            zones,
                            public_ip,
                            zone_index,
                            stage: SyncStage::Submitting { zone, prepared, index },
                            skipped,
                        };
                        state.fail(e)
                    },
                    Ok(()) => {
                        let count = prepared.len();
                        assert(index < count);
                        let state = SyncState {
                            zones,
                            public_ip,
                            zone_index,
                            stage: SyncStage::Finished,
                            skipped,
                        };
                        state.list_from(zone, prepared, index + 1)
                    },
                }
            },
            (stage, _) => {
                let state = SyncState { zones, public_ip, zone_index, stage, skipped };
                state.fail(
                    Error::Provider(unexpected_event()),
                )
            },
        }
    }
}

/// Whether every record that waits to be sent can be sent: its content is
/// concrete and it asks for a purge.
pub open spec fn sendable(state: SyncStateView) -> bool {
    match state.stage {
        SyncStageView::Listing { prepared, .. } => all_sendable(prepared),
        SyncStageView::Submitting { prepared, .. } => all_sendable(prepared),
        _ => true,
    }
}

/// Whether each of `records` has concrete content and asks for a purge.
pub open spec fn all_sendable(records: Seq<ProviderRecordView>) -> bool {
    forall|i: int|
        0 <= i < records.len() ==> (#[trigger] records[i]).content.is_concrete() && records[i].op
            == crate::record::RecordOp::Purge
}

/// A record that was prepared has concrete content, asks for a purge
/// whatever was declared, and has a name inside the zone.
pub proof fn lemma_prepared_is_sendable(record: ProviderRecordView, zone: Seq<char>, ip: PublicIp)
    requires
        prepared(record, zone, ip) is Ok,
    ensures
        prepared(record, zone, ip)->Ok_0.content.is_concrete(),
        prepared(record, zone, ip)->Ok_0.op == crate::record::RecordOp::Purge,
        zone.is_suffix_of(prepared(record, zone, ip)->Ok_0.name),
{
    crate::provider::cloudflare::lemma_qualified_once(record.name, zone);
}

/// Where all records of a zone can be prepared, each is prepared by
/// itself, in order.
pub proof fn lemma_prepared_all(records: Seq<ProviderRecordView>, zone: Seq<char>, ip: PublicIp)
    ensures
        match prepared_all(records, zone, ip) {
            Ok(done) => done.len() == records.len() && all_sendable(done) && forall|i: int|
                0 <= i < records.len() ==> prepared(#[trigger] records[i], zone, ip) == Ok::<
                    ProviderRecordView,
                    ErrorView,
                >(done[i]),
            Err(e) => exists|i: int|
                0 <= i < records.len() && prepared(#[trigger] records[i], zone, ip) == Err::<
                    ProviderRecordView,
                    ErrorView,
                >(e),
        },
    decreases records.len(),
{
    if records.len() > 0 {
        let front = records.drop_last();
        lemma_prepared_all(front, zone, ip);
        match prepared_all(front, zone, ip) {
            Ok(done) => {
                match prepared(records.last(), zone, ip) {
                    Ok(p) => {
                        lemma_prepared_is_sendable(records.last(), zone, ip);
                        let all = done.push(p);
                        assert forall|i: int| 0 <= i < records.len() implies prepared(
                            #[trigger] records[i],
                            zone,
                            ip,
                        ) == Ok::<ProviderRecordView, ErrorView>(all[i]) by {
                            if i < front.len() {
                                assert(records[i] == front[i]);
                            }
                        }
                    },
                    Err(e) => {
                        assert(prepared(records[records.len() - 1], zone, ip) == Err::<
                            ProviderRecordView,
                            ErrorView,
                        >(e));
                    },
                }
            },
            Err(e) => {
                let i = choose|i: int|
                    0 <= i < front.len() && prepared(#[trigger] front[i], zone, ip) == Err::<
                        ProviderRecordView,
                        ErrorView,
                    >(e);
                assert(records[i] == front[i]);
            },
        }
    }
}

/// Every step keeps the state well formed and its waiting records
/// sendable.
pub proof fn lemma_step_keeps_sendable(state: SyncStateView, event: SyncEventView)
    requires
        state.well_formed(),
        sendable(state),
    ensures
        state.step(event).0.well_formed(),
        sendable(state.step(event).0),
{
    match (state.stage, event) {
        (SyncStageView::Resolving, SyncEventView::Zones(Ok(found))) => {
            if found.len() == 1 {
                lemma_prepared_all(
                    state.zones[state.zone_index].records,
                    found[0].name,
                    state.public_ip,
                );
            }
        },
        _ => {},
    }
}

/// Whatever is posted has concrete content: a record that was left
/// unassigned is never sent.
pub proof fn lemma_only_concrete_content_is_posted(state: SyncStateView, event: SyncEventView)
    requires
        state.well_formed(),
        sendable(state),
        state.step(event).1 is SubmitBatch,
    ensures
        state.step(event).1->SubmitBatch_batch.posts is Some,
        state.step(event).1->SubmitBatch_batch.posts->0.len() == 1,
        state.step(event).1->SubmitBatch_batch.posts->0[0].content.is_concrete(),
{
}

/// A zone name that two or more zones carry ends the synchronisation with
/// an error, and once a synchronisation has ended no event makes it list
/// or submit anything.
pub proof fn lemma_ambiguous_zone_aborts(
    state: SyncStateView,
    found: Seq<CfZoneView>,
    later: SyncEventView,
)
    requires
        state.stage is Resolving,
        found.len() >= 2,
    ensures
        state.step(SyncEventView::Zones(Ok(found))).1 == SyncActionView::Done(
            Err(ErrorView::ParseError(ambiguous_zone_message(state.zones[state.zone_index].name))),
        ),
        state.step(SyncEventView::Zones(Ok(found))).0.stage is Finished,
        state.step(SyncEventView::Zones(Ok(found))).0.step(later).1 is Done,
        state.step(SyncEventView::Zones(Ok(found))).0.step(later).0.stage is Finished,
{
}

/// A synchronisation that has ended stays ended.
pub proof fn lemma_finished_is_final(state: SyncStateView, event: SyncEventView)
    requires
        state.stage is Finished,
    ensures
        state.step(event).1 is Done,
        state.step(event).0 == state,
{
}

/// A zone that the provider does not know is skipped: it is noted, nothing
/// is sent for it, and the next zone is turned to.
pub proof fn lemma_unknown_zone_is_skipped(state: SyncStateView)
    requires
        state.stage is Resolving,
    ensures
        state.step(SyncEventView::Zones(Ok(Seq::empty()))) == (SyncStateView {
            skipped: state.skipped.push(state.zones[state.zone_index].name),
            ..state
        }).resolve_from(state.zone_index + 1),
        !(state.step(SyncEventView::Zones(Ok(Seq::empty()))).1 is SubmitBatch),
        !(state.step(SyncEventView::Zones(Ok(Seq::empty()))).1 is ListRecords),
{
}

/// Where one record of a zone cannot be prepared, the zone's
/// synchronisation fails as a whole, before anything is listed or
/// submitted for it.
pub proof fn lemma_unfillable_record_fails_zone(
    state: SyncStateView,
    zone: CfZoneView,
    at: int,
)
    requires
        state.well_formed(),
        state.stage is Resolving,
        0 <= at < state.zones[state.zone_index].records.len(),
        prepared(state.zones[state.zone_index].records[at], zone.name, state.public_ip) is Err,
    ensures
        state.step(SyncEventView::Zones(Ok(seq![zone]))).1 is Done,
        state.step(SyncEventView::Zones(Ok(seq![zone]))).1->Done_0 is Err,
        state.step(SyncEventView::Zones(Ok(seq![zone]))).0.stage is Finished,
{
    let records = state.zones[state.zone_index].records;
    lemma_prepared_all(records, zone.name, state.public_ip);
}

/// The batch for a record removes every record that the provider listed
/// under its name, as many as there are and whatever their kind, and
/// creates one record; what was declared as the operation plays no part.
pub proof fn lemma_batch_composition(
    state: SyncStateView,
    listed: Seq<CfRecordView>,
)
    requires
        state.well_formed(),
        state.stage is Listing,
    ensures
        state.step(SyncEventView::Records(Ok(listed))).1 is SubmitBatch,
        ({
            let batch = state.step(SyncEventView::Records(Ok(listed))).1->SubmitBatch_batch;
            let record = state.stage->Listing_prepared[state.stage->Listing_index];
            &&& batch.deletes == Some(identifiers(listed))
            &&& batch.deletes->0.len() == listed.len()
            &&& batch.patches is None
            &&& batch.posts == Some(seq![record_body(record)])
            &&& batch == purge_batch_of(
                ProviderRecordView { op: crate::record::RecordOp::Create, ..record },
                listed,
            )
        }),
{
}

} // verus!
