use vstd::prelude::*;
use crate::record::ProviderRecord;
use crate::record::ProviderRecordView;
use crate::record::ZoneName;

verus! {

/// The records that one zone is to hold, in the order they were declared.
#[derive(Debug, PartialEq)]
pub struct ZoneRecords {
    pub records: Vec<ProviderRecord>,
}

impl View for ZoneRecords {
    type V = Seq<ProviderRecordView>;

    open spec fn view(&self) -> Seq<ProviderRecordView> {
        self.records.deep_view()
    }
}

impl DeepView for ZoneRecords {
    type V = Seq<ProviderRecordView>;

    open spec fn deep_view(&self) -> Seq<ProviderRecordView> {
        self@
    }
}

/// A zone with the records it is to hold.
#[derive(Debug, PartialEq)]
pub struct ZoneEntry {
    pub name: ZoneName,
    pub records: ZoneRecords,
}

/// The mathematical content of a [`ZoneEntry`].
pub struct ZoneEntryView {
    pub name: Seq<char>,
    pub records: Seq<ProviderRecordView>,
}

impl View for ZoneEntry {
    type V = ZoneEntryView;

    open spec fn view(&self) -> ZoneEntryView {
        ZoneEntryView { name: self.name@, records: self.records@ }
    }
}

impl DeepView for ZoneEntry {
    type V = ZoneEntryView;

    open spec fn deep_view(&self) -> ZoneEntryView {
        self@
    }
}

/// Whether `zones` has an entry for `name`.
pub open spec fn has_zone(zones: Seq<ZoneEntryView>, name: Seq<char>) -> bool {
    exists|i: int| 0 <= i < zones.len() && (#[trigger] zones[i]).name == name
}

/// The position of the entry for `name` in `zones`.
pub open spec fn zone_at(zones: Seq<ZoneEntryView>, name: Seq<char>) -> int {
    choose|i: int| 0 <= i < zones.len() && (#[trigger] zones[i]).name == name
}

/// Whether no zone has two entries in `zones`.
pub open spec fn distinct_zones(zones: Seq<ZoneEntryView>) -> bool {
    forall|i: int, j: int|
        0 <= i < j < zones.len() ==> (#[trigger] zones[i]).name != (#[trigger] zones[j]).name
}

/// The records that `zones` holds for `name`: none where it has no entry.
pub open spec fn records_of(zones: Seq<ZoneEntryView>, name: Seq<char>) -> Seq<
    ProviderRecordView,
> {
    if has_zone(zones, name) {
        zones[zone_at(zones, name)].records
    } else {
        Seq::empty()
    }
}

/// `zones` with `record` added for `name`: after the records the zone has
/// already, or as the only record of a new last entry.
pub open spec fn with_record(
    zones: Seq<ZoneEntryView>,
    name: Seq<char>,
    record: ProviderRecordView,
) -> Seq<ZoneEntryView> {
    if has_zone(zones, name) {
        let i = zone_at(zones, name);
        zones.update(i, ZoneEntryView { name, records: zones[i].records.push(record) })
    } else {
        zones.push(ZoneEntryView { name, records: seq![record] })
    }
}

/// The records of one provider, zone by zone. No zone has two entries, and
/// the zones stand in the order in which they were first named.
#[derive(Debug, PartialEq)]
pub struct BackendRecords {
    zones: Vec<ZoneEntry>,
}

impl View for BackendRecords {
    type V = Seq<ZoneEntryView>;

    closed spec fn view(&self) -> Seq<ZoneEntryView> {
        self.zones.deep_view()
    }
}

impl DeepView for BackendRecords {
    type V = Seq<ZoneEntryView>;

    open spec fn deep_view(&self) -> Seq<ZoneEntryView> {
        self@
    }
}

impl BackendRecords {
    /// Whether the value is well formed: no zone has two entries.
    pub open spec fn wf(&self) -> bool {
        distinct_zones(self@)
    }

    /// No zones.
    pub fn new() -> (r: Self)
        ensures
            r@ == Seq::<ZoneEntryView>::empty(),
            r.wf(),
    {
        let r = BackendRecords { zones: Vec::new() };
        assert(r.zones.deep_view() =~= Seq::empty());
        r
    }

    /// The number of zones.
    pub fn len(&self) -> (r: usize)
        ensures
            r == self@.len(),
    {
        self.zones.len()
    }

    /// The zone at position `i`.
    pub fn zone(&self, i: usize) -> (r: &ZoneEntry)
        requires
            i < self@.len(),
        ensures
            r@ == self@[i as int],
    {
        &self.zones[i]
    }

    /// Adds `record` to the zone `name`.
    pub fn add_record(&mut self, name: ZoneName, record: ProviderRecord)
        requires
            old(self).wf(),
        ensures
            final(self).wf(),
            final(self)@ == with_record(old(self)@, name@, record@),
    {
        let ghost before = self@;
        let mut i: usize = 0;
        while i < self.zones.len()
            invariant
                i <= self.zones.len(),
                self@ == before,
                forall|k: int| 0 <= k < i ==> (#[trigger] before[k]).name != name@,
            ensures
                i < self.zones.len() ==> before[i as int].name == name@,
            decreases self.zones.len() - i,
        {
            if self.zones[i].name == name {
                break ;
            }
            i += 1;
        }
        if i < self.zones.len() {
            assert(before[i as int].name == name@);
            assert(has_zone(before, name@));
            assert(zone_at(before, name@) == i);
            let ghost old_records = self.zones[i as int].records@;
            self.zones[i].records.records.push(record);
            assert(self.zones[i as int].records@ =~= old_records.push(record@));
            assert(self@ =~= with_record(before, name@, record@));
        } else {
            assert(!has_zone(before, name@));
            let mut records: Vec<ProviderRecord> = Vec::new();
            records.push(record);
            let entry = ZoneEntry { name, records: ZoneRecords { records } };
            assert(entry@.records =~= seq![record@]);
            self.zones.push(entry);
            assert(self@ =~= with_record(before, name@, record@));
        }
    }
}

/// A copy of `records`.
pub fn clone_records(records: &Vec<ProviderRecord>) -> (r: Vec<ProviderRecord>)
    ensures
        r.deep_view() == records.deep_view(),
{
    let mut out: Vec<ProviderRecord> = Vec::new();
    let mut i: usize = 0;
    while i < records.len()
        invariant
            i <= records.len(),
            out.len() == i,
            forall|k: int| 0 <= k < i ==> out@[k]@ == records@[k]@,
        decreases records.len() - i,
    {
        out.push(records[i].clone());
        i += 1;
    }
    assert(out.deep_view() =~= records.deep_view());
    out
}

impl Default for ZoneRecords {
    fn default() -> (r: Self)
        ensures
            r@ == Seq::<ProviderRecordView>::empty(),
    {
        let r = ZoneRecords { records: Vec::new() };
        assert(r.records.deep_view() =~= Seq::empty());
        r
    }
}

impl Default for BackendRecords {
    fn default() -> (r: Self)
        ensures
            r@ == Seq::<ZoneEntryView>::empty(),
            r.wf(),
    {
        Self::new()
    }
}

impl Clone for ZoneRecords {
    fn clone(&self) -> (r: Self)
        ensures
            r@ == self@,
    {
        ZoneRecords { records: clone_records(&self.records) }
    }
}

impl Clone for ZoneEntry {
    fn clone(&self) -> (r: Self)
        ensures
            r@ == self@,
    {
        ZoneEntry { name: self.name.clone(), records: self.records.clone() }
    }
}

impl Clone for BackendRecords {
    fn clone(&self) -> (r: Self)
        ensures
            r@ == self@,
    {
        let mut out: Vec<ZoneEntry> = Vec::new();
        let mut i: usize = 0;
        while i < self.zones.len()
            invariant
                i <= self.zones.len(),
                out.len() == i,
                forall|k: int| 0 <= k < i ==> out@[k]@ == self.zones@[k]@,
            decreases self.zones.len() - i,
        {
            out.push(self.zones[i].clone());
            i += 1;
        }
        assert(out.deep_view() =~= self.zones.deep_view());
        BackendRecords { zones: out }
    }
}

} // verus!
