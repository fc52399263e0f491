//! A whole synchronisation against a model of the provider's account: the
//! zones that the account has and the records that each holds.

use vstd::prelude::*;
use crate::error::ErrorView;
use crate::provider::cloudflare::prepared_all;
use crate::provider::cloudflare::purge_batch_of;
use crate::provider::cloudflare::record_body;
use crate::provider::cloudflare::remote::after_pass;
use crate::provider::cloudflare::remote::after_rest;
use crate::provider::cloudflare::remote::applied;
use crate::provider::cloudflare::remote::bodies;
use crate::provider::cloudflare::remote::distinct_ids;
use crate::provider::cloudflare::remote::fresh;
use crate::provider::cloudflare::remote::has_id;
use crate::provider::cloudflare::remote::last_of_name;
use crate::provider::cloudflare::remote::lemma_one_survivor_per_name;
use crate::provider::cloudflare::remote::lemma_one_record_per_synced_name;
use crate::provider::cloudflare::remote::lemma_second_pass_changes_nothing;
use crate::provider::cloudflare::remote::names_one;
use crate::provider::cloudflare::remote::lemma_after_rest;
use crate::provider::cloudflare::remote::with_name;
use crate::provider::cloudflare::sync::ambiguous_zone_message;
use crate::provider::cloudflare::sync::initial_state;
use crate::provider::cloudflare::sync::lemma_prepared_all;
use crate::provider::cloudflare::sync::SyncActionView;
use crate::provider::cloudflare::sync::SyncEventView;
use crate::provider::cloudflare::sync::SyncStageView;
use crate::provider::cloudflare::sync::SyncStateView;
use crate::provider::cloudflare::CfRecordView;
use crate::provider::cloudflare::CfZoneView;
use crate::provider::types::ZoneEntryView;
use crate::record::ProviderRecordView;
use crate::record::PublicIp;

verus! {

/// What a provider's account holds: its zones, and the records of each
/// zone under the zone's identifier.
pub struct Account {
    pub zones: Seq<CfZoneView>,
    pub held: Map<Seq<char>, Seq<CfRecordView>>,
}

/// The records that `account` holds in the zone `zone_id`.
pub open spec fn held_in(account: Account, zone_id: Seq<char>) -> Seq<CfRecordView> {
    if account.held.dom().contains(zone_id) {
        account.held[zone_id]
    } else {
        Seq::empty()
    }
}

/// The zones among `zones` that are named `name`, in order: what the
/// provider lists under that name.
pub open spec fn zones_named(zones: Seq<CfZoneView>, name: Seq<char>) -> Seq<CfZoneView>
    decreases zones.len(),
{
    if zones.len() == 0 {
        Seq::empty()
    } else if zones.last().name == name {
        zones_named(zones.drop_last(), name).push(zones.last())
    } else {
        zones_named(zones.drop_last(), name)
    }
}

/// The identifiers that the provider gives to the records that a pass
/// creates for the zone at position `zone`: `supply(zone, i)` to the one
/// for the record at position `i`.
pub open spec fn zone_ids(supply: spec_fn(int, int) -> Seq<char>, zone: int, count: int) -> Seq<
    Seq<char>,
> {
    Seq::new(count as nat, |i: int| supply(zone, i))
}

/// `account` with `records` held in the zone `zone_id`.
pub open spec fn holding(account: Account, zone_id: Seq<char>, records: Seq<CfRecordView>) -> Account {
    Account { held: account.held.insert(zone_id, records), ..account }
}

/// What the account holds, and how the synchronisation ends, when the
/// zones from position `from` on are synchronised in order: a zone that
/// the account does not have is passed over, a name that several zones
/// carry and a record that cannot be prepared end the synchronisation, and
/// the records of any other zone are synchronised one by one.
pub open spec fn pass_from(
    zones: Seq<ZoneEntryView>,
    ip: PublicIp,
    from: int,
    account: Account,
    supply: spec_fn(int, int) -> Seq<char>,
) -> (Account, Result<(), ErrorView>)
    decreases zones.len() - from,
{
    if from < 0 || from >= zones.len() {
        (account, Ok(()))
    } else {
        let found = zones_named(account.zones, zones[from].name);
        if found.len() == 0 {
            pass_from(zones, ip, from + 1, account, supply)
        } else if found.len() > 1 {
            (account, Err(ErrorView::ParseError(ambiguous_zone_message(zones[from].name))))
        } else {
            match prepared_all(zones[from].records, found[0].name, ip) {
                Err(e) => (account, Err(e)),
                Ok(prepared) => if prepared.len() == 0 {
                    pass_from(zones, ip, from + 1, account, supply)
                } else {
                    pass_from(
                        zones,
                        ip,
                        from + 1,
                        holding(
                            account,
                            found[0].id,
                            after_pass(
                                held_in(account, found[0].id),
                                prepared,
                                zone_ids(supply, from, prepared.len() as int),
                            ),
                        ),
                        supply,
                    )
                },
            }
        }
    }
}

/// A bound on the steps that are left from the zone at position `from`.
pub open spec fn weight(zones: Seq<ZoneEntryView>, from: int) -> int
    decreases zones.len() - from,
{
    if from < 0 || from >= zones.len() {
        0
    } else {
        2 * zones[from].records.len() + 3 + weight(zones, from + 1)
    }
}

/// A bound on the steps that a synchronisation in `state` has left.
pub open spec fn work_left(state: SyncStateView) -> int {
    match state.stage {
        SyncStageView::Finished => 0,
        SyncStageView::Resolving => weight(state.zones, state.zone_index),
        SyncStageView::Listing { prepared, index, .. } => 2 * (prepared.len() - index) + weight(
            state.zones,
            state.zone_index + 1,
        ),
        SyncStageView::Submitting { prepared, index, .. } => 2 * (prepared.len() - index) - 1
            + weight(state.zones, state.zone_index + 1),
    }
}

/// What the account answers to the pending `action` of a synchronisation
/// in `state`, and what it holds then: the zones of the name asked for,
/// the records of the name asked for, or the acceptance of a batch, which
/// it applies at once.
pub open spec fn answer(
    state: SyncStateView,
    action: SyncActionView,
    account: Account,
    supply: spec_fn(int, int) -> Seq<char>,
) -> (SyncEventView, Account) {
    match (state.stage, action) {
        (SyncStageView::Listing { zone, prepared, index }, _) => (
            SyncEventView::Records(Ok(with_name(held_in(account, zone.id), prepared[index].name))),
            account,
        ),
        (
            SyncStageView::Submitting { zone, index, .. },
            SyncActionView::SubmitBatch { batch, .. },
        ) => (
            SyncEventView::Batch(Ok(())),
            holding(
                account,
                zone.id,
                applied(held_in(account, zone.id), batch, supply(state.zone_index, index)),
            ),
        ),
        _ => (
            SyncEventView::Zones(
                Ok(zones_named(account.zones, state.zones[state.zone_index].name)),
            ),
            account,
        ),
    }
}

/// What the account holds, and how the synchronisation ends, when a
/// synchronisation in `state` with the pending `action` is driven to its
/// end against the account: every action is answered as `answer` says, and
/// the answer is handed to the state machine.
pub open spec fn run(
    state: SyncStateView,
    action: SyncActionView,
    account: Account,
    supply: spec_fn(int, int) -> Seq<char>,
) -> (Account, Result<(), ErrorView>)
    decreases work_left(state),
{
    match action {
        SyncActionView::Done(result) => (account, result),
        _ => {
            let (event, after) = answer(state, action, account, supply);
            let (next, then) = state.step(event);
            if 0 <= work_left(next) < work_left(state) {
                run(next, then, after, supply)
            } else {
                (after, Ok(()))
            }
        },
    }
}

/// The bound on the steps that are left is never negative.
pub proof fn lemma_weight(zones: Seq<ZoneEntryView>, from: int)
    ensures
        weight(zones, from) >= 0,
        0 <= from < zones.len() ==> weight(zones, from) == 2 * zones[from].records.len() + 3
            + weight(zones, from + 1),
    decreases zones.len() - from,
{
    if 0 <= from < zones.len() {
        lemma_weight(zones, from + 1);
    }
}

/// Whether `action` is what a synchronisation in `state` is waiting to
/// have answered.
pub open spec fn pending(state: SyncStateView, action: SyncActionView) -> bool {
    match state.stage {
        SyncStageView::Resolving => action is ListZones,
        SyncStageView::Listing { .. } => action is ListRecords,
        SyncStageView::Submitting { .. } => action is SubmitBatch,
        SyncStageView::Finished => action is Done,
    }
}

/// What driving a synchronisation in `state` to its end comes to, said
/// without the state machine: the rest of the current zone, then the zones
/// after it.
pub open spec fn rest_of_pass(
    state: SyncStateView,
    action: SyncActionView,
    account: Account,
    supply: spec_fn(int, int) -> Seq<char>,
) -> (Account, Result<(), ErrorView>) {
    let at = state.zone_index;
    match state.stage {
        SyncStageView::Finished => (account, action->Done_0),
        SyncStageView::Resolving => pass_from(state.zones, state.public_ip, at, account, supply),
        SyncStageView::Listing { zone, prepared, index } => pass_from(
            state.zones,
            state.public_ip,
            at + 1,
            holding(
                account,
                zone.id,
                after_rest(
                    held_in(account, zone.id),
                    prepared,
                    zone_ids(supply, at, prepared.len() as int),
                    index,
                ),
            ),
            supply,
        ),
        SyncStageView::Submitting { zone, prepared, index } => pass_from(
            state.zones,
            state.public_ip,
            at + 1,
            holding(
                account,
                zone.id,
                after_rest(
                    applied(
                        held_in(account, zone.id),
                        action->SubmitBatch_batch,
                        supply(at, index),
                    ),
                    prepared,
                    zone_ids(supply, at, prepared.len() as int),
                    index + 1,
                ),
            ),
            supply,
        ),
    }
}

/// Driving the state machine against the account does what `pass_from`
/// says: zone by zone, and within a zone record by record.
pub proof fn lemma_run(
    state: SyncStateView,
    action: SyncActionView,
    account: Account,
    supply: spec_fn(int, int) -> Seq<char>,
)
    requires
        state.well_formed(),
        pending(state, action),
    ensures
        run(state, action, account, supply) == rest_of_pass(state, action, account, supply),
    decreases work_left(state),
{
    let zones = state.zones;
    let at = state.zone_index;
    lemma_weight(zones, at);
    lemma_weight(zones, at + 1);
    match state.stage {
        SyncStageView::Finished => {
            let result = action->Done_0;
            assert(action == SyncActionView::Done(result));
            assert(run(state, action, account, supply) == (account, result));
        },
        SyncStageView::Resolving => {
            let ip = state.public_ip;
            let found = zones_named(account.zones, zones[at].name);
            let (event, after) = answer(state, action, account, supply);
            assert(event == SyncEventView::Zones(Ok(found)));
            assert(after == account);
            let (next, then) = state.step(event);
            let whole = pass_from(zones, ip, at, account, supply);
            let later = pass_from(zones, ip, at + 1, account, supply);
            if found.len() == 0 {
                assert(whole == later);
                assert(next.zones == zones && next.public_ip == ip);
                if at + 1 < zones.len() {
                    assert(next.stage is Resolving && next.zone_index == at + 1);
                } else {
                    assert(next.stage is Finished);
                    assert(then == SyncActionView::Done(Ok(())));
                    assert(later == (account, Ok::<(), ErrorView>(())));
                }
            } else if found.len() > 1 {
                assert(next.stage is Finished);
            } else {
                lemma_prepared_all(zones[at].records, found[0].name, ip);
                match prepared_all(zones[at].records, found[0].name, ip) {
                    Ok(prepared) => {
                        assert(next.zones == zones && next.public_ip == ip);
                        if prepared.len() > 0 {
                            let ids = zone_ids(supply, at, prepared.len() as int);
                            let held = held_in(account, found[0].id);
                            lemma_after_rest(held, prepared, ids, 0);
                            assert(prepared.take(0) =~= Seq::empty());
                            assert(ids.take(0) =~= Seq::empty());
                            assert(after_rest(held, prepared, ids, 0) == after_pass(
                                held,
                                prepared,
                                ids,
                            ));
                            assert(next.stage == SyncStageView::Listing {
                                zone: found[0],
                                prepared,
                                index: 0,
                            });
                            assert(next.zone_index == at);
                        } else {
                            assert(whole == later);
                            if at + 1 < zones.len() {
                                assert(next.stage is Resolving && next.zone_index == at + 1);
                            } else {
                                assert(next.stage is Finished);
                                assert(then == SyncActionView::Done(Ok(())));
                                assert(later == (account, Ok::<(), ErrorView>(())));
                            }
                        }
                    },
                    Err(e) => {
                        assert(next.stage is Finished);
                    },
                }
            }
            assert(0 <= work_left(next) < work_left(state));
            assert(next.well_formed());
            assert(pending(next, then));
            lemma_run(next, then, after, supply);
            assert(run(state, action, account, supply) == run(next, then, after, supply));
            assert(rest_of_pass(next, then, after, supply) == whole);
        },
        SyncStageView::Listing { zone, prepared, index } => {
            let held = held_in(account, zone.id);
            let ids = zone_ids(supply, at, prepared.len() as int);
            let listed = with_name(held, prepared[index].name);
            let (event, after) = answer(state, action, account, supply);
            assert(event == SyncEventView::Records(Ok(listed)));
            let (next, then) = state.step(event);
            assert(then->SubmitBatch_batch == purge_batch_of(prepared[index], listed));
            assert(work_left(next) == work_left(state) - 1);
            lemma_run(next, then, after, supply);
            assert(ids[index] == supply(at, index));
            assert(after_rest(held, prepared, ids, index) == after_rest(
                applied(held, purge_batch_of(prepared[index], listed), supply(at, index)),
                prepared,
                ids,
                index + 1,
            ));
        },
        SyncStageView::Submitting { zone, prepared, index } => {
            let held = held_in(account, zone.id);
            let ids = zone_ids(supply, at, prepared.len() as int);
            let batch = action->SubmitBatch_batch;
            let now_held = applied(held, batch, supply(at, index));
            let (event, after) = answer(state, action, account, supply);
            assert(after == holding(account, zone.id, now_held));
            assert(held_in(after, zone.id) == now_held);
            let (next, then) = state.step(event);
            if index + 1 < prepared.len() {
                assert(next.stage == SyncStageView::Listing { zone, prepared, index: index + 1 });
                assert(work_left(next) == work_left(state) - 1);
                lemma_run(next, then, after, supply);
                let rest = after_rest(now_held, prepared, ids, index + 1);
                assert(holding(after, zone.id, rest).held =~= holding(account, zone.id, rest).held);
            } else {
                assert(after_rest(now_held, prepared, ids, index + 1) == now_held);
                assert(0 <= work_left(next) < work_left(state));
                assert(next.well_formed());
                assert(pending(next, then));
                lemma_run(next, then, after, supply);
            }
        },
    }
}

/// The prepared records that a pass synchronises in the account's zone
/// `zone_id` for the zone at position `at`: all its records, where it is
/// the one zone of that name and they can be prepared.
pub open spec fn touched_at(
    zones: Seq<ZoneEntryView>,
    ip: PublicIp,
    account_zones: Seq<CfZoneView>,
    at: int,
    zone_id: Seq<char>,
) -> Seq<ProviderRecordView> {
    let found = zones_named(account_zones, zones[at].name);
    if found.len() == 1 && found[0].id == zone_id {
        match prepared_all(zones[at].records, found[0].name, ip) {
            Ok(prepared) => prepared,
            Err(_) => Seq::empty(),
        }
    } else {
        Seq::empty()
    }
}

/// The prepared records that a pass synchronises in the account's zone
/// `zone_id` for the zones from position `from` on, in order.
pub open spec fn touched(
    zones: Seq<ZoneEntryView>,
    ip: PublicIp,
    account_zones: Seq<CfZoneView>,
    from: int,
    zone_id: Seq<char>,
) -> Seq<ProviderRecordView>
    decreases zones.len() - from,
{
    if from < 0 || from >= zones.len() {
        Seq::empty()
    } else {
        touched_at(zones, ip, account_zones, from, zone_id) + touched(
            zones,
            ip,
            account_zones,
            from + 1,
            zone_id,
        )
    }
}

/// The identifiers that the provider gives to what is created for
/// `touched`, in the same order.
pub open spec fn touched_ids(
    zones: Seq<ZoneEntryView>,
    ip: PublicIp,
    account_zones: Seq<CfZoneView>,
    from: int,
    zone_id: Seq<char>,
    supply: spec_fn(int, int) -> Seq<char>,
) -> Seq<Seq<char>>
    decreases zones.len() - from,
{
    if from < 0 || from >= zones.len() {
        Seq::empty()
    } else {
        zone_ids(supply, from, touched_at(zones, ip, account_zones, from, zone_id).len() as int)
            + touched_ids(zones, ip, account_zones, from + 1, zone_id, supply)
    }
}

/// Two passes one after the other are one pass over both lists.
pub proof fn lemma_after_pass_add(
    remote: Seq<CfRecordView>,
    first: Seq<ProviderRecordView>,
    first_ids: Seq<Seq<char>>,
    second: Seq<ProviderRecordView>,
    second_ids: Seq<Seq<char>>,
)
    requires
        first.len() == first_ids.len(),
        second.len() == second_ids.len(),
    ensures
        after_pass(after_pass(remote, first, first_ids), second, second_ids) == after_pass(
            remote,
            first + second,
            first_ids + second_ids,
        ),
    decreases second.len(),
{
    if second.len() == 0 {
        assert(first + second =~= first);
        assert(first_ids + second_ids =~= first_ids);
    } else {
        lemma_after_pass_add(remote, first, first_ids, second.drop_last(), second_ids.drop_last());
        assert((first + second).drop_last() =~= first + second.drop_last());
        assert((first_ids + second_ids).drop_last() =~= first_ids + second_ids.drop_last());
        assert((first + second).last() == second.last());
        assert((first_ids + second_ids).last() == second_ids.last());
    }
}

/// A pass never changes which zones the account has, and how it ends
/// depends on those zones alone, not on the records held.
pub proof fn lemma_pass_result(
    zones: Seq<ZoneEntryView>,
    ip: PublicIp,
    from: int,
    account: Account,
    supply: spec_fn(int, int) -> Seq<char>,
    other: Account,
    other_supply: spec_fn(int, int) -> Seq<char>,
)
    requires
        account.zones == other.zones,
    ensures
        pass_from(zones, ip, from, account, supply).0.zones == account.zones,
        pass_from(zones, ip, from, account, supply).1 == pass_from(
            zones,
            ip,
            from,
            other,
            other_supply,
        ).1,
    decreases zones.len() - from,
{
    if 0 <= from < zones.len() {
        let found = zones_named(account.zones, zones[from].name);
        if found.len() == 0 {
            lemma_pass_result(zones, ip, from + 1, account, supply, other, other_supply);
        } else if found.len() == 1 {
            match prepared_all(zones[from].records, found[0].name, ip) {
                Ok(prepared) => {
                    if prepared.len() == 0 {
                        lemma_pass_result(zones, ip, from + 1, account, supply, other, other_supply);
                    } else {
                        let id = found[0].id;
                        let a = holding(
                            account,
                            id,
                            after_pass(
                                held_in(account, id),
                                prepared,
                                zone_ids(supply, from, prepared.len() as int),
                            ),
                        );
                        let b = holding(
                            other,
                            id,
                            after_pass(
                                held_in(other, id),
                                prepared,
                                zone_ids(other_supply, from, prepared.len() as int),
                            ),
                        );
                        lemma_pass_result(zones, ip, from + 1, a, supply, b, other_supply);
                    }
                },
                Err(e) => {},
            }
        }
    }
}

/// Where a pass ends well, each zone of the account holds what one pass
/// over the records meant for it leaves there.
pub proof fn lemma_pass_by_zone(
    zones: Seq<ZoneEntryView>,
    ip: PublicIp,
    from: int,
    account: Account,
    supply: spec_fn(int, int) -> Seq<char>,
    zone_id: Seq<char>,
)
    requires
        pass_from(zones, ip, from, account, supply).1 is Ok,
    ensures
        touched_ids(zones, ip, account.zones, from, zone_id, supply).len() == touched(
            zones,
            ip,
            account.zones,
            from,
            zone_id,
        ).len(),
        held_in(pass_from(zones, ip, from, account, supply).0, zone_id) == after_pass(
            held_in(account, zone_id),
            touched(zones, ip, account.zones, from, zone_id),
            touched_ids(zones, ip, account.zones, from, zone_id, supply),
        ),
    decreases zones.len() - from,
{
    let held = held_in(account, zone_id);
    let all = touched(zones, ip, account.zones, from, zone_id);
    let all_ids = touched_ids(zones, ip, account.zones, from, zone_id, supply);
    if 0 <= from < zones.len() {
        let here = touched_at(zones, ip, account.zones, from, zone_id);
        let here_ids = zone_ids(supply, from, here.len() as int);
        let later = touched(zones, ip, account.zones, from + 1, zone_id);
        let later_ids = touched_ids(zones, ip, account.zones, from + 1, zone_id, supply);
        let found = zones_named(account.zones, zones[from].name);
        if found.len() == 0 {
            lemma_pass_by_zone(zones, ip, from + 1, account, supply, zone_id);
            assert(all =~= later);
            assert(all_ids =~= later_ids);
        } else {
            match prepared_all(zones[from].records, found[0].name, ip) {
                Ok(prepared) => {
                    if prepared.len() == 0 {
                        lemma_pass_by_zone(zones, ip, from + 1, account, supply, zone_id);
                        assert(here =~= Seq::empty());
                        assert(all =~= later);
                        assert(all_ids =~= later_ids);
                    } else {
                        let id = found[0].id;
                        let ids = zone_ids(supply, from, prepared.len() as int);
                        let next = holding(
                            account,
                            id,
                            after_pass(held_in(account, id), prepared, ids),
                        );
                        lemma_pass_by_zone(zones, ip, from + 1, next, supply, zone_id);
                        if id == zone_id {
                            assert(here == prepared);
                            lemma_after_pass_add(held, prepared, ids, later, later_ids);
                        } else {
                            assert(held_in(next, zone_id) == held);
                            assert(all =~= later);
                            assert(all_ids =~= later_ids);
                        }
                    }
                },
                Err(e) => {},
            }
        }
    } else {
        assert(all =~= Seq::empty());
    }
}

/// Whether the identifiers that the provider gives in two passes are new:
/// no two of them are the same, within a pass or across the two, and none
/// is in use in the account.
pub open spec fn new_identifiers(
    first: spec_fn(int, int) -> Seq<char>,
    second: spec_fn(int, int) -> Seq<char>,
    account: Account,
) -> bool {
    &&& forall|i: int, j: int, k: int, l: int|
        i != k || j != l ==> #[trigger] first(i, j) != #[trigger] first(k, l)
    &&& forall|i: int, j: int, k: int, l: int|
        i != k || j != l ==> #[trigger] second(i, j) != #[trigger] second(k, l)
    &&& forall|i: int, j: int, k: int, l: int| #[trigger] first(i, j) != #[trigger] second(k, l)
    &&& forall|zone_id: Seq<char>, i: int, j: int|
        !has_id(#[trigger] held_in(account, zone_id), #[trigger] first(i, j))
    &&& forall|zone_id: Seq<char>, i: int, j: int|
        !has_id(#[trigger] held_in(account, zone_id), #[trigger] second(i, j))
}

/// Each identifier given for the zones from `from` on is the one that the
/// provider supplies for some record of some such zone.
pub proof fn lemma_touched_ids(
    zones: Seq<ZoneEntryView>,
    ip: PublicIp,
    account_zones: Seq<CfZoneView>,
    from: int,
    zone_id: Seq<char>,
    supply: spec_fn(int, int) -> Seq<char>,
    at: int,
)
    requires
        0 <= at < touched_ids(zones, ip, account_zones, from, zone_id, supply).len(),
    ensures
        exists|k: int, j: int|
            k >= from && touched_ids(zones, ip, account_zones, from, zone_id, supply)[at]
                == #[trigger] supply(k, j),
    decreases zones.len() - from,
{
    let here = zone_ids(
        supply,
        from,
        touched_at(zones, ip, account_zones, from, zone_id).len() as int,
    );
    let all = touched_ids(zones, ip, account_zones, from, zone_id, supply);
    if at < here.len() {
        assert(all[at] == supply(from, at));
    } else {
        lemma_touched_ids(zones, ip, account_zones, from + 1, zone_id, supply, at - here.len());
        let later = touched_ids(zones, ip, account_zones, from + 1, zone_id, supply);
        let (k, j) = choose|k: int, j: int|
            k >= from + 1 && later[at - here.len()] == #[trigger] supply(k, j);
        assert(all[at] == supply(k, j));
    }
}

/// No identifier is given twice in a pass.
pub proof fn lemma_touched_ids_differ(
    zones: Seq<ZoneEntryView>,
    ip: PublicIp,
    account_zones: Seq<CfZoneView>,
    from: int,
    zone_id: Seq<char>,
    supply: spec_fn(int, int) -> Seq<char>,
    a: int,
    b: int,
)
    requires
        forall|i: int, j: int, k: int, l: int|
            i != k || j != l ==> #[trigger] supply(i, j) != #[trigger] supply(k, l),
        0 <= a < b < touched_ids(zones, ip, account_zones, from, zone_id, supply).len(),
    ensures
        touched_ids(zones, ip, account_zones, from, zone_id, supply)[a] != touched_ids(
            zones,
            ip,
            account_zones,
            from,
            zone_id,
            supply,
        )[b],
    decreases zones.len() - from,
{
    let here = zone_ids(
        supply,
        from,
        touched_at(zones, ip, account_zones, from, zone_id).len() as int,
    );
    let all = touched_ids(zones, ip, account_zones, from, zone_id, supply);
    let later = touched_ids(zones, ip, account_zones, from + 1, zone_id, supply);
    if b < here.len() {
        assert(all[a] == supply(from, a));
        assert(all[b] == supply(from, b));
    } else if a < here.len() {
        assert(all[a] == supply(from, a));
        lemma_touched_ids(zones, ip, account_zones, from + 1, zone_id, supply, b - here.len());
        let (k, j) = choose|k: int, j: int|
            k >= from + 1 && later[b - here.len()] == #[trigger] supply(k, j);
        assert(all[b] == supply(k, j));
    } else {
        lemma_touched_ids_differ(
            zones,
            ip,
            account_zones,
            from + 1,
            zone_id,
            supply,
            a - here.len(),
            b - here.len(),
        );
    }
}

/// The identifiers that two passes give in a zone are new to the zone: no
/// two are the same and none is in use there.
pub proof fn lemma_given_ids_are_new(
    zones: Seq<ZoneEntryView>,
    ip: PublicIp,
    account: Account,
    first: spec_fn(int, int) -> Seq<char>,
    second: spec_fn(int, int) -> Seq<char>,
    zone_id: Seq<char>,
)
    requires
        new_identifiers(first, second, account),
    ensures
        fresh(
            touched_ids(zones, ip, account.zones, 0, zone_id, first) + touched_ids(
                zones,
                ip,
                account.zones,
                0,
                zone_id,
                second,
            ),
            held_in(account, zone_id),
        ),
        fresh(touched_ids(zones, ip, account.zones, 0, zone_id, first), held_in(account, zone_id)),
{
    let held = held_in(account, zone_id);
    let first_ids = touched_ids(zones, ip, account.zones, 0, zone_id, first);
    let second_ids = touched_ids(zones, ip, account.zones, 0, zone_id, second);
    let both = first_ids + second_ids;
    assert forall|a: int| 0 <= a < both.len() implies !has_id(held, #[trigger] both[a]) by {
        if a < first_ids.len() {
            lemma_touched_ids(zones, ip, account.zones, 0, zone_id, first, a);
            let (k, j) = choose|k: int, j: int|
                k >= 0 && first_ids[a] == #[trigger] first(k, j);
            assert(!has_id(held_in(account, zone_id), first(k, j)));
        } else {
            let at = a - first_ids.len();
            lemma_touched_ids(zones, ip, account.zones, 0, zone_id, second, at);
            let (k, j) = choose|k: int, j: int|
                k >= 0 && second_ids[at] == #[trigger] second(k, j);
            assert(!has_id(held_in(account, zone_id), second(k, j)));
        }
    }
    assert forall|a: int, b: int| 0 <= a < b < both.len() implies both[a] != both[b] by {
        if b < first_ids.len() {
            lemma_touched_ids_differ(zones, ip, account.zones, 0, zone_id, first, a, b);
        } else if a >= first_ids.len() {
            lemma_touched_ids_differ(
                zones,
                ip,
                account.zones,
                0,
                zone_id,
                second,
                a - first_ids.len(),
                b - first_ids.len(),
            );
        } else {
            let at = b - first_ids.len();
            lemma_touched_ids(zones, ip, account.zones, 0, zone_id, first, a);
            lemma_touched_ids(zones, ip, account.zones, 0, zone_id, second, at);
            let (k, j) = choose|k: int, j: int|
                k >= 0 && first_ids[a] == #[trigger] first(k, j);
            let (m, n) = choose|m: int, n: int|
                m >= 0 && second_ids[at] == #[trigger] second(m, n);
            assert(first(k, j) != second(m, n));
        }
    }
    assert forall|a: int| 0 <= a < first_ids.len() implies !has_id(held, #[trigger] first_ids[a]) by {
        assert(both[a] == first_ids[a]);
    }
    assert forall|a: int, b: int| 0 <= a < b < first_ids.len() implies first_ids[a]
        != first_ids[b] by {
        assert(both[a] != both[b]);
    }
}

/// After a synchronisation that ends well, a zone of the account holds,
/// under the name of each record that was synchronised there, exactly one
/// record: the one that says what the last record of that name says.
pub proof fn lemma_one_record_per_name_after_sync(
    zones: Seq<ZoneEntryView>,
    ip: PublicIp,
    account: Account,
    first: spec_fn(int, int) -> Seq<char>,
    second: spec_fn(int, int) -> Seq<char>,
    zone_id: Seq<char>,
    name: Seq<char>,
)
    requires
        new_identifiers(first, second, account),
        distinct_ids(held_in(account, zone_id)),
        run(
            initial_state(zones, ip).resolve_from(0).0,
            initial_state(zones, ip).resolve_from(0).1,
            account,
            first,
        ).1 is Ok,
        names_one(touched(zones, ip, account.zones, 0, zone_id), name),
    ensures
        ({
            let (state, action) = initial_state(zones, ip).resolve_from(0);
            let once = run(state, action, account, first);
            let records = touched(zones, ip, account.zones, 0, zone_id);
            let last = last_of_name(records, name);
            &&& 0 <= last < records.len()
            &&& records[last].name == name
            &&& with_name(held_in(once.0, zone_id), name).len() == 1
            &&& bodies(with_name(held_in(once.0, zone_id), name)) == seq![
                record_body(records[last]),
            ]
        }),
{
    let (state, action) = initial_state(zones, ip).resolve_from(0);
    lemma_run(state, action, account, first);
    lemma_pass_by_zone(zones, ip, 0, account, first, zone_id);
    lemma_given_ids_are_new(zones, ip, account, first, second, zone_id);
    let held = held_in(account, zone_id);
    let records = touched(zones, ip, account.zones, 0, zone_id);
    let ids = touched_ids(zones, ip, account.zones, 0, zone_id, first);
    lemma_one_record_per_synced_name(held, records, ids, name);
    lemma_one_survivor_per_name(records, ids, name);
    let last = last_of_name(records, name);
    let one = with_name(held_in(pass_from(zones, ip, 0, account, first).0, zone_id), name);
    assert(bodies(one) =~= seq![record_body(records[last])]);
}

/// Two consecutive synchronisations of the same zones with the same public
/// addresses, against an account that nothing else changes: where the
/// first ends well, so does the second, the account has the zones it had,
/// and every zone holds after the second what it held after the first, but
/// for the identifiers.
///
/// The account is taken to answer as the provider's interface describes:
/// a listing returns the zones or records of the name asked for, a batch
/// is applied at once, and what is created gets an identifier that is not
/// in use.
pub proof fn lemma_second_synchronisation_changes_nothing(
    zones: Seq<ZoneEntryView>,
    ip: PublicIp,
    account: Account,
    first: spec_fn(int, int) -> Seq<char>,
    second: spec_fn(int, int) -> Seq<char>,
    zone_id: Seq<char>,
)
    requires
        new_identifiers(first, second, account),
        distinct_ids(held_in(account, zone_id)),
        run(
            initial_state(zones, ip).resolve_from(0).0,
            initial_state(zones, ip).resolve_from(0).1,
            account,
            first,
        ).1 is Ok,
    ensures
        ({
            let (state, action) = initial_state(zones, ip).resolve_from(0);
            let once = run(state, action, account, first);
            let twice = run(state, action, once.0, second);
            &&& twice.1 is Ok
            &&& twice.0.zones == account.zones
            &&& bodies(held_in(twice.0, zone_id)) == bodies(held_in(once.0, zone_id))
        }),
{
    let (state, action) = initial_state(zones, ip).resolve_from(0);
    lemma_run(state, action, account, first);
    let once = pass_from(zones, ip, 0, account, first);
    assert(run(state, action, account, first) == once);
    lemma_run(state, action, once.0, second);
    let twice = pass_from(zones, ip, 0, once.0, second);
    assert(run(state, action, once.0, second) == twice);
    lemma_pass_result(zones, ip, 0, account, first, account, first);
    lemma_pass_result(zones, ip, 0, once.0, second, account, first);
    lemma_pass_by_zone(zones, ip, 0, account, first, zone_id);
    lemma_pass_by_zone(zones, ip, 0, once.0, second, zone_id);
    let held = held_in(account, zone_id);
    let records = touched(zones, ip, account.zones, 0, zone_id);
    let first_ids = touched_ids(zones, ip, account.zones, 0, zone_id, first);
    let second_ids = touched_ids(zones, ip, account.zones, 0, zone_id, second);
    lemma_given_ids_are_new(zones, ip, account, first, second, zone_id);
    lemma_second_pass_changes_nothing(held, records, first_ids, second_ids);
}

} // verus!
