//! What a pass does to the records that the provider holds, on a model of
//! the provider: a listing by name returns the records of that name, and a
//! batch removes the records it names and creates its record, at once.

use vstd::prelude::*;
use crate::provider::cloudflare::identifiers;
use crate::provider::cloudflare::purge_batch_of;
use crate::provider::cloudflare::record_body;
use crate::provider::cloudflare::sync::SyncActionView;
use crate::provider::cloudflare::sync::SyncEventView;
use crate::provider::cloudflare::sync::SyncStageView;
use crate::provider::cloudflare::sync::SyncStateView;
use crate::provider::cloudflare::BatchRecordView;
use crate::provider::cloudflare::CfRecordView;
use crate::record::ProviderRecordView;

verus! {

/// Whether no two of `remote` have the same identifier.
pub open spec fn distinct_ids(remote: Seq<CfRecordView>) -> bool {
    forall|i: int, j: int|
        0 <= i < j < remote.len() ==> (#[trigger] remote[i]).id != (#[trigger] remote[j]).id
}

/// Whether one of `remote` has the identifier `id`.
pub open spec fn has_id(remote: Seq<CfRecordView>, id: Seq<char>) -> bool {
    exists|i: int| 0 <= i < remote.len() && (#[trigger] remote[i]).id == id
}

/// The records of `remote` that are named `name`, in order: what the
/// provider lists under that name.
pub open spec fn with_name(remote: Seq<CfRecordView>, name: Seq<char>) -> Seq<CfRecordView>
    decreases remote.len(),
{
    if remote.len() == 0 {
        Seq::empty()
    } else if remote.last().name == name {
        with_name(remote.drop_last(), name).push(remote.last())
    } else {
        with_name(remote.drop_last(), name)
    }
}

/// The records of `remote` that are not named `name`, in order.
pub open spec fn without_name(remote: Seq<CfRecordView>, name: Seq<char>) -> Seq<CfRecordView>
    decreases remote.len(),
{
    if remote.len() == 0 {
        Seq::empty()
    } else if remote.last().name == name {
        without_name(remote.drop_last(), name)
    } else {
        without_name(remote.drop_last(), name).push(remote.last())
    }
}

/// The records of `remote` whose identifier is not among `ids`, in order.
pub open spec fn without_ids(remote: Seq<CfRecordView>, ids: Seq<Seq<char>>) -> Seq<CfRecordView>
    decreases remote.len(),
{
    if remote.len() == 0 {
        Seq::empty()
    } else if ids.contains(remote.last().id) {
        without_ids(remote.drop_last(), ids)
    } else {
        without_ids(remote.drop_last(), ids).push(remote.last())
    }
}

/// The record that the provider holds once it has created `body` under
/// the identifier `id`.
pub open spec fn created(body: CfRecordView, id: Seq<char>) -> CfRecordView {
    CfRecordView { id, ..body }
}

/// What the provider holds after a batch with one record to create: the
/// records that the batch does not remove, then the new record under the
/// identifier `id` that the provider gives it.
pub open spec fn applied(remote: Seq<CfRecordView>, batch: BatchRecordView, id: Seq<char>) -> Seq<
    CfRecordView,
> {
    let kept = match batch.deletes {
        Some(ids) => without_ids(remote, ids),
        None => remote,
    };
    match batch.posts {
        Some(posts) => if posts.len() > 0 {
            kept.push(created(posts[0], id))
        } else {
            kept
        },
        None => kept,
    }
}

/// What the provider holds after one prepared record was synchronised:
/// the records under its name were listed, and the batch composed from the
/// listing was applied.
pub open spec fn synced(remote: Seq<CfRecordView>, record: ProviderRecordView, id: Seq<char>) -> Seq<
    CfRecordView,
> {
    applied(remote, purge_batch_of(record, with_name(remote, record.name)), id)
}

/// What the provider holds after the prepared records of a zone were
/// synchronised in order; `ids` are the identifiers that the provider
/// gives to what it creates.
pub open spec fn after_pass(
    remote: Seq<CfRecordView>,
    records: Seq<ProviderRecordView>,
    ids: Seq<Seq<char>>,
) -> Seq<CfRecordView>
    decreases records.len(),
{
    if records.len() == 0 || ids.len() == 0 {
        remote
    } else {
        synced(after_pass(remote, records.drop_last(), ids.drop_last()), records.last(), ids.last())
    }
}

/// The records of `remote` without their identifiers: what they say.
pub open spec fn bodies(remote: Seq<CfRecordView>) -> Seq<CfRecordView> {
    Seq::new(remote.len(), |i: int| created(remote[i], Seq::empty()))
}

/// Whether `ids` can be given to new records of `remote`: no two are the
/// same, and none is in use.
pub open spec fn fresh(ids: Seq<Seq<char>>, remote: Seq<CfRecordView>) -> bool {
    &&& forall|i: int, j: int| 0 <= i < j < ids.len() ==> ids[i] != ids[j]
    &&& forall|i: int| 0 <= i < ids.len() ==> !has_id(remote, #[trigger] ids[i])
}

/// What is listed under a name are the records of that name.
pub proof fn lemma_with_name(remote: Seq<CfRecordView>, name: Seq<char>, x: CfRecordView)
    ensures
        with_name(remote, name).contains(x) <==> remote.contains(x) && x.name == name,
    decreases remote.len(),
{
    if remote.len() > 0 {
        let front = remote.drop_last();
        lemma_with_name(front, name, x);
        let listed = with_name(remote, name);
        let before = with_name(front, name);
        if listed.contains(x) {
            let k = choose|k: int| 0 <= k < listed.len() && listed[k] == x;
            if remote.last().name == name && k == listed.len() - 1 {
                assert(remote[remote.len() - 1] == x);
            } else {
                assert(before[k] == x);
                assert(before.contains(x));
                let j = choose|j: int| 0 <= j < front.len() && front[j] == x;
                assert(remote[j] == x);
            }
        }
        if remote.contains(x) && x.name == name {
            let j = choose|j: int| 0 <= j < remote.len() && remote[j] == x;
            if j == remote.len() - 1 {
                assert(listed[listed.len() - 1] == x);
            } else {
                assert(front[j] == x);
                assert(front.contains(x));
                let k = choose|k: int| 0 <= k < before.len() && before[k] == x;
                assert(listed[k] == x);
            }
        }
    }
}

/// What is left without a name are the records of other names.
pub proof fn lemma_without_name(remote: Seq<CfRecordView>, name: Seq<char>, x: CfRecordView)
    ensures
        without_name(remote, name).contains(x) <==> remote.contains(x) && x.name != name,
    decreases remote.len(),
{
    if remote.len() > 0 {
        let front = remote.drop_last();
        lemma_without_name(front, name, x);
        let rest = without_name(front, name);
        let kept = without_name(remote, name);
        if kept.contains(x) {
            let k = choose|k: int| 0 <= k < kept.len() && kept[k] == x;
            if remote.last().name != name && k == kept.len() - 1 {
                assert(remote[remote.len() - 1] == x);
            } else {
                assert(rest[k] == x);
                assert(rest.contains(x));
                let j = choose|j: int| 0 <= j < front.len() && front[j] == x;
                assert(remote[j] == x);
            }
        }
        if remote.contains(x) && x.name != name {
            let j = choose|j: int| 0 <= j < remote.len() && remote[j] == x;
            if j == remote.len() - 1 {
                assert(kept[kept.len() - 1] == x);
            } else {
                assert(front[j] == x);
                assert(front.contains(x));
                let k = choose|k: int| 0 <= k < rest.len() && rest[k] == x;
                assert(kept[k] == x);
            }
        }
    }
}

/// Every identifier that is left without a name was there before.
pub proof fn lemma_without_name_ids(remote: Seq<CfRecordView>, name: Seq<char>, id: Seq<char>)
    requires
        has_id(without_name(remote, name), id),
    ensures
        has_id(remote, id),
{
    let kept = without_name(remote, name);
    let k = choose|k: int| 0 <= k < kept.len() && (#[trigger] kept[k]).id == id;
    assert(kept.contains(kept[k]));
    lemma_without_name(remote, name, kept[k]);
    let j = choose|j: int| 0 <= j < remote.len() && remote[j] == kept[k];
    assert(remote[j].id == id);
}

/// Leaving records out keeps identifiers distinct.
pub proof fn lemma_without_name_distinct(remote: Seq<CfRecordView>, name: Seq<char>)
    requires
        distinct_ids(remote),
    ensures
        distinct_ids(without_name(remote, name)),
    decreases remote.len(),
{
    if remote.len() > 0 {
        let front = remote.drop_last();
        let rest = without_name(front, name);
        let kept = without_name(remote, name);
        assert(distinct_ids(front)) by {
            assert forall|i: int, j: int| 0 <= i < j < front.len() implies (#[trigger] front[i]).id
                != (#[trigger] front[j]).id by {
                assert(remote[i].id != remote[j].id);
            }
        }
        lemma_without_name_distinct(front, name);
        assert forall|i: int, j: int| 0 <= i < j < kept.len() implies (#[trigger] kept[i]).id != (
        #[trigger] kept[j]).id by {
            if j < rest.len() {
                assert(rest[i].id != rest[j].id);
            } else {
                assert(rest[i] == kept[i]);
                assert(has_id(rest, kept[i].id));
                lemma_without_name_ids(front, name, kept[i].id);
                let a = choose|a: int| 0 <= a < front.len() && (#[trigger] front[a]).id == kept[i].id;
                assert(remote[a].id != remote[remote.len() - 1].id);
            }
        }
    }
}

/// Where identifiers are distinct, removing the records that are listed
/// under a name by their identifiers removes the records of that name and
/// no others.
pub proof fn lemma_listed_ids_remove_the_name(remote: Seq<CfRecordView>, name: Seq<char>)
    requires
        distinct_ids(remote),
    ensures
        without_ids(remote, identifiers(with_name(remote, name))) == without_name(remote, name),
{
    let ids = identifiers(with_name(remote, name));
    let listed = with_name(remote, name);
    assert forall|i: int| 0 <= i < remote.len() implies (ids.contains((#[trigger] remote[i]).id)
        <==> remote[i].name == name) by {
        if remote[i].name == name {
            assert(remote.contains(remote[i]));
            lemma_with_name(remote, name, remote[i]);
            let k = choose|k: int| 0 <= k < listed.len() && listed[k] == remote[i];
            assert(ids[k] == remote[i].id);
        }
        if ids.contains(remote[i].id) {
            let k = choose|k: int| 0 <= k < ids.len() && ids[k] == remote[i].id;
            assert(listed[k].id == remote[i].id);
            assert(listed.contains(listed[k]));
            lemma_with_name(remote, name, listed[k]);
            let j = choose|j: int| 0 <= j < remote.len() && remote[j] == listed[k];
            if j < i {
                assert(remote[j].id != remote[i].id);
            } else if i < j {
                assert(remote[i].id != remote[j].id);
            }
        }
    }
    lemma_removal_agrees(remote, ids, name, remote.len() as int);
    assert(remote.take(remote.len() as int) =~= remote);
}

/// Removal by identifier and removal by name agree on a prefix on which
/// the identifiers to remove are those of the records of that name.
pub proof fn lemma_removal_agrees(
    remote: Seq<CfRecordView>,
    ids: Seq<Seq<char>>,
    name: Seq<char>,
    count: int,
)
    requires
        0 <= count <= remote.len(),
        forall|i: int|
            0 <= i < remote.len() ==> (ids.contains((#[trigger] remote[i]).id) <==> remote[i].name
                == name),
    ensures
        without_ids(remote.take(count), ids) == without_name(remote.take(count), name),
    decreases count,
{
    if count > 0 {
        lemma_removal_agrees(remote, ids, name, count - 1);
        assert(remote.take(count).drop_last() =~= remote.take(count - 1));
        assert(remote.take(count).last() == remote[count - 1]);
    }
}

/// Synchronising a record replaces the records of its name by the one
/// record that it describes, and leaves the others as they are.
pub proof fn lemma_synced(remote: Seq<CfRecordView>, record: ProviderRecordView, id: Seq<char>)
    requires
        distinct_ids(remote),
    ensures
        synced(remote, record, id) == without_name(remote, record.name).push(
            created(record_body(record), id),
        ),
        !has_id(remote, id) ==> distinct_ids(synced(remote, record, id)),
{
    lemma_listed_ids_remove_the_name(remote, record.name);
    lemma_without_name_distinct(remote, record.name);
    let kept = without_name(remote, record.name);
    let after = synced(remote, record, id);
    assert(after == kept.push(created(record_body(record), id)));
    if !has_id(remote, id) {
        assert forall|i: int, j: int| 0 <= i < j < after.len() implies (#[trigger] after[i]).id != (
        #[trigger] after[j]).id by {
            if j < kept.len() {
                assert(kept[i].id != kept[j].id);
            } else {
                assert(kept[i] == after[i]);
                assert(has_id(kept, after[i].id));
                lemma_without_name_ids(remote, record.name, after[i].id);
            }
        }
    }
}

/// Every identifier that is there after a record was synchronised was
/// there before, or is the new one.
pub proof fn lemma_synced_ids(
    remote: Seq<CfRecordView>,
    record: ProviderRecordView,
    id: Seq<char>,
    other: Seq<char>,
)
    requires
        distinct_ids(remote),
        has_id(synced(remote, record, id), other),
    ensures
        has_id(remote, other) || other == id,
{
    lemma_synced(remote, record, id);
    let kept = without_name(remote, record.name);
    let after = synced(remote, record, id);
    let k = choose|k: int| 0 <= k < after.len() && (#[trigger] after[k]).id == other;
    if k < kept.len() {
        assert(kept[k].id == other);
        assert(has_id(kept, other));
        lemma_without_name_ids(remote, record.name, other);
    }
}

/// Whether none of `remote` is named `name`.
pub open spec fn free_of(remote: Seq<CfRecordView>, name: Seq<char>) -> bool {
    forall|i: int| 0 <= i < remote.len() ==> (#[trigger] remote[i]).name != name
}

/// Where no record has a name, nothing is listed under it and nothing is
/// left out without it.
pub proof fn lemma_free_of(remote: Seq<CfRecordView>, name: Seq<char>)
    requires
        free_of(remote, name),
    ensures
        without_name(remote, name) == remote,
        with_name(remote, name) == Seq::<CfRecordView>::empty(),
    decreases remote.len(),
{
    if remote.len() > 0 {
        let front = remote.drop_last();
        assert(free_of(front, name)) by {
            assert forall|i: int| 0 <= i < front.len() implies (#[trigger] front[i]).name
                != name by {
                assert(remote[i].name != name);
            }
        }
        lemma_free_of(front, name);
        assert(remote[remote.len() - 1].name != name);
        assert(front.push(remote.last()) =~= remote);
    } else {
        assert(remote =~= Seq::empty());
    }
}

/// What is left without a name has no record of that name.
pub proof fn lemma_without_name_is_free(remote: Seq<CfRecordView>, name: Seq<char>)
    ensures
        free_of(without_name(remote, name), name),
{
    let kept = without_name(remote, name);
    assert forall|i: int| 0 <= i < kept.len() implies (#[trigger] kept[i]).name != name by {
        assert(kept.contains(kept[i]));
        lemma_without_name(remote, name, kept[i]);
    }
}

/// Synchronising the same record a second time removes exactly the record
/// that the first time created, and creates one that says the same: what
/// the provider holds is unchanged but for the identifier.
pub proof fn lemma_second_sync_changes_nothing(
    remote: Seq<CfRecordView>,
    record: ProviderRecordView,
    first: Seq<char>,
    second: Seq<char>,
)
    requires
        distinct_ids(remote),
        !has_id(remote, first),
        !has_id(remote, second),
        first != second,
    ensures
        with_name(synced(remote, record, first), record.name) == seq![
            created(record_body(record), first),
        ],
        purge_batch_of(record, with_name(synced(remote, record, first), record.name)).deletes
            == Some(seq![first]),
        bodies(synced(synced(remote, record, first), record, second)) == bodies(
            synced(remote, record, first),
        ),
{
    let name = record.name;
    let kept = without_name(remote, name);
    let one = created(record_body(record), first);
    let two = created(record_body(record), second);
    lemma_synced(remote, record, first);
    let once = synced(remote, record, first);
    assert(once == kept.push(one));
    lemma_without_name_is_free(remote, name);
    lemma_free_of(kept, name);
    assert(once.drop_last() =~= kept);
    assert(with_name(once, name) =~= seq![one]);
    assert(identifiers(seq![one]) =~= seq![first]);
    lemma_synced(once, record, second);
    assert(without_name(once, name) == kept);
    let twice = synced(once, record, second);
    assert(twice == kept.push(two));
    assert(bodies(twice) =~= bodies(once));
}

/// Whether one of `records` is named `name`.
pub open spec fn names_one(records: Seq<ProviderRecordView>, name: Seq<char>) -> bool {
    exists|i: int| 0 <= i < records.len() && (#[trigger] records[i]).name == name
}

/// The records of `remote` whose name none of `records` has: what a pass
/// over `records` leaves alone.
pub open spec fn outside(remote: Seq<CfRecordView>, records: Seq<ProviderRecordView>) -> Seq<
    CfRecordView,
>
    decreases records.len(),
{
    if records.len() == 0 {
        remote
    } else {
        without_name(outside(remote, records.drop_last()), records.last().name)
    }
}

/// What a pass over `records` creates and does not remove again: for each
/// name, the record that was synchronised last.
pub open spec fn survivors(records: Seq<ProviderRecordView>, ids: Seq<Seq<char>>) -> Seq<
    CfRecordView,
>
    decreases records.len(),
{
    if records.len() == 0 || ids.len() == 0 {
        Seq::empty()
    } else {
        without_name(survivors(records.drop_last(), ids.drop_last()), records.last().name).push(
            created(record_body(records.last()), ids.last()),
        )
    }
}

/// Leaving a name out of two lists one after the other is leaving it out
/// of each.
pub proof fn lemma_without_name_add(a: Seq<CfRecordView>, b: Seq<CfRecordView>, name: Seq<char>)
    ensures
        without_name(a + b, name) == without_name(a, name) + without_name(b, name),
    decreases b.len(),
{
    if b.len() == 0 {
        assert(a + b =~= a);
        assert(without_name(a, name) + without_name(b, name) =~= without_name(a, name));
    } else {
        lemma_without_name_add(a, b.drop_last(), name);
        assert((a + b).drop_last() =~= a + b.drop_last());
        assert((a + b).last() == b.last());
        assert(without_name(a + b, name) =~= without_name(a, name) + without_name(b, name));
    }
}

/// What a pass leaves alone of two lists one after the other is what it
/// leaves alone of each.
pub proof fn lemma_outside_add(
    a: Seq<CfRecordView>,
    b: Seq<CfRecordView>,
    records: Seq<ProviderRecordView>,
)
    ensures
        outside(a + b, records) == outside(a, records) + outside(b, records),
    decreases records.len(),
{
    if records.len() > 0 {
        let front = records.drop_last();
        lemma_outside_add(a, b, front);
        lemma_without_name_add(outside(a, front), outside(b, front), records.last().name);
    }
}

/// What a pass leaves alone are the records whose name none of its
/// records has.
pub proof fn lemma_outside(
    remote: Seq<CfRecordView>,
    records: Seq<ProviderRecordView>,
    x: CfRecordView,
)
    ensures
        outside(remote, records).contains(x) <==> remote.contains(x) && !names_one(records, x.name),
    decreases records.len(),
{
    if records.len() > 0 {
        let front = records.drop_last();
        lemma_outside(remote, front, x);
        lemma_without_name(outside(remote, front), records.last().name, x);
        if names_one(front, x.name) {
            let i = choose|i: int| 0 <= i < front.len() && (#[trigger] front[i]).name == x.name;
            assert(records[i].name == x.name);
        }
        if x.name == records.last().name {
            assert(records[records.len() - 1].name == x.name);
        }
        if names_one(records, x.name) {
            let i = choose|i: int| 0 <= i < records.len() && (#[trigger] records[i]).name == x.name;
            if i < front.len() {
                assert(front[i].name == x.name);
            }
        }
    }
}

/// A pass leaves alone every list in which none of its names occurs.
pub proof fn lemma_outside_keeps(remote: Seq<CfRecordView>, records: Seq<ProviderRecordView>)
    requires
        forall|i: int| 0 <= i < remote.len() ==> !names_one(records, (#[trigger] remote[i]).name),
    ensures
        outside(remote, records) == remote,
    decreases records.len(),
{
    if records.len() > 0 {
        let front = records.drop_last();
        assert forall|i: int| 0 <= i < remote.len() implies !names_one(
            front,
            (#[trigger] remote[i]).name,
        ) by {
            if names_one(front, remote[i].name) {
                let k = choose|k: int|
                    0 <= k < front.len() && (#[trigger] front[k]).name == remote[i].name;
                assert(records[k].name == remote[i].name);
            }
        }
        lemma_outside_keeps(remote, front);
        assert(free_of(remote, records.last().name)) by {
            assert forall|i: int| 0 <= i < remote.len() implies (#[trigger] remote[i]).name
                != records.last().name by {
                if remote[i].name == records.last().name {
                    assert(records[records.len() - 1].name == remote[i].name);
                }
            }
        }
        lemma_free_of(remote, records.last().name);
    }
}

/// Where every record has a name, nothing is left without it.
pub proof fn lemma_all_of(remote: Seq<CfRecordView>, name: Seq<char>)
    requires
        forall|i: int| 0 <= i < remote.len() ==> (#[trigger] remote[i]).name == name,
    ensures
        without_name(remote, name) == Seq::<CfRecordView>::empty(),
    decreases remote.len(),
{
    if remote.len() > 0 {
        let front = remote.drop_last();
        assert forall|i: int| 0 <= i < front.len() implies (#[trigger] front[i]).name == name by {
            assert(remote[i].name == name);
        }
        lemma_all_of(front, name);
        assert(remote[remote.len() - 1].name == name);
    }
}

/// A pass leaves nothing of a list in which only its names occur.
pub proof fn lemma_outside_drops(remote: Seq<CfRecordView>, records: Seq<ProviderRecordView>)
    requires
        forall|i: int| 0 <= i < remote.len() ==> names_one(records, (#[trigger] remote[i]).name),
        remote.len() > 0 ==> records.len() > 0,
    ensures
        outside(remote, records) == Seq::<CfRecordView>::empty(),
{
    if records.len() == 0 {
        assert(remote =~= Seq::empty());
    } else {
        let front = records.drop_last();
        let rest = outside(remote, front);
        assert forall|i: int| 0 <= i < rest.len() implies (#[trigger] rest[i]).name
            == records.last().name by {
            assert(rest.contains(rest[i]));
            lemma_outside(remote, front, rest[i]);
            let j = choose|j: int| 0 <= j < remote.len() && remote[j] == rest[i];
            assert(names_one(records, remote[j].name));
            let k = choose|k: int|
                0 <= k < records.len() && (#[trigger] records[k]).name == remote[j].name;
            if k < front.len() {
                assert(front[k].name == rest[i].name);
            }
        }
        lemma_all_of(rest, records.last().name);
    }
}

/// Every record that a pass creates has the name of one of its records.
pub proof fn lemma_survivors_are_named(
    records: Seq<ProviderRecordView>,
    ids: Seq<Seq<char>>,
    i: int,
)
    requires
        0 <= i < survivors(records, ids).len(),
    ensures
        names_one(records, survivors(records, ids)[i].name),
    decreases records.len(),
{
    let all = survivors(records, ids);
    let front = records.drop_last();
    let rest = without_name(survivors(front, ids.drop_last()), records.last().name);
    if i == all.len() - 1 {
        assert(records[records.len() - 1].name == all[i].name);
    } else {
        assert(rest[i] == all[i]);
        assert(rest.contains(rest[i]));
        lemma_without_name(survivors(front, ids.drop_last()), records.last().name, rest[i]);
        let before = survivors(front, ids.drop_last());
        let j = choose|j: int| 0 <= j < before.len() && before[j] == rest[i];
        lemma_survivors_are_named(front, ids.drop_last(), j);
        let k = choose|k: int| 0 <= k < front.len() && (#[trigger] front[k]).name == before[j].name;
        assert(records[k].name == all[i].name);
    }
}

/// After a pass the provider holds what the pass left alone, then what it
/// created and did not remove again; identifiers stay distinct, and none
/// appears that was not there or was not given.
pub proof fn lemma_after_pass(
    remote: Seq<CfRecordView>,
    records: Seq<ProviderRecordView>,
    ids: Seq<Seq<char>>,
    other: Seq<char>,
)
    requires
        distinct_ids(remote),
        fresh(ids, remote),
        ids.len() == records.len(),
    ensures
        after_pass(remote, records, ids) == outside(remote, records) + survivors(records, ids),
        distinct_ids(after_pass(remote, records, ids)),
        has_id(after_pass(remote, records, ids), other) ==> has_id(remote, other) || ids.contains(
            other,
        ),
    decreases records.len(),
{
    if records.len() == 0 {
        assert(outside(remote, records) + survivors(records, ids) =~= remote);
    } else {
        let front = records.drop_last();
        let given = ids.drop_last();
        let last = records.last();
        let id = ids.last();
        assert(fresh(given, remote)) by {
            assert forall|i: int| 0 <= i < given.len() implies !has_id(
                remote,
                #[trigger] given[i],
            ) by {
                assert(given[i] == ids[i]);
            }
            assert forall|i: int, j: int| 0 <= i < j < given.len() implies given[i] != given[j] by {
                assert(ids[i] != ids[j]);
            }
        }
        lemma_after_pass(remote, front, given, other);
        lemma_after_pass(remote, front, given, id);
        let before = after_pass(remote, front, given);
        assert(!has_id(before, id)) by {
            assert(id == ids[ids.len() - 1]);
            if given.contains(id) {
                let k = choose|k: int| 0 <= k < given.len() && given[k] == id;
                assert(ids[k] != ids[ids.len() - 1]);
            }
        }
        lemma_synced(before, last, id);
        lemma_without_name_add(outside(remote, front), survivors(front, given), last.name);
        let after = after_pass(remote, records, ids);
        assert(after =~= outside(remote, records) + survivors(records, ids));
        if has_id(after, other) {
            lemma_synced_ids(before, last, id, other);
            if other == id {
                assert(ids[ids.len() - 1] == other);
            } else if given.contains(other) {
                let k = choose|k: int| 0 <= k < given.len() && given[k] == other;
                assert(ids[k] == other);
            }
        }
    }
}

/// What the records say does not depend on leaving a name out before or
/// after looking.
pub proof fn lemma_bodies_without_name(remote: Seq<CfRecordView>, name: Seq<char>)
    ensures
        bodies(without_name(remote, name)) == without_name(bodies(remote), name),
    decreases remote.len(),
{
    if remote.len() > 0 {
        let front = remote.drop_last();
        lemma_bodies_without_name(front, name);
        assert(bodies(remote).drop_last() =~= bodies(front));
        assert(bodies(remote).last().name == remote.last().name);
        assert(bodies(without_name(remote, name)) =~= without_name(bodies(remote), name));
    } else {
        assert(bodies(remote) =~= Seq::empty());
        assert(bodies(without_name(remote, name)) =~= Seq::empty());
    }
}

/// What a pass creates says the same whatever identifiers it is given.
pub proof fn lemma_survivors_say_the_same(
    records: Seq<ProviderRecordView>,
    first: Seq<Seq<char>>,
    second: Seq<Seq<char>>,
)
    requires
        first.len() == records.len(),
        second.len() == records.len(),
    ensures
        bodies(survivors(records, first)) == bodies(survivors(records, second)),
    decreases records.len(),
{
    if records.len() > 0 {
        let front = records.drop_last();
        let name = records.last().name;
        lemma_survivors_say_the_same(front, first.drop_last(), second.drop_last());
        lemma_bodies_without_name(survivors(front, first.drop_last()), name);
        lemma_bodies_without_name(survivors(front, second.drop_last()), name);
        let kept_first = without_name(survivors(front, first.drop_last()), name);
        let kept_second = without_name(survivors(front, second.drop_last()), name);
        assert(bodies(kept_first) == bodies(kept_second));
        let body = record_body(records.last());
        assert(bodies(kept_first.push(created(body, first.last()))) =~= bodies(kept_first).push(
            created(body, Seq::empty()),
        ));
        assert(bodies(kept_second.push(created(body, second.last()))) =~= bodies(kept_second).push(
            created(body, Seq::empty()),
        ));
    }
}

/// Two consecutive passes over the same prepared records leave the
/// provider, after the second, with what it held after the first: the
/// second pass removes what the first created and creates records that say
/// the same. Only the identifiers, which the provider chooses, differ.
///
/// The provider is taken to answer as its interface describes: a listing
/// by name returns the records of that name, a batch is applied at once,
/// and every new record gets an identifier that is not in use.
pub proof fn lemma_second_pass_changes_nothing(
    remote: Seq<CfRecordView>,
    records: Seq<ProviderRecordView>,
    first: Seq<Seq<char>>,
    second: Seq<Seq<char>>,
)
    requires
        distinct_ids(remote),
        first.len() == records.len(),
        second.len() == records.len(),
        fresh(first + second, remote),
    ensures
        bodies(after_pass(after_pass(remote, records, first), records, second)) == bodies(
            after_pass(remote, records, first),
        ),
{
    let both = first + second;
    assert(fresh(first, remote)) by {
        assert forall|i: int| 0 <= i < first.len() implies !has_id(remote, #[trigger] first[i]) by {
            assert(both[i] == first[i]);
        }
        assert forall|i: int, j: int| 0 <= i < j < first.len() implies first[i] != first[j] by {
            assert(both[i] != both[j]);
        }
    }
    let once = after_pass(remote, records, first);
    lemma_after_pass(remote, records, first, Seq::empty());
    assert(fresh(second, once)) by {
        assert forall|i: int| 0 <= i < second.len() implies !has_id(once, #[trigger] second[i]) by {
            lemma_after_pass(remote, records, first, second[i]);
            assert(both[first.len() + i] == second[i]);
            if first.contains(second[i]) {
                let k = choose|k: int| 0 <= k < first.len() && first[k] == second[i];
                assert(both[k] != both[first.len() + i]);
            }
        }
        assert forall|i: int, j: int| 0 <= i < j < second.len() implies second[i]
            != second[j] by {
            assert(both[first.len() + i] != both[first.len() + j]);
        }
    }
    lemma_after_pass(once, records, second, Seq::empty());
    let twice = after_pass(once, records, second);
    let alone = outside(remote, records);
    let made = survivors(records, first);
    lemma_outside_add(alone, made, records);
    assert(outside(alone, records) == alone) by {
        assert forall|i: int| 0 <= i < alone.len() implies !names_one(
            records,
            (#[trigger] alone[i]).name,
        ) by {
            assert(alone.contains(alone[i]));
            lemma_outside(remote, records, alone[i]);
        }
        lemma_outside_keeps(alone, records);
    }
    assert(outside(made, records) == Seq::<CfRecordView>::empty()) by {
        assert forall|i: int| 0 <= i < made.len() implies names_one(
            records,
            (#[trigger] made[i]).name,
        ) by {
            lemma_survivors_are_named(records, first, i);
        }
        lemma_outside_drops(made, records);
    }
    assert(twice =~= alone + survivors(records, second));
    lemma_survivors_say_the_same(records, first, second);
    assert(bodies(alone + survivors(records, second)) =~= bodies(alone) + bodies(
        survivors(records, second),
    ));
    assert(bodies(alone + made) =~= bodies(alone) + bodies(made));
}

/// The number of records of the current zone that a synchronisation has
/// yet to list.
pub open spec fn records_left(state: SyncStateView) -> int {
    match state.stage {
        SyncStageView::Listing { prepared, index, .. } => prepared.len() - index,
        _ => 0,
    }
}

/// What the provider holds once a synchronisation that waits for a
/// listing has been driven through the rest of its zone, against a
/// provider that holds `remote`, answers every listing with the records of
/// the name asked for, accepts every batch, and gives the record created
/// for the record at position `i` the identifier `ids[i]`.
pub open spec fn driven(state: SyncStateView, remote: Seq<CfRecordView>, ids: Seq<Seq<char>>) -> Seq<
    CfRecordView,
>
    decreases records_left(state),
{
    match state.stage {
        SyncStageView::Listing { prepared, index, .. } => {
            if 0 <= index < prepared.len() {
                let listed = with_name(remote, prepared[index].name);
                let (submitting, action) = state.step(SyncEventView::Records(Ok(listed)));
                match action {
                    SyncActionView::SubmitBatch { batch, .. } => {
                        let held = applied(remote, batch, ids[index]);
                        let next = submitting.step(SyncEventView::Batch(Ok(()))).0;
                        if 0 <= records_left(next) < records_left(state) {
                            driven(next, held, ids)
                        } else {
                            held
                        }
                    },
                    _ => remote,
                }
            } else {
                remote
            }
        },
        _ => remote,
    }
}

/// What the provider holds after the records from position `from` on were
/// synchronised in order.
pub open spec fn after_rest(
    remote: Seq<CfRecordView>,
    records: Seq<ProviderRecordView>,
    ids: Seq<Seq<char>>,
    from: int,
) -> Seq<CfRecordView>
    decreases records.len() - from,
{
    if from < 0 || from >= records.len() {
        remote
    } else {
        after_rest(synced(remote, records[from], ids[from]), records, ids, from + 1)
    }
}

/// Synchronising the first records and then the rest is synchronising
/// them all.
pub proof fn lemma_after_rest(
    remote: Seq<CfRecordView>,
    records: Seq<ProviderRecordView>,
    ids: Seq<Seq<char>>,
    from: int,
)
    requires
        0 <= from <= records.len(),
        ids.len() == records.len(),
    ensures
        after_rest(after_pass(remote, records.take(from), ids.take(from)), records, ids, from)
            == after_pass(remote, records, ids),
    decreases records.len() - from,
{
    if from < records.len() {
        lemma_after_rest(remote, records, ids, from + 1);
        assert(records.take(from + 1).drop_last() =~= records.take(from));
        assert(ids.take(from + 1).drop_last() =~= ids.take(from));
        assert(records.take(from + 1).last() == records[from]);
        assert(ids.take(from + 1).last() == ids[from]);
    } else {
        assert(records.take(from) =~= records);
        assert(ids.take(from) =~= ids);
    }
}

/// Driving a synchronisation through the rest of a zone does to the
/// provider what synchronising the remaining records one by one does.
pub proof fn lemma_driven(state: SyncStateView, remote: Seq<CfRecordView>, ids: Seq<Seq<char>>)
    requires
        state.well_formed(),
        state.stage is Listing,
        ids.len() == state.stage->Listing_prepared.len(),
    ensures
        driven(state, remote, ids) == after_rest(
            remote,
            state.stage->Listing_prepared,
            ids,
            state.stage->Listing_index,
        ),
    decreases records_left(state),
{
    let prepared = state.stage->Listing_prepared;
    let index = state.stage->Listing_index;
    let zone = state.stage->Listing_zone;
    let listed = with_name(remote, prepared[index].name);
    let (submitting, action) = state.step(SyncEventView::Records(Ok(listed)));
    let held = synced(remote, prepared[index], ids[index]);
    let next = submitting.step(SyncEventView::Batch(Ok(()))).0;
    assert(action is SubmitBatch);
    assert(action->SubmitBatch_batch == purge_batch_of(prepared[index], listed));
    assert(applied(remote, action->SubmitBatch_batch, ids[index]) == held);
    assert(after_rest(remote, prepared, ids, index) == after_rest(held, prepared, ids, index + 1));
    if index + 1 < prepared.len() {
        assert(next.stage == SyncStageView::Listing { zone, prepared, index: index + 1 });
        assert(records_left(next) == records_left(state) - 1);
        lemma_driven(next, held, ids);
        assert(driven(state, remote, ids) == driven(next, held, ids));
    } else {
        assert(!(next.stage is Listing));
        assert(records_left(next) == 0);
        assert(records_left(state) == 1);
        assert(driven(next, held, ids) == held);
        assert(driven(state, remote, ids) == driven(next, held, ids));
        assert(after_rest(held, prepared, ids, index + 1) == held);
    }
}

/// Brought to the level of the state machine: where a zone is
/// synchronised twice, with the same records and the same public
/// addresses, driving the second synchronisation through the zone leaves
/// the provider with what it held after the first, but for the
/// identifiers.
pub proof fn lemma_second_run_changes_nothing(
    state: SyncStateView,
    remote: Seq<CfRecordView>,
    first: Seq<Seq<char>>,
    second: Seq<Seq<char>>,
)
    requires
        state.well_formed(),
        state.stage is Listing,
        state.stage->Listing_index == 0,
        distinct_ids(remote),
        first.len() == state.stage->Listing_prepared.len(),
        second.len() == state.stage->Listing_prepared.len(),
        fresh(first + second, remote),
    ensures
        bodies(driven(state, driven(state, remote, first), second)) == bodies(
            driven(state, remote, first),
        ),
{
    let prepared = state.stage->Listing_prepared;
    lemma_driven(state, remote, first);
    lemma_after_rest(remote, prepared, first, 0);
    assert(prepared.take(0) =~= Seq::empty());
    let once = after_pass(remote, prepared, first);
    assert(driven(state, remote, first) == once);
    lemma_driven(state, once, second);
    lemma_after_rest(once, prepared, second, 0);
    lemma_second_pass_changes_nothing(remote, prepared, first, second);
}

/// Listing a name in two lists one after the other is listing it in each.
pub proof fn lemma_with_name_add(a: Seq<CfRecordView>, b: Seq<CfRecordView>, name: Seq<char>)
    ensures
        with_name(a + b, name) == with_name(a, name) + with_name(b, name),
    decreases b.len(),
{
    if b.len() == 0 {
        assert(a + b =~= a);
        assert(with_name(a, name) + with_name(b, name) =~= with_name(a, name));
    } else {
        lemma_with_name_add(a, b.drop_last(), name);
        assert((a + b).drop_last() =~= a + b.drop_last());
        assert((a + b).last() == b.last());
        assert(with_name(a + b, name) =~= with_name(a, name) + with_name(b, name));
    }
}

/// Leaving out one name does not change what is listed under another.
pub proof fn lemma_with_name_of_others(
    remote: Seq<CfRecordView>,
    left_out: Seq<char>,
    name: Seq<char>,
)
    requires
        left_out != name,
    ensures
        with_name(without_name(remote, left_out), name) == with_name(remote, name),
    decreases remote.len(),
{
    if remote.len() > 0 {
        lemma_with_name_of_others(remote.drop_last(), left_out, name);
        if remote.last().name != left_out {
            assert(without_name(remote, left_out).drop_last() =~= without_name(
                remote.drop_last(),
                left_out,
            ));
        }
    }
}

/// The position of the last of `records` that is named `name`, or -1.
pub open spec fn last_of_name(records: Seq<ProviderRecordView>, name: Seq<char>) -> int
    decreases records.len(),
{
    if records.len() == 0 {
        -1
    } else if records.last().name == name {
        records.len() - 1
    } else {
        last_of_name(records.drop_last(), name)
    }
}

/// Of the records that a pass creates, one is left under each name: the
/// one created for the last record of that name.
pub proof fn lemma_one_survivor_per_name(
    records: Seq<ProviderRecordView>,
    ids: Seq<Seq<char>>,
    name: Seq<char>,
)
    requires
        ids.len() == records.len(),
        names_one(records, name),
    ensures
        0 <= last_of_name(records, name) < records.len(),
        records[last_of_name(records, name)].name == name,
        with_name(survivors(records, ids), name) == seq![
            created(
                record_body(records[last_of_name(records, name)]),
                ids[last_of_name(records, name)],
            ),
        ],
    decreases records.len(),
{
    let i = choose|i: int| 0 <= i < records.len() && (#[trigger] records[i]).name == name;
    let front = records.drop_last();
    let given = ids.drop_last();
    let last = records.last();
    let made = created(record_body(last), ids.last());
    let before = survivors(front, given);
    let kept = without_name(before, last.name);
    assert(survivors(records, ids) == kept.push(made));
    assert(kept.push(made).drop_last() =~= kept);
    if last.name == name {
        lemma_without_name_is_free(before, name);
        lemma_free_of(kept, name);
        assert(with_name(kept.push(made), name) =~= seq![made]);
    } else {
        assert(front[i].name == name);
        lemma_one_survivor_per_name(front, given, name);
        lemma_with_name_of_others(before, last.name, name);
        let k = last_of_name(front, name);
        assert(records[k] == front[k]);
        assert(ids[k] == given[k]);
    }
}

/// After a pass the provider holds, under the name of each record of the
/// pass, exactly one record: the one that says what the last record of
/// that name says. Records of other names are as they were.
pub proof fn lemma_one_record_per_synced_name(
    remote: Seq<CfRecordView>,
    records: Seq<ProviderRecordView>,
    ids: Seq<Seq<char>>,
    name: Seq<char>,
)
    requires
        distinct_ids(remote),
        fresh(ids, remote),
        ids.len() == records.len(),
    ensures
        names_one(records, name) ==> with_name(after_pass(remote, records, ids), name) == seq![
            created(
                record_body(records[last_of_name(records, name)]),
                ids[last_of_name(records, name)],
            ),
        ],
        !names_one(records, name) ==> with_name(after_pass(remote, records, ids), name)
            == with_name(remote, name),
{
    lemma_after_pass(remote, records, ids, Seq::empty());
    let alone = outside(remote, records);
    let made = survivors(records, ids);
    lemma_with_name_add(alone, made, name);
    if names_one(records, name) {
        assert(free_of(alone, name)) by {
            assert forall|i: int| 0 <= i < alone.len() implies (#[trigger] alone[i]).name
                != name by {
                assert(alone.contains(alone[i]));
                lemma_outside(remote, records, alone[i]);
            }
        }
        lemma_free_of(alone, name);
        lemma_one_survivor_per_name(records, ids, name);
        assert(with_name(alone, name) + with_name(made, name) =~= with_name(made, name));
    } else {
        assert(free_of(made, name)) by {
            assert forall|i: int| 0 <= i < made.len() implies (#[trigger] made[i]).name
                != name by {
                lemma_survivors_are_named(records, ids, i);
            }
        }
        lemma_free_of(made, name);
        lemma_outside_lists(remote, records, name);
        assert(with_name(alone, name) + with_name(made, name) =~= with_name(alone, name));
    }
}

/// What a pass leaves alone still lists every name that the pass does not
/// touch as it was listed.
pub proof fn lemma_outside_lists(
    remote: Seq<CfRecordView>,
    records: Seq<ProviderRecordView>,
    name: Seq<char>,
)
    requires
        !names_one(records, name),
    ensures
        with_name(outside(remote, records), name) == with_name(remote, name),
    decreases records.len(),
{
    if records.len() > 0 {
        let front = records.drop_last();
        assert(!names_one(front, name)) by {
            if names_one(front, name) {
                let i = choose|i: int| 0 <= i < front.len() && (#[trigger] front[i]).name == name;
                assert(records[i].name == name);
            }
        }
        lemma_outside_lists(remote, front, name);
        assert(records[records.len() - 1].name != name);
        lemma_with_name_of_others(outside(remote, front), records.last().name, name);
    }
}

} // verus!
