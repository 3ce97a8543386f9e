//! Laws of the model: what holds across several operations.

use vstd::prelude::*;

use crate::ident::{lemma_uuid_text_injective, uuid_text, Uuid};
use crate::sync::{
    acknowledged, adds_item, distinct_ids, distinct_temp_ids, first_match, inbox_view,
    lemma_first_match_from, pending, reconcile, remap_ids, rename_first, Command, Item, ModelView,
    ResponseView,
};

verus! {

/// A task added to the inbox shows in the inbox view at once, before any
/// sync: the view then holds a task with the added content.
pub proof fn lemma_added_item_visible(
    before: ModelView,
    after: ModelView,
    content: Seq<char>,
    temp_id: Uuid,
    command_uuid: Uuid,
)
    requires
        adds_item(before, after, content, temp_id, command_uuid),
    ensures
        exists|n: int|
            0 <= n < inbox_view(after.items, after.user.inbox_project_id@).len()
                && (#[trigger] inbox_view(after.items, after.user.inbox_project_id@)[n]).content@
                == content,
{
    let view = inbox_view(after.items, after.user.inbox_project_id@);
    let rest = inbox_view(before.items, before.user.inbox_project_id@);
    assert(view == rest.push(after.items.last()));
    assert(view[rest.len() as int].content@ == content);
}

/// Pruning the queue a second time with the same status map removes
/// nothing more.
pub proof fn lemma_pending_idempotent(
    commands: Seq<Command>,
    status: Option<Seq<(String, String)>>,
)
    ensures
        pending(pending(commands, status), status) == pending(commands, status),
    decreases commands.len(),
{
    if commands.len() > 0 {
        let init = commands.drop_last();
        let last = commands.last();
        lemma_pending_idempotent(init, status);
        let rest = pending(init, status);
        if !acknowledged(status, last.uuid) {
            assert(rest.push(last).drop_last() =~= rest);
        }
    }
}

/// Renaming changes nothing where no task has an id of the mapping.
pub proof fn lemma_remap_without_temp_ids(items: Seq<Item>, mapping: Seq<(Uuid, String)>)
    requires
        forall|a: int, j: int|
            0 <= a < items.len() && 0 <= j < mapping.len() ==> #[trigger] items[a].id@
                != uuid_text(#[trigger] mapping[j].0.value),
    ensures
        remap_ids(items, mapping) == items,
    decreases mapping.len(),
{
    if mapping.len() > 0 {
        let init = mapping.drop_last();
        assert forall|a: int, j: int|
            0 <= a < items.len() && 0 <= j < init.len() implies #[trigger] items[a].id@
            != uuid_text(#[trigger] init[j].0.value) by {
            assert(init[j] == mapping[j]);
        }
        lemma_remap_without_temp_ids(items, init);
        let t = uuid_text(mapping.last().0.value);
        lemma_first_match_from(items, t, 0);
        if first_match(items, t) < items.len() {
            assert(items[first_match(items, t)].id@ != uuid_text(
                mapping[mapping.len() - 1].0.value,
            ));
        }
    }
}

/// After the first `n` entries of `full` have been applied, no task holds
/// the temporary id of any of them, and no temporary id of `full` is held
/// by two tasks; provided that held before and that no id given by the
/// server is a temporary id of `full`.
pub proof fn lemma_remap_clears_temp_ids(items: Seq<Item>, full: Seq<(Uuid, String)>, n: int)
    requires
        0 <= n <= full.len(),
        forall|l: int, a: int, b: int|
            0 <= l < full.len() && 0 <= a < items.len() && 0 <= b < items.len() && #[trigger] items[a].id@
                == uuid_text(#[trigger] full[l].0.value) && #[trigger] items[b].id@ == uuid_text(
                full[l].0.value,
            ) ==> a == b,
        forall|j: int, l: int|
            0 <= j < full.len() && 0 <= l < full.len() ==> (#[trigger] full[j].1)@
                != uuid_text((#[trigger] full[l]).0.value),
    ensures
        ({
            let out = remap_ids(items, full.subrange(0, n));
            &&& out.len() == items.len()
            &&& forall|l: int, a: int, b: int|
                0 <= l < full.len() && 0 <= a < out.len() && 0 <= b < out.len() && #[trigger] out[a].id@
                    == uuid_text(#[trigger] full[l].0.value) && #[trigger] out[b].id@ == uuid_text(
                    full[l].0.value,
                ) ==> a == b
            &&& forall|a: int, j: int|
                0 <= a < out.len() && 0 <= j < n ==> #[trigger] out[a].id@ != uuid_text(
                    #[trigger] full[j].0.value,
                )
        }),
    decreases n,
{
    if n > 0 {
        lemma_remap_clears_temp_ids(items, full, n - 1);
        let prefix = full.subrange(0, n);
        assert(prefix.drop_last() =~= full.subrange(0, n - 1));
        assert(prefix.last() == full[n - 1]);
        let prev = remap_ids(items, full.subrange(0, n - 1));
        let t = uuid_text(full[n - 1].0.value);
        let to = full[n - 1].1;
        let out = rename_first(prev, t, to);
        assert(out == remap_ids(items, prefix));
        lemma_first_match_from(prev, t, 0);
        let k = first_match(prev, t);
        if k < prev.len() {
            assert(out[k].id == to);
            assert forall|x: int| 0 <= x < out.len() && x != k implies out[x] == prev[x] by {}
            assert forall|l: int, a: int, b: int|
                0 <= l < full.len() && 0 <= a < out.len() && 0 <= b < out.len()
                    && #[trigger] out[a].id@ == uuid_text(#[trigger] full[l].0.value)
                    && #[trigger] out[b].id@ == uuid_text(full[l].0.value) implies a == b by {
                assert(to@ != uuid_text(full[l].0.value));
                assert(a != k && b != k);
                assert(prev[a].id@ == uuid_text(full[l].0.value));
                assert(prev[b].id@ == uuid_text(full[l].0.value));
            }
            assert forall|a: int, j: int| 0 <= a < out.len() && 0 <= j < n implies #[trigger] out[a].id@
                != uuid_text(#[trigger] full[j].0.value) by {
                if a == k {
                    assert(to@ != uuid_text(full[j].0.value));
                } else if j == n - 1 {
                    if out[a].id@ == t {
                        assert(prev[a].id@ == uuid_text(full[n - 1].0.value));
                        assert(prev[k].id@ == uuid_text(full[n - 1].0.value));
                    }
                } else {
                    assert(prev[a].id@ != uuid_text(full[j].0.value));
                }
            }
        } else {
            assert forall|a: int, j: int| 0 <= a < out.len() && 0 <= j < n implies #[trigger] out[a].id@
                != uuid_text(#[trigger] full[j].0.value) by {
                if j < n - 1 {
                    assert(prev[a].id@ != uuid_text(full[j].0.value));
                }
            }
        }
    } else {
        assert(full.subrange(0, 0) =~= Seq::<(Uuid, String)>::empty());
    }
}

/// After the first `n` entries of `full` have been applied, a task whose id
/// is the text of one of their temporary ids has the server's id for it and
/// its other fields as before; every other task is as before. Provided the
/// tasks' ids are distinct, the temporary ids are distinct, and no id given
/// by the server is the text of a temporary id.
pub proof fn lemma_remap_prefix_pointwise(items: Seq<Item>, full: Seq<(Uuid, String)>, n: int)
    requires
        0 <= n <= full.len(),
        forall|a: int, b: int|
            0 <= a < items.len() && 0 <= b < items.len() && a != b ==> #[trigger] items[a].id@
                != #[trigger] items[b].id@,
        forall|a: int, b: int|
            0 <= a < full.len() && 0 <= b < full.len() && a != b ==> (#[trigger] full[a]).0
                != (#[trigger] full[b]).0,
        forall|j: int, l: int|
            0 <= j < full.len() && 0 <= l < full.len() ==> (#[trigger] full[j].1)@
                != uuid_text((#[trigger] full[l]).0.value),
    ensures
        ({
            let out = remap_ids(items, full.subrange(0, n));
            &&& out.len() == items.len()
            &&& forall|i: int, j: int|
                0 <= i < items.len() && 0 <= j < n && #[trigger] items[i].id@ == uuid_text(
                    #[trigger] full[j].0.value,
                ) ==> out[i] == (Item { id: full[j].1, ..items[i] })
            &&& forall|i: int|
                0 <= i < items.len() && (forall|j: int|
                    0 <= j < n ==> items[i].id@ != uuid_text(#[trigger] full[j].0.value))
                    ==> #[trigger] out[i] == items[i]
        }),
    decreases n,
{
    if n == 0 {
        assert(full.subrange(0, 0) =~= Seq::<(Uuid, String)>::empty());
    } else {
        lemma_remap_prefix_pointwise(items, full, n - 1);
        let prefix = full.subrange(0, n);
        assert(prefix.drop_last() =~= full.subrange(0, n - 1));
        assert(prefix.last() == full[n - 1]);
        let prev = remap_ids(items, full.subrange(0, n - 1));
        let t = uuid_text(full[n - 1].0.value);
        let to = full[n - 1].1;
        let out = rename_first(prev, t, to);
        assert(out == remap_ids(items, prefix));
        // A task had the id `t` before this step exactly when it had it at first.
        assert forall|x: int| 0 <= x < items.len() implies (#[trigger] prev[x].id@ == t <==> items[x].id@
            == t) by {
            if exists|j: int| 0 <= j < n - 1 && items[x].id@ == uuid_text(#[trigger] full[j].0.value) {
                let j = choose|j: int|
                    0 <= j < n - 1 && items[x].id@ == uuid_text(#[trigger] full[j].0.value);
                assert(prev[x] == (Item { id: full[j].1, ..items[x] }));
                assert(full[j].1@ != uuid_text(full[n - 1].0.value));
                if items[x].id@ == t {
                    lemma_uuid_text_injective(full[j].0.value, full[n - 1].0.value);
                    assert(full[j].0 == full[n - 1].0);
                }
            } else {
                assert(prev[x] == items[x]);
            }
        }
        lemma_first_match_from(prev, t, 0);
        let k = first_match(prev, t);
        if k < prev.len() {
            assert(items[k].id@ == t);
            assert(prev[k] == items[k]) by {
                assert forall|j: int| 0 <= j < n - 1 implies items[k].id@ != uuid_text(
                    #[trigger] full[j].0.value,
                ) by {
                    if items[k].id@ == uuid_text(full[j].0.value) {
                        lemma_uuid_text_injective(full[j].0.value, full[n - 1].0.value);
                        assert(full[j].0 == full[n - 1].0);
                    }
                }
            }
            assert forall|i: int, j: int|
                0 <= i < items.len() && 0 <= j < n && #[trigger] items[i].id@ == uuid_text(
                    #[trigger] full[j].0.value,
                ) implies out[i] == (Item { id: full[j].1, ..items[i] }) by {
                if j == n - 1 {
                    if i != k {
                        assert(items[i].id@ != items[k].id@);
                    }
                } else {
                    if i == k {
                        lemma_uuid_text_injective(full[j].0.value, full[n - 1].0.value);
                        assert(full[j].0 == full[n - 1].0);
                    }
                }
            }
            assert forall|i: int|
                0 <= i < items.len() && (forall|j: int|
                    0 <= j < n ==> items[i].id@ != uuid_text(#[trigger] full[j].0.value))
                    implies #[trigger] out[i] == items[i] by {
                assert(items[i].id@ != uuid_text(full[n - 1].0.value));
                assert(i != k);
                assert(prev[i] == items[i]);
            }
        } else {
            assert forall|i: int, j: int|
                0 <= i < items.len() && 0 <= j < n && #[trigger] items[i].id@ == uuid_text(
                    #[trigger] full[j].0.value,
                ) implies out[i] == (Item { id: full[j].1, ..items[i] }) by {
                if j == n - 1 {
                    assert(prev[i].id@ != t);
                }
            }
            assert forall|i: int|
                0 <= i < items.len() && (forall|j: int|
                    0 <= j < n ==> items[i].id@ != uuid_text(#[trigger] full[j].0.value))
                    implies #[trigger] out[i] == items[i] by {
                assert(prev[i] == items[i]);
            }
        }
    }
}

/// An incremental response renames tasks one by one: a task whose id is the
/// text of a temporary id of the mapping takes the server's id for it and
/// keeps its other fields; every other task is unchanged; entries that match
/// no task are ignored. This holds where the tasks' ids are distinct, the
/// temporary ids are distinct, and no id given by the server is the text of
/// a temporary id.
pub proof fn lemma_reconcile_remaps_pointwise(m: ModelView, r: ResponseView)
    requires
        distinct_ids(m.items),
        distinct_temp_ids(r.temp_id_mapping),
        !r.full_sync,
        forall|j: int, l: int|
            0 <= j < r.temp_id_mapping.len() && 0 <= l < r.temp_id_mapping.len()
                ==> (#[trigger] r.temp_id_mapping[j].1)@ != uuid_text(
                (#[trigger] r.temp_id_mapping[l]).0.value,
            ),
    ensures
        ({
            let out = reconcile(m, r).items;
            let map = r.temp_id_mapping;
            &&& out.len() == m.items.len()
            &&& forall|i: int, j: int|
                0 <= i < m.items.len() && 0 <= j < map.len() && #[trigger] m.items[i].id@
                    == uuid_text(#[trigger] map[j].0.value) ==> out[i] == (Item {
                    id: map[j].1,
                    ..m.items[i]
                })
            &&& forall|i: int|
                0 <= i < m.items.len() && (forall|j: int|
                    0 <= j < map.len() ==> m.items[i].id@ != uuid_text(#[trigger] map[j].0.value))
                    ==> #[trigger] out[i] == m.items[i]
        }),
{
    let map = r.temp_id_mapping;
    lemma_remap_prefix_pointwise(m.items, map, map.len() as int);
    assert(map.subrange(0, map.len() as int) =~= map);
}

/// Folding the same response into the model twice gives the model that
/// folding it in once gives. For an incremental response this needs the
/// tasks' ids to be distinct and no id given by the server to be one of the
/// response's temporary ids.
pub proof fn lemma_reconcile_idempotent(m: ModelView, r: ResponseView)
    requires
        !r.full_sync ==> distinct_ids(m.items),
        !r.full_sync ==> forall|j: int, l: int|
            0 <= j < r.temp_id_mapping.len() && 0 <= l < r.temp_id_mapping.len()
                ==> (#[trigger] r.temp_id_mapping[j].1)@ != uuid_text(
                (#[trigger] r.temp_id_mapping[l]).0.value,
            ),
    ensures
        reconcile(reconcile(m, r), r) == reconcile(m, r),
{
    let once = reconcile(m, r);
    lemma_pending_idempotent(m.commands, r.sync_status);
    if !r.full_sync {
        let full = r.temp_id_mapping;
        assert forall|l: int, a: int, b: int|
            0 <= l < full.len() && 0 <= a < m.items.len() && 0 <= b < m.items.len()
                && #[trigger] m.items[a].id@ == uuid_text(#[trigger] full[l].0.value)
                && #[trigger] m.items[b].id@ == uuid_text(full[l].0.value) implies a == b by {
            if a != b {
                assert(m.items[a].id@ != m.items[b].id@);
            }
        }
        lemma_remap_clears_temp_ids(m.items, full, full.len() as int);
        assert(full.subrange(0, full.len() as int) =~= full);
        lemma_remap_without_temp_ids(once.items, full);
    }
}

} // verus!
