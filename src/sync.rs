//! The local model, the queue of commands waiting for the server, and the
//! reconciliation of a server response into the model.

use vstd::prelude::*;

use crate::ident::{
    is_v4, lemma_some_candidate_free, lemma_spare_value, lemma_uuid_text_injective, random_uuid,
    spare_uuid, spare_value, unhit, uuid_text, Uuid,
};
pub use crate::model::item::Item;

verus! {

/// The account data kept locally. An empty `inbox_project_id` means that the
/// inbox is not known yet: it then matches no item.
#[derive(Debug, PartialEq, Eq)]
pub struct User {
    pub full_name: String,
    pub inbox_project_id: String,
}

impl Clone for User {
    fn clone(&self) -> (r: Self)
        ensures
            r == *self,
    {
        User { full_name: self.full_name.clone(), inbox_project_id: self.inbox_project_id.clone() }
    }
}

impl Default for User {
    /// A placeholder user: the name "First Last" and no inbox.
    fn default() -> (r: Self)
        ensures
            r.full_name@ == "First Last"@,
            r.inbox_project_id@.len() == 0,
    {
        User { full_name: "First Last".to_owned(), inbox_project_id: String::new() }
    }
}

/// The arguments of a command that creates a task.
#[derive(Debug, PartialEq, Eq)]
pub struct AddItemCommandArgs {
    pub project_id: String,
    pub content: String,
}

/// The arguments of a command that completes a task.
#[derive(Debug, PartialEq, Eq)]
pub struct CompleteItemCommandArgs {
    pub id: String,
}

/// The arguments of a queued command, one variant per kind of command.
#[derive(Debug, PartialEq, Eq)]
pub enum CommandArgs {
    AddItemCommandArgs(AddItemCommandArgs),
    CompleteItemCommandArgs(CompleteItemCommandArgs),
}

impl Clone for CommandArgs {
    fn clone(&self) -> (r: Self)
        ensures
            r == *self,
    {
        match self {
            CommandArgs::AddItemCommandArgs(a) => CommandArgs::AddItemCommandArgs(
                AddItemCommandArgs { project_id: a.project_id.clone(), content: a.content.clone() },
            ),
            CommandArgs::CompleteItemCommandArgs(a) => CommandArgs::CompleteItemCommandArgs(
                CompleteItemCommandArgs { id: a.id.clone() },
            ),
        }
    }
}

/// A mutation that was applied locally and waits for the server's
/// acknowledgment. `uuid` identifies it to the server; `temp_id` is the
/// temporary id of the task it created, if it created one.
#[derive(Debug, PartialEq, Eq)]
pub struct Command {
    pub request_type: String,
    pub uuid: Uuid,
    pub temp_id: Option<Uuid>,
    pub args: CommandArgs,
}

impl Clone for Command {
    fn clone(&self) -> (r: Self)
        ensures
            r == *self,
    {
        Command {
            request_type: self.request_type.clone(),
            uuid: self.uuid,
            temp_id: self.temp_id,
            args: self.args.clone(),
        }
    }
}

/// What is sent to the server: the cursor, the kinds of resources wanted,
/// and the whole queue of pending commands.
#[derive(Debug)]
pub struct Request {
    pub commands: Vec<Command>,
    pub resource_types: Vec<String>,
    pub sync_token: String,
}

/// What the server answers. `sync_status` pairs a command's uuid text with
/// its outcome; `temp_id_mapping` pairs a temporary id with the id that the
/// server gave the task. Each is a map: in a well-formed response no key
/// occurs twice (`ResponseView::wf`).
#[derive(Debug)]
pub struct Response {
    pub sync_token: String,
    pub items: Vec<Item>,
    pub user: Option<User>,
    pub full_sync: bool,
    pub sync_status: Option<Vec<(String, String)>>,
    pub temp_id_mapping: Vec<(Uuid, String)>,
}

/// The local store: the cursor, the tasks, the account and the queue of
/// commands that the server has not acknowledged.
#[derive(Debug)]
pub struct Model {
    pub sync_token: String,
    pub items: Vec<Item>,
    pub user: User,
    pub commands: Vec<Command>,
}

/// Why an operation on the model did not take place.
#[derive(Debug, Clone, Copy, PartialEq, Eq, Structural)]
pub enum ModelError {
    /// No task with the given id, or no task at the given inbox position.
    NotFound,
    /// The inbox project is not known yet, so a task cannot be added to it.
    NoInbox,
}

/// The contents of a `Model`.
pub struct ModelView {
    pub sync_token: Seq<char>,
    pub items: Seq<Item>,
    pub user: User,
    pub commands: Seq<Command>,
}

/// The contents of a `Response`.
pub struct ResponseView {
    pub sync_token: Seq<char>,
    pub items: Seq<Item>,
    pub user: Option<User>,
    pub full_sync: bool,
    pub sync_status: Option<Seq<(String, String)>>,
    pub temp_id_mapping: Seq<(Uuid, String)>,
}

impl View for Model {
    type V = ModelView;

    open spec fn view(&self) -> ModelView {
        ModelView {
            sync_token: self.sync_token@,
            items: self.items@,
            user: self.user,
            commands: self.commands@,
        }
    }
}

impl View for Response {
    type V = ResponseView;

    open spec fn view(&self) -> ResponseView {
        ResponseView {
            sync_token: self.sync_token@,
            items: self.items@,
            user: self.user,
            full_sync: self.full_sync,
            sync_status: status_view(self.sync_status),
            temp_id_mapping: self.temp_id_mapping@,
        }
    }
}

/// The entries of a status map, if there is one.
pub open spec fn status_view(status: Option<Vec<(String, String)>>) -> Option<Seq<(String, String)>> {
    match status {
        Some(s) => Some(s@),
        None => None,
    }
}

/// The position of the first task at or after `i` whose id is `id`, or the
/// length of `items` if there is none.
pub open spec fn first_match_from(items: Seq<Item>, id: Seq<char>, i: int) -> int
    decreases items.len() - i,
{
    if i < 0 || i >= items.len() {
        items.len() as int
    } else if items[i].id@ == id {
        i
    } else {
        first_match_from(items, id, i + 1)
    }
}

/// The position of the first task whose id is `id`, or the length of
/// `items` if there is none.
pub open spec fn first_match(items: Seq<Item>, id: Seq<char>) -> int {
    first_match_from(items, id, 0)
}

/// `items` with the first task whose id is `from` given the id `to`.
pub open spec fn rename_first(items: Seq<Item>, from: Seq<char>, to: String) -> Seq<Item> {
    let k = first_match(items, from);
    if k < items.len() {
        items.update(k, Item { id: to, ..items[k] })
    } else {
        items
    }
}

/// `items` after each temporary id of `mapping`, in order, is replaced by
/// the server's id for it.
pub open spec fn remap_ids(items: Seq<Item>, mapping: Seq<(Uuid, String)>) -> Seq<Item>
    decreases mapping.len(),
{
    if mapping.len() == 0 {
        items
    } else {
        let last = mapping.last();
        rename_first(remap_ids(items, mapping.drop_last()), uuid_text(last.0.value), last.1)
    }
}

/// The outcome that the first entry for `key` at or after `i` gives.
pub open spec fn status_from(status: Seq<(String, String)>, key: Seq<char>, i: int) -> Option<
    Seq<char>,
>
    decreases status.len() - i,
{
    if i < 0 || i >= status.len() {
        None
    } else if status[i].0@ == key {
        Some(status[i].1@)
    } else {
        status_from(status, key, i + 1)
    }
}

/// The outcome that `status` gives for `key`, if any.
pub open spec fn status_of(status: Seq<(String, String)>, key: Seq<char>) -> Option<Seq<char>> {
    status_from(status, key, 0)
}

/// Whether the server reported the command with this uuid as done.
pub open spec fn acknowledged(status: Option<Seq<(String, String)>>, uuid: Uuid) -> bool {
    match status {
        Some(s) => status_of(s, uuid_text(uuid.value)) == Some("ok"@),
        None => false,
    }
}

/// The commands of `commands` that `status` does not acknowledge, in order.
pub open spec fn pending(commands: Seq<Command>, status: Option<Seq<(String, String)>>) -> Seq<
    Command,
>
    decreases commands.len(),
{
    if commands.len() == 0 {
        commands
    } else {
        let rest = pending(commands.drop_last(), status);
        if acknowledged(status, commands.last().uuid) {
            rest
        } else {
            rest.push(commands.last())
        }
    }
}

/// A command is left pending exactly when it was queued and the status map
/// does not report it done; what is left is unchanged.
pub proof fn lemma_pending_contains(
    commands: Seq<Command>,
    status: Option<Seq<(String, String)>>,
    c: Command,
)
    ensures
        pending(commands, status).contains(c) <==> (commands.contains(c) && !acknowledged(
            status,
            c.uuid,
        )),
    decreases commands.len(),
{
    if commands.len() > 0 {
        let init = commands.drop_last();
        let last = commands.last();
        lemma_pending_contains(init, status, c);
        assert(commands =~= init.push(last));
        assert(commands.contains(c) <==> (init.contains(c) || last == c)) by {
            if commands.contains(c) {
                let i = choose|i: int| 0 <= i < commands.len() && commands[i] == c;
                if i < commands.len() - 1 {
                    assert(init[i] == c);
                }
            }
            if init.contains(c) {
                let i = choose|i: int| 0 <= i < init.len() && init[i] == c;
                assert(commands[i] == c);
            }
            if last == c {
                assert(commands[commands.len() - 1] == c);
            }
        }
        let rest = pending(init, status);
        if !acknowledged(status, last.uuid) {
            assert(rest.push(last).contains(c) <==> (rest.contains(c) || last == c)) by {
                if rest.push(last).contains(c) {
                    let i = choose|i: int| 0 <= i < rest.push(last).len() && rest.push(last)[i] == c;
                    if i < rest.len() {
                        assert(rest[i] == c);
                    }
                }
                if rest.contains(c) {
                    let i = choose|i: int| 0 <= i < rest.len() && rest[i] == c;
                    assert(rest.push(last)[i] == c);
                }
                if last == c {
                    assert(rest.push(last)[rest.len() as int] == c);
                }
            }
        }
    }
}

/// The model after the response `r` has been folded into `m`.
pub open spec fn reconcile(m: ModelView, r: ResponseView) -> ModelView {
    ModelView {
        sync_token: r.sync_token,
        items: if r.full_sync {
            r.items
        } else {
            remap_ids(m.items, r.temp_id_mapping)
        },
        user: match r.user {
            Some(u) => u,
            None => m.user,
        },
        commands: pending(m.commands, r.sync_status),
    }
}

/// Whether `item` shows in the inbox whose project id is `inbox`. An empty
/// inbox id matches nothing.
pub open spec fn in_inbox(item: Item, inbox: Seq<char>) -> bool {
    inbox.len() > 0 && item.project_id@ == inbox && !item.checked
}

/// The open tasks of the inbox project, in the order of `items`.
pub open spec fn inbox_view(items: Seq<Item>, inbox: Seq<char>) -> Seq<Item>
    decreases items.len(),
{
    if items.len() == 0 {
        items
    } else {
        let rest = inbox_view(items.drop_last(), inbox);
        if in_inbox(items.last(), inbox) {
            rest.push(items.last())
        } else {
            rest
        }
    }
}

/// `items` with the first task whose id is `id` marked complete.
pub open spec fn complete_first(items: Seq<Item>, id: Seq<char>) -> Seq<Item> {
    let k = first_match(items, id);
    if k < items.len() {
        items.update(k, Item { checked: true, ..items[k] })
    } else {
        items
    }
}

/// Whether `item` is the task that adding `content` to the inbox `project_id`
/// under the temporary id `temp_id` creates.
pub open spec fn is_new_item(item: Item, project_id: String, content: Seq<char>, temp_id: Uuid) -> bool {
    &&& item.id@ == uuid_text(temp_id.value)
    &&& item.project_id == project_id
    &&& item.content@ == content
    &&& !item.checked
    &&& item.due is None
}

/// Whether `c` is the command that creates that task.
pub open spec fn is_add_command(
    c: Command,
    project_id: String,
    content: Seq<char>,
    temp_id: Uuid,
    command_uuid: Uuid,
) -> bool {
    &&& c.request_type@ == "item_add"@
    &&& c.uuid == command_uuid
    &&& c.temp_id == Some(temp_id)
    &&& c.args matches CommandArgs::AddItemCommandArgs(a) && a.project_id == project_id
        && a.content@ == content
}

/// Whether `c` is the command that completes the task with id `id`.
pub open spec fn is_complete_command(c: Command, id: String, command_uuid: Uuid) -> bool {
    &&& c.request_type@ == "item_complete"@
    &&& c.uuid == command_uuid
    &&& c.temp_id is None
    &&& c.args == CommandArgs::CompleteItemCommandArgs(CompleteItemCommandArgs { id })
}

/// Whether `after` is `before` with `content` added to the known inbox: one new
/// open task at the end of the tasks, one new command at the end of the
/// queue, and nothing else changed.
pub open spec fn adds_item(
    before: ModelView,
    after: ModelView,
    content: Seq<char>,
    temp_id: Uuid,
    command_uuid: Uuid,
) -> bool {
    &&& before.user.inbox_project_id@.len() > 0
    &&& after.sync_token == before.sync_token
    &&& after.user == before.user
    &&& after.items.len() == before.items.len() + 1
    &&& after.items.drop_last() == before.items
    &&& is_new_item(after.items.last(), before.user.inbox_project_id, content, temp_id)
    &&& after.commands.len() == before.commands.len() + 1
    &&& after.commands.drop_last() == before.commands
    &&& is_add_command(
        after.commands.last(),
        before.user.inbox_project_id,
        content,
        temp_id,
        command_uuid,
    )
}

/// Whether `after` is `before` with the task whose id is `id` completed and
/// a command that says so queued, and nothing else changed.
pub open spec fn completes_item(
    before: ModelView,
    after: ModelView,
    id: String,
    command_uuid: Uuid,
) -> bool {
    &&& after.sync_token == before.sync_token
    &&& after.user == before.user
    &&& after.items == complete_first(before.items, id@)
    &&& after.commands.len() == before.commands.len() + 1
    &&& after.commands.drop_last() == before.commands
    &&& is_complete_command(after.commands.last(), id, command_uuid)
}

/// No two tasks of `items` share an id.
pub open spec fn distinct_ids(items: Seq<Item>) -> bool {
    forall|a: int, b: int|
        0 <= a < items.len() && 0 <= b < items.len() && a != b ==> #[trigger] items[a].id@
            != #[trigger] items[b].id@
}

/// No two entries of a temporary-id mapping share a temporary id.
pub open spec fn distinct_temp_ids(mapping: Seq<(Uuid, String)>) -> bool {
    forall|a: int, b: int|
        0 <= a < mapping.len() && 0 <= b < mapping.len() && a != b ==> (#[trigger] mapping[a]).0
            != (#[trigger] mapping[b]).0
}

/// No two commands of `commands` share a uuid.
pub open spec fn distinct_uuids(commands: Seq<Command>) -> bool {
    forall|a: int, b: int|
        0 <= a < commands.len() && 0 <= b < commands.len() && a != b
            ==> #[trigger] commands[a].uuid != #[trigger] commands[b].uuid
}

/// Pruning the queue keeps its uuids distinct.
pub proof fn lemma_pending_distinct(commands: Seq<Command>, status: Option<Seq<(String, String)>>)
    requires
        distinct_uuids(commands),
    ensures
        distinct_uuids(pending(commands, status)),
    decreases commands.len(),
{
    if commands.len() > 0 {
        let init = commands.drop_last();
        let last = commands.last();
        assert(distinct_uuids(init)) by {
            assert forall|a: int, b: int|
                0 <= a < init.len() && 0 <= b < init.len() && a != b implies #[trigger] init[a].uuid
                != #[trigger] init[b].uuid by {
                assert(init[a] == commands[a] && init[b] == commands[b]);
            }
        }
        lemma_pending_distinct(init, status);
        let rest = pending(init, status);
        if !acknowledged(status, last.uuid) {
            let out = rest.push(last);
            assert forall|a: int, b: int|
                0 <= a < out.len() && 0 <= b < out.len() && a != b implies #[trigger] out[a].uuid
                != #[trigger] out[b].uuid by {
                if a == rest.len() || b == rest.len() {
                    let x = if a == rest.len() {
                        b
                    } else {
                        a
                    };
                    assert(rest.contains(rest[x]));
                    lemma_pending_contains(init, status, rest[x]);
                    let i = choose|i: int| 0 <= i < init.len() && init[i] == rest[x];
                    assert(commands[i] == init[i]);
                    assert(commands[commands.len() - 1] == last);
                }
            }
        }
    }
}

impl ResponseView {
    /// The keys of the status map, and those of the temporary-id mapping,
    /// are distinct.
    pub open spec fn wf(self) -> bool {
        &&& (self.sync_status matches Some(st) ==> forall|a: int, b: int|
            0 <= a < st.len() && 0 <= b < st.len() && a != b ==> (#[trigger] st[a]).0@
                != (#[trigger] st[b]).0@)
        &&& distinct_temp_ids(self.temp_id_mapping)
    }
}

impl ModelView {
    /// No two tasks share an id and no two queued commands share a uuid.
    pub open spec fn wf(self) -> bool {
        &&& distinct_ids(self.items)
        &&& distinct_uuids(self.commands)
    }
}

/// What `first_match_from` finds: no task before it in the range has the id,
/// and the task there, if any, has it.
pub proof fn lemma_first_match_from(items: Seq<Item>, id: Seq<char>, i: int)
    requires
        0 <= i <= items.len(),
    ensures
        i <= first_match_from(items, id, i) <= items.len(),
        first_match_from(items, id, i) < items.len() ==> items[first_match_from(items, id, i)].id@
            == id,
        forall|x: int| i <= x < first_match_from(items, id, i) ==> items[x].id@ != id,
    decreases items.len() - i,
{
    if i < items.len() && items[i].id@ != id {
        lemma_first_match_from(items, id, i + 1);
    }
}

/// Every task of the inbox view is a task of the model.
pub proof fn lemma_inbox_member(items: Seq<Item>, inbox: Seq<char>, n: int)
    requires
        0 <= n < inbox_view(items, inbox).len(),
    ensures
        exists|j: int| 0 <= j < items.len() && items[j] == inbox_view(items, inbox)[n],
    decreases items.len(),
{
    let init = items.drop_last();
    let rest = inbox_view(init, inbox);
    if n < rest.len() {
        lemma_inbox_member(init, inbox, n);
        let j = choose|j: int| 0 <= j < init.len() && init[j] == rest[n];
        assert(items[j] == inbox_view(items, inbox)[n]);
    } else {
        assert(items[items.len() - 1] == inbox_view(items, inbox)[n]);
    }
}


/// The position of the first task whose id is `id`, or the length of `items`.
fn find_item(items: &Vec<Item>, id: &String) -> (k: usize)
    ensures
        k as int == first_match(items@, id@),
{
    let mut i: usize = 0;
    while i < items.len()
        invariant
            0 <= i <= items@.len(),
            first_match_from(items@, id@, i as int) == first_match(items@, id@),
        decreases items@.len() - i,
    {
        if items[i].id == *id {
            return i;
        }
        i = i + 1;
    }
    i
}

/// The position of the first entry of `status` whose key is `key`, if any.
fn find_status(status: &Vec<(String, String)>, key: &String) -> (r: Option<usize>)
    ensures
        match r {
            Some(i) => i < status@.len() && status_of(status@, key@) == Some(status@[i as int].1@),
            None => status_of(status@, key@) is None,
        },
{
    let mut i: usize = 0;
    while i < status.len()
        invariant
            0 <= i <= status@.len(),
            status_from(status@, key@, i as int) == status_of(status@, key@),
        decreases status@.len() - i,
    {
        if status[i].0 == *key {
            return Some(i);
        }
        i = i + 1;
    }
    None
}

/// Whether the server reported the command with this uuid as done.
fn is_acknowledged(status: &Option<Vec<(String, String)>>, uuid: Uuid) -> (r: bool)
    ensures
        r == acknowledged(status_view(*status), uuid),
{
    match status {
        Some(s) => {
            let key = uuid.text();
            match find_status(s, &key) {
                Some(i) => {
                    let ok = "ok".to_owned();
                    s[i].1 == ok
                },
                None => false,
            }
        },
        None => false,
    }
}

/// Gives the first task with each temporary id of `mapping`, in order, the
/// server's id for it.
fn apply_temp_id_mapping(items: &mut Vec<Item>, mapping: &Vec<(Uuid, String)>)
    ensures
        final(items)@ == remap_ids(old(items)@, mapping@),
{
    let mut j: usize = 0;
    while j < mapping.len()
        invariant
            0 <= j <= mapping@.len(),
            items@ == remap_ids(old(items)@, mapping@.subrange(0, j as int)),
        decreases mapping@.len() - j,
    {
        proof {
            assert(mapping@.subrange(0, j + 1).drop_last() =~= mapping@.subrange(0, j as int));
        }
        let temp = mapping[j].0.text();
        let k = find_item(items, &temp);
        if k < items.len() {
            let mut renamed = items[k].clone();
            renamed.id = mapping[j].1.clone();
            items.set(k, renamed);
        }
        j = j + 1;
    }
    proof {
        assert(mapping@.subrange(0, mapping@.len() as int) =~= mapping@);
    }
}

/// Drops from `commands` those that `status` acknowledges, keeping the
/// order of the rest.
fn drop_acknowledged(commands: &mut Vec<Command>, status: &Option<Vec<(String, String)>>)
    ensures
        final(commands)@ == pending(old(commands)@, status_view(*status)),
{
    let ghost st = status_view(*status);
    let mut kept: Vec<Command> = Vec::new();
    let mut i: usize = 0;
    while i < commands.len()
        invariant
            0 <= i <= commands@.len(),
            commands@ == old(commands)@,
            st == status_view(*status),
            kept@ == pending(commands@.subrange(0, i as int), st),
        decreases commands@.len() - i,
    {
        proof {
            assert(commands@.subrange(0, i + 1).drop_last() =~= commands@.subrange(0, i as int));
            assert(commands@.subrange(0, i + 1).last() == commands@[i as int]);
        }
        if !is_acknowledged(status, commands[i].uuid) {
            kept.push(commands[i].clone());
        }
        i = i + 1;
    }
    proof {
        assert(commands@.subrange(0, commands@.len() as int) =~= commands@);
    }
    *commands = kept;
}

/// Whether no queued command has the uuid `u`.
pub open spec fn uuid_unused(commands: Seq<Command>, u: Uuid) -> bool {
    forall|i: int| 0 <= i < commands.len() ==> #[trigger] commands[i].uuid != u
}

/// Whether no task has the id `id`.
pub open spec fn id_unused(items: Seq<Item>, id: Seq<char>) -> bool {
    forall|i: int| 0 <= i < items.len() ==> #[trigger] items[i].id@ != id
}

/// Whether no queued command has the uuid `u`.
fn uuid_is_unused(commands: &Vec<Command>, u: Uuid) -> (r: bool)
    ensures
        r == uuid_unused(commands@, u),
{
    let mut i: usize = 0;
    while i < commands.len()
        invariant
            0 <= i <= commands@.len(),
            forall|j: int| 0 <= j < i ==> #[trigger] commands@[j].uuid != u,
        decreases commands@.len() - i,
    {
        if commands[i].uuid == u {
            return false;
        }
        i = i + 1;
    }
    true
}

/// Whether no task has the id `id`.
fn id_is_unused(items: &Vec<Item>, id: &String) -> (r: bool)
    ensures
        r == id_unused(items@, id@),
{
    let k = find_item(items, id);
    proof {
        lemma_first_match_from(items@, id@, 0);
    }
    k == items.len()
}

/// A random version-4 uuid that no queued command has. Where the draw
/// clashes, the first spare identifier that is free is taken; among the
/// first `n + 1` of them one always is, for `n` queued commands.
fn fresh_command_uuid(commands: &Vec<Command>) -> (r: Uuid)
    ensures
        is_v4(r.value),
        uuid_unused(commands@, r),
{
    let u = random_uuid();
    if uuid_is_unused(commands, u) {
        return u;
    }
    let n = commands.len();
    let mut c: usize = 0;
    loop
        invariant
            c <= n,
            n == commands@.len(),
            forall|d: int|
                0 <= d < c ==> !uuid_unused(
                    commands@,
                    Uuid { value: #[trigger] spare_value(d as u64) },
                ),
        ensures
            forall|d: int|
                0 <= d <= n ==> !uuid_unused(
                    commands@,
                    Uuid { value: #[trigger] spare_value(d as u64) },
                ),
        decreases n - c,
    {
        let s = spare_uuid(c as u64);
        if uuid_is_unused(commands, s) {
            return s;
        }
        if c == n {
            break;
        }
        c = c + 1;
    }
    proof {
        let hits = |i: int, d: int|
            0 <= d <= n && commands@[i].uuid.value == spare_value(d as u64);
        assert forall|i: int, d: int, e: int|
            0 <= i < n && #[trigger] hits(i, d) && #[trigger] hits(i, e) implies d == e by {
            lemma_spare_value(d as u64, e as u64);
        }
        lemma_some_candidate_free(n as nat, hits);
        let d = choose|d: int| 0 <= d <= n && #[trigger] unhit(n as nat, hits, d);
        assert(!uuid_unused(commands@, Uuid { value: spare_value(d as u64) }));
        let i = choose|i: int|
            0 <= i < commands@.len() && #[trigger] commands@[i].uuid == Uuid {
                value: spare_value(d as u64),
            };
        assert(hits(i, d));
    }
    u
}

/// A random version-4 uuid whose text is the id of no task. Where the draw
/// clashes, the first spare identifier whose text is free is taken; among
/// the first `n + 1` of them one always is, for `n` tasks.
fn fresh_temp_id(items: &Vec<Item>) -> (r: Uuid)
    ensures
        is_v4(r.value),
        id_unused(items@, uuid_text(r.value)),
{
    let u = random_uuid();
    if id_is_unused(items, &u.text()) {
        return u;
    }
    let n = items.len();
    let mut c: usize = 0;
    loop
        invariant
            c <= n,
            n == items@.len(),
            forall|d: int| 0 <= d < c ==> !id_unused(items@, uuid_text(#[trigger] spare_value(d as u64))),
        ensures
            forall|d: int|
                0 <= d <= n ==> !id_unused(items@, uuid_text(#[trigger] spare_value(d as u64))),
        decreases n - c,
    {
        let s = spare_uuid(c as u64);
        if id_is_unused(items, &s.text()) {
            return s;
        }
        if c == n {
            break;
        }
        c = c + 1;
    }
    proof {
        let hits = |i: int, d: int|
            0 <= d <= n && items@[i].id@ == uuid_text(spare_value(d as u64));
        assert forall|i: int, d: int, e: int|
            0 <= i < n && #[trigger] hits(i, d) && #[trigger] hits(i, e) implies d == e by {
            lemma_uuid_text_injective(spare_value(d as u64), spare_value(e as u64));
            lemma_spare_value(d as u64, e as u64);
        }
        lemma_some_candidate_free(n as nat, hits);
        let d = choose|d: int| 0 <= d <= n && #[trigger] unhit(n as nat, hits, d);
        assert(!id_unused(items@, uuid_text(spare_value(d as u64))));
        let i = choose|i: int|
            0 <= i < items@.len() && #[trigger] items@[i].id@ == uuid_text(spare_value(d as u64));
        assert(hits(i, d));
    }
    u
}

impl Model {
    /// The inbox view: the open tasks of the inbox project, in the order of
    /// the model's tasks. Empty while the inbox project is not known.
    pub fn get_inbox_items(&self) -> (r: Vec<&Item>)
        ensures
            r@.map_values(|x: &Item| *x) == inbox_view(self.items@, self.user.inbox_project_id@),
    {
        let inbox = &self.user.inbox_project_id;
        let known = !inbox.as_str().is_empty();
        let mut r: Vec<&Item> = Vec::new();
        let mut i: usize = 0;
        while i < self.items.len()
            invariant
                0 <= i <= self.items@.len(),
                inbox == &self.user.inbox_project_id,
                known == (inbox@.len() > 0),
                r@.map_values(|x: &Item| *x) == inbox_view(self.items@.subrange(0, i as int), inbox@),
            decreases self.items@.len() - i,
        {
            proof {
                let sub = self.items@.subrange(0, i + 1);
                assert(sub.drop_last() =~= self.items@.subrange(0, i as int));
                assert(sub.last() == self.items@[i as int]);
            }
            let item = &self.items[i];
            if known && item.project_id == *inbox && !item.checked {
                r.push(item);
            }
            i = i + 1;
        }
        proof {
            assert(self.items@.subrange(0, self.items@.len() as int) =~= self.items@);
        }
        r
    }

    /// Marks complete the first task whose id is `item_id` and returns it;
    /// `NotFound`, with nothing changed, if no task has that id.
    pub fn complete_item(&mut self, item_id: &str) -> (r: Result<&Item, ModelError>)
        ensures
            final(self)@ == (ModelView {
                items: complete_first(old(self).items@, item_id@),
                ..old(self)@
            }),
            r is Ok <==> first_match(old(self).items@, item_id@) < old(self).items@.len(),
            r matches Ok(item) ==> *item == final(self).items@[first_match(
                old(self).items@,
                item_id@,
            )],
            r matches Err(e) ==> e == ModelError::NotFound,
    {
        let id = item_id.to_owned();
        let k = find_item(&self.items, &id);
        if k >= self.items.len() {
            return Err(ModelError::NotFound);
        }
        let mut item = self.items[k].clone();
        item.mark_complete(true);
        self.items.set(k, item);
        Ok(&self.items[k])
    }

    /// Adds an open task with `content` to the inbox project under the
    /// temporary id `temp_id`, and queues the command that creates it on the
    /// server under `command_uuid`. The task is visible before any sync.
    /// While the inbox project is not known this gives `NoInbox` and changes
    /// nothing.
    pub fn add_item_with_ids(&mut self, content: &str, temp_id: Uuid, command_uuid: Uuid) -> (r:
        Result<(), ModelError>)
        ensures
            match r {
                Ok(()) => adds_item(old(self)@, final(self)@, content@, temp_id, command_uuid),
                Err(e) => {
                    &&& e == ModelError::NoInbox
                    &&& old(self).user.inbox_project_id@.len() == 0
                    &&& final(self)@ == old(self)@
                },
            },
            old(self)@.wf() && id_unused(old(self).items@, uuid_text(temp_id.value)) && uuid_unused(
                old(self).commands@,
                command_uuid,
            ) ==> final(self)@.wf(),
    {
        if self.user.inbox_project_id.as_str().is_empty() {
            return Err(ModelError::NoInbox);
        }
        let project_id = self.user.inbox_project_id.clone();
        let item = Item {
            id: temp_id.text(),
            project_id: project_id.clone(),
            content: content.to_owned(),
            checked: false,
            due: None,
        };
        self.items.push(item);
        let command = Command {
            request_type: "item_add".to_owned(),
            uuid: command_uuid,
            temp_id: Some(temp_id),
            args: CommandArgs::AddItemCommandArgs(
                AddItemCommandArgs { project_id, content: content.to_owned() },
            ),
        };
        self.commands.push(command);
        proof {
            assert(self.items@.drop_last() =~= old(self).items@);
            assert(self.commands@.drop_last() =~= old(self).commands@);
        }
        Ok(())
    }

    /// Adds an open task with `content` to the inbox project, as
    /// `add_item_with_ids` does, with a fresh temporary id (its text is the
    /// id of no task) and a fresh command uuid (no queued command has it),
    /// both version-4 UUIDs.
    pub fn add_item(&mut self, content: &str) -> (r: Result<(), ModelError>)
        ensures
            match r {
                Ok(()) => exists|temp_id: Uuid, command_uuid: Uuid|
                    #[trigger] adds_item(old(self)@, final(self)@, content@, temp_id, command_uuid)
                        && is_v4(temp_id.value) && is_v4(command_uuid.value) && id_unused(
                        old(self).items@,
                        uuid_text(temp_id.value),
                    ) && uuid_unused(old(self).commands@, command_uuid),
                Err(e) => {
                    &&& e == ModelError::NoInbox
                    &&& old(self).user.inbox_project_id@.len() == 0
                    &&& final(self)@ == old(self)@
                },
            },
            old(self)@.wf() ==> final(self)@.wf(),
    {
        let temp_id = fresh_temp_id(&self.items);
        let command_uuid = fresh_command_uuid(&self.commands);
        self.add_item_with_ids(content, temp_id, command_uuid)
    }

    /// Completes the task at the 1-based position `number` of the inbox
    /// view, found in the model by its id, queues the command that completes
    /// it on the server under `command_uuid`, and returns the completed task.
    /// A position outside the view gives `NotFound` and changes nothing.
    pub fn complete_inbox_item_with_uuid(&mut self, number: usize, command_uuid: Uuid) -> (r:
        Result<Item, ModelError>)
        ensures
            ({
                let view = inbox_view(old(self).items@, old(self).user.inbox_project_id@);
                match r {
                    Ok(item) => {
                        &&& 1 <= number <= view.len()
                        &&& completes_item(
                            old(self)@,
                            final(self)@,
                            view[number - 1].id,
                            command_uuid,
                        )
                        &&& item == final(self).items@[first_match(
                            old(self).items@,
                            view[number - 1].id@,
                        )]
                    },
                    Err(e) => {
                        &&& e == ModelError::NotFound
                        &&& !(1 <= number <= view.len())
                        &&& final(self)@ == old(self)@
                    },
                }
            }),
            old(self)@.wf() && uuid_unused(old(self).commands@, command_uuid) ==> final(self)@.wf(),
    {
        let ghost view = inbox_view(self.items@, self.user.inbox_project_id@);
        let id = {
            let inbox = self.get_inbox_items();
            proof {
                assert(inbox@.len() == inbox@.map_values(|x: &Item| *x).len());
            }
            if number == 0 || number > inbox.len() {
                return Err(ModelError::NotFound);
            }
            proof {
                assert(*inbox@[number - 1] == inbox@.map_values(|x: &Item| *x)[number - 1]);
            }
            inbox[number - 1].id.clone()
        };
        proof {
            lemma_inbox_member(self.items@, self.user.inbox_project_id@, number - 1);
            let j = choose|j: int|
                0 <= j < self.items@.len() && self.items@[j] == view[number - 1];
            lemma_first_match_from(self.items@, id@, 0);
            assert(first_match(self.items@, id@) <= j);
        }
        let item = match self.complete_item(id.as_str()) {
            Ok(item) => item.clone(),
            Err(e) => {
                return Err(e);
            },
        };
        let command = Command {
            request_type: "item_complete".to_owned(),
            uuid: command_uuid,
            temp_id: None,
            args: CommandArgs::CompleteItemCommandArgs(CompleteItemCommandArgs { id }),
        };
        self.commands.push(command);
        proof {
            assert(self.commands@.drop_last() =~= old(self).commands@);
            assert forall|a: int|
                0 <= a < self.items@.len() implies #[trigger] self.items@[a].id == old(
                self,
            ).items@[a].id by {}
        }
        Ok(item)
    }

    /// Completes the task at the 1-based position `number` of the inbox
    /// view, as `complete_inbox_item_with_uuid` does, with a random command
    /// uuid.
    pub fn complete_inbox_item(&mut self, number: usize) -> (r: Result<Item, ModelError>)
        ensures
            ({
                let view = inbox_view(old(self).items@, old(self).user.inbox_project_id@);
                match r {
                    Ok(item) => {
                        &&& 1 <= number <= view.len()
                        &&& exists|command_uuid: Uuid|
                            #[trigger] completes_item(
                                old(self)@,
                                final(self)@,
                                view[number - 1].id,
                                command_uuid,
                            ) && uuid_unused(old(self).commands@, command_uuid)
                        &&& item == final(self).items@[first_match(
                            old(self).items@,
                            view[number - 1].id@,
                        )]
                    },
                    Err(e) => {
                        &&& e == ModelError::NotFound
                        &&& !(1 <= number <= view.len())
                        &&& final(self)@ == old(self)@
                    },
                }
            }),
            old(self)@.wf() ==> final(self)@.wf(),
    {
        let command_uuid = fresh_command_uuid(&self.commands);
        self.complete_inbox_item_with_uuid(number, command_uuid)
    }

    /// The request for the next sync: the cursor `"*"` for a full sync or
    /// the stored cursor for an incremental one, all resource types, and
    /// the whole queue in order.
    pub fn sync_request(&self, full: bool) -> (r: Request)
        ensures
            r.sync_token@ == (if full {
                "*"@
            } else {
                self.sync_token@
            }),
            r.resource_types@.len() == 1,
            r.resource_types@[0]@ == "all"@,
            r.commands@ == self.commands@,
    {
        let sync_token = if full {
            "*".to_owned()
        } else {
            self.sync_token.clone()
        };
        let mut resource_types: Vec<String> = Vec::new();
        resource_types.push("all".to_owned());
        let commands = self.commands.clone();
        proof {
            assert(commands@ =~= self.commands@);
        }
        Request { commands, resource_types, sync_token }
    }

    /// Folds a server response into the model: the cursor advances, the
    /// user is replaced if the response has one, the tasks are replaced by
    /// the response's after a full sync or else have their temporary ids
    /// resolved, and the commands that the server acknowledged leave the
    /// queue. A full sync drops a local task that the response does not
    /// list, even one still waiting for its real id; its command stays
    /// queued until the server acknowledges it.
    pub fn update(&mut self, response: Response)
        ensures
            final(self)@ == reconcile(old(self)@, response@),
            distinct_uuids(old(self).commands@) ==> distinct_uuids(final(self).commands@),
            response.full_sync ==> final(self).items@ == response.items@,
            forall|c: Command|
                #![trigger final(self).commands@.contains(c)]
                #![trigger old(self).commands@.contains(c)]
                final(self).commands@.contains(c) <==> (old(self).commands@.contains(c)
                    && !acknowledged(status_view(response.sync_status), c.uuid)),
    {
        let ghost before = self.commands@;
        let ghost st = status_view(response.sync_status);
        let Response { sync_token, items, user, full_sync, sync_status, temp_id_mapping } =
            response;
        self.sync_token = sync_token;
        if let Some(user) = user {
            self.user = user;
        }
        if full_sync {
            self.items = items;
        } else {
            apply_temp_id_mapping(&mut self.items, &temp_id_mapping);
        }
        drop_acknowledged(&mut self.commands, &sync_status);
        proof {
            if distinct_uuids(before) {
                lemma_pending_distinct(before, st);
            }
            assert forall|c: Command|
                self.commands@.contains(c) <==> (before.contains(c) && !acknowledged(st, c.uuid)) by {
                lemma_pending_contains(before, st, c);
            }
        }
    }
}

impl Default for Model {
    /// The model before anything is known: a full sync pending, no tasks, a
    /// placeholder user without inbox and an empty queue.
    fn default() -> (r: Self)
        ensures
            r.sync_token@ == "*"@,
            r.items@.len() == 0,
            r.user.full_name@ == "First Last"@,
            r.user.inbox_project_id@.len() == 0,
            r.commands@.len() == 0,
    {
        Model {
            sync_token: "*".to_owned(),
            items: Vec::new(),
            user: User::default(),
            commands: Vec::new(),
        }
    }
}

} // verus!
