use todoist::ident::Uuid;
use todoist::model::item::Item;
use todoist::sync::{
    AddItemCommandArgs, Command, CommandArgs, CompleteItemCommandArgs, Model, ModelError,
    Response, User,
};

fn item(id: &str, project_id: &str, content: &str, checked: bool) -> Item {
    Item {
        id: id.to_string(),
        project_id: project_id.to_string(),
        content: content.to_string(),
        checked,
        due: None,
    }
}

fn model_with(inbox: &str, items: Vec<Item>) -> Model {
    Model {
        sync_token: "tok0".to_string(),
        items,
        user: User { full_name: "Ada".to_string(), inbox_project_id: inbox.to_string() },
        commands: vec![],
    }
}

fn response(full_sync: bool) -> Response {
    Response {
        sync_token: "tok1".to_string(),
        items: vec![],
        user: None,
        full_sync,
        sync_status: None,
        temp_id_mapping: vec![],
    }
}

fn complete_command(uuid: u128, id: &str) -> Command {
    Command {
        request_type: "item_complete".to_string(),
        uuid: Uuid { value: uuid },
        temp_id: None,
        args: CommandArgs::CompleteItemCommandArgs(CompleteItemCommandArgs { id: id.to_string() }),
    }
}

fn inbox_contents(model: &Model) -> Vec<String> {
    model.get_inbox_items().iter().map(|i| i.content.clone()).collect()
}

const T: u128 = 0x67e5_5044_10b1_426f_9247_bb68_0e5f_e0c8;
const T_TEXT: &str = "67e55044-10b1-426f-9247-bb680e5fe0c8";

#[test]
fn uuid_text_is_hyphenated_lower_case() {
    assert_eq!(Uuid { value: T }.text(), T_TEXT);
    assert_eq!(Uuid { value: 0 }.text(), "00000000-0000-0000-0000-000000000000");
}

#[test]
fn add_then_full_sync_scenario() {
    let mut model = model_with("p1", vec![item("i1", "p1", "buy milk", false)]);
    let temp = Uuid { value: T };
    let add_uuid = Uuid { value: 7 };
    assert_eq!(model.add_item_with_ids("call mom", temp, add_uuid), Ok(()));
    assert_eq!(inbox_contents(&model), vec!["buy milk", "call mom"]);
    assert_eq!(model.items[1].id, T_TEXT);
    assert_eq!(
        model.commands,
        vec![Command {
            request_type: "item_add".to_string(),
            uuid: add_uuid,
            temp_id: Some(temp),
            args: CommandArgs::AddItemCommandArgs(AddItemCommandArgs {
                project_id: "p1".to_string(),
                content: "call mom".to_string(),
            }),
        }]
    );

    let server_items = vec![item("i1", "p1", "buy milk", false), item("r2", "p1", "call mom", false)];
    let mut resp = response(true);
    resp.items = server_items.clone();
    resp.sync_status = Some(vec![(add_uuid.text(), "ok".to_string())]);
    model.update(resp);
    assert_eq!(model.items, server_items);
    assert!(model.commands.is_empty());
    assert_eq!(model.sync_token, "tok1");
}

#[test]
fn add_item_is_visible_before_sync() {
    let mut model = model_with("p1", vec![]);
    assert_eq!(model.add_item("x"), Ok(()));
    assert_eq!(inbox_contents(&model), vec!["x"]);
    assert_eq!(model.items[0].id.len(), 36);
    assert_eq!(model.items[0].id.as_bytes()[14], b'4');
    assert_eq!(model.commands.len(), 1);
    assert_eq!(model.commands[0].request_type, "item_add");
    assert_eq!(model.commands[0].temp_id.map(|t| t.text()), Some(model.items[0].id.clone()));
}

#[test]
fn empty_inbox_id_matches_nothing() {
    let model = model_with("", vec![item("i1", "", "no project", false)]);
    assert!(model.get_inbox_items().is_empty());
}

#[test]
fn inbox_view_skips_checked_and_other_projects() {
    let model = model_with(
        "p1",
        vec![
            item("a", "p1", "one", false),
            item("b", "p2", "other", false),
            item("c", "p1", "done", true),
            item("d", "p1", "two", false),
        ],
    );
    assert_eq!(inbox_contents(&model), vec!["one", "two"]);
}

#[test]
fn complete_out_of_range_is_not_found() {
    let mut model = model_with("p1", vec![item("a", "p1", "one", false)]);
    model.commands.push(complete_command(1, "z"));
    let items = model.items.clone();
    let commands = model.commands.clone();
    assert_eq!(model.complete_inbox_item(0), Err(ModelError::NotFound));
    assert_eq!(model.complete_inbox_item(2), Err(ModelError::NotFound));
    assert_eq!(model.complete_inbox_item_with_uuid(usize::MAX, Uuid { value: 3 }), Err(ModelError::NotFound));
    assert_eq!(model.items, items);
    assert_eq!(model.commands, commands);
}

#[test]
fn complete_marks_item_and_queues_command() {
    let mut model = model_with(
        "p1",
        vec![item("a", "p1", "one", false), item("b", "p2", "x", false), item("c", "p1", "two", false)],
    );
    let done = model.complete_inbox_item_with_uuid(2, Uuid { value: 9 }).unwrap();
    assert_eq!(done, item("c", "p1", "two", true));
    assert!(model.items[2].checked);
    assert!(!model.items[0].checked);
    assert_eq!(model.commands, vec![complete_command(9, "c")]);
    assert_eq!(inbox_contents(&model), vec!["one"]);
}

#[test]
fn complete_inbox_item_draws_a_uuid() {
    let mut model = model_with("p1", vec![item("a", "p1", "one", false)]);
    let done = model.complete_inbox_item(1).unwrap();
    assert_eq!(done.content, "one");
    assert_eq!(model.commands.len(), 1);
    assert_eq!(model.commands[0].request_type, "item_complete");
}

#[test]
fn complete_item_by_id() {
    let mut model = model_with("p1", vec![item("a", "p1", "one", false)]);
    assert_eq!(model.complete_item("missing"), Err(ModelError::NotFound));
    assert!(!model.items[0].checked);
    assert_eq!(model.complete_item("a").map(|i| i.checked), Ok(true));
    assert!(model.items[0].checked);
    assert!(model.commands.is_empty());
}

#[test]
fn temp_id_is_remapped_on_incremental_sync() {
    let mut model = model_with("p1", vec![item(T_TEXT, "p1", "call mom", false)]);
    let mut resp = response(false);
    resp.temp_id_mapping = vec![(Uuid { value: T }, "real-42".to_string())];
    model.update(resp);
    assert_eq!(model.items, vec![item("real-42", "p1", "call mom", false)]);
    assert_eq!(model.sync_token, "tok1");
}

#[test]
fn unmatched_temp_id_is_ignored() {
    let mut model = model_with("p1", vec![item("a", "p1", "one", false)]);
    let mut resp = response(false);
    resp.temp_id_mapping = vec![(Uuid { value: T }, "real-42".to_string())];
    model.update(resp);
    assert_eq!(model.items, vec![item("a", "p1", "one", false)]);
}

#[test]
fn full_sync_replaces_items_and_user() {
    let mut model = model_with("p1", vec![item("a", "p1", "local", false)]);
    let mut resp = response(true);
    resp.items = vec![item("s", "p9", "server", true)];
    resp.user = Some(User { full_name: "Bo".to_string(), inbox_project_id: "p9".to_string() });
    resp.temp_id_mapping = vec![(Uuid { value: T }, "ignored".to_string())];
    model.update(resp);
    assert_eq!(model.items, vec![item("s", "p9", "server", true)]);
    assert_eq!(model.user, User { full_name: "Bo".to_string(), inbox_project_id: "p9".to_string() });
}

#[test]
fn incremental_sync_keeps_user_without_one() {
    let mut model = model_with("p1", vec![]);
    model.update(response(false));
    assert_eq!(model.user.inbox_project_id, "p1");
}

#[test]
fn only_ok_commands_leave_the_queue() {
    let mut model = model_with("p1", vec![]);
    model.commands = vec![complete_command(1, "a"), complete_command(2, "b"), complete_command(3, "c")];
    let mut resp = response(false);
    resp.sync_status = Some(vec![
        (Uuid { value: 1 }.text(), "ok".to_string()),
        (Uuid { value: 2 }.text(), "error".to_string()),
    ]);
    model.update(resp);
    assert_eq!(model.commands, vec![complete_command(2, "b"), complete_command(3, "c")]);
}

#[test]
fn no_status_map_keeps_the_queue() {
    let mut model = model_with("p1", vec![]);
    model.commands = vec![complete_command(1, "a")];
    model.update(response(true));
    assert_eq!(model.commands, vec![complete_command(1, "a")]);
}

#[test]
fn first_status_entry_for_a_uuid_counts() {
    let mut model = model_with("p1", vec![]);
    model.commands = vec![complete_command(1, "a")];
    let mut resp = response(false);
    resp.sync_status = Some(vec![
        (Uuid { value: 1 }.text(), "error".to_string()),
        (Uuid { value: 1 }.text(), "ok".to_string()),
    ]);
    model.update(resp);
    assert_eq!(model.commands, vec![complete_command(1, "a")]);
}

fn remap_response() -> Response {
    let mut resp = response(false);
    resp.temp_id_mapping = vec![(Uuid { value: T }, "real-42".to_string())];
    resp.sync_status = Some(vec![(Uuid { value: 1 }.text(), "ok".to_string())]);
    resp.user = Some(User { full_name: "Bo".to_string(), inbox_project_id: "p1".to_string() });
    resp
}

#[test]
fn reconciling_twice_equals_once() {
    let start = || {
        let mut m = model_with("p1", vec![item(T_TEXT, "p1", "call mom", false), item("b", "p1", "b", false)]);
        m.commands = vec![complete_command(1, "a"), complete_command(2, "b")];
        m
    };
    let mut once = start();
    once.update(remap_response());
    let mut twice = start();
    twice.update(remap_response());
    twice.update(remap_response());
    assert_eq!(once.items, twice.items);
    assert_eq!(once.commands, twice.commands);
    assert_eq!(once.user, twice.user);
    assert_eq!(once.sync_token, twice.sync_token);
}

#[test]
fn sync_request_shapes() {
    let mut model = model_with("p1", vec![]);
    model.commands = vec![complete_command(1, "a"), complete_command(2, "b")];
    let full = model.sync_request(true);
    assert_eq!(full.sync_token, "*");
    assert_eq!(full.resource_types, vec!["all".to_string()]);
    assert_eq!(full.commands, model.commands);
    let inc = model.sync_request(false);
    assert_eq!(inc.sync_token, "tok0");
    assert_eq!(inc.commands, model.commands);
}

#[test]
fn default_model_is_empty() {
    let model = Model::default();
    assert_eq!(model.sync_token, "*");
    assert!(model.items.is_empty());
    assert!(model.commands.is_empty());
    assert_eq!(model.user, User { full_name: "First Last".to_string(), inbox_project_id: String::new() });
    assert_eq!(User::default(), model.user);
    assert!(model.get_inbox_items().is_empty());
}

#[test]
fn item_new_and_mark_complete() {
    let mut it = Item::new("write".to_string(), "p1".to_string());
    assert_eq!(it.content, "write");
    assert_eq!(it.project_id, "p1");
    assert!(!it.checked);
    assert_eq!(it.id.len(), 36);
    let parsed = uuid::Uuid::parse_str(&it.id).unwrap();
    assert_eq!(parsed.get_version_num(), 4);
    assert_eq!(parsed.get_variant(), uuid::Variant::RFC4122);
    assert_eq!(parsed.to_string(), it.id);
    let other = Item::new("write".to_string(), "p1".to_string());
    assert_ne!(it.id, other.id);
    it.mark_complete(true);
    assert!(it.checked);
    it.mark_complete(false);
    assert!(!it.checked);
}

#[test]
fn add_item_without_inbox_is_refused() {
    let mut model = Model::default();
    assert_eq!(model.add_item("x"), Err(ModelError::NoInbox));
    assert_eq!(
        model.add_item_with_ids("x", Uuid { value: T }, Uuid { value: 1 }),
        Err(ModelError::NoInbox)
    );
    assert!(model.items.is_empty());
    assert!(model.commands.is_empty());
}

#[test]
fn add_item_draws_fresh_ids() {
    let mut model = model_with("p1", vec![item("a", "p1", "one", false)]);
    model.commands.push(complete_command(1, "a"));
    assert_eq!(model.add_item("x"), Ok(()));
    assert_eq!(model.add_item("y"), Ok(()));
    assert_eq!(model.items.len(), 3);
    assert_ne!(model.items[1].id, "a");
    assert_ne!(model.items[1].id, model.items[2].id);
    assert_eq!(model.commands.len(), 3);
    assert_ne!(model.commands[1].uuid, model.commands[0].uuid);
    assert_ne!(model.commands[1].uuid, model.commands[2].uuid);
    for c in &model.commands[1..] {
        assert_eq!(uuid::Uuid::from_u128(c.uuid.value).get_version_num(), 4);
    }
}
