use kweebitect::model::{CurrentMode, Model, RunningState};
use kweebitect::update::{handle_key, update, KeyInput, Message};
use kweebitect::value::{ObjectMap, OrderedValue};
use kweebitect::view::{
    desired_width, display_width, first_visible_column, mode_label, plan_columns, preview_text,
    row_height, row_lines,
};
use ratatui::buffer::Buffer;
use ratatui::layout::Rect;
use ratatui::widgets::{Paragraph, StatefulWidget};
use tui_widget_list::{ListBuilder, ListState, ListView};

fn s(text: &str) -> String {
    text.to_string()
}

fn num(text: &str) -> OrderedValue {
    OrderedValue::Number(s(text))
}

fn obj(pairs: Vec<(&str, OrderedValue)>) -> OrderedValue {
    OrderedValue::Object(ObjectMap::from_pairs(
        pairs.into_iter().map(|(k, v)| (s(k), v)).collect(),
    ))
}

fn sample() -> OrderedValue {
    obj(vec![
        ("name", OrderedValue::String(s("kwee"))),
        ("tags", OrderedValue::Array(vec![num("1"), num("2.5"), OrderedValue::Null])),
        ("nested", obj(vec![("deep", OrderedValue::Bool(true))])),
    ])
}

fn model_with(json: OrderedValue) -> Model {
    let mut model = Model::default();
    model.current_json = json;
    model.ensure_root_segment();
    model
}

/// Draws a list of `count` one-line rows with `state`, as the browser does,
/// so that the state knows how many rows there are.
fn draw(state: &mut ListState, count: usize) {
    let builder = ListBuilder::new(|_context| (Paragraph::new("row"), 1));
    let list = ListView::new(builder, count);
    let area = Rect::new(0, 0, 20, 10);
    let mut buf = Buffer::empty(area);
    list.render(area, &mut buf, state);
}

fn keys(model: &Model) -> Vec<String> {
    model.current_path.iter().map(|seg| seg.key.clone()).collect()
}

#[test]
fn default_model() {
    let model = Model::default();
    assert_eq!(model.current_mode, CurrentMode::Browse);
    assert_eq!(model.current_json, OrderedValue::Null);
    assert!(model.current_path.is_empty());
    assert_eq!(model.running_state, RunningState::Running);
}

#[test]
fn root_segment_selects_first_entry() {
    let mut model = model_with(sample());
    assert_eq!(model.current_path.len(), 1);
    assert_eq!(model.current_path[0].key, s("name"));
    assert_eq!(model.current_path[0].value, sample());
    assert_eq!(model.current_path[0].list_state.selected, Some(0));
    model.current_path[0].key = s("tags");
    model.ensure_root_segment();
    assert_eq!(model.current_path.len(), 1);
    assert_eq!(model.current_path[0].key, s("tags"));
}

#[test]
fn root_segment_of_scalar_and_empty_array() {
    let model = model_with(num("3"));
    assert_eq!(model.current_path[0].key, s("(value)"));
    assert_eq!(model.current_path[0].list_state.selected, Some(0));
    let model = model_with(OrderedValue::Array(vec![]));
    assert_eq!(model.current_path[0].key, s("(value)"));
    assert_eq!(model.current_path[0].list_state.selected, None);
}

#[test]
fn keys_map_to_messages() {
    let mut model = Model::default();
    assert_eq!(handle_key(KeyInput::Char('h'), &model), Some(Message::Out));
    assert_eq!(handle_key(KeyInput::Left, &model), Some(Message::Out));
    assert_eq!(handle_key(KeyInput::Char('l'), &model), Some(Message::In));
    assert_eq!(handle_key(KeyInput::Right, &model), Some(Message::In));
    assert_eq!(handle_key(KeyInput::Char('j'), &model), Some(Message::Down));
    assert_eq!(handle_key(KeyInput::Down, &model), Some(Message::Down));
    assert_eq!(handle_key(KeyInput::Char('k'), &model), Some(Message::Up));
    assert_eq!(handle_key(KeyInput::Up, &model), Some(Message::Up));
    assert_eq!(handle_key(KeyInput::Char('p'), &model), Some(Message::ViewPreview));
    assert_eq!(handle_key(KeyInput::Char('o'), &model), Some(Message::CreateBelow));
    assert_eq!(handle_key(KeyInput::Char('O'), &model), Some(Message::CreateAbove));
    assert_eq!(handle_key(KeyInput::Char('q'), &model), Some(Message::Quit));
    assert_eq!(handle_key(KeyInput::Char('x'), &model), None);
    assert_eq!(handle_key(KeyInput::Char('H'), &model), None);
    assert_eq!(handle_key(KeyInput::Other, &model), None);
    assert_eq!(handle_key(KeyInput::Enter, &model), Some(Message::EditValue));
    for (mode, expected) in [
        (CurrentMode::Preview, None),
        (CurrentMode::Create, Some(Message::ConfirmValue)),
        (CurrentMode::Select, Some(Message::ConfirmValue)),
        (CurrentMode::Edit, Some(Message::ConfirmValue)),
        (CurrentMode::Command, Some(Message::ConfirmCommand)),
    ] {
        model.current_mode = mode;
        assert_eq!(handle_key(KeyInput::Enter, &model), expected);
    }
}

#[test]
fn messages_set_modes() {
    let mut model = model_with(sample());
    for (msg, mode) in [
        (Message::EditValue, CurrentMode::Edit),
        (Message::ConfirmValue, CurrentMode::Browse),
        (Message::CreateBelow, CurrentMode::Create),
        (Message::DeleteField, CurrentMode::Create),
        (Message::DeleteObject, CurrentMode::Create),
        (Message::ConfirmCommand, CurrentMode::Create),
        (Message::ConfirmObject, CurrentMode::Browse),
        (Message::CreateAbove, CurrentMode::Create),
        (Message::ViewPreview, CurrentMode::Preview),
        (Message::ViewPreview, CurrentMode::Browse),
    ] {
        assert_eq!(update(&mut model, msg), None);
        assert_eq!(model.current_mode, mode);
        assert_eq!(model.running_state, RunningState::Running);
        assert_eq!(keys(&model), vec![s("name")]);
    }
}

#[test]
fn quit_stops() {
    let mut model = model_with(sample());
    assert_eq!(update(&mut model, Message::Quit), None);
    assert_eq!(model.running_state, RunningState::Done);
    assert_eq!(model.current_mode, CurrentMode::Browse);
}

#[test]
fn preview_toggle_twice() {
    for (start, end) in [
        (CurrentMode::Browse, CurrentMode::Browse),
        (CurrentMode::Preview, CurrentMode::Preview),
        (CurrentMode::Edit, CurrentMode::Browse),
        (CurrentMode::Command, CurrentMode::Browse),
    ] {
        let mut model = Model::default();
        model.current_mode = start;
        update(&mut model, Message::ViewPreview);
        update(&mut model, Message::ViewPreview);
        assert_eq!(model.current_mode, end);
    }
}

#[test]
fn enter_opens_selected_container() {
    let mut model = model_with(sample());
    model.current_path[0].key = s("tags");
    model.current_path[0].list_state.select(Some(1));
    update(&mut model, Message::In);
    assert_eq!(keys(&model), vec![s("tags"), s("0")]);
    let child = &model.current_path[1];
    assert_eq!(child.value, OrderedValue::Array(vec![num("1"), num("2.5"), OrderedValue::Null]));
    assert_eq!(child.list_state.selected, Some(0));
    let path = model.path_keys();
    assert_eq!(model.current_json.get(&path[..1]), Some(&child.value));
}

#[test]
fn enter_on_scalar_or_empty_container_does_nothing() {
    let mut model = model_with(sample());
    update(&mut model, Message::In);
    assert_eq!(keys(&model), vec![s("name")]);
    let mut model = model_with(obj(vec![("e", OrderedValue::Array(vec![]))]));
    update(&mut model, Message::In);
    assert_eq!(model.current_path.len(), 1);
    let mut model = model_with(num("1"));
    update(&mut model, Message::In);
    assert_eq!(model.current_path.len(), 1);
}

#[test]
fn out_undoes_in() {
    let mut model = model_with(sample());
    model.current_path[0].key = s("nested");
    update(&mut model, Message::In);
    assert_eq!(keys(&model), vec![s("nested"), s("deep")]);
    update(&mut model, Message::Out);
    assert_eq!(keys(&model), vec![s("nested")]);
    assert_eq!(model.current_path[0].value, sample());
}

#[test]
fn out_drops_levels_until_empty() {
    let mut model = model_with(sample());
    update(&mut model, Message::Out);
    assert!(model.current_path.is_empty());
    update(&mut model, Message::Out);
    assert!(model.current_path.is_empty());
    update(&mut model, Message::In);
    update(&mut model, Message::Down);
    assert!(model.current_path.is_empty());
}

#[test]
fn moving_before_any_drawing_keeps_the_key() {
    let mut model = model_with(sample());
    update(&mut model, Message::Down);
    assert_eq!(keys(&model), vec![s("name")]);
    assert_eq!(model.current_path[0].list_state.selected, Some(0));
}

#[test]
fn moving_after_drawing_follows_rows() {
    let mut model = model_with(sample());
    draw(&mut model.current_path[0].list_state, 3);
    update(&mut model, Message::Down);
    assert_eq!(keys(&model), vec![s("tags")]);
    update(&mut model, Message::Down);
    assert_eq!(keys(&model), vec![s("nested")]);
    update(&mut model, Message::Down);
    assert_eq!(keys(&model), vec![s("name")]);
    update(&mut model, Message::Up);
    assert_eq!(keys(&model), vec![s("nested")]);
    update(&mut model, Message::Up);
    assert_eq!(keys(&model), vec![s("tags")]);
}

#[test]
fn moving_in_empty_container_changes_nothing() {
    let mut model = model_with(OrderedValue::Array(vec![]));
    draw(&mut model.current_path[0].list_state, 0);
    update(&mut model, Message::Down);
    assert_eq!(keys(&model), vec![s("(value)")]);
    assert_eq!(model.current_path[0].list_state.selected, None);
}

#[test]
fn mode_labels() {
    assert_eq!(mode_label(&CurrentMode::Browse), "browse");
    assert_eq!(mode_label(&CurrentMode::Preview), "preview");
    assert_eq!(mode_label(&CurrentMode::Create), "create");
    assert_eq!(mode_label(&CurrentMode::Select), "select");
    assert_eq!(mode_label(&CurrentMode::Edit), "edit");
    assert_eq!(mode_label(&CurrentMode::Command), "command");
}

#[test]
fn path_label_joins_keys() {
    let mut model = Model::default();
    assert_eq!(model.path_label(), s(""));
    model.current_json = sample();
    model.ensure_root_segment();
    assert_eq!(model.path_label(), s("name"));
    model.current_path[0].key = s("tags");
    update(&mut model, Message::In);
    assert_eq!(model.path_label(), s("tags/0"));
}

#[test]
fn width_counts_characters() {
    assert_eq!(display_width("héllo"), 5);
    assert_eq!(display_width(""), 0);
}

#[test]
fn column_widths() {
    let v = sample();
    let entries = vec![s("name"), s("tags"), s("nested")];
    // widest line: `name "kwee"` is 11 characters
    assert_eq!(desired_width("root", &v, &entries), 16);
    let title = "a title that is quite long";
    assert_eq!(desired_width(title, &v, &entries), 30);
    let long = obj(vec![("k", OrderedValue::String("x".repeat(40)))]);
    assert_eq!(desired_width("r", &long, &vec![s("k")]), 48);
    let huge = OrderedValue::String("y".repeat(70000));
    assert_eq!(desired_width("r", &huge, &vec![s("(value)")]), u16::MAX);
}

#[test]
fn rows_and_heights() {
    let v = sample();
    let entries = vec![s("name"), s("tags"), s("nested")];
    assert_eq!(row_lines(&v, &entries, 1), vec![s("tags: [3]")]);
    assert_eq!(row_lines(&v, &entries, 2), vec![s("nested:"), s("  deep")]);
    assert_eq!(row_lines(&v, &entries, 5), vec![s("?:"), s("  name"), s("  tags"), s("  nested")]);
    assert_eq!(row_height(2), 2);
    assert_eq!(row_height(70000), u16::MAX);
}

#[test]
fn plan_without_preview() {
    let mut model = Model::default();
    model.current_json = sample();
    let columns = plan_columns(&mut model);
    assert_eq!(model.current_path.len(), 1);
    assert_eq!(columns.len(), 1);
    assert_eq!(columns[0].title, s("root"));
    assert_eq!(columns[0].entries, vec![s("name"), s("tags"), s("nested")]);
    assert_eq!(columns[0].container, sample());
    assert_eq!(columns[0].desired_width, 16);
}

#[test]
fn plan_with_preview_and_clamped_selection() {
    let mut model = model_with(sample());
    model.current_path[0].list_state.select(Some(10));
    let columns = plan_columns(&mut model);
    assert_eq!(model.current_path[0].list_state.selected, Some(2));
    assert_eq!(model.current_path[0].key, s("nested"));
    assert_eq!(columns.len(), 2);
    assert_eq!(columns[1].title, s("nested"));
    assert_eq!(columns[1].entries, vec![s("deep")]);
    assert_eq!(columns[1].container, obj(vec![("deep", OrderedValue::Bool(true))]));
}

#[test]
fn plan_titles_follow_keys() {
    let mut model = model_with(sample());
    model.current_path[0].key = s("tags");
    model.current_path[0].list_state.select(Some(1));
    update(&mut model, Message::In);
    let columns = plan_columns(&mut model);
    assert_eq!(columns.len(), 2);
    assert_eq!(columns[0].title, s("root"));
    assert_eq!(columns[1].title, s("tags"));
    assert_eq!(columns[1].entries, vec![s("0"), s("1"), s("2")]);
}

#[test]
fn visible_columns() {
    assert_eq!(first_visible_column(&vec![20, 20, 20], 45, 1), 1);
    assert_eq!(first_visible_column(&vec![20, 20, 20], 62, 1), 0);
    assert_eq!(first_visible_column(&vec![20, 20, 20], 61, 1), 1);
    assert_eq!(first_visible_column(&vec![20, 20, 20], 5, 1), 2);
    assert_eq!(first_visible_column(&vec![], 5, 1), 0);
    assert_eq!(first_visible_column(&vec![0, 0], 0, 1), 0);
    assert_eq!(first_visible_column(&vec![u16::MAX, u16::MAX], u16::MAX, 1), 0);
    assert_eq!(first_visible_column(&vec![u16::MAX, u16::MAX], u16::MAX - 1, 1), 1);
}

#[test]
fn planning_twice_changes_nothing_more() {
    let mut model = model_with(sample());
    model.current_path[0].list_state.select(Some(7));
    plan_columns(&mut model);
    let once = (keys(&model), model.current_path[0].list_state.selected);
    plan_columns(&mut model);
    assert_eq!((keys(&model), model.current_path[0].list_state.selected), once);
    assert_eq!(once, (vec![s("nested")], Some(2)));
}

#[test]
fn preview_texts() {
    assert_eq!(preview_text(None), s("<path not found>"));
    assert_eq!(preview_text(Some(Err(()))), s("<failed to serialise>"));
    assert_eq!(preview_text(Some(Ok(s("{}")))), s("{}"));
}

#[test]
fn moves_follow_the_list_state() {
    let mut model = model_with(sample());
    draw(&mut model.current_path[0].list_state, 3);
    for msg in [Message::Down, Message::Down, Message::Up, Message::Up, Message::Up] {
        let mut expected = model.current_path[0].list_state.clone();
        if msg == Message::Down {
            expected.next();
        } else {
            expected.previous();
        }
        update(&mut model, msg);
        assert_eq!(model.current_path[0].list_state.selected, expected.selected);
        let labels = [s("name"), s("tags"), s("nested")];
        assert_eq!(model.current_path[0].key, labels[expected.selected.unwrap()]);
    }
}

#[test]
fn root_rebuilt_after_leaving_it() {
    let mut model = model_with(sample());
    update(&mut model, Message::Out);
    assert!(model.current_path.is_empty());
    let columns = plan_columns(&mut model);
    assert_eq!(keys(&model), vec![s("name")]);
    assert_eq!(model.current_path[0].value, sample());
    assert_eq!(model.current_path[0].list_state.selected, Some(0));
    assert_eq!(columns[0].title, s("root"));
}

#[test]
fn segments_clone() {
    let model = model_with(sample());
    let copy = model.current_path[0].clone();
    assert_eq!(copy.key, model.current_path[0].key);
    assert_eq!(copy.value, model.current_path[0].value);
    assert_eq!(copy.list_state.selected, Some(0));
}
