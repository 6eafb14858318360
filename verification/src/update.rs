use vstd::prelude::*;
use tui_widget_list::ListState;
use crate::model::{
    list_next, list_previous, list_select, list_selected, list_state_default, next_state,
    previous_state, selected_row, selected_state,
    key_listed, path_consistent, CurrentMode, Model, PathSegment, RunningState,
};
use crate::value::{
    container_entries_for, entries_of, entry_value, is_container, string_views, value_for_entry,
    JsonValue, OrderedValue,
};

verus! {

/// What the user asked for.
#[derive(Debug, PartialEq, Eq, Structural)]
pub enum Message {
    Out,
    In,
    Up,
    Down,
    ViewPreview,
    EditValue,
    DeleteField,
    DeleteObject,
    CreateBelow,
    CreateAbove,
    ConfirmObject,
    ConfirmValue,
    ConfirmCommand,
    Quit,
}

/// The key of a key press, as far as the browser tells keys apart.
#[derive(Debug, PartialEq, Eq, Structural)]
pub enum KeyInput {
    Char(char),
    Left,
    Right,
    Up,
    Down,
    Enter,
    /// Any other key.
    Other,
}

/// The message that a key press asks for in `mode`.
pub open spec fn key_message(key: KeyInput, mode: CurrentMode) -> Option<Message> {
    match key {
        KeyInput::Char('h') | KeyInput::Left => Some(Message::Out),
        KeyInput::Char('l') | KeyInput::Right => Some(Message::In),
        KeyInput::Char('j') | KeyInput::Down => Some(Message::Down),
        KeyInput::Char('k') | KeyInput::Up => Some(Message::Up),
        KeyInput::Char('p') => Some(Message::ViewPreview),
        KeyInput::Enter => match mode {
            CurrentMode::Browse => Some(Message::EditValue),
            CurrentMode::Preview => None,
            CurrentMode::Command => Some(Message::ConfirmCommand),
            _ => Some(Message::ConfirmValue),
        },
        KeyInput::Char('o') => Some(Message::CreateBelow),
        KeyInput::Char('O') => Some(Message::CreateAbove),
        KeyInput::Char('q') => Some(Message::Quit),
        _ => None,
    }
}

/// Maps a key press to the message it asks for: see `key_message`.
pub fn handle_key(key: KeyInput, model: &Model) -> (msg: Option<Message>)
    ensures
        msg == key_message(key, model.current_mode),
        key != KeyInput::Enter ==> msg == key_message(key, CurrentMode::Browse),
        key == KeyInput::Char('p') ==> msg == Some(Message::ViewPreview),
        key == KeyInput::Char('q') ==> msg == Some(Message::Quit),
{
    match key {
        KeyInput::Char('h') | KeyInput::Left => Some(Message::Out),
        KeyInput::Char('l') | KeyInput::Right => Some(Message::In),
        KeyInput::Char('j') | KeyInput::Down => Some(Message::Down),
        KeyInput::Char('k') | KeyInput::Up => Some(Message::Up),
        KeyInput::Char('p') => Some(Message::ViewPreview),
        KeyInput::Enter => match model.current_mode {
            CurrentMode::Browse => Some(Message::EditValue),
            CurrentMode::Create => Some(Message::ConfirmValue),
            CurrentMode::Select => Some(Message::ConfirmValue),
            CurrentMode::Edit => Some(Message::ConfirmValue),
            CurrentMode::Command => Some(Message::ConfirmCommand),
            CurrentMode::Preview => None,
        },
        KeyInput::Char('o') => Some(Message::CreateBelow),
        KeyInput::Char('O') => Some(Message::CreateAbove),
        KeyInput::Char('q') => Some(Message::Quit),
        _ => None,
    }
}

/// The selection that a move starts from: the current one, or the first row
/// where nothing is selected.
pub open spec fn start_row(selected: Option<usize>) -> usize {
    match selected {
        Some(i) => i,
        None => 0,
    }
}

/// A move down from `before` may leave the selection, wrap to the first row,
/// or go one row down.
pub open spec fn moved_down(before: Option<usize>, after: Option<usize>) -> bool {
    let i = start_row(before);
    after == Some(i) || after == Some(0usize) || (i < usize::MAX && after == Some((i + 1) as usize))
}

/// A move up from `before` may leave the selection or go one row up; from
/// the first row it may wrap to some other row.
pub open spec fn moved_up(before: Option<usize>, after: Option<usize>) -> bool {
    let i = start_row(before);
    if i > 0 {
        after == Some(i) || after == Some((i - 1) as usize)
    } else {
        after is Some
    }
}

/// The list state that a move starts from: the segment's own, with the first
/// row selected where nothing was.
pub open spec fn prepared_state(state: ListState) -> ListState {
    if selected_row(state) is None {
        selected_state(state, Some(0usize))
    } else {
        state
    }
}

/// The path after a vertical move in the deepest container. Only the last
/// segment changes: its list state becomes what `ListState::next` (down when
/// `down`) or `ListState::previous` makes of the prepared state, and its key
/// becomes the label of the newly selected row where that row exists. An
/// empty path, or a deepest container without entries, stays as it is.
pub open spec fn navigated(before: Seq<PathSegment>, after: Seq<PathSegment>, down: bool) -> bool {
    if before.len() == 0 {
        after == before
    } else {
        let n = before.len() - 1;
        let seg = before[n];
        let moved = after[n];
        let entries = entries_of(seg.value@);
        &&& after.len() == before.len()
        &&& forall|j: int| 0 <= j < n ==> after[j] == before[j]
        &&& if entries.len() == 0 {
            moved == seg
        } else {
            &&& moved.value == seg.value
            &&& moved.list_state == if down {
                next_state(prepared_state(seg.list_state))
            } else {
                previous_state(prepared_state(seg.list_state))
            }
            &&& if down {
                moved_down(selected_row(seg.list_state), selected_row(moved.list_state))
            } else {
                moved_up(selected_row(seg.list_state), selected_row(moved.list_state))
            }
            &&& match selected_row(moved.list_state) {
                Some(i) => if i < entries.len() {
                    moved.key@ == entries[i as int]
                } else {
                    moved.key == seg.key
                },
                None => moved.key == seg.key,
            }
        }
    }
}

/// The container that entering from the deepest segment of `path` opens:
/// the value that its key names, where that is a container with entries.
pub open spec fn entered_target(path: Seq<PathSegment>) -> Option<JsonValue> {
    if path.len() == 0 {
        None
    } else {
        let seg = path.last();
        match entry_value(seg.value@, seg.key@) {
            Some(v) => if is_container(v) && entries_of(v).len() > 0 {
                Some(v)
            } else {
                None
            },
            None => None,
        }
    }
}

/// The path after entering: where there is a target, a segment for it is
/// pushed with its first entry selected; otherwise the path stays.
pub open spec fn entered(before: Seq<PathSegment>, after: Seq<PathSegment>) -> bool {
    match entered_target(before) {
        Some(target) => {
            let seg = after.last();
            &&& after.len() == before.len() + 1
            &&& after.drop_last() == before
            &&& seg.value@ == target
            &&& seg.key@ == entries_of(target)[0]
            &&& selected_row(seg.list_state) == Some(0usize)
        },
        None => after == before,
    }
}

/// The path after going out one level: the deepest segment is dropped.
pub open spec fn left(before: Seq<PathSegment>) -> Seq<PathSegment> {
    if before.len() == 0 {
        before
    } else {
        before.drop_last()
    }
}

/// The mode after toggling the preview: from the preview back to browsing,
/// from anything else to the preview.
pub open spec fn preview_toggled(mode: CurrentMode) -> CurrentMode {
    if mode == CurrentMode::Preview {
        CurrentMode::Browse
    } else {
        CurrentMode::Preview
    }
}

/// The mode that a message leaves behind.
pub open spec fn mode_after(mode: CurrentMode, msg: Message) -> CurrentMode {
    match msg {
        Message::ViewPreview => preview_toggled(mode),
        Message::EditValue => CurrentMode::Edit,
        Message::CreateBelow | Message::CreateAbove => CurrentMode::Create,
        Message::ConfirmObject | Message::ConfirmValue => CurrentMode::Browse,
        _ => mode,
    }
}

/// What a message does to the path.
pub open spec fn path_after(before: Seq<PathSegment>, after: Seq<PathSegment>, msg: Message) -> bool {
    match msg {
        Message::Out => after == left(before),
        Message::In => entered(before, after),
        Message::Up => navigated(before, after, false),
        Message::Down => navigated(before, after, true),
        _ => after == before,
    }
}

/// Moves the selection of the deepest container up (`delta < 0`) or down.
fn navigate_active_container(model: &mut Model, delta: isize)
    ensures
        navigated(old(model).current_path@, final(model).current_path@, delta >= 0),
        final(model).current_mode == old(model).current_mode,
        final(model).current_json == old(model).current_json,
        final(model).running_state == old(model).running_state,
{
    let len = model.current_path.len();
    if len == 0 {
        return;
    }
    let mut segment = model.current_path.pop().unwrap();
    let ghost seg0 = segment;
    let entries = container_entries_for(&segment.value);
    proof {
        assert(string_views(entries@).len() == entries@.len());
    }
    if entries.len() == 0 {
        model.current_path.push(segment);
        proof {
            assert(model.current_path@ =~= old(model).current_path@);
        }
        return;
    }
    if list_selected(&segment.list_state).is_none() {
        list_select(&mut segment.list_state, Some(0));
    }
    if delta < 0 {
        list_previous(&mut segment.list_state);
    } else {
        list_next(&mut segment.list_state);
    }
    match list_selected(&segment.list_state) {
        Some(i) => {
            if i < entries.len() {
                proof {
                    assert(string_views(entries@)[i as int] == entries@[i as int]@);
                }
                segment.key = entries[i].clone();
            }
        },
        None => {},
    }
    model.current_path.push(segment);
    proof {
        let before = old(model).current_path@;
        let after = model.current_path@;
        assert forall|j: int| 0 <= j < before.len() - 1 implies after[j] == before[j] by {
            assert(after[j] == before.drop_last()[j]);
        }
    }
}

/// Opens the container that the deepest segment's key names, where that is
/// a container with entries: see `entered`.
fn enter_container(model: &mut Model)
    ensures
        entered(old(model).current_path@, final(model).current_path@),
        final(model).current_mode == old(model).current_mode,
        final(model).current_json == old(model).current_json,
        final(model).running_state == old(model).running_state,
{
    let len = model.current_path.len();
    if len == 0 {
        return;
    }
    let parent = &model.current_path[len - 1];
    let selected_value = match value_for_entry(&parent.value, parent.key.as_str()) {
        Some(v) => v,
        None => {
            return;
        },
    };
    let is_container = match selected_value {
        OrderedValue::Array(_) | OrderedValue::Object(_) => true,
        _ => false,
    };
    if !is_container {
        return;
    }
    let selected_container = selected_value.clone();
    let entries = container_entries_for(&selected_container);
    proof {
        assert(string_views(entries@).len() == entries@.len());
    }
    if entries.len() == 0 {
        return;
    }
    let mut child_state = list_state_default();
    list_select(&mut child_state, Some(0));
    proof {
        assert(string_views(entries@)[0] == entries@[0]@);
    }
    let child_key = entries[0].clone();
    model.current_path.push(PathSegment::new(child_key, selected_container, child_state));
    proof {
        assert(model.current_path@.drop_last() =~= old(model).current_path@);
    }
}

/// Applies a message to the model; no message follows from another, so the
/// result is always `None`. Out drops the deepest level, In opens the
/// selected container, Up and Down move the selection of the deepest
/// container, Quit stops the application, and the rest set the mode (see
/// `mode_after`). A path that leads down from the document keeps doing so.
pub fn update(model: &mut Model, msg: Message) -> (next: Option<Message>)
    ensures
        next is None,
        final(model).current_mode == mode_after(old(model).current_mode, msg),
        final(model).current_json == old(model).current_json,
        final(model).running_state == (if msg == Message::Quit {
            RunningState::Done
        } else {
            old(model).running_state
        }),
        path_after(old(model).current_path@, final(model).current_path@, msg),
        path_consistent(old(model).current_json@, old(model).current_path@) ==> path_consistent(
            final(model).current_json@,
            final(model).current_path@,
        ),
{
    let ghost msg0 = msg;
    match msg {
        Message::Out => {
            model.current_path.pop();
        },
        Message::In => {
            enter_container(model);
        },
        Message::Up => {
            navigate_active_container(model, -1);
        },
        Message::Down => {
            navigate_active_container(model, 1);
        },
        Message::ViewPreview => match model.current_mode {
            CurrentMode::Preview => {
                model.current_mode = CurrentMode::Browse;
            },
            _ => {
                model.current_mode = CurrentMode::Preview;
            },
        },
        Message::EditValue => {
            model.current_mode = CurrentMode::Edit;
        },
        Message::DeleteField => {},
        Message::DeleteObject => {},
        Message::CreateBelow => {
            model.current_mode = CurrentMode::Create;
        },
        Message::CreateAbove => {
            model.current_mode = CurrentMode::Create;
        },
        Message::ConfirmObject => {
            model.current_mode = CurrentMode::Browse;
        },
        Message::ConfirmValue => {
            model.current_mode = CurrentMode::Browse;
        },
        Message::ConfirmCommand => {},
        Message::Quit => {
            model.running_state = RunningState::Done;
        },
    }
    proof {
        lemma_update_keeps_path_consistent(
            old(model).current_json@,
            old(model).current_path@,
            model.current_path@,
            msg0,
        );
    }
    None
}

#[verifier::spinoff_prover]
#[verifier::rlimit(40)]
proof fn lemma_update_keeps_path_consistent(
    json: JsonValue,
    before: Seq<PathSegment>,
    after: Seq<PathSegment>,
    msg: Message,
)
    requires
        path_after(before, after, msg),
    ensures
        path_consistent(json, before) ==> path_consistent(json, after),
{
    if path_consistent(json, before) {
        match msg {
            Message::Out => {
                if before.len() > 0 {
                    assert forall|i: int| 0 <= i < after.len() implies after[i] == before[i] by {}
                }
            },
            Message::In => {
                if entered_target(before) is Some {
                    assert forall|i: int| 0 <= i < before.len() implies after[i] == before[i] by {
                        assert(after.drop_last()[i] == after[i]);
                    }
                    let seg = after.last();
                    assert(entries_of(seg.value@).contains(seg.key@)) by {
                        assert(entries_of(seg.value@)[0] == seg.key@);
                    }
                    assert(key_listed(after[after.len() - 1]));
                }
            },
            Message::Up | Message::Down => {
                if before.len() > 0 {
                    let n = before.len() - 1;
                    let entries = entries_of(before[n].value@);
                    if entries.len() > 0 {
                        match selected_row(after[n].list_state) {
                            Some(i) => {
                                if i < entries.len() {
                                    assert(entries[i as int] == after[n].key@);
                                    assert(entries.contains(after[n].key@));
                                }
                            },
                            None => {},
                        }
                        assert(key_listed(after[n]));
                    }
                }
            },
            _ => {},
        }
    }
}

/// Toggling the preview twice leads to browsing from any mode but the
/// preview, and gives back the mode it started from when that was browsing or
/// the preview.
pub proof fn law_preview_toggle_twice(mode: CurrentMode)
    ensures
        mode != CurrentMode::Preview ==> mode_after(
            mode_after(mode, Message::ViewPreview),
            Message::ViewPreview,
        ) == CurrentMode::Browse,
        mode == CurrentMode::Browse || mode == CurrentMode::Preview ==> mode_after(
            mode_after(mode, Message::ViewPreview),
            Message::ViewPreview,
        ) == mode,
{
}

/// Going out right after entering a container gives back the path from
/// before; where entering opened nothing, going out drops the deepest level.
pub proof fn law_out_undoes_in(before: Seq<PathSegment>, entered_path: Seq<PathSegment>, after: Seq<PathSegment>)
    requires
        path_after(before, entered_path, Message::In),
        path_after(entered_path, after, Message::Out),
    ensures
        entered_target(before) is Some ==> after == before,
        entered_target(before) is None ==> after == left(before),
{
}

/// Only Enter depends on the mode: every other key asks for the same message
/// in every mode.
pub proof fn law_only_enter_depends_on_mode(key: KeyInput, first: CurrentMode, second: CurrentMode)
    requires
        key != KeyInput::Enter,
    ensures
        key_message(key, first) == key_message(key, second),
{
}

/// What each key asks for, in every mode: h or Left goes out, l or Right
/// goes in, j or Down moves down, k or Up moves up, p toggles the preview
/// (also from the preview, back to browsing), o and O create below and above,
/// q quits. Enter edits while browsing, confirms a command in command mode,
/// does nothing in the preview and confirms a value otherwise. No other key
/// asks for anything.
pub proof fn law_key_table(mode: CurrentMode, c: char)
    ensures
        key_message(KeyInput::Char('h'), mode) == Some(Message::Out),
        key_message(KeyInput::Left, mode) == Some(Message::Out),
        key_message(KeyInput::Char('l'), mode) == Some(Message::In),
        key_message(KeyInput::Right, mode) == Some(Message::In),
        key_message(KeyInput::Char('j'), mode) == Some(Message::Down),
        key_message(KeyInput::Down, mode) == Some(Message::Down),
        key_message(KeyInput::Char('k'), mode) == Some(Message::Up),
        key_message(KeyInput::Up, mode) == Some(Message::Up),
        key_message(KeyInput::Char('p'), mode) == Some(Message::ViewPreview),
        key_message(KeyInput::Char('o'), mode) == Some(Message::CreateBelow),
        key_message(KeyInput::Char('O'), mode) == Some(Message::CreateAbove),
        key_message(KeyInput::Char('q'), mode) == Some(Message::Quit),
        key_message(KeyInput::Other, mode) is None,
        c != 'h' && c != 'l' && c != 'j' && c != 'k' && c != 'p' && c != 'o' && c != 'O' && c != 'q'
            ==> key_message(KeyInput::Char(c), mode) is None,
        key_message(KeyInput::Enter, mode) == match mode {
            CurrentMode::Browse => Some(Message::EditValue),
            CurrentMode::Preview => None,
            CurrentMode::Command => Some(Message::ConfirmCommand),
            CurrentMode::Create | CurrentMode::Select | CurrentMode::Edit => Some(Message::ConfirmValue),
        },
{
}

} // verus!
