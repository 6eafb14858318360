use vstd::prelude::*;
use vstd::string::*;
use tui_widget_list::ListState;
use crate::value::{
    container_entries_for, entries_of, entry_value, is_container, string_views, value_label, JsonValue,
    OrderedValue,
};

verus! {

#[verifier::external_type_specification]
#[verifier::external_body]
pub struct ExListState(ListState);

/// The row that a list's selection state has selected (its `selected` field).
pub uninterp spec fn selected_row(state: ListState) -> Option<usize>;

/// The state that `ListState::select` leaves when it selects `index`.
pub uninterp spec fn selected_state(state: ListState, index: Option<usize>) -> ListState;

/// The state that `ListState::next` leaves; it depends on the whole state,
/// including the row count and row sizes that the last drawing recorded.
pub uninterp spec fn next_state(state: ListState) -> ListState;

/// The state that `ListState::previous` leaves; like `next_state`, a function
/// of the whole state.
pub uninterp spec fn previous_state(state: ListState) -> ListState;

/// A copy of a selection state (`ListState`'s derived `Clone`, field by
/// field): the same state.
pub assume_specification[ <ListState as Clone>::clone ](state: &ListState) -> (copy: ListState)
    ensures
        copy == *state,
;

/// A fresh selection state (`ListState::default`): nothing selected.
#[verifier::external_body]
pub(crate) fn list_state_default() -> (state: ListState)
    ensures
        selected_row(state) is None,
{
    ListState::default()
}

/// Selects `index` (`ListState::select`).
#[verifier::external_body]
pub(crate) fn list_select(state: &mut ListState, index: Option<usize>)
    ensures
        *final(state) == selected_state(*old(state), index),
        selected_row(*final(state)) == index,
{
    state.select(index)
}

/// The selected row (the `selected` field).
#[verifier::external_body]
pub(crate) fn list_selected(state: &ListState) -> (index: Option<usize>)
    ensures
        index == selected_row(*state),
{
    state.selected
}

/// Moves the selection down (`ListState::next`): the new state is
/// `next_state` of the old. How far the selection moves depends on the number
/// of rows and the row heights that the last drawing of the list recorded:
/// it stays, goes to the first row, or goes one row down.
#[verifier::external_body]
pub(crate) fn list_next(state: &mut ListState)
    ensures
        *final(state) == next_state(*old(state)),
        match selected_row(*old(state)) {
            Some(i) => selected_row(*final(state)) == Some(i)
                || selected_row(*final(state)) == Some(0usize)
                || (i < usize::MAX && selected_row(*final(state)) == Some((i + 1) as usize)),
            None => selected_row(*final(state)) is None || selected_row(*final(state)) == Some(0usize),
        },
{
    state.next()
}

/// Moves the selection up (`ListState::previous`): the new state is
/// `previous_state` of the old. As with `list_next`, how far depends on what
/// the last drawing recorded: the selection stays, goes one row up, or, from
/// the first row or from no selection, goes to the last row.
#[verifier::external_body]
pub(crate) fn list_previous(state: &mut ListState)
    ensures
        *final(state) == previous_state(*old(state)),
        match selected_row(*old(state)) {
            Some(i) => if i > 0 {
                selected_row(*final(state)) == Some(i) || selected_row(*final(state)) == Some((i - 1) as usize)
            } else {
                selected_row(*final(state)) is Some
            },
            None => true,
        },
{
    state.previous()
}

/// One level of the path from the root of the document to the container
/// being browsed.
#[derive(Debug, Clone)]
pub struct PathSegment {
    /// The label of the selected entry of this container.
    pub key: String,
    /// The container shown at this level.
    pub value: OrderedValue,
    /// The selection state of the list that shows the container.
    pub list_state: ListState,
}

impl AsRef<str> for PathSegment {
    /// The key of the segment.
    fn as_ref(&self) -> (key: &str)
        ensures
            key@ == self.key@,
    {
        self.key.as_str()
    }
}

impl PathSegment {
    pub fn new(key: String, value: OrderedValue, list_state: ListState) -> (segment: Self)
        ensures
            segment.key == key,
            segment.value == value,
            segment.list_state == list_state,
    {
        PathSegment { key, value, list_state }
    }
}

/// What the user is doing.
#[derive(Debug, PartialEq, Eq, Structural)]
pub enum CurrentMode {
    /// Browsing the structure.
    Browse,
    /// Looking at the pretty-printed JSON.
    Preview,
    /// Creating new objects.
    Create,
    /// Selecting preset field values.
    Select,
    /// Typing a field value.
    Edit,
    /// Typing a command.
    Command,
}

impl Default for CurrentMode {
    fn default() -> (mode: Self)
        ensures
            mode == CurrentMode::Browse,
    {
        CurrentMode::Browse
    }
}

/// Whether the application goes on.
#[derive(Debug, PartialEq, Eq, Structural)]
pub enum RunningState {
    Running,
    Done,
}

impl Default for RunningState {
    fn default() -> (state: Self)
        ensures
            state == RunningState::Running,
    {
        RunningState::Running
    }
}

/// The whole state of the browser.
#[derive(Debug)]
pub struct Model {
    pub current_mode: CurrentMode,
    /// The document.
    pub current_json: OrderedValue,
    /// One segment for each level from the root down to the current depth.
    pub current_path: Vec<PathSegment>,
    pub running_state: RunningState,
}

impl Default for Model {
    fn default() -> (model: Self)
        ensures
            model.current_mode == CurrentMode::Browse,
            model.current_json@ == JsonValue::Null,
            model.current_path@.len() == 0,
            model.running_state == RunningState::Running,
    {
        Model {
            current_mode: CurrentMode::Browse,
            current_json: OrderedValue::Null,
            current_path: Vec::new(),
            running_state: RunningState::Running,
        }
    }
}

/// The key that a fresh segment for `v` starts with: its first entry label,
/// or the placeholder label where it has no entries.
pub open spec fn first_label(v: JsonValue) -> Seq<char> {
    if entries_of(v).len() > 0 {
        entries_of(v)[0]
    } else {
        value_label()
    }
}

/// The row that a fresh segment for `v` starts with selected.
pub open spec fn first_row(v: JsonValue) -> Option<usize> {
    if entries_of(v).len() > 0 {
        Some(0usize)
    } else {
        None
    }
}

/// Whether a segment's key is one of the labels of its container, or the
/// placeholder label of a container without entries.
pub open spec fn key_listed(seg: PathSegment) -> bool {
    let entries = entries_of(seg.value@);
    entries.contains(seg.key@) || (entries.len() == 0 && seg.key@ == value_label())
}

/// Whether `path` leads down from `json`: the first segment holds the whole
/// document, each further segment holds the container that the key of the
/// segment above names, and every key is a label of its container.
pub open spec fn path_consistent(json: JsonValue, path: Seq<PathSegment>) -> bool {
    &&& path.len() > 0 ==> path[0].value@ == json
    &&& forall|i: int| 0 < i < path.len() ==> {
        &&& entry_value(path[i - 1].value@, path[i - 1].key@) == Some(#[trigger] path[i].value@)
        &&& is_container(path[i].value@)
    }
    &&& forall|i: int| 0 <= i < path.len() ==> key_listed(#[trigger] path[i])
}

impl Model {
    /// Makes sure that the path holds the root segment: where the path is
    /// empty, a segment for the whole document is pushed, with its first entry
    /// selected; otherwise nothing changes.
    pub fn ensure_root_segment(&mut self)
        ensures
            final(self).current_mode == old(self).current_mode,
            final(self).current_json == old(self).current_json,
            final(self).running_state == old(self).running_state,
            old(self).current_path@.len() > 0 ==> final(self).current_path@ == old(self).current_path@,
            old(self).current_path@.len() == 0 ==> {
                let seg = final(self).current_path@[0];
                &&& final(self).current_path@.len() == 1
                &&& seg.value@ == old(self).current_json@
                &&& seg.key@ == first_label(old(self).current_json@)
                &&& selected_row(seg.list_state) == first_row(old(self).current_json@)
                &&& path_consistent(old(self).current_json@, final(self).current_path@)
            },
            old(self).current_path@.len() == 0 && entries_of(old(self).current_json@).len() > 0 ==> {
                &&& final(self).current_path@[0].key@ == entries_of(old(self).current_json@)[0]
                &&& selected_row(final(self).current_path@[0].list_state) == Some(0usize)
            },
            old(self).current_path@.len() == 0 && entries_of(old(self).current_json@).len() == 0 ==> {
                &&& final(self).current_path@[0].key@ == "(value)"@
                &&& selected_row(final(self).current_path@[0].list_state) is None
            },
    {
        if self.current_path.len() > 0 {
            return;
        }
        let entries = container_entries_for(&self.current_json);
        proof {
            assert(string_views(entries@).len() == entries@.len());
        }
        let mut list_state = list_state_default();
        if entries.len() > 0 {
            list_select(&mut list_state, Some(0));
        }
        let key = if entries.len() > 0 {
            proof {
                assert(string_views(entries@)[0] == entries@[0]@);
            }
            entries[0].clone()
        } else {
            String::from_str("(value)")
        };
        let value = self.current_json.clone();
        self.current_path.push(PathSegment::new(key, value, list_state));
        proof {
            let seg = self.current_path@[0];
            if entries@.len() > 0 {
                assert(entries_of(seg.value@)[0] == seg.key@);
                assert(entries_of(seg.value@).contains(seg.key@));
            }
            assert(key_listed(self.current_path@[0]));
        }
    }
}

/// A fresh root segment starts at the document's first entry: for a
/// document with entries its key is the first label, which is `0` for an
/// array and the first key for an object, and its first row is selected; for
/// a document without entries the key is the placeholder and nothing is
/// selected.
pub proof fn law_root_starts_at_first_entry(v: JsonValue)
    ensures
        entries_of(v).len() > 0 ==> first_label(v) == entries_of(v)[0] && first_row(v) == Some(0usize),
        entries_of(v).len() == 0 ==> first_label(v) == "(value)"@ && first_row(v) is None,
        v is Array && v->Array_0.len() > 0 ==> first_label(v) == seq!['0'],
        v is Object && v->Object_0.len() > 0 ==> first_label(v) == v->Object_0[0].0,
{
    if v is Array && v->Array_0.len() > 0 {
        assert(crate::text::decimal(0) == seq!['0']);
    }
}

} // verus!
