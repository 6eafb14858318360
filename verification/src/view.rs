use vstd::prelude::*;
use vstd::string::*;
use itertools::Itertools;
use crate::model::{
    first_label, first_row, list_select, list_selected, selected_row, selected_state, CurrentMode,
    Model, PathSegment,
};
use crate::update::{prepared_state, start_row};
use crate::value::{
    container_entries_for, entries_of, entry_lines, entry_value, format_container_entry_lines,
    is_container, string_views, value_for_entry, JsonValue, OrderedValue,
};

verus! {

/// The words that the mode strip shows for each mode.
pub open spec fn mode_text(mode: CurrentMode) -> Seq<char> {
    match mode {
        CurrentMode::Browse => "browse"@,
        CurrentMode::Preview => "preview"@,
        CurrentMode::Create => "create"@,
        CurrentMode::Select => "select"@,
        CurrentMode::Edit => "edit"@,
        CurrentMode::Command => "command"@,
    }
}

/// The name of a mode, as the mode strip shows it.
pub fn mode_label(mode: &CurrentMode) -> (label: &'static str)
    ensures
        label@ == mode_text(*mode),
{
    match mode {
        CurrentMode::Browse => "browse",
        CurrentMode::Preview => "preview",
        CurrentMode::Create => "create",
        CurrentMode::Select => "select",
        CurrentMode::Edit => "edit",
        CurrentMode::Command => "command",
    }
}

/// The parts joined with `sep` between each two.
pub open spec fn joined(parts: Seq<Seq<char>>, sep: Seq<char>) -> Seq<char>
    decreases parts.len(),
{
    if parts.len() == 0 {
        Seq::empty()
    } else if parts.len() == 1 {
        parts[0]
    } else {
        joined(parts.drop_last(), sep) + sep + parts.last()
    }
}

/// The strings joined with `/` between each two (`Itertools::join`).
#[verifier::external_body]
fn join_with_slash(parts: &Vec<String>) -> (text: String)
    ensures
        text@ == joined(string_views(parts@), "/"@),
{
    parts.iter().join("/")
}

/// The keys of the path's segments, from the root down.
pub open spec fn path_keys_of(path: Seq<PathSegment>) -> Seq<Seq<char>> {
    path.map_values(|seg: PathSegment| seg.key@)
}

impl Model {
    /// The keys of the path, from the root down.
    pub fn path_keys(&self) -> (keys: Vec<String>)
        ensures
            string_views(keys@) == path_keys_of(self.current_path@),
    {
        let mut keys: Vec<String> = Vec::new();
        let mut i: usize = 0;
        while i < self.current_path.len()
            invariant
                i <= self.current_path@.len(),
                keys@.len() == i,
                forall|j: int| 0 <= j < i ==> #[trigger] keys@[j]@ == self.current_path@[j].key@,
            decreases self.current_path@.len() - i,
        {
            keys.push(self.current_path[i].key.clone());
            i = i + 1;
        }
        assert(string_views(keys@) =~= path_keys_of(self.current_path@));
        keys
    }

    /// The text of the path strip: the keys joined with `/`.
    pub fn path_label(&self) -> (text: String)
        ensures
            text@ == joined(path_keys_of(self.current_path@), "/"@),
    {
        let keys = self.path_keys();
        join_with_slash(&keys)
    }
}

/// The text of the preview: the pretty-printed JSON of the value that the
/// path reaches (`Some(Ok(..))`), or a note where the path reaches nothing
/// (`None`) or the value could not be written (`Some(Err(()))`).
pub fn preview_text(pretty: Option<Result<String, ()>>) -> (text: String)
    ensures
        text@ == match pretty {
            None => "<path not found>"@,
            Some(Err(_)) => "<failed to serialise>"@,
            Some(Ok(json)) => json@,
        },
{
    match pretty {
        None => String::from_str("<path not found>"),
        Some(Err(_)) => String::from_str("<failed to serialise>"),
        Some(Ok(json)) => json,
    }
}

/// The number of characters of `s`.
pub fn display_width(s: &str) -> (width: usize)
    ensures
        width == s@.len(),
{
    s.unicode_len()
}

/// The value that a row shows: the entry's value, or the container itself
/// where the label names nothing.
pub open spec fn row_value(container: JsonValue, label: Seq<char>) -> JsonValue {
    match entry_value(container, label) {
        Some(v) => v,
        None => container,
    }
}

/// All lines of the rows for `labels`, one row after the other.
pub open spec fn column_lines(container: JsonValue, labels: Seq<Seq<char>>) -> Seq<Seq<char>>
    decreases labels.len(),
{
    if labels.len() == 0 {
        Seq::empty()
    } else {
        column_lines(container, labels.drop_last()) + entry_lines(
            labels.last(),
            row_value(container, labels.last()),
        )
    }
}

/// The length of the longest line, and at least `least`.
pub open spec fn widest(lines: Seq<Seq<char>>, least: nat) -> nat
    decreases lines.len(),
{
    if lines.len() == 0 {
        least
    } else {
        let rest = widest(lines.drop_last(), least);
        if lines.last().len() > rest {
            lines.last().len()
        } else {
            rest
        }
    }
}

/// The width a column asks for: four more than its widest line, at least 16
/// and at most `u16::MAX`.
pub open spec fn padded_width(widest: nat) -> u16 {
    if widest + 4 < 16 {
        16
    } else if widest + 4 > u16::MAX {
        u16::MAX
    } else {
        (widest + 4) as u16
    }
}

/// The width of a column with `title` that lists `labels` of `container`.
pub open spec fn column_width(title: Seq<char>, container: JsonValue, labels: Seq<Seq<char>>) -> u16 {
    padded_width(widest(column_lines(container, labels), title.len()))
}

proof fn lemma_widest_push(lines: Seq<Seq<char>>, line: Seq<char>, least: nat)
    ensures
        widest(lines.push(line), least) == if line.len() > widest(lines, least) {
            line.len()
        } else {
            widest(lines, least)
        },
{
    assert(lines.push(line).drop_last() =~= lines);
}

proof fn lemma_widest_bounds(lines: Seq<Seq<char>>, least: nat)
    ensures
        widest(lines, least) >= least,
        forall|k: int| 0 <= k < lines.len() ==> widest(lines, least) >= #[trigger] lines[k].len(),
        widest(lines, least) == least || exists|k: int|
            0 <= k < lines.len() && widest(lines, least) == #[trigger] lines[k].len(),
    decreases lines.len(),
{
    if lines.len() > 0 {
        let rest = lines.drop_last();
        lemma_widest_bounds(rest, least);
        assert forall|k: int| 0 <= k < lines.len() implies widest(lines, least) >= #[trigger] lines[k].len() by {
            if k < lines.len() - 1 {
                assert(lines[k] == rest[k]);
            }
        }
        if widest(lines, least) != least {
            if widest(lines, least) == lines.last().len() {
                assert(lines[lines.len() - 1] == lines.last());
            } else {
                let k = choose|k: int| 0 <= k < rest.len() && widest(rest, least) == #[trigger] rest[k].len();
                assert(lines[k] == rest[k]);
            }
        }
    }
}

proof fn lemma_widest_append(a: Seq<Seq<char>>, b: Seq<Seq<char>>, least: nat)
    ensures
        widest(a + b, least) == widest(b, widest(a, least)),
    decreases b.len(),
{
    if b.len() == 0 {
        assert(a + b =~= a);
    } else {
        assert((a + b).drop_last() =~= a + b.drop_last());
        assert((a + b).last() == b.last());
        lemma_widest_append(a, b.drop_last(), least);
    }
}

proof fn lemma_column_lines_cover(container: JsonValue, labels: Seq<Seq<char>>, least: nat, i: int, j: int)
    requires
        0 <= i < labels.len(),
        0 <= j < entry_lines(labels[i], row_value(container, labels[i])).len(),
    ensures
        widest(column_lines(container, labels), least) >= entry_lines(
            labels[i],
            row_value(container, labels[i]),
        )[j].len(),
    decreases labels.len(),
{
    let a = column_lines(container, labels.drop_last());
    let e = entry_lines(labels.last(), row_value(container, labels.last()));
    lemma_widest_append(a, e, least);
    lemma_widest_bounds(e, widest(a, least));
    if i < labels.len() - 1 {
        assert(labels.drop_last()[i] == labels[i]);
        lemma_column_lines_cover(container, labels.drop_last(), least, i, j);
    } else {
        assert(e[j] == entry_lines(labels[i], row_value(container, labels[i]))[j]);
    }
}

proof fn lemma_column_lines_attained(container: JsonValue, labels: Seq<Seq<char>>, least: nat)
    ensures
        widest(column_lines(container, labels), least) == least || exists|i: int, j: int|
            0 <= i < labels.len() && 0 <= j < entry_lines(labels[i], row_value(container, labels[i])).len()
                && widest(column_lines(container, labels), least) == (#[trigger] entry_lines(
                labels[i],
                row_value(container, labels[i]),
            )[j]).len(),
    decreases labels.len(),
{
    if labels.len() > 0 {
        let a = column_lines(container, labels.drop_last());
        let e = entry_lines(labels.last(), row_value(container, labels.last()));
        let n = labels.len() - 1;
        lemma_widest_append(a, e, least);
        lemma_widest_bounds(e, widest(a, least));
        lemma_column_lines_attained(container, labels.drop_last(), least);
        let w = widest(column_lines(container, labels), least);
        if w != least {
            if w == widest(a, least) {
                let (i, j) = choose|i: int, j: int|
                    0 <= i < labels.drop_last().len() && 0 <= j < entry_lines(
                        labels.drop_last()[i],
                        row_value(container, labels.drop_last()[i]),
                    ).len() && widest(a, least) == (#[trigger] entry_lines(
                        labels.drop_last()[i],
                        row_value(container, labels.drop_last()[i]),
                    )[j]).len();
                assert(labels.drop_last()[i] == labels[i]);
                assert(w == entry_lines(labels[i], row_value(container, labels[i]))[j].len());
            } else {
                let k = choose|k: int| 0 <= k < e.len() && w == #[trigger] e[k].len();
                assert(labels[n] == labels.last());
                assert(w == entry_lines(labels[n], row_value(container, labels[n]))[k].len());
            }
        }
    }
}

/// A column is wide enough for its title and for every line of every row,
/// four more than the longest of them, but at least 16 and at most
/// `u16::MAX`; and it is no wider than that: its width is 16, or that of the
/// title, or that of some line.
pub proof fn law_column_width_fits_lines(title: Seq<char>, container: JsonValue, labels: Seq<Seq<char>>)
    ensures
        column_width(title, container, labels) >= 16,
        column_width(title, container, labels) as int >= saturated(title.len() + 4int),
        forall|i: int, j: int|
            0 <= i < labels.len() && 0 <= j < entry_lines(labels[i], row_value(container, labels[i])).len()
                ==> column_width(title, container, labels) as int >= saturated(
                (#[trigger] entry_lines(labels[i], row_value(container, labels[i]))[j]).len() + 4int,
            ),
        column_width(title, container, labels) == 16 || column_width(title, container, labels) as int
            == saturated(title.len() + 4int) || exists|i: int, j: int|
            0 <= i < labels.len() && 0 <= j < entry_lines(labels[i], row_value(container, labels[i])).len()
                && column_width(title, container, labels) as int == saturated(
                (#[trigger] entry_lines(labels[i], row_value(container, labels[i]))[j]).len() + 4int,
            ),
{
    let lines = column_lines(container, labels);
    let least = title.len();
    lemma_widest_bounds(lines, least);
    assert forall|i: int, j: int|
        0 <= i < labels.len() && 0 <= j < entry_lines(labels[i], row_value(container, labels[i])).len()
        implies column_width(title, container, labels) as int >= saturated(
            (#[trigger] entry_lines(labels[i], row_value(container, labels[i]))[j]).len() + 4int,
        ) by {
        lemma_column_lines_cover(container, labels, least, i, j);
    }
    lemma_column_lines_attained(container, labels, least);
    let w = widest(lines, least);
    if w != least && padded_width(w) != 16 {
        let (i, j) = choose|i: int, j: int|
            0 <= i < labels.len() && 0 <= j < entry_lines(labels[i], row_value(container, labels[i])).len()
                && w == (#[trigger] entry_lines(labels[i], row_value(container, labels[i]))[j]).len();
        assert(column_width(title, container, labels) as int == saturated(
            entry_lines(labels[i], row_value(container, labels[i]))[j].len() + 4int,
        ));
    }
}

/// The width of a column: see `column_width`.
pub fn desired_width(title: &str, container: &OrderedValue, entries: &Vec<String>) -> (width: u16)
    ensures
        width == column_width(title@, container@, string_views(entries@)),
        width >= 16,
        width as int >= saturated(title@.len() + 4int),
        forall|i: int, j: int|
            0 <= i < entries@.len() && 0 <= j < entry_lines(
                entries@[i]@,
                row_value(container@, entries@[i]@),
            ).len() ==> width as int >= saturated(
                (#[trigger] entry_lines(entries@[i]@, row_value(container@, entries@[i]@))[j]).len() + 4int,
            ),
{
    proof {
        let labels = string_views(entries@);
        law_column_width_fits_lines(title@, container@, labels);
        assert forall|i: int, j: int|
            0 <= i < entries@.len() && 0 <= j < entry_lines(
                entries@[i]@,
                row_value(container@, entries@[i]@),
            ).len() implies column_width(title@, container@, labels) as int >= saturated(
                (#[trigger] entry_lines(entries@[i]@, row_value(container@, entries@[i]@))[j]).len() + 4int,
            ) by {
            assert(labels[i] == entries@[i]@);
        }
    }
    let ghost labels = string_views(entries@);
    let mut max_line_width = display_width(title);
    let mut i: usize = 0;
    assert(labels.take(0) =~= Seq::<Seq<char>>::empty());
    while i < entries.len()
        invariant
            i <= entries@.len(),
            labels == string_views(entries@),
            max_line_width == widest(column_lines(container@, labels.take(i as int)), title@.len()),
        decreases entries@.len() - i,
    {
        let label = entries[i].as_str();
        let row_value = match value_for_entry(container, label) {
            Some(v) => v,
            None => container,
        };
        let lines = format_container_entry_lines(label, row_value);
        let ghost before = column_lines(container@, labels.take(i as int));
        proof {
            assert(labels.take(i + 1).drop_last() =~= labels.take(i as int));
            assert(labels.take(i + 1).last() == label@);
        }
        let mut k: usize = 0;
        assert(before + string_views(lines@).take(0) =~= before);
        while k < lines.len()
            invariant
                k <= lines@.len(),
                max_line_width == widest(before + string_views(lines@).take(k as int), title@.len()),
            decreases lines@.len() - k,
        {
            let w = display_width(lines[k].as_str());
            proof {
                let views = string_views(lines@);
                assert(before + views.take(k + 1) =~= (before + views.take(k as int)).push(lines@[k as int]@));
                lemma_widest_push(before + views.take(k as int), lines@[k as int]@, title@.len() as nat);
            }
            if w > max_line_width {
                max_line_width = w;
            }
            k = k + 1;
        }
        proof {
            assert(string_views(lines@).take(lines@.len() as int) =~= string_views(lines@));
        }
        i = i + 1;
    }
    assert(labels.take(entries@.len() as int) =~= labels);
    let padded = max_line_width.saturating_add(4);
    if padded < 16 {
        16
    } else if padded > 65535 {
        65535
    } else {
        padded as u16
    }
}

/// The label of row `index`, or `?` past the end.
pub open spec fn row_label(labels: Seq<Seq<char>>, index: int) -> Seq<char> {
    if 0 <= index < labels.len() {
        labels[index]
    } else {
        "?"@
    }
}

/// The lines of row `index` of a column that lists `entries` of `container`.
pub fn row_lines(container: &OrderedValue, entries: &Vec<String>, index: usize) -> (lines: Vec<String>)
    ensures
        string_views(lines@) == {
            let label = row_label(string_views(entries@), index as int);
            entry_lines(label, row_value(container@, label))
        },
{
    let label = if index < entries.len() {
        entries[index].clone()
    } else {
        String::from_str("?")
    };
    let row_value = match value_for_entry(container, label.as_str()) {
        Some(v) => v,
        None => container,
    };
    format_container_entry_lines(label.as_str(), row_value)
}

/// The height of a row of `line_count` lines, at most `u16::MAX`.
pub fn row_height(line_count: usize) -> (height: u16)
    ensures
        height as int == if line_count > u16::MAX { u16::MAX as int } else { line_count as int },
{
    if line_count > 65535 {
        65535
    } else {
        line_count as u16
    }
}

/// What one column of the browser shows.
pub struct ColumnPlan {
    pub title: String,
    pub container: OrderedValue,
    pub entries: Vec<String>,
    pub desired_width: u16,
}

/// The row that a column with `count` entries shows selected: the current
/// selection (the first row where there is none), moved back onto the last
/// row where it lies past the end.
pub open spec fn clamped_row(selected: Option<usize>, count: nat) -> usize {
    let i = start_row(selected);
    if i < count {
        i
    } else {
        (count - 1) as usize
    }
}

/// A segment after its selection is brought back into range and its key set
/// to the selected row's label: the first row is selected where nothing was,
/// and then the clamped row is selected again (which also resets the scroll
/// inside the row). One without entries stays as it is.
pub open spec fn synced(before: PathSegment, after: PathSegment) -> bool {
    let entries = entries_of(before.value@);
    if entries.len() == 0 {
        after == before
    } else {
        let row = clamped_row(selected_row(before.list_state), entries.len());
        &&& after.value == before.value
        &&& after.list_state == selected_state(prepared_state(before.list_state), Some(row))
        &&& selected_row(after.list_state) == Some(row)
        &&& after.key@ == entries[row as int]
    }
}

/// Whether a segment's selection is a row of its container and its key is
/// that row's label (always so for a container without entries).
pub open spec fn selection_agrees(seg: PathSegment) -> bool {
    let entries = entries_of(seg.value@);
    entries.len() > 0 ==> match selected_row(seg.list_state) {
        Some(i) => i < entries.len() && seg.key@ == entries[i as int],
        None => false,
    }
}

/// After a segment is brought into range its selection agrees with its key,
/// and bringing into range a segment whose selection already agrees changes
/// neither its key nor its selection; so doing it twice is doing it once.
pub proof fn law_sync_settles(before: PathSegment, after: PathSegment)
    requires
        synced(before, after),
    ensures
        selection_agrees(after),
        selection_agrees(before) ==> after.key@ == before.key@ && selected_row(after.list_state)
            == selected_row(before.list_state),
{
}

/// Brings the selection of `segment` into the range of its entries and sets
/// the key to the selected row's label; returns the entry labels.
fn sync_selection(segment: &mut PathSegment) -> (entries: Vec<String>)
    ensures
        synced(*old(segment), *final(segment)),
        string_views(entries@) == entries_of(old(segment).value@),
{
    let entries = container_entries_for(&segment.value);
    proof {
        assert(string_views(entries@).len() == entries@.len());
    }
    if entries.len() > 0 {
        if list_selected(&segment.list_state).is_none() {
            list_select(&mut segment.list_state, Some(0));
        }
        match list_selected(&segment.list_state) {
            Some(selected_index) => {
                let last = entries.len() - 1;
                let row = if selected_index < last {
                    selected_index
                } else {
                    last
                };
                list_select(&mut segment.list_state, Some(row));
                proof {
                    assert(string_views(entries@)[row as int] == entries@[row as int]@);
                }
                segment.key = entries[row].clone();
            },
            None => {},
        }
    }
    entries
}

/// The title of the column at `depth`: `root` for the first, the key of
/// the level above for the others.
pub open spec fn column_title(path: Seq<PathSegment>, depth: int) -> Seq<char> {
    if depth == 0 {
        "root"@
    } else {
        path[depth - 1].key@
    }
}

/// Whether `column` shows `container` under `title`, with its entries and
/// their width.
pub open spec fn column_shows(column: ColumnPlan, title: Seq<char>, container: JsonValue) -> bool {
    &&& column.title@ == title
    &&& column.container@ == container
    &&& string_views(column.entries@) == entries_of(container)
    &&& column.desired_width == column_width(title, container, entries_of(container))
}

/// The container that the preview column shows: the value that the deepest
/// key names, where it is a container.
pub open spec fn preview_target(path: Seq<PathSegment>) -> Option<JsonValue> {
    if path.len() == 0 {
        None
    } else {
        match entry_value(path.last().value@, path.last().key@) {
            Some(v) => if is_container(v) { Some(v) } else { None },
            None => None,
        }
    }
}

/// The columns of the browser, from the root down: one for each level of
/// the path, and a preview of the selected container. First the root
/// segment is made sure of, and each level's selection is brought into range
/// with its key following the selected row.
pub fn plan_columns(model: &mut Model) -> (columns: Vec<ColumnPlan>)
    ensures
        final(model).current_mode == old(model).current_mode,
        final(model).current_json == old(model).current_json,
        final(model).running_state == old(model).running_state,
        ({
            let json = old(model).current_json@;
            let path = final(model).current_path@;
            &&& old(model).current_path@.len() == 0 ==> {
                &&& path.len() == 1
                &&& path[0].value@ == json
                &&& path[0].key@ == first_label(json)
                &&& selected_row(path[0].list_state) == first_row(json)
            }
            &&& old(model).current_path@.len() > 0 ==> {
                &&& path.len() == old(model).current_path@.len()
                &&& forall|d: int| 0 <= d < path.len() ==> synced(old(model).current_path@[d], #[trigger] path[d])
            }
            &&& forall|d: int| 0 <= d < path.len() ==> column_shows(
                #[trigger] columns@[d],
                column_title(path, d),
                path[d].value@,
            )
            &&& match preview_target(path) {
                Some(target) => columns@.len() == path.len() + 1 && column_shows(
                    columns@[path.len() as int],
                    path.last().key@,
                    target,
                ),
                None => columns@.len() == path.len(),
            }
        }),
        ({
            let path = final(model).current_path@;
            &&& path.len() > 0
            &&& match entry_value(path.last().value@, path.last().key@) {
                Some(t) => if t is Array || t is Object {
                    &&& columns@.len() == path.len() + 1
                    &&& columns@[path.len() as int].container@ == t
                    &&& columns@[path.len() as int].title@ == path.last().key@
                    &&& string_views(columns@[path.len() as int].entries@) == entries_of(t)
                } else {
                    columns@.len() == path.len()
                },
                None => columns@.len() == path.len(),
            }
        }),
{
    model.ensure_root_segment();
    let ghost start = model.current_path@;
    let column_count = model.current_path.len();
    let mut columns: Vec<ColumnPlan> = Vec::new();
    let mut depth: usize = 0;
    while depth < column_count
        invariant
            depth <= column_count,
            column_count == start.len(),
            model.current_path@.len() == column_count,
            model.current_mode == old(model).current_mode,
            model.current_json == old(model).current_json,
            model.running_state == old(model).running_state,
            forall|d: int| 0 <= d < depth ==> synced(start[d], #[trigger] model.current_path@[d]),
            forall|d: int| depth <= d < column_count ==> #[trigger] model.current_path@[d] == start[d],
            columns@.len() == depth,
            forall|d: int| 0 <= d < depth ==> column_shows(
                #[trigger] columns@[d],
                column_title(model.current_path@, d),
                model.current_path@[d].value@,
            ),
        decreases column_count - depth,
    {
        let title = if depth == 0 {
            String::from_str("root")
        } else {
            model.current_path[depth - 1].key.clone()
        };
        let ghost path_before = model.current_path@;
        let entries = sync_selection(&mut model.current_path[depth]);
        let container = model.current_path[depth].value.clone();
        proof {
            assert(model.current_path@ == path_before.update(depth as int, model.current_path@[depth as int]));
            assert(start[depth as int] == path_before[depth as int]);
        }
        let desired_width = desired_width(title.as_str(), &container, &entries);
        columns.push(ColumnPlan { title, container, entries, desired_width });
        proof {
            assert forall|d: int| 0 <= d < depth + 1 implies column_shows(
                #[trigger] columns@[d],
                column_title(model.current_path@, d),
                model.current_path@[d].value@,
            ) by {
                if d < depth {
                    assert(column_title(model.current_path@, d) == column_title(path_before, d));
                }
            }
        }
        depth = depth + 1;
    }
    proof {
        if old(model).current_path@.len() == 0 {
            assert(synced(start[0], model.current_path@[0]));
        }
    }
    let len = model.current_path.len();
    if len > 0 {
        let active = &model.current_path[len - 1];
        match value_for_entry(&active.value, active.key.as_str()) {
            Some(selected_value) => {
                let is_container = match selected_value {
                    OrderedValue::Array(_) | OrderedValue::Object(_) => true,
                    _ => false,
                };
                if is_container {
                    let title = active.key.clone();
                    let container = selected_value.clone();
                    let entries = container_entries_for(&container);
                    let desired_width = desired_width(title.as_str(), &container, &entries);
                    columns.push(ColumnPlan { title, container, entries, desired_width });
                }
            },
            None => {},
        }
    }
    proof {
        law_preview_shows_selected_container(model.current_path@);
    }
    columns
}

/// The preview column shows exactly the array or object that the deepest
/// key names; where the key names anything else, or nothing, there is no
/// preview.
pub proof fn law_preview_shows_selected_container(path: Seq<PathSegment>)
    requires
        path.len() > 0,
    ensures
        match entry_value(path.last().value@, path.last().key@) {
            Some(t) => {
                &&& (t is Array || t is Object) ==> preview_target(path) == Some(t)
                &&& !(t is Array || t is Object) ==> preview_target(path) is None
            },
            None => preview_target(path) is None,
        },
{
}

/// `x`, at most `u16::MAX`.
pub open spec fn saturated(x: int) -> int {
    if x > u16::MAX {
        u16::MAX as int
    } else {
        x
    }
}

/// The width that the columns from `t` to the last take when laid out from
/// the right: each column after the first non-empty one comes with `spacing`
/// before it, and every sum saturates at `u16::MAX`.
pub open spec fn fitted_width(widths: Seq<u16>, spacing: u16, t: int) -> int
    decreases widths.len() - t,
{
    if t >= widths.len() {
        0
    } else {
        let rest = fitted_width(widths, spacing, t + 1);
        let w = widths[t] as int;
        let add = if rest == 0 { w } else { saturated(w + spacing) };
        saturated(rest + add)
    }
}

/// Whether column `t` may join the columns to its right: the width with it
/// stays within the viewport, or nothing of width was laid out to its right.
pub open spec fn column_fits(widths: Seq<u16>, viewport: u16, spacing: u16, t: int) -> bool {
    fitted_width(widths, spacing, t + 1) == 0 || fitted_width(widths, spacing, t) <= viewport
}

/// The sum of the widths.
pub open spec fn width_sum(widths: Seq<u16>) -> int
    decreases widths.len(),
{
    if widths.len() == 0 {
        0
    } else {
        widths[0] as int + width_sum(widths.drop_first())
    }
}

/// The width of the columns from `start` to the last side by side, with
/// `spacing` between each two neighbours.
pub open spec fn span_width(widths: Seq<u16>, spacing: u16, start: int) -> int {
    width_sum(widths.subrange(start, widths.len() as int)) + spacing * (widths.len() - start - 1)
}

proof fn lemma_fitted_is_span(widths: Seq<u16>, spacing: u16, t: int)
    requires
        0 <= t < widths.len(),
        forall|k: int| 0 <= k < widths.len() ==> #[trigger] widths[k] > 0,
    ensures
        fitted_width(widths, spacing, t) == saturated(span_width(widths, spacing, t)),
        fitted_width(widths, spacing, t) > 0,
    decreases widths.len() - t,
{
    let n = widths.len() as int;
    let sub = widths.subrange(t, n);
    assert(sub.drop_first() =~= widths.subrange(t + 1, n));
    assert(sub[0] == widths[t]);
    assert(widths[t] > 0);
    if t == n - 1 {
        assert(widths.subrange(t + 1, n) =~= Seq::<u16>::empty());
        assert(width_sum(sub.drop_first()) == 0);
        assert(width_sum(sub) == widths[t] as int);
        assert(spacing * (n - t - 1) == 0) by (nonlinear_arith)
            requires
                n - t - 1 == 0,
        ;
        assert(fitted_width(widths, spacing, t + 1) == 0);
    } else {
        lemma_fitted_is_span(widths, spacing, t + 1);
        let k = n - t - 2;
        assert(spacing * (k + 1) == spacing * k + spacing) by (nonlinear_arith);
        assert(width_sum(sub) == widths[t] as int + width_sum(widths.subrange(t + 1, n)));
        assert(span_width(widths, spacing, t) == widths[t] + spacing + span_width(widths, spacing, t + 1));
    }
}

/// Where every column has some width, the columns shown sit side by side,
/// with one spacing between neighbours, within the viewport (or all the
/// viewport when it is as wide as a width can be), unless only the last is
/// shown; and the column before the first one shown would not fit with them.
pub proof fn law_visible_columns_fill_viewport(widths: Seq<u16>, viewport: u16, spacing: u16, start: int)
    requires
        0 <= start <= widths.len(),
        forall|t: int| start <= t < widths.len() ==> #[trigger] column_fits(widths, viewport, spacing, t),
        start > 0 ==> !column_fits(widths, viewport, spacing, start - 1),
        forall|k: int| 0 <= k < widths.len() ==> #[trigger] widths[k] > 0,
    ensures
        widths.len() > 0 ==> start < widths.len(),
        widths.len() - start >= 2 ==> span_width(widths, spacing, start) <= viewport || viewport == u16::MAX,
        start > 0 ==> span_width(widths, spacing, start - 1) > viewport,
{
    let n = widths.len() as int;
    if n > 0 && start == n {
        assert(fitted_width(widths, spacing, n) == 0);
        assert(column_fits(widths, viewport, spacing, n - 1));
    }
    if n - start >= 2 {
        assert(column_fits(widths, viewport, spacing, start));
        lemma_fitted_is_span(widths, spacing, start);
        lemma_fitted_is_span(widths, spacing, start + 1);
    }
    if start > 0 {
        lemma_fitted_is_span(widths, spacing, start - 1);
        if start < n {
            lemma_fitted_is_span(widths, spacing, start);
        } else {
            assert(fitted_width(widths, spacing, n) == 0);
        }
    }
}

/// The first column shown when the columns fill the viewport from the right:
/// the least index from which every column fits (see `column_fits`). So the
/// last column is always shown, and the one before the first shown would not
/// fit.
pub fn first_visible_column(widths: &Vec<u16>, viewport_width: u16, spacing: u16) -> (start: usize)
    ensures
        start <= widths@.len(),
        widths@.len() > 0 ==> start < widths@.len(),
        forall|t: int| start <= t < widths@.len() ==> #[trigger] column_fits(widths@, viewport_width, spacing, t),
        start > 0 ==> !column_fits(widths@, viewport_width, spacing, start - 1),
        (forall|k: int| 0 <= k < widths@.len() ==> #[trigger] widths@[k] > 0) ==> {
            &&& widths@.len() - start >= 2 ==> span_width(widths@, spacing, start as int) <= viewport_width
                || viewport_width == u16::MAX
            &&& start > 0 ==> span_width(widths@, spacing, start - 1) > viewport_width
        },
{
    let end = widths.len();
    let mut start = end;
    let mut used_width: u16 = 0;
    while start > 0
        invariant
            start <= end,
            end == widths@.len(),
            used_width == fitted_width(widths@, spacing, start as int),
            forall|t: int| start <= t < end ==> #[trigger] column_fits(widths@, viewport_width, spacing, t),
        ensures
            start <= end,
            end > 0 ==> start < end,
            forall|t: int| start <= t < end ==> #[trigger] column_fits(widths@, viewport_width, spacing, t),
            start > 0 ==> !column_fits(widths@, viewport_width, spacing, start - 1),
        decreases start,
    {
        let w = widths[start - 1];
        let add = if used_width == 0 {
            w
        } else {
            w.saturating_add(spacing)
        };
        proof {
            assert(fitted_width(widths@, spacing, start - 1) == saturated(used_width + add));
        }
        if used_width != 0 && used_width.saturating_add(add) > viewport_width {
            break;
        }
        used_width = used_width.saturating_add(add);
        start = start - 1;
    }
    proof {
        if forall|k: int| 0 <= k < widths@.len() ==> #[trigger] widths@[k] > 0 {
            law_visible_columns_fill_viewport(widths@, viewport_width, spacing, start as int);
        }
    }
    start
}

} // verus!
