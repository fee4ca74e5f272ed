//! The rows that a query shows, the row that is selected, and what happens
//! when a row is activated.
//!
//! A query shows the applications whose names hold it, whatever the case of
//! the letters. A query that is arithmetic also shows its answer, as a row of
//! its own before all others. The first row shown is the selected one.

use crate::arith::{
    evaluate_math_expression, evaluated, is_arithmetic_text, is_evaluable, is_exact, prepared,
    reads_as_arithmetic,
};
use crate::catalog::{command_for, Catalog, CatalogEntry, EntryView};
use crate::text::{
    chars_of, contains, contains_chars, last_piece, last_piece_chars, lowercase_of, string_of,
    to_lowercase,
};
use vstd::prelude::*;

verus! {

/// A row of the list.
#[derive(Debug, Clone, PartialEq, Eq)]
pub struct VisibleItem {
    /// The text of the row.
    pub label: String,
    /// The name of the icon to show beside it.
    pub icon_name: String,
}

/// The mathematical value of a [`VisibleItem`].
pub ghost struct ItemView {
    pub label: Seq<char>,
    pub icon_name: Seq<char>,
}

impl View for VisibleItem {
    type V = ItemView;

    open spec fn view(&self) -> ItemView {
        ItemView { label: self.label@, icon_name: self.icon_name@ }
    }
}

/// The row that answers an arithmetic query. No entry file stands behind it.
#[derive(Debug, Clone, PartialEq, Eq)]
pub struct SyntheticEntry {
    /// The text of the row: the query, ` = `, and the answer.
    pub label: String,
    /// The answer alone.
    pub result: String,
}

/// The mathematical value of a [`SyntheticEntry`].
pub ghost struct SyntheticView {
    pub label: Seq<char>,
    pub result: Seq<char>,
}

impl View for SyntheticEntry {
    type V = SyntheticView;

    open spec fn view(&self) -> SyntheticView {
        SyntheticView { label: self.label@, result: self.result@ }
    }
}

/// What a query shows.
#[derive(Debug, Clone, PartialEq, Eq)]
pub struct FilterView {
    /// The rows, from top to bottom.
    pub visible: Vec<VisibleItem>,
    /// The position of the selected row among the rows, counted from 0.
    pub selection: Option<usize>,
    /// The arithmetic row, where the query has an answer. It is then also the
    /// first of the rows.
    pub synthetic: Option<SyntheticEntry>,
}

/// The mathematical value of a [`FilterView`].
pub ghost struct FilterModel {
    pub visible: Seq<ItemView>,
    pub selection: Option<usize>,
    pub synthetic: Option<SyntheticView>,
}

impl View for FilterView {
    type V = FilterModel;

    open spec fn view(&self) -> FilterModel {
        FilterModel {
            visible: self.visible@.map_values(|item: VisibleItem| item@),
            selection: self.selection,
            synthetic: match self.synthetic {
                Some(s) => Some(s@),
                None => None,
            },
        }
    }
}

/// The text between the query and its answer in the arithmetic row.
pub open spec fn separator() -> Seq<char> {
    seq![' ', '=', ' ']
}

/// The icon of the arithmetic row.
pub open spec fn calculator_icon() -> Seq<char> {
    "accessories-calculator"@
}

/// The row of a catalog entry.
pub open spec fn item_of(e: EntryView) -> ItemView {
    ItemView { label: e.name, icon_name: e.icon_name }
}

/// The arithmetic row for a query and its answer.
pub open spec fn synthetic_of(query: Seq<char>, result: Seq<char>) -> SyntheticView {
    SyntheticView { label: query + separator() + result, result }
}

/// Whether the query stands in the name, both taken in lower case.
pub open spec fn name_matches(name: Seq<char>, query: Seq<char>) -> bool {
    contains(lowercase_of(name), lowercase_of(query))
}

/// The rows of the entries whose names match the query, in the order of the
/// catalog.
pub open spec fn matching(entries: Seq<EntryView>, query: Seq<char>) -> Seq<ItemView>
    decreases entries.len(),
{
    if entries.len() == 0 {
        Seq::empty()
    } else if name_matches(entries.last().name, query) {
        matching(entries.drop_last(), query).push(item_of(entries.last()))
    } else {
        matching(entries.drop_last(), query)
    }
}

/// The rows that are shown for a query with the given answer.
pub open spec fn rows_for(
    entries: Seq<EntryView>,
    query: Seq<char>,
    answer: Option<Seq<char>>,
) -> Seq<ItemView> {
    if query.len() == 0 {
        entries.map_values(|e: EntryView| item_of(e))
    } else {
        match answer {
            Some(r) => seq![
                ItemView { label: synthetic_of(query, r).label, icon_name: calculator_icon() },
            ] + matching(entries, query),
            None => matching(entries, query),
        }
    }
}

/// The row that is selected when `len` rows are shown: the first, if there
/// is one.
pub open spec fn first_row(len: nat) -> Option<usize> {
    if len > 0 {
        Some(0usize)
    } else {
        None
    }
}

/// What is shown for a query with the given answer: an empty query shows the
/// whole catalog and no arithmetic row; any other query shows the arithmetic
/// row, where it has an answer, and behind it the entries whose names match.
/// The first row is selected.
pub open spec fn filtered(
    entries: Seq<EntryView>,
    query: Seq<char>,
    answer: Option<Seq<char>>,
) -> FilterModel {
    FilterModel {
        visible: rows_for(entries, query, answer),
        selection: first_row(rows_for(entries, query, answer).len()),
        synthetic: if query.len() == 0 {
            None
        } else {
            match answer {
                Some(r) => Some(synthetic_of(query, r)),
                None => None,
            }
        },
    }
}

/// The answer that a view shows, if it shows one.
pub open spec fn answer_in(m: FilterModel) -> Option<Seq<char>> {
    match m.synthetic {
        Some(s) => Some(s.result),
        None => None,
    }
}

/// The view of an optional string.
pub open spec fn text_of(s: Option<String>) -> Option<Seq<char>> {
    match s {
        Some(t) => Some(t@),
        None => None,
    }
}

/// An empty query shows the whole catalog in its order, and no arithmetic
/// row, whatever the answer.
pub proof fn lemma_empty_query_shows_all(entries: Seq<EntryView>, answer: Option<Seq<char>>)
    ensures
        filtered(entries, Seq::empty(), answer).visible == entries.map_values(
            |e: EntryView| item_of(e),
        ),
        filtered(entries, Seq::empty(), answer).visible.len() == entries.len(),
        filtered(entries, Seq::empty(), answer).synthetic is None,
        filtered(entries, Seq::empty(), answer).selection == first_row(entries.len()),
{
}

/// Where no name matches, no entry is shown.
pub proof fn lemma_no_match_no_rows(entries: Seq<EntryView>, query: Seq<char>)
    requires
        forall|i: int| 0 <= i < entries.len() ==> !name_matches((#[trigger] entries[i]).name, query),
    ensures
        matching(entries, query).len() == 0,
    decreases entries.len(),
{
    if entries.len() > 0 {
        let front = entries.drop_last();
        assert forall|i: int| 0 <= i < front.len() implies !name_matches(
            (#[trigger] front[i]).name,
            query,
        ) by {
            assert(front[i] == entries[i]);
        }
        lemma_no_match_no_rows(front, query);
        assert(entries.last() == entries[entries.len() - 1]);
    }
}

/// A query that is not empty, matches no name and has no answer shows
/// nothing and selects nothing.
pub proof fn lemma_unmatched_query_shows_nothing(entries: Seq<EntryView>, query: Seq<char>)
    requires
        query.len() > 0,
        forall|i: int| 0 <= i < entries.len() ==> !name_matches((#[trigger] entries[i]).name, query),
    ensures
        filtered(entries, query, None).visible.len() == 0,
        filtered(entries, query, None).selection is None,
        filtered(entries, query, None).synthetic is None,
{
    lemma_no_match_no_rows(entries, query);
}

/// The selected row of a view is one of its rows, and it is the first.
pub proof fn lemma_selection_is_visible(
    entries: Seq<EntryView>,
    query: Seq<char>,
    answer: Option<Seq<char>>,
)
    ensures
        match filtered(entries, query, answer).selection {
            Some(i) => i == 0 && i < filtered(entries, query, answer).visible.len(),
            None => filtered(entries, query, answer).visible.len() == 0,
        },
{
}

/// Where the query has an answer, the arithmetic row is the first row.
pub proof fn lemma_synthetic_row_is_first(entries: Seq<EntryView>, query: Seq<char>, r: Seq<char>)
    requires
        query.len() > 0,
    ensures
        filtered(entries, query, Some(r)).visible.len() > 0,
        filtered(entries, query, Some(r)).visible[0].label == query + separator() + r,
        filtered(entries, query, Some(r)).visible.skip(1) == matching(entries, query),
        filtered(entries, query, Some(r)).selection == Some(0usize),
{
    let rows = filtered(entries, query, Some(r)).visible;
    assert(rows.skip(1) =~= matching(entries, query));
}

/// The row of a catalog entry.
fn row_of(entry: &CatalogEntry) -> (item: VisibleItem)
    ensures
        item@ == item_of(entry@),
{
    VisibleItem { label: entry.name.clone(), icon_name: entry.icon_name.clone() }
}

/// Whether `needle` stands in the lower-case form of `name`.
fn name_holds(name: &str, needle: &Vec<char>) -> (b: bool)
    ensures
        b == contains(lowercase_of(name@), needle@),
{
    let lowered = to_lowercase(name);
    let hay = chars_of(lowered.as_str());
    contains_chars(&hay, needle)
}

/// The view for `query` where the evaluator has given `answer` for it:
/// [`filtered`] says what is shown. The selection that was there before the
/// query changed does not count: the first row shown is selected, and none
/// where nothing is shown.
pub fn apply_with(
    catalog: &Catalog,
    query: &str,
    answer: Option<String>,
    previous_selection: Option<usize>,
) -> (out: FilterView)
    ensures
        out@ == filtered(catalog@, query@, text_of(answer)),
{
    let mut visible: Vec<VisibleItem> = Vec::new();
    let mut synthetic: Option<SyntheticEntry> = None;
    let ghost rows = |item: VisibleItem| item@;
    let ghost entries = catalog@;
    let ghost wanted = rows_for(entries, query@, text_of(answer));
    let n = catalog.len();
    if query.is_empty() {
        let mut i: usize = 0;
        while i < n
            invariant
                i <= n,
                n == entries.len(),
                entries == catalog@,
                rows == |item: VisibleItem| item@,
                visible@.map_values(rows) == entries.take(i as int).map_values(
                    |e: EntryView| item_of(e),
                ),
            decreases n - i,
        {
            match catalog.get(i) {
                Some(entry) => {
                    let item = row_of(entry);
                    proof {
                        assert(entries.take(i + 1) =~= entries.take(i as int).push(
                            entries[i as int],
                        ));
                        assert(visible@.push(item).map_values(rows) =~= visible@.map_values(
                            rows,
                        ).push(item@));
                        assert(entries.take(i + 1).map_values(|e: EntryView| item_of(e))
                            =~= entries.take(i as int).map_values(|e: EntryView| item_of(e)).push(
                            item_of(entries[i as int]),
                        ));
                    }
                    visible.push(item);
                },
                None => {},
            }
            i += 1;
        }
        proof {
            assert(entries.take(n as int) =~= entries);
        }
    } else {
        let ghost head = Seq::<ItemView>::empty();
        match answer {
            Some(result) => {
                let mut label = String::from_str(query);
                label.append(" = ");
                label.append(result.as_str());
                proof {
                    reveal_strlit(" = ");
                    assert(" = "@ =~= separator());
                    head = seq![ItemView { label: label@, icon_name: calculator_icon() }];
                }
                let item = VisibleItem {
                    label: label.clone(),
                    icon_name: String::from_str("accessories-calculator"),
                };
                visible.push(item);
                proof {
                    assert(visible@.map_values(rows) =~= head);
                }
                synthetic = Some(SyntheticEntry { label, result });
            },
            None => {
                proof {
                    assert(visible@.map_values(rows) =~= head);
                }
            },
        }
        let lowered = to_lowercase(query);
        let needle = chars_of(lowered.as_str());
        let mut i: usize = 0;
        proof {
            assert(head + matching(entries.take(0), query@) =~= head);
            assert(head + matching(entries, query@) =~= wanted);
        }
        while i < n
            invariant
                i <= n,
                n == entries.len(),
                entries == catalog@,
                needle@ == lowercase_of(query@),
                rows == |item: VisibleItem| item@,
                visible@.map_values(rows) == head + matching(entries.take(i as int), query@),
            decreases n - i,
        {
            match catalog.get(i) {
                Some(entry) => {
                    proof {
                        let seen = entries.take(i + 1);
                        assert(seen.drop_last() =~= entries.take(i as int));
                        assert(seen.last() == entries[i as int]);
                    }
                    if name_holds(entry.name.as_str(), &needle) {
                        let item = row_of(entry);
                        proof {
                            assert(visible@.push(item).map_values(rows) =~= visible@.map_values(
                                rows,
                            ).push(item@));
                            assert((head + matching(entries.take(i as int), query@)).push(item@)
                                =~= head + matching(entries.take(i as int), query@).push(item@));
                        }
                        visible.push(item);
                    }
                },
                None => {},
            }
            i += 1;
        }
        proof {
            assert(entries.take(n as int) =~= entries);
        }
    }
    let selection = if visible.len() > 0 {
        Some(0usize)
    } else {
        None
    };
    proof {
        assert(visible@.map_values(rows).len() == visible@.len());
    }
    FilterView { visible, selection, synthetic }
}

/// The view for `query`. A query that is not empty is first read as
/// arithmetic, as it was typed; its answer, where it has one, is shown in
/// the view, and [`filtered`] says what the view is for that answer. A query
/// that is empty, that holds another character than those of arithmetic, or
/// whose expression is too long to be evaluated, has no answer. For any
/// other query the answer is the evaluator's to the prepared query.
pub fn apply(catalog: &Catalog, query: &str, previous_selection: Option<usize>) -> (out: FilterView)
    ensures
        out@ == filtered(catalog@, query@, answer_in(out@)),
        query@.len() == 0 || !is_arithmetic_text(query@) ==> out@.synthetic is None,
        !is_evaluable(prepared(query@)) ==> out@.synthetic is None,
        reads_as_arithmetic(query@) && is_exact(prepared(query@)) ==> out@ == filtered(
            catalog@,
            query@,
            evaluated(prepared(query@)),
        ),
{
    let answer = if query.is_empty() {
        None
    } else {
        evaluate_math_expression(query)
    };
    apply_with(catalog, query, answer, previous_selection)
}

/// A step through the rows.
#[derive(Debug, Clone, Copy, PartialEq, Eq, Structural)]
pub enum Direction {
    /// Towards the first row.
    Up,
    /// Towards the last row.
    Down,
}

/// The selection after a step among `len` rows. The selection moves by one
/// row and stops at either end. A step down from no selection selects the
/// first row; a step up from no selection selects nothing. A selection that
/// is not one of the rows counts as the first row.
pub open spec fn stepped(selection: Option<usize>, direction: Direction, len: nat) -> Option<usize> {
    if len == 0 {
        None
    } else {
        match selection {
            None => match direction {
                Direction::Down => Some(0usize),
                Direction::Up => None,
            },
            Some(i) => if i >= len {
                Some(0usize)
            } else {
                match direction {
                    Direction::Down => if i + 1 < len {
                        Some((i + 1) as usize)
                    } else {
                        Some(i)
                    },
                    Direction::Up => if i > 0 {
                        Some((i - 1) as usize)
                    } else {
                        Some(i)
                    },
                }
            },
        }
    }
}

/// The selection after a step in `direction` among `len` rows.
pub fn navigate(selection: Option<usize>, direction: Direction, len: usize) -> (out: Option<usize>)
    ensures
        out == stepped(selection, direction, len as nat),
        out is Some ==> out->0 < len,
{
    if len == 0 {
        return None;
    }
    match selection {
        None => match direction {
            Direction::Down => Some(0),
            Direction::Up => None,
        },
        Some(i) => {
            if i >= len {
                Some(0)
            } else {
                match direction {
                    Direction::Down => {
                        if i + 1 < len {
                            Some(i + 1)
                        } else {
                            Some(i)
                        }
                    },
                    Direction::Up => {
                        if i > 0 {
                            Some(i - 1)
                        } else {
                            Some(i)
                        }
                    },
                }
            }
        },
    }
}

/// What the activation of a row leads to.
#[derive(Debug, Clone, PartialEq, Eq)]
pub enum CommitAction {
    /// The text is handed to the clipboard.
    Copy(String),
    /// The launch command is handed to the launcher, field codes included.
    Launch(String),
    /// Nothing happens.
    Nothing,
}

/// The mathematical value of a [`CommitAction`].
pub ghost enum CommitModel {
    Copy(Seq<char>),
    Launch(Seq<char>),
    Nothing,
}

impl View for CommitAction {
    type V = CommitModel;

    open spec fn view(&self) -> CommitModel {
        match self {
            CommitAction::Copy(t) => CommitModel::Copy(t@),
            CommitAction::Launch(c) => CommitModel::Launch(c@),
            CommitAction::Nothing => CommitModel::Nothing,
        }
    }
}

/// What the activation of the row with the given label leads to. A label
/// that holds ` = ` is that of an arithmetic row: what stands behind the last
/// ` = ` is copied. Any other label is the name of an application: the
/// command registered for it is launched, and nothing happens where none is.
pub open spec fn activation(entries: Seq<EntryView>, label: Seq<char>) -> CommitModel {
    if contains(label, separator()) {
        CommitModel::Copy(last_piece(label, separator()))
    } else {
        match command_for(entries, label) {
            Some(c) => CommitModel::Launch(c),
            None => CommitModel::Nothing,
        }
    }
}

/// Whether the selection is one of `len` rows.
pub open spec fn selects(selection: Option<usize>, len: nat) -> bool {
    selection is Some && selection->0 < len
}

/// What a commit leads to. With a row selected, that row is activated.
/// With none, the answer to the query is copied where it has one; where it
/// has none, the first row is activated, and nothing happens where no row is
/// shown.
pub open spec fn committed(
    entries: Seq<EntryView>,
    visible: Seq<ItemView>,
    selection: Option<usize>,
    answer: Option<Seq<char>>,
) -> CommitModel {
    if selects(selection, visible.len()) {
        activation(entries, visible[selection->0 as int].label)
    } else {
        match answer {
            Some(r) => CommitModel::Copy(r),
            None => if visible.len() > 0 {
                activation(entries, visible[0].label)
            } else {
                CommitModel::Nothing
            },
        }
    }
}

/// What the activation of the row with the given label leads to.
pub fn activate(catalog: &Catalog, label: &str) -> (out: CommitAction)
    ensures
        out@ == activation(catalog@, label@),
{
    let text = chars_of(label);
    let sep = vec![' ', '=', ' '];
    proof {
        assert(sep@ =~= separator());
    }
    if contains_chars(&text, &sep) {
        let piece = last_piece_chars(&text, &sep);
        CommitAction::Copy(string_of(&piece))
    } else {
        match catalog.lookup(label) {
            Some(command) => CommitAction::Launch(command.clone()),
            None => CommitAction::Nothing,
        }
    }
}

/// What a commit leads to where the evaluator has given `answer` for the
/// query.
pub fn commit_with(
    catalog: &Catalog,
    visible: &Vec<VisibleItem>,
    selection: Option<usize>,
    answer: Option<String>,
) -> (out: CommitAction)
    ensures
        out@ == committed(
            catalog@,
            visible@.map_values(|item: VisibleItem| item@),
            selection,
            text_of(answer),
        ),
{
    let ghost rows = visible@.map_values(|item: VisibleItem| item@);
    match selection {
        Some(i) => {
            if i < visible.len() {
                assert(rows[i as int] == visible[i as int]@);
                return activate(catalog, visible[i].label.as_str());
            }
        },
        None => {},
    }
    match answer {
        Some(result) => CommitAction::Copy(result),
        None => {
            if visible.len() > 0 {
                assert(rows[0] == visible[0]@);
                activate(catalog, visible[0].label.as_str())
            } else {
                CommitAction::Nothing
            }
        },
    }
}

/// What a commit leads to. With a row selected the query is not read. With
/// none it is read as arithmetic, as it was typed: its answer is copied
/// where it has one, and where it has none the commit goes on as
/// [`committed`] says for a query without an answer. A query that holds
/// another character than those of arithmetic has no answer; for a query
/// that is read as arithmetic the answer is the evaluator's to the prepared
/// query.
pub fn commit(
    catalog: &Catalog,
    visible: &Vec<VisibleItem>,
    selection: Option<usize>,
    query: &str,
) -> (out: CommitAction)
    ensures
        ({
            let rows = visible@.map_values(|item: VisibleItem| item@);
            let unanswered = committed(catalog@, rows, selection, None);
            &&& selects(selection, rows.len()) ==> out@ == unanswered
            &&& out@ == unanswered || (out@ is Copy && is_arithmetic_text(query@))
            &&& reads_as_arithmetic(query@) && is_exact(prepared(query@)) ==> out@ == committed(
                catalog@,
                rows,
                selection,
                evaluated(prepared(query@)),
            )
        }),
{
    let selected = match selection {
        Some(i) => i < visible.len(),
        None => false,
    };
    let answer = if selected {
        None
    } else {
        evaluate_math_expression(query)
    };
    commit_with(catalog, visible, selection, answer)
}

} // verus!
