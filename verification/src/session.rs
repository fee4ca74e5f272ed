//! The state of the launcher between two events.
//!
//! A session owns the catalog, the query as it was last typed, the rows that
//! the query shows and the selection among them. The window reports what the
//! user does and shows what the session holds afterwards. The selection is
//! one of the rows at all times, or there is none.

use crate::arith::{evaluated, is_arithmetic_text, is_exact, prepared, reads_as_arithmetic};
use crate::catalog::{Catalog, EntryView};
use crate::query::{
    activate, activation, answer_in, apply, commit, committed, filtered, navigate, rows_for,
    selects, stepped, CommitAction, CommitModel, Direction, FilterModel, FilterView, VisibleItem,
};
use vstd::prelude::*;

verus! {

/// The query as it was last typed, and what it shows. Both change together.
#[derive(Debug)]
struct QueryState {
    query: String,
    view: FilterView,
}

/// The catalog, the query and what the query shows.
#[derive(Debug)]
pub struct Session {
    catalog: Catalog,
    state: QueryState,
}

impl Session {
    /// The entries of the catalog.
    pub closed spec fn entries(&self) -> Seq<EntryView> {
        self.catalog@
    }

    /// The query as it was last typed.
    pub closed spec fn query_text(&self) -> Seq<char> {
        self.state.query@
    }

    /// The rows, the selection and the arithmetic row.
    pub closed spec fn shown(&self) -> FilterModel {
        self.state.view@
    }

    /// Every session is well formed.
    #[verifier::type_invariant]
    spec fn holds(&self) -> bool {
        self.well_formed()
    }

    /// What holds of a session between two events: the rows are those of the
    /// query for the answer that is shown, an arithmetic row is shown only for
    /// a query that is written in the characters of arithmetic, and the
    /// selection is one of the rows or there is none.
    pub open spec fn well_formed(&self) -> bool {
        let shown = self.shown();
        let expected = filtered(self.entries(), self.query_text(), answer_in(shown));
        &&& shown.visible == expected.visible
        &&& shown.synthetic == expected.synthetic
        &&& shown.synthetic is Some ==> is_arithmetic_text(self.query_text())
        &&& shown.selection is Some ==> shown.selection->0 < shown.visible.len()
    }

    /// A session with an empty query: the whole catalog is shown, and its
    /// first entry is selected.
    pub fn new(catalog: Catalog) -> (out: Session)
        ensures
            out.well_formed(),
            out.entries() == catalog@,
            out.query_text() == Seq::<char>::empty(),
            out.shown() == filtered(catalog@, Seq::empty(), None),
    {
        let view = apply(&catalog, "", None);
        let query = String::new();
        proof {
            assert(""@ =~= Seq::<char>::empty()) by {
                reveal_strlit("");
            }
        }
        Session { catalog, state: QueryState { query, view } }
    }

    /// The query has changed to `text`: the rows are computed anew, and the
    /// first of them is selected.
    pub fn on_query_changed(&mut self, text: &str)
        ensures
            final(self).well_formed(),
            final(self).entries() == old(self).entries(),
            final(self).query_text() == text@,
            final(self).shown() == filtered(
                old(self).entries(),
                text@,
                answer_in(final(self).shown()),
            ),
            text@.len() == 0 || !is_arithmetic_text(text@) ==> final(self).shown().synthetic is None,
            reads_as_arithmetic(text@) && is_exact(prepared(text@)) ==> final(self).shown()
                == filtered(old(self).entries(), text@, evaluated(prepared(text@))),
    {
        let view = apply(&self.catalog, text, self.state.view.selection);
        self.state = QueryState { query: String::from_str(text), view };
    }

    /// The user has stepped through the rows: the selection moves by one row
    /// and stops at either end. The rows stay as they are.
    pub fn on_navigate(&mut self, direction: Direction)
        ensures
            final(self).well_formed(),
            final(self).entries() == old(self).entries(),
            final(self).query_text() == old(self).query_text(),
            final(self).shown().visible == old(self).shown().visible,
            final(self).shown().synthetic == old(self).shown().synthetic,
            final(self).shown().selection == stepped(
                old(self).shown().selection,
                direction,
                old(self).shown().visible.len(),
            ),
    {
        proof {
            use_type_invariant(&*self);
        }
        let selection = navigate(
            self.state.view.selection,
            direction,
            self.state.view.visible.len(),
        );
        self.state.view.selection = selection;
    }

    /// The window reports that the row at `index` is selected, or none. A
    /// position that is not one of the rows selects the first row, and none
    /// where no row is shown.
    pub fn on_selected(&mut self, index: Option<usize>)
        ensures
            final(self).well_formed(),
            final(self).entries() == old(self).entries(),
            final(self).query_text() == old(self).query_text(),
            final(self).shown().visible == old(self).shown().visible,
            final(self).shown().synthetic == old(self).shown().synthetic,
            final(self).shown().selection == match index {
                Some(i) => if i < old(self).shown().visible.len() {
                    Some(i)
                } else if old(self).shown().visible.len() > 0 {
                    Some(0usize)
                } else {
                    None
                },
                None => None,
            },
    {
        proof {
            use_type_invariant(&*self);
        }
        let len = self.state.view.visible.len();
        let selection = match index {
            Some(i) => {
                if i < len {
                    Some(i)
                } else if len > 0 {
                    Some(0)
                } else {
                    None
                }
            },
            None => None,
        };
        self.state.view.selection = selection;
    }

    /// The user has committed. With a row selected, that row is activated.
    /// With none, the query is read as arithmetic and its answer is copied
    /// where it has one; where it has none, the first row is activated, and
    /// nothing happens where no row is shown.
    pub fn on_commit(&self) -> (out: CommitAction)
        ensures
            ({
                let shown = self.shown();
                let unanswered = committed(self.entries(), shown.visible, shown.selection, None);
                &&& shown.selection is Some ==> out@ == activation(
                    self.entries(),
                    shown.visible[shown.selection->0 as int].label,
                )
                &&& out@ == unanswered || (out@ is Copy && is_arithmetic_text(self.query_text()))
                &&& reads_as_arithmetic(self.query_text()) && is_exact(prepared(self.query_text()))
                    ==> out@ == committed(
                    self.entries(),
                    shown.visible,
                    shown.selection,
                    evaluated(prepared(self.query_text())),
                )
            }),
    {
        proof {
            use_type_invariant(self);
        }
        commit(
            &self.catalog,
            &self.state.view.visible,
            self.state.view.selection,
            self.state.query.as_str(),
        )
    }

    /// The user has activated the row at `index` with the pointer. Nothing
    /// happens where there is no such row.
    pub fn on_row_activated(&self, index: usize) -> (out: CommitAction)
        ensures
            out@ == if index < self.shown().visible.len() {
                activation(self.entries(), self.shown().visible[index as int].label)
            } else {
                CommitModel::Nothing
            },
    {
        if index < self.state.view.visible.len() {
            assert(self.state.view@.visible[index as int] == self.state.view.visible[index as int]@);
            activate(&self.catalog, self.state.view.visible[index].label.as_str())
        } else {
            CommitAction::Nothing
        }
    }

    /// The catalog.
    pub fn catalog(&self) -> (out: &Catalog)
        ensures
            out@ == self.entries(),
    {
        &self.catalog
    }

    /// The query as it was last typed.
    pub fn query(&self) -> (out: &str)
        ensures
            out@ == self.query_text(),
    {
        self.state.query.as_str()
    }

    /// The rows, the selection and the arithmetic row.
    pub fn view(&self) -> (out: &FilterView)
        ensures
            out@ == self.shown(),
    {
        &self.state.view
    }

    /// The rows, from top to bottom.
    pub fn visible(&self) -> (out: &Vec<VisibleItem>)
        ensures
            out@.map_values(|item: VisibleItem| item@) == self.shown().visible,
    {
        &self.state.view.visible
    }

    /// The position of the selected row, if a row is selected.
    pub fn selection(&self) -> (out: Option<usize>)
        ensures
            out == self.shown().selection,
            out is Some ==> out->0 < self.shown().visible.len(),
    {
        proof {
            use_type_invariant(self);
        }
        self.state.view.selection
    }
}

/// The selection of a session is one of its rows, or there is none.
pub proof fn lemma_selection_is_a_row(s: &Session)
    requires
        s.well_formed(),
    ensures
        s.shown().selection is None || selects(s.shown().selection, s.shown().visible.len()),
{
}

/// The rows of a session are those of its query: the whole catalog for an
/// empty query, and else the arithmetic row, if there is one, before the
/// entries whose names match.
pub proof fn lemma_rows_follow_the_query(s: &Session)
    requires
        s.well_formed(),
    ensures
        s.shown().visible == rows_for(s.entries(), s.query_text(), answer_in(s.shown())),
        s.query_text().len() == 0 ==> s.shown().synthetic is None,
{
}

} // verus!
