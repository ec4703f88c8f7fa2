use vstd::prelude::*;

use crate::http::Body;
use crate::http::HttpResponse;
use crate::http::STATUS_CREATED;
use crate::http::STATUS_INTERNAL_SERVER_ERROR;
use crate::http::STATUS_OK;

verus! {

/// A persisted todo row. `id` is assigned by the store, unique, and immutable
/// after creation; `status` is free-form text, `"New"` on creation and
/// `"Completed"` after the mark operation.
pub struct Todo {
    pub id: i32,
    pub title: String,
    pub description: Option<String>,
    pub status: String,
}

/// The transient input shape of the create operation; it is not persisted
/// as-is.
pub struct CreateTodo {
    pub title: String,
    pub description: Option<String>,
}

/// Mathematical image of a todo row.
#[verifier::ext_equal]
pub struct TodoView {
    pub id: int,
    pub title: Seq<char>,
    pub description: Option<Seq<char>>,
    pub status: Seq<char>,
}

/// Mathematical image of a create request.
#[verifier::ext_equal]
pub struct CreateTodoView {
    pub title: Seq<char>,
    pub description: Option<Seq<char>>,
}

impl View for Todo {
    type V = TodoView;

    open spec fn view(&self) -> TodoView {
        TodoView {
            id: self.id as int,
            title: self.title@,
            description: match self.description {
                Some(d) => Some(d@),
                None => None,
            },
            status: self.status@,
        }
    }
}

impl View for CreateTodo {
    type V = CreateTodoView;

    open spec fn view(&self) -> CreateTodoView {
        CreateTodoView {
            title: self.title@,
            description: match self.description {
                Some(d) => Some(d@),
                None => None,
            },
        }
    }
}

/// The rows of a table, seen abstractly.
pub open spec fn rows_view(rows: Seq<Todo>) -> Seq<TodoView> {
    rows.map_values(|t: Todo| t@)
}

/// Mathematical image of the todo table together with its auto-increment
/// counter.
#[verifier::ext_equal]
pub struct TodoStoreView {
    pub rows: Seq<TodoView>,
    pub next_id: int,
}

/// The todo table: the sole owner of todo state. It models exactly what the
/// four SQL statements of the service do to the `todos` table, so that the
/// handlers' behaviour over it can be stated and proved.
pub struct TodoStore {
    rows: Vec<Todo>,
    next_id: i32,
}

impl View for TodoStore {
    type V = TodoStoreView;

    closed spec fn view(&self) -> TodoStoreView {
        TodoStoreView { rows: rows_view(self.rows@), next_id: self.next_id as int }
    }
}

/// No two rows share an id.
pub open spec fn unique_ids(rows: Seq<TodoView>) -> bool {
    forall|i: int, j: int|
        0 <= i < j < rows.len() ==> #[trigger] rows[i].id != #[trigger] rows[j].id
}

/// The row the insert statement adds: the next free id, the request's texts,
/// and the default status.
pub open spec fn created_row(next_id: int, req: CreateTodoView) -> TodoView {
    TodoView { id: next_id, title: req.title, description: req.description, status: "New"@ }
}

/// The insert statement: one fresh row is appended and the auto-increment
/// counter moves on.
pub open spec fn spec_insert(s: TodoStoreView, req: CreateTodoView) -> TodoStoreView {
    TodoStoreView { rows: s.rows.push(created_row(s.next_id, req)), next_id: s.next_id + 1 }
}

/// The update statement's effect on one row: a matching id gets the completed
/// status, any other row is untouched.
pub open spec fn marked_row(t: TodoView, id: int) -> TodoView {
    if t.id == id {
        TodoView { id: t.id, title: t.title, description: t.description, status: "Completed"@ }
    } else {
        t
    }
}

/// The update statement: every row whose id matches is set to the completed
/// status, regardless of its prior status.
pub open spec fn spec_mark(rows: Seq<TodoView>, id: int) -> Seq<TodoView> {
    rows.map_values(|t: TodoView| marked_row(t, id))
}

/// The delete statement: every row whose id matches is removed.
pub open spec fn spec_delete(rows: Seq<TodoView>, id: int) -> Seq<TodoView> {
    rows.filter(|t: TodoView| t.id != id)
}

impl TodoStore {
    /// Every id is positive and below the auto-increment counter, and no id
    /// repeats.
    pub open spec fn wf(&self) -> bool {
        &&& 1 <= self@.next_id <= i32::MAX
        &&& forall|i: int|
            0 <= i < self@.rows.len() ==> 1 <= #[trigger] self@.rows[i].id < self@.next_id
        &&& unique_ids(self@.rows)
    }

    /// An empty table, ids starting at one.
    pub fn new() -> (s: TodoStore)
        ensures
            s.wf(),
            s@.rows == Seq::<TodoView>::empty(),
            s@.next_id == 1,
    {
        let s = TodoStore { rows: Vec::new(), next_id: 1 };
        proof {
            assert(s@.rows =~= Seq::<TodoView>::empty());
        }
        s
    }

    /// The select-all statement: every row, in table order.
    pub fn select_all(&self) -> (r: Vec<Todo>)
        ensures
            rows_view(r@) == self@.rows,
    {
        let mut out: Vec<Todo> = Vec::new();
        let n = self.rows.len();
        for i in 0..n
            invariant
                n == self.rows.len(),
                out@.len() == i,
                forall|k: int| 0 <= k < i ==> #[trigger] out@[k]@ == self@.rows[k],
        {
            out.push(self.rows[i].duplicate());
        }
        proof {
            assert(rows_view(out@) =~= self@.rows);
        }
        out
    }

    /// The insert statement: appends a fresh row with the request's title and
    /// description, the default status, and the next free id, which it
    /// returns as the statement's last-insert id.
    pub fn insert(&mut self, req: &CreateTodo) -> (last_id: u64)
        requires
            old(self).wf(),
            old(self)@.next_id < i32::MAX,
        ensures
            final(self).wf(),
            final(self)@ == spec_insert(old(self)@, req@),
            last_id == old(self)@.next_id,
    {
        let id = self.next_id;
        let row = Todo {
            id,
            title: req.title.clone(),
            description: match &req.description {
                Some(d) => Some(d.clone()),
                None => None,
            },
            status: "New".to_owned(),
        };
        proof {
            assert(row@ == created_row(old(self)@.next_id, req@));
        }
        self.rows.push(row);
        self.next_id = id + 1;
        proof {
            assert(self@.rows =~= old(self)@.rows.push(created_row(old(self)@.next_id, req@)));
            assert(self@ =~= spec_insert(old(self)@, req@));
        }
        id as u64
    }

    /// The update statement: sets the status of every row whose id matches to
    /// the completed status and reports how many rows that touched.
    pub fn mark_completed(&mut self, id: i32) -> (affected: u64)
        requires
            old(self).wf(),
        ensures
            final(self).wf(),
            final(self)@.rows == spec_mark(old(self)@.rows, id as int),
            final(self)@.next_id == old(self)@.next_id,
            affected == old(self)@.rows.filter(|t: TodoView| t.id == id as int).len(),
    {
        let n = self.rows.len();
        let mut out: Vec<Todo> = Vec::new();
        let mut affected: u64 = 0;
        for i in 0..n
            invariant
                n == self.rows.len(),
                out@.len() == i,
                forall|k: int|
                    0 <= k < i ==> #[trigger] out@[k]@ == marked_row(self@.rows[k], id as int),
                affected == self@.rows.take(i as int).filter(
                    |t: TodoView| t.id == id as int,
                ).len(),
                affected <= i,
        {
            let ghost prefix = self@.rows.take(i as int);
            let row = &self.rows[i];
            if row.id == id {
                out.push(Todo {
                    id: row.id,
                    title: row.title.clone(),
                    description: match &row.description {
                        Some(d) => Some(d.clone()),
                        None => None,
                    },
                    status: "Completed".to_owned(),
                });
                affected = affected + 1;
            } else {
                out.push(row.duplicate());
            }
            proof {
                reveal(Seq::filter);
                let pred = |t: TodoView| t.id == id as int;
                assert(self@.rows.take(i + 1).drop_last() =~= prefix);
                assert(self@.rows.take(i + 1).last() == self@.rows[i as int]);
                assert(self@.rows.take(i + 1).filter(pred).len() == prefix.filter(pred).len()
                    + if pred(self@.rows[i as int]) {
                        1int
                    } else {
                        0int
                    });
            }
        }
        proof {
            assert(self@.rows.take(n as int) =~= self@.rows);
        }
        self.rows = out;
        proof {
            assert(self@.rows =~= spec_mark(old(self)@.rows, id as int));
        }
        affected
    }

    /// The delete statement: removes every row whose id matches and reports
    /// how many rows that touched.
    pub fn delete(&mut self, id: i32) -> (affected: u64)
        requires
            old(self).wf(),
        ensures
            final(self).wf(),
            final(self)@.rows == spec_delete(old(self)@.rows, id as int),
            final(self)@.next_id == old(self)@.next_id,
            affected == old(self)@.rows.len() - spec_delete(old(self)@.rows, id as int).len(),
    {
        let n = self.rows.len();
        let mut out: Vec<Todo> = Vec::new();
        for i in 0..n
            invariant
                n == self.rows.len(),
                out@.len() == self@.rows.take(i as int).filter(
                    |t: TodoView| t.id != id as int,
                ).len(),
                rows_view(out@) == self@.rows.take(i as int).filter(
                    |t: TodoView| t.id != id as int,
                ),
        {
            let ghost prefix = self@.rows.take(i as int);
            let ghost pred = |t: TodoView| t.id != id as int;
            let row = &self.rows[i];
            if row.id != id {
                out.push(row.duplicate());
            }
            proof {
                reveal(Seq::filter);
                assert(self@.rows.take(i + 1).drop_last() =~= prefix);
                assert(self@.rows.take(i + 1).last() == self@.rows[i as int]);
                if pred(self@.rows[i as int]) {
                    assert(self@.rows.take(i + 1).filter(pred) =~= prefix.filter(pred).push(
                        self@.rows[i as int],
                    ));
                } else {
                    assert(self@.rows.take(i + 1).filter(pred) =~= prefix.filter(pred));
                }
                assert(rows_view(out@) =~= self@.rows.take(i + 1).filter(pred));
            }
        }
        proof {
            assert(self@.rows.take(n as int) =~= self@.rows);
            let pred = |t: TodoView| t.id != id as int;
            let frows = old(self)@.rows.filter(pred);
            old(self)@.rows.lemma_filter_len(pred);
            lemma_filter_unique_ids(old(self)@.rows, pred);
            assert forall|i: int| 0 <= i < frows.len() implies 1 <= #[trigger] frows[i].id < old(
                self,
            )@.next_id by {
                assert(frows.contains(frows[i]));
                old(self)@.rows.lemma_filter_contains_rev(pred, frows[i]);
                let k = choose|k: int|
                    0 <= k < old(self)@.rows.len() && old(self)@.rows[k] == frows[i];
                assert(old(self)@.rows[k].id == frows[i].id);
            }
        }
        let affected = n - out.len();
        self.rows = out;
        affected as u64
    }
}

/// Filtering keeps ids unique.
proof fn lemma_filter_unique_ids(rows: Seq<TodoView>, pred: spec_fn(TodoView) -> bool)
    requires
        unique_ids(rows),
    ensures
        unique_ids(rows.filter(pred)),
    decreases rows.len(),
{
    reveal(Seq::filter);
    if rows.len() != 0 {
        let dl = rows.drop_last();
        assert(unique_ids(dl)) by {
            assert(forall|i: int| 0 <= i < dl.len() ==> dl[i] == rows[i]);
        }
        lemma_filter_unique_ids(dl, pred);
        let f = rows.filter(pred);
        let fdl = dl.filter(pred);
        if pred(rows.last()) {
            assert(f =~= fdl.push(rows.last()));
            assert forall|i: int, j: int| 0 <= i < j < f.len() implies #[trigger] f[i].id
                != #[trigger] f[j].id by {
                if j == f.len() - 1 {
                    assert(fdl.contains(fdl[i]));
                    dl.lemma_filter_contains_rev(pred, fdl[i]);
                    let k = choose|k: int| 0 <= k < dl.len() && dl[k] == fdl[i];
                    assert(rows[k] == fdl[i]);
                    assert(rows[k].id != rows[rows.len() - 1].id);
                }
            }
        } else {
            assert(f =~= fdl);
        }
    }
}

impl Todo {
    /// A field-for-field copy, as a fresh row fetched from the store.
    pub fn duplicate(&self) -> (t: Todo)
        ensures
            t@ == self@,
    {
        Todo {
            id: self.id,
            title: self.title.clone(),
            description: match &self.description {
                Some(d) => Some(d.clone()),
                None => None,
            },
            status: self.status.clone(),
        }
    }

    /// The list handler's reply for each outcome of the select-all statement:
    /// the full row set on success, the raw error text with a server-error
    /// status on failure.
    pub fn get_all_todos(res: Result<Vec<Todo>, String>) -> (r: HttpResponse)
        ensures
            res matches Ok(todos) ==> (r.body matches Body::TodoList(ts) && ts == todos
                && r.status == STATUS_OK),
            res matches Err(e) ==> (r.body matches Body::Text(t) && t == e && r.status
                == STATUS_INTERNAL_SERVER_ERROR),
    {
        match res {
            Ok(todos) => HttpResponse { status: STATUS_OK, body: Body::TodoList(todos) },
            Err(e) => HttpResponse { status: STATUS_INTERNAL_SERVER_ERROR, body: Body::Text(e) },
        }
    }

    /// The create handler's reply for each outcome of the insert statement:
    /// on success, a created status and the new row echoed back with the
    /// statement's last-insert id (narrowed to the row id's width, as the
    /// service stores it) and the default status; on failure, the raw error
    /// text with a server-error status.
    pub fn create_new_todo(body: &CreateTodo, res: Result<u64, String>) -> (r: HttpResponse)
        ensures
            res matches Ok(last_id) ==> (r.body matches Body::TodoItem(t) && t@ == created_row(
                (last_id as i32) as int,
                body@,
            ) && r.status == STATUS_CREATED),
            res matches Err(e) ==> (r.body matches Body::Text(t) && t == e && r.status
                == STATUS_INTERNAL_SERVER_ERROR),
    {
        match res {
            Ok(last_id) => HttpResponse {
                status: STATUS_CREATED,
                body: Body::TodoItem(
                    Todo {
                        id: #[verifier::truncate] (last_id as i32),
                        title: body.title.clone(),
                        description: match &body.description {
                            Some(d) => Some(d.clone()),
                            None => None,
                        },
                        status: "New".to_owned(),
                    },
                ),
            },
            Err(e) => HttpResponse { status: STATUS_INTERNAL_SERVER_ERROR, body: Body::Text(e) },
        }
    }

    /// The mark-complete handler's reply: a bare success status whenever the
    /// update statement ran, whatever its affected-row count, and a bare
    /// server-error status when it failed. The count is deliberately ignored:
    /// the caller cannot tell a missing id from an updated row.
    pub fn mark_todo_completed(res: Result<u64, String>) -> (st: u16)
        ensures
            st == statement_reply_status(res is Ok),
    {
        match res {
            Ok(_) => STATUS_OK,
            Err(_) => STATUS_INTERNAL_SERVER_ERROR,
        }
    }

    /// The delete handler's reply: the same shape as the mark-complete
    /// handler's, again ignoring the affected-row count.
    pub fn delete_todo(res: Result<u64, String>) -> (st: u16)
        ensures
            st == statement_reply_status(res is Ok),
    {
        match res {
            Ok(_) => STATUS_OK,
            Err(_) => STATUS_INTERNAL_SERVER_ERROR,
        }
    }
}

/// The status the mark-complete and delete handlers report for an outcome of
/// their statement: success whenever the statement ran, whatever its
/// affected-row count, and a server error only when the statement itself
/// failed.
pub open spec fn statement_reply_status(ok: bool) -> u16 {
    if ok {
        STATUS_OK
    } else {
        STATUS_INTERNAL_SERVER_ERROR
    }
}

/// Creating a todo and then listing all todos includes a record whose title
/// and description match the request and whose status is the creation
/// default.
pub proof fn lemma_create_then_list_includes(s: TodoStoreView, req: CreateTodoView)
    ensures
        exists|i: int|
            0 <= i < spec_insert(s, req).rows.len() && (#[trigger] spec_insert(s, req).rows[i]).title
                == req.title && spec_insert(s, req).rows[i].description == req.description
                && spec_insert(s, req).rows[i].status == "New"@,
{
    let rows = spec_insert(s, req).rows;
    assert(rows[rows.len() - 1] == created_row(s.next_id, req));
}

/// Marking an id that no row carries reports the same success status as
/// marking an existing one: the affected-row counts differ (zero against at
/// least one), but the reply maps every ran statement to the one success
/// status, so the caller gets no distinguishing signal.
pub proof fn lemma_mark_reply_no_distinction(rows: Seq<TodoView>, id_present: int, id_missing: int)
    requires
        exists|i: int| 0 <= i < rows.len() && (#[trigger] rows[i]).id == id_present,
        forall|i: int| 0 <= i < rows.len() ==> (#[trigger] rows[i]).id != id_missing,
    ensures
        rows.filter(|t: TodoView| t.id == id_missing).len() == 0,
        rows.filter(|t: TodoView| t.id == id_present).len() >= 1,
        statement_reply_status(true) == STATUS_OK,
{
    let pred_missing = |t: TodoView| t.id == id_missing;
    assert(rows.all(|t: TodoView| !pred_missing(t))) by {
        assert(forall|i: int| 0 <= i < rows.len() ==> !pred_missing(#[trigger] rows[i]));
    }
    rows.lemma_all_neg_filter_empty(pred_missing);
    let pred_present = |t: TodoView| t.id == id_present;
    let i = choose|i: int| 0 <= i < rows.len() && rows[i].id == id_present;
    rows.lemma_filter_contains(pred_present, i);
    assert(rows.filter(pred_present).contains(rows[i]));
}

/// After a delete, no listing ever includes the deleted id again.
pub proof fn lemma_delete_then_list_excludes(rows: Seq<TodoView>, id: int)
    ensures
        forall|i: int|
            0 <= i < spec_delete(rows, id).len() ==> (#[trigger] spec_delete(rows, id)[i]).id != id,
{
    let pred = |t: TodoView| t.id != id;
    assert forall|i: int| 0 <= i < spec_delete(rows, id).len() implies (#[trigger] spec_delete(
        rows,
        id,
    )[i]).id != id by {
        rows.lemma_filter_pred(pred, i);
    }
}

/// Deleting the same id twice reports success both times: the second delete
/// finds nothing to remove, affects zero rows, and leaves the table exactly
/// as the first delete left it.
pub proof fn lemma_delete_idempotent(rows: Seq<TodoView>, id: int)
    ensures
        spec_delete(spec_delete(rows, id), id) == spec_delete(rows, id),
        spec_delete(rows, id).len() - spec_delete(spec_delete(rows, id), id).len() == 0,
        statement_reply_status(true) == STATUS_OK,
{
    lemma_delete_then_list_excludes(rows, id);
    let pred = |t: TodoView| t.id != id;
    lemma_filter_of_all(spec_delete(rows, id), pred);
}

/// Filtering a sequence whose every element passes the test leaves it
/// unchanged.
proof fn lemma_filter_of_all(rows: Seq<TodoView>, pred: spec_fn(TodoView) -> bool)
    requires
        forall|i: int| 0 <= i < rows.len() ==> pred(#[trigger] rows[i]),
    ensures
        rows.filter(pred) == rows,
    decreases rows.len(),
{
    reveal(Seq::filter);
    if rows.len() != 0 {
        let dl = rows.drop_last();
        lemma_filter_of_all(dl, pred);
        assert(pred(rows.last()));
        assert(rows.filter(pred) =~= dl.push(rows.last()));
        assert(dl.push(rows.last()) =~= rows);
    }
}

} // verus!
