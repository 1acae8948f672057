//! The verified model of the persistence layer: a task table, a
//! category table, a tag table, and the operations the commands
//! perform on them.
//!
//! A thin front end keeps an embedded database file in step with these
//! operations; everything the operations decide — which rows change,
//! which ids are handed out, when an operation fails — is stated and
//! proved here.

use vstd::prelude::*;
use crate::date::Date;
use crate::error::TodoError;
use crate::task::{Task, TaskView, clone_string_vec};
use crate::text::{str_eq, spec_split_tags, split_tags};
use crate::date::spec_parse_date;
use crate::date::parse_date;

verus! {

/// Ids are the values of a 32-bit signed column; the next free id
/// never passes this bound.
pub const ID_LIMIT: i64 = 0x8000_0000;

/// One row of the category or tag table: a unique id and a unique
/// name.
#[derive(Debug)]
pub struct NamedRow {
    pub id: i32,
    pub name: String,
}

/// The mathematical value of a table row.
pub ghost struct NamedRowView {
    pub id: int,
    pub name: Seq<char>,
}

impl View for NamedRow {
    type V = NamedRowView;

    open spec fn view(&self) -> NamedRowView {
        NamedRowView { id: self.id as int, name: self.name@ }
    }
}

impl DeepView for NamedRow {
    type V = NamedRowView;

    open spec fn deep_view(&self) -> NamedRowView {
        self.view()
    }
}

impl Clone for NamedRow {
    fn clone(&self) -> (r: NamedRow)
        ensures
            r@ == self@,
    {
        NamedRow { id: self.id, name: self.name.clone() }
    }
}

/// The conflict policy of a bulk import: keep existing rows, load the
/// incoming rows with fresh ids, or replace existing rows.
#[derive(PartialEq, Eq, Structural, Clone, Copy, Debug)]
pub enum Strategy {
    Skip,
    Remove,
    Upsert,
}

/// The store: the three tables and the next free id of each.
#[derive(Debug)]
pub struct Database {
    pub tasks: Vec<Task>,
    pub categories: Vec<NamedRow>,
    pub tags: Vec<NamedRow>,
    pub next_id: i64,
    pub next_category_id: i64,
    pub next_tag_id: i64,
}

/// The id of the first row with the given name, if any.
pub open spec fn spec_name_id(rows: Seq<NamedRowView>, name: Seq<char>) -> Option<int>
    decreases rows.len(),
{
    if rows.len() == 0 {
        None
    } else if rows[0].name == name {
        Some(rows[0].id)
    } else {
        spec_name_id(rows.drop_first(), name)
    }
}

/// Does the table hold a row with this name?
pub open spec fn has_name(rows: Seq<NamedRowView>, name: Seq<char>) -> bool {
    spec_name_id(rows, name) is Some
}

/// A well-formed category or tag table: every id below the next free
/// one, and no name or id twice.
pub open spec fn table_wf(rows: Seq<NamedRowView>, next: int) -> bool {
    &&& 1 <= next <= ID_LIMIT as int
    &&& forall|i: int| 0 <= i < rows.len() ==> 1 <= (#[trigger] rows[i]).id < next
    &&& forall|i: int, j: int| 0 <= i < j < rows.len() ==> rows[i].name != rows[j].name
    &&& forall|i: int, j: int| 0 <= i < j < rows.len() ==> rows[i].id != rows[j].id
}

/// Does the task table hold a row with this id?
pub open spec fn has_task_id(tasks: Seq<TaskView>, id: int) -> bool {
    exists|i: int| 0 <= i < tasks.len() && (#[trigger] tasks[i]).id == id
}

/// No task id occurs twice.
pub open spec fn task_ids_unique(tasks: Seq<TaskView>) -> bool {
    forall|i: int, j: int| 0 <= i < j < tasks.len() ==> (#[trigger] tasks[i]).id != (
    #[trigger] tasks[j]).id
}

/// What a table looks like after a name is added to it, ignored when
/// it is already there.
pub open spec fn register_one_rows(rows: Seq<NamedRowView>, name: Seq<char>, next: int) -> Seq<
    NamedRowView,
> {
    if has_name(rows, name) {
        rows
    } else {
        rows.push(NamedRowView { id: next, name })
    }
}

/// The next free id after a name is added.
pub open spec fn register_one_next(rows: Seq<NamedRowView>, name: Seq<char>, next: int) -> int {
    if has_name(rows, name) {
        next
    } else {
        next + 1
    }
}

/// The table after every name of the list is added in order.
pub open spec fn register_all_rows(
    rows: Seq<NamedRowView>,
    names: Seq<Seq<char>>,
    next: int,
) -> Seq<NamedRowView>
    decreases names.len(),
{
    if names.len() == 0 {
        rows
    } else {
        register_one_rows(
            register_all_rows(rows, names.drop_last(), next),
            names.last(),
            register_all_next(rows, names.drop_last(), next),
        )
    }
}

/// The next free id after every name of the list is added in order.
pub open spec fn register_all_next(rows: Seq<NamedRowView>, names: Seq<Seq<char>>, next: int) -> int
    decreases names.len(),
{
    if names.len() == 0 {
        next
    } else {
        register_one_next(
            register_all_rows(rows, names.drop_last(), next),
            names.last(),
            register_all_next(rows, names.drop_last(), next),
        )
    }
}

impl Database {
    /// The store's invariant: well-formed tables, and no task id at or
    /// past the next free one.
    pub open spec fn wf(self) -> bool {
        &&& 1 <= self.next_id as int <= ID_LIMIT as int
        &&& forall|i: int|
            0 <= i < self.tasks.deep_view().len() ==> (#[trigger] self.tasks.deep_view()[i]).id
                < self.next_id as int
        &&& task_ids_unique(self.tasks.deep_view())
        &&& table_wf(self.categories.deep_view(), self.next_category_id as int)
        &&& table_wf(self.tags.deep_view(), self.next_tag_id as int)
    }

    /// A fresh, empty store.
    pub fn new() -> (db: Database)
        ensures
            db.wf(),
            db.tasks.deep_view() =~= Seq::<TaskView>::empty(),
            db.categories.deep_view() =~= Seq::<NamedRowView>::empty(),
            db.tags.deep_view() =~= Seq::<NamedRowView>::empty(),
            db.next_id == 1,
            db.next_category_id == 1,
            db.next_tag_id == 1,
    {
        Database {
            tasks: Vec::new(),
            categories: Vec::new(),
            tags: Vec::new(),
            next_id: 1,
            next_category_id: 1,
            next_tag_id: 1,
        }
    }
}

proof fn lemma_name_id_found(rows: Seq<NamedRowView>, name: Seq<char>, i: int)
    requires
        0 <= i < rows.len(),
        rows[i].name == name,
        forall|j: int| 0 <= j < i ==> rows[j].name != name,
    ensures
        spec_name_id(rows, name) == Some(rows[i].id),
    decreases i,
{
    if i > 0 {
        lemma_name_id_found(rows.drop_first(), name, i - 1);
    }
}

proof fn lemma_name_id_none(rows: Seq<NamedRowView>, name: Seq<char>)
    requires
        forall|j: int| 0 <= j < rows.len() ==> rows[j].name != name,
    ensures
        spec_name_id(rows, name) is None,
    decreases rows.len(),
{
    if rows.len() > 0 {
        lemma_name_id_none(rows.drop_first(), name);
    }
}

/// A table holds a name exactly when some row carries it.
proof fn lemma_has_name_pointwise(rows: Seq<NamedRowView>, name: Seq<char>)
    ensures
        has_name(rows, name) <==> exists|j: int|
            0 <= j < rows.len() && (#[trigger] rows[j]).name == name,
    decreases rows.len(),
{
    if rows.len() == 0 {
    } else if rows[0].name == name {
        assert(rows[0].name == name);
    } else {
        lemma_has_name_pointwise(rows.drop_first(), name);
        if exists|j: int| 0 <= j < rows.len() && (#[trigger] rows[j]).name == name {
            let j = choose|j: int| 0 <= j < rows.len() && (#[trigger] rows[j]).name == name;
            assert(rows.drop_first()[j - 1] == rows[j]);
            assert(rows.drop_first()[j - 1].name == name);
        }
        if has_name(rows, name) {
            let j = choose|j: int|
                0 <= j < rows.drop_first().len() && (#[trigger] rows.drop_first()[j]).name
                    == name;
            assert(rows[j + 1] == rows.drop_first()[j]);
        }
    }
}

/// The first row with the given name, by index.
fn find_name_index(rows: &Vec<NamedRow>, name: &str) -> (r: Option<usize>)
    ensures
        match r {
            Some(i) => i < rows.len() && rows.deep_view()[i as int].name == name@ && spec_name_id(
                rows.deep_view(),
                name@,
            ) == Some(rows.deep_view()[i as int].id),
            None => !has_name(rows.deep_view(), name@),
        },
{
    let mut i: usize = 0;
    while i < rows.len()
        invariant
            i <= rows.len(),
            forall|j: int| 0 <= j < i ==> rows.deep_view()[j].name != name@,
        decreases rows.len() - i,
    {
        if str_eq(rows[i].name.as_str(), name) {
            proof {
                lemma_name_id_found(rows.deep_view(), name@, i as int);
            }
            return Some(i);
        }
        i = i + 1;
    }
    proof {
        lemma_name_id_none(rows.deep_view(), name@);
    }
    None
}

/// Adds a name to a table unless it is already there; the shared body
/// of the category and tag commands.
fn register(rows: &mut Vec<NamedRow>, next: &mut i64, name: &str)
    requires
        table_wf(old(rows).deep_view(), *old(next) as int),
        *old(next) < ID_LIMIT,
    ensures
        table_wf(final(rows).deep_view(), *final(next) as int),
        final(rows).deep_view() == register_one_rows(
            old(rows).deep_view(),
            name@,
            *old(next) as int,
        ),
        *final(next) as int == register_one_next(old(rows).deep_view(), name@, *old(next) as int),
{
    match find_name_index(rows, name) {
        Some(_) => {
        },
        None => {
            proof {
                lemma_has_name_pointwise(old(rows).deep_view(), name@);
            }
            let id = *next as i32;
            rows.push(NamedRow { id, name: name.to_owned() });
            *next = *next + 1;
            proof {
                assert(rows.deep_view() =~= old(rows).deep_view().push(
                    NamedRowView { id: id as int, name: name@ },
                ));
            }
        },
    }
}

impl Database {
    /// Adds a category name; one that is already present is left
    /// alone. Fails only when the id space is exhausted.
    pub fn add_category(&mut self, name: &str) -> (r: Result<(), TodoError>)
        requires
            old(self).wf(),
        ensures
            final(self).wf(),
            final(self).tasks == old(self).tasks,
            final(self).tags == old(self).tags,
            final(self).next_id == old(self).next_id,
            final(self).next_tag_id == old(self).next_tag_id,
            r is Ok <==> (has_name(old(self).categories.deep_view(), name@) || old(self).next_category_id < ID_LIMIT),
            r is Ok ==> final(self).categories.deep_view() == register_one_rows(
                old(self).categories.deep_view(),
                name@,
                old(self).next_category_id as int,
            ) && final(self).next_category_id as int == register_one_next(
                old(self).categories.deep_view(),
                name@,
                old(self).next_category_id as int,
            ),
            r is Err ==> *final(self) == *old(self),
            r is Err ==> (r->Err_0 matches TodoError::Custom(m) && m@
                == "category id space exhausted"@),
    {
        match find_name_index(&self.categories, name) {
            Some(_) => Ok(()),
            None => {
                if self.next_category_id >= ID_LIMIT {
                    return Err(TodoError::Custom("category id space exhausted".to_owned()));
                }
                register(&mut self.categories, &mut self.next_category_id, name);
                Ok(())
            },
        }
    }
}

impl Database {
    /// Adds a tag name; one that is already present is left alone.
    /// Fails only when the id space is exhausted.
    pub fn add_tag(&mut self, name: &str) -> (r: Result<(), TodoError>)
        requires
            old(self).wf(),
        ensures
            final(self).wf(),
            final(self).tasks == old(self).tasks,
            final(self).categories == old(self).categories,
            final(self).next_id == old(self).next_id,
            final(self).next_category_id == old(self).next_category_id,
            r is Ok <==> (has_name(old(self).tags.deep_view(), name@) || old(self).next_tag_id
                < ID_LIMIT),
            r is Ok ==> final(self).tags.deep_view() == register_one_rows(
                old(self).tags.deep_view(),
                name@,
                old(self).next_tag_id as int,
            ) && final(self).next_tag_id as int == register_one_next(
                old(self).tags.deep_view(),
                name@,
                old(self).next_tag_id as int,
            ),
            r is Err ==> *final(self) == *old(self),
            r is Err ==> (r->Err_0 matches TodoError::Custom(m) && m@
                == "tag id space exhausted"@),
    {
        match find_name_index(&self.tags, name) {
            Some(_) => Ok(()),
            None => {
                if self.next_tag_id >= ID_LIMIT {
                    return Err(TodoError::Custom("tag id space exhausted".to_owned()));
                }
                register(&mut self.tags, &mut self.next_tag_id, name);
                Ok(())
            },
        }
    }

    /// The id of a category, or `NotFound` when no such name exists.
    pub fn get_category_id(&self, name: &str) -> (r: Result<i32, TodoError>)
        ensures
            r is Ok <==> has_name(self.categories.deep_view(), name@),
            r is Ok ==> Some(r->Ok_0 as int) == spec_name_id(self.categories.deep_view(), name@),
            r is Err ==> r->Err_0 is NotFound,
    {
        match find_name_index(&self.categories, name) {
            Some(i) => Ok(self.categories[i].id),
            None => Err(TodoError::NotFound),
        }
    }

    /// The id of a tag, or `NotFound` when no such name exists.
    pub fn get_tag_id(&self, name: &str) -> (r: Result<i32, TodoError>)
        ensures
            r is Ok <==> has_name(self.tags.deep_view(), name@),
            r is Ok ==> Some(r->Ok_0 as int) == spec_name_id(self.tags.deep_view(), name@),
            r is Err ==> r->Err_0 is NotFound,
    {
        match find_name_index(&self.tags, name) {
            Some(i) => Ok(self.tags[i].id),
            None => Err(TodoError::NotFound),
        }
    }

    /// Every category name, in table order.
    pub fn list_categories(&self) -> (r: Result<Vec<String>, TodoError>)
        ensures
            r is Ok,
            r->Ok_0.deep_view() == self.categories.deep_view().map_values(
                |row: NamedRowView| row.name,
            ),
    {
        Ok(names_of(&self.categories))
    }

    /// Every tag name, in table order.
    pub fn list_tags(&self) -> (r: Result<Vec<String>, TodoError>)
        ensures
            r is Ok,
            r->Ok_0.deep_view() == self.tags.deep_view().map_values(|row: NamedRowView| row.name),
    {
        Ok(names_of(&self.tags))
    }
}

/// The names of a table, in order.
fn names_of(rows: &Vec<NamedRow>) -> (r: Vec<String>)
    ensures
        r.deep_view() == rows.deep_view().map_values(|row: NamedRowView| row.name),
{
    let mut r: Vec<String> = Vec::new();
    let mut i: usize = 0;
    while i < rows.len()
        invariant
            i <= rows.len(),
            r.deep_view() =~= rows.deep_view().subrange(0, i as int).map_values(
                |row: NamedRowView| row.name,
            ),
        decreases rows.len() - i,
    {
        let ghost old_r = r.deep_view();
        r.push(rows[i].name.clone());
        proof {
            let f = |row: NamedRowView| row.name;
            assert(r.deep_view() =~= old_r.push(rows.deep_view()[i as int].name));
            assert(rows.deep_view().subrange(0, i as int + 1).map_values(f) =~= rows.deep_view()
                .subrange(0, i as int).map_values(f).push(rows.deep_view()[i as int].name));
        }
        i = i + 1;
    }
    proof {
        assert(rows.deep_view().subrange(0, rows.len() as int) =~= rows.deep_view());
    }
    r
}

/// The first task with the given id, if any.
pub open spec fn spec_task_by_id(tasks: Seq<TaskView>, id: int) -> Option<TaskView>
    decreases tasks.len(),
{
    if tasks.len() == 0 {
        None
    } else if tasks[0].id == id {
        Some(tasks[0])
    } else {
        spec_task_by_id(tasks.drop_first(), id)
    }
}

proof fn lemma_task_by_id_found(tasks: Seq<TaskView>, id: int, i: int)
    requires
        0 <= i < tasks.len(),
        tasks[i].id == id,
        forall|j: int| 0 <= j < i ==> tasks[j].id != id,
    ensures
        spec_task_by_id(tasks, id) == Some(tasks[i]),
        has_task_id(tasks, id),
    decreases i,
{
    if i > 0 {
        lemma_task_by_id_found(tasks.drop_first(), id, i - 1);
    }
}

proof fn lemma_task_by_id_none(tasks: Seq<TaskView>, id: int)
    requires
        forall|j: int| 0 <= j < tasks.len() ==> tasks[j].id != id,
    ensures
        spec_task_by_id(tasks, id) is None,
        !has_task_id(tasks, id),
    decreases tasks.len(),
{
    if tasks.len() > 0 {
        lemma_task_by_id_none(tasks.drop_first(), id);
    }
}

/// A task table holds an id exactly when a row by that id exists.
pub proof fn lemma_task_by_id_vs_has(tasks: Seq<TaskView>, id: int)
    ensures
        has_task_id(tasks, id) <==> spec_task_by_id(tasks, id) is Some,
    decreases tasks.len(),
{
    if tasks.len() > 0 {
        lemma_task_by_id_vs_has(tasks.drop_first(), id);
        if tasks[0].id != id {
            assert(has_task_id(tasks, id) ==> has_task_id(tasks.drop_first(), id)) by {
                if has_task_id(tasks, id) {
                    let i = choose|i: int|
                        0 <= i < tasks.len() && (#[trigger] tasks[i]).id == id;
                    assert(tasks.drop_first()[i - 1] == tasks[i]);
                }
            }
        }
    }
}

/// The first task with the given id, by index.
fn find_task_index(tasks: &Vec<Task>, id: i32) -> (r: Option<usize>)
    ensures
        match r {
            Some(i) => i < tasks.len() && tasks.deep_view()[i as int].id == id as int
                && spec_task_by_id(tasks.deep_view(), id as int) == Some(
                tasks.deep_view()[i as int],
            ) && has_task_id(tasks.deep_view(), id as int),
            None => !has_task_id(tasks.deep_view(), id as int) && spec_task_by_id(
                tasks.deep_view(),
                id as int,
            ) is None,
        },
{
    let mut i: usize = 0;
    while i < tasks.len()
        invariant
            i <= tasks.len(),
            forall|j: int| 0 <= j < i ==> tasks.deep_view()[j].id != id as int,
        decreases tasks.len() - i,
    {
        if tasks[i].id == id {
            proof {
                lemma_task_by_id_found(tasks.deep_view(), id as int, i as int);
            }
            return Some(i);
        }
        i = i + 1;
    }
    proof {
        lemma_task_by_id_none(tasks.deep_view(), id as int);
    }
    None
}

/// A task as listing returns it, filtered by done status.
pub open spec fn spec_list(tasks: Seq<TaskView>, done_only: Option<bool>) -> Seq<TaskView> {
    match done_only {
        None => tasks,
        Some(b) => tasks.filter(|t: TaskView| t.done == b),
    }
}

/// A task after it is marked done on the given day.
pub open spec fn spec_done_task(t: TaskView, today: Date) -> TaskView {
    TaskView {
        id: t.id,
        name: t.name,
        category: t.category,
        tags: t.tags,
        done: true,
        due_date: t.due_date,
        completion_date: Some(today),
        priority: t.priority,
    }
}

/// The task table after the row with the given id is marked done.
pub open spec fn spec_mark_done(tasks: Seq<TaskView>, id: int, today: Date) -> Seq<TaskView> {
    tasks.map_values(
        |t: TaskView|
            if t.id == id {
                spec_done_task(t, today)
            } else {
                t
            },
    )
}

/// The task a stored row becomes when it is added with a fresh id:
/// not done, no completion date.
pub open spec fn spec_added_task(t: TaskView, id: int) -> TaskView {
    TaskView {
        id,
        name: t.name,
        category: t.category,
        tags: t.tags,
        done: false,
        due_date: t.due_date,
        completion_date: None,
        priority: t.priority,
    }
}

/// When adding a task succeeds: a free task id, and room in the
/// category and tag tables for every name the task carries.
pub open spec fn spec_add_ok(db: Database, t: TaskView) -> bool {
    &&& (db.next_id as int) < ID_LIMIT as int
    &&& (db.next_category_id as int) < ID_LIMIT as int
    &&& db.next_tag_id as int + t.tags.len() <= ID_LIMIT as int
}

/// Does some task carry this category name?
pub open spec fn category_in_use(tasks: Seq<TaskView>, name: Seq<char>) -> bool {
    exists|i: int| 0 <= i < tasks.len() && (#[trigger] tasks[i]).category == Some(name)
}

/// Does some task carry this tag name?
pub open spec fn tag_in_use(tasks: Seq<TaskView>, name: Seq<char>) -> bool {
    exists|i: int, k: int|
        0 <= i < tasks.len() && 0 <= k < tasks[i].tags.len() && (#[trigger] tasks[i].tags[k])
            == name
}

impl Database {
    /// Every task, or only the done or not-done ones, in table order.
    pub fn get_tasks(&self, done_only: Option<bool>) -> (r: Result<Vec<Task>, TodoError>)
        ensures
            r is Ok,
            r->Ok_0.deep_view() == spec_list(self.tasks.deep_view(), done_only),
    {
        let ghost dv = self.tasks.deep_view();
        let mut out: Vec<Task> = Vec::new();
        let mut i: usize = 0;
        proof {
            assert(dv.subrange(0, 0) =~= Seq::<TaskView>::empty());
            assert(out.deep_view() =~= Seq::<TaskView>::empty());
            if done_only is Some {
                reveal(Seq::filter);
            }
        }
        while i < self.tasks.len()
            invariant
                i <= self.tasks.len(),
                dv == self.tasks.deep_view(),
                out.deep_view() == spec_list(dv.subrange(0, i as int), done_only),
            decreases self.tasks.len() - i,
        {
            let ghost old_out = out.deep_view();
            let keep = match done_only {
                None => true,
                Some(b) => self.tasks[i].done == b,
            };
            if keep {
                out.push(self.tasks[i].clone());
            }
            proof {
                assert(dv.subrange(0, i as int + 1).drop_last() =~= dv.subrange(0, i as int));
                assert(dv.subrange(0, i as int + 1).last() == dv[i as int]);
                match done_only {
                    None => {
                        assert(out.deep_view() =~= dv.subrange(0, i as int + 1));
                    },
                    Some(b) => {
                        reveal(Seq::filter);
                        if keep {
                            assert(out.deep_view() =~= old_out.push(dv[i as int]));
                        }
                    },
                }
            }
            i = i + 1;
        }
        proof {
            assert(dv.subrange(0, self.tasks.len() as int) =~= dv);
        }
        Ok(out)
    }

    /// The tags of the task with the given id; an unknown id has none.
    pub fn get_task_tags(&self, task_id: i32) -> (r: Result<Vec<String>, TodoError>)
        ensures
            r is Ok,
            r->Ok_0.deep_view() == (match spec_task_by_id(self.tasks.deep_view(), task_id as int) {
                Some(t) => t.tags,
                None => Seq::<Seq<char>>::empty(),
            }),
    {
        match find_task_index(&self.tasks, task_id) {
            Some(i) => Ok(clone_string_vec(&self.tasks[i].tags)),
            None => {
                let out: Vec<String> = Vec::new();
                proof {
                    assert(out.deep_view() =~= Seq::<Seq<char>>::empty());
                }
                Ok(out)
            },
        }
    }

    /// Marks the task with the given id done as of `today`. An id that
    /// matches no row changes nothing; either way the call succeeds.
    pub fn mark_task_done(&mut self, id: i32, today: Date) -> (r: Result<(), TodoError>)
        requires
            old(self).wf(),
        ensures
            final(self).wf(),
            r is Ok,
            final(self).tasks.deep_view() == spec_mark_done(
                old(self).tasks.deep_view(),
                id as int,
                today,
            ),
            final(self).categories == old(self).categories,
            final(self).tags == old(self).tags,
            final(self).next_id == old(self).next_id,
            final(self).next_category_id == old(self).next_category_id,
            final(self).next_tag_id == old(self).next_tag_id,
    {
        let ghost dv = old(self).tasks.deep_view();
        let mut out: Vec<Task> = Vec::new();
        let mut i: usize = 0;
        while i < self.tasks.len()
            invariant
                i <= self.tasks.len(),
                *self == *old(self),
                self.wf(),
                dv == self.tasks.deep_view(),
                out.deep_view() =~= spec_mark_done(dv.subrange(0, i as int), id as int, today),
            decreases self.tasks.len() - i,
        {
            let mut t = self.tasks[i].clone();
            if t.id == id {
                t.done = true;
                t.completion_date = Some(today);
            }
            let ghost old_out = out.deep_view();
            let ghost mapped = (if dv[i as int].id == id as int {
                spec_done_task(dv[i as int], today)
            } else {
                dv[i as int]
            });
            proof {
                assert(t@ == mapped);
            }
            out.push(t);
            proof {
                assert(out.deep_view() =~= old_out.push(mapped));
                assert(spec_mark_done(dv.subrange(0, i as int + 1), id as int, today)
                    =~= spec_mark_done(dv.subrange(0, i as int), id as int, today).push(mapped));
            }
            i = i + 1;
        }
        proof {
            assert(dv.subrange(0, self.tasks.len() as int) =~= dv);
        }
        self.tasks = out;
        proof {
            let ndv = self.tasks.deep_view();
            assert(forall|k: int| 0 <= k < ndv.len() ==> (#[trigger] ndv[k]).id == dv[k].id);
        }
        Ok(())
    }

    /// Stores a task under a fresh id, registering its category and
    /// tag names; the stored row starts not done. Fails only when an
    /// id space is exhausted.
    pub fn add_task(&mut self, task: Task) -> (r: Result<(), TodoError>)
        requires
            old(self).wf(),
        ensures
            final(self).wf(),
            r is Ok <==> spec_add_ok(*old(self), task@),
            r is Ok ==> final(self).tasks.deep_view() == old(self).tasks.deep_view().push(
                spec_added_task(task@, old(self).next_id as int),
            ),
            r is Ok ==> final(self).next_id == old(self).next_id + 1,
            r is Ok ==> final(self).categories.deep_view() == (match task@.category {
                Some(c) => register_one_rows(
                    old(self).categories.deep_view(),
                    c,
                    old(self).next_category_id as int,
                ),
                None => old(self).categories.deep_view(),
            }),
            r is Ok ==> final(self).next_category_id as int == (match task@.category {
                Some(c) => register_one_next(
                    old(self).categories.deep_view(),
                    c,
                    old(self).next_category_id as int,
                ),
                None => old(self).next_category_id as int,
            }),
            r is Ok ==> final(self).tags.deep_view() == register_all_rows(
                old(self).tags.deep_view(),
                task@.tags,
                old(self).next_tag_id as int,
            ),
            r is Ok ==> final(self).next_tag_id as int == register_all_next(
                old(self).tags.deep_view(),
                task@.tags,
                old(self).next_tag_id as int,
            ),
            r is Err ==> *final(self) == *old(self),
            r is Err ==> (r->Err_0 matches TodoError::Custom(m) && m@ == "id space exhausted"@),
    {
        if task.tags.len() as u64 >= 0x8000_0000u64 {
            return Err(TodoError::Custom("id space exhausted".to_owned()));
        }
        let tlen = task.tags.len() as i64;
        if !(self.next_id < ID_LIMIT && self.next_category_id < ID_LIMIT && self.next_tag_id
            <= ID_LIMIT - tlen) {
            return Err(TodoError::Custom("id space exhausted".to_owned()));
        }
        let new_id = self.next_id as i32;
        let category_copy = match &task.category {
            Some(c) => Some(c.clone()),
            None => None,
        };
        let stored = Task {
            id: new_id,
            name: task.name.clone(),
            category: category_copy,
            tags: clone_string_vec(&task.tags),
            done: false,
            due_date: task.due_date,
            completion_date: None,
            priority: task.priority,
        };
        proof {
            assert(stored@ == spec_added_task(task@, old(self).next_id as int));
        }
        self.tasks.push(stored);
        self.next_id = self.next_id + 1;
        proof {
            let ndv = self.tasks.deep_view();
            let odv = old(self).tasks.deep_view();
            assert(ndv =~= odv.push(spec_added_task(task@, old(self).next_id as int)));
        }
        if let Some(cat) = &task.category {
            register(&mut self.categories, &mut self.next_category_id, cat.as_str());
        }
        let ghost tasks_mid = self.tasks;
        let ghost cats_mid = self.categories;
        let ghost nid_mid = self.next_id;
        let ghost ncat_mid = self.next_category_id;
        let ghost tags1 = self.tags.deep_view();
        let ghost ntag1 = self.next_tag_id as int;
        let ghost tdv = task.tags.deep_view();
        let mut i: usize = 0;
        proof {
            assert(tdv.subrange(0, 0) =~= Seq::<Seq<char>>::empty());
        }
        while i < task.tags.len()
            invariant
                i <= task.tags.len(),
                tdv == task.tags.deep_view(),
                tdv.len() == tlen,
                ntag1 + tlen <= ID_LIMIT as int,
                self.tags.deep_view() == register_all_rows(tags1, tdv.subrange(0, i as int), ntag1),
                self.next_tag_id as int == register_all_next(
                    tags1,
                    tdv.subrange(0, i as int),
                    ntag1,
                ),
                self.next_tag_id as int <= ntag1 + i,
                table_wf(self.tags.deep_view(), self.next_tag_id as int),
                self.tasks == tasks_mid,
                self.categories == cats_mid,
                self.next_id == nid_mid,
                self.next_category_id == ncat_mid,
            decreases task.tags.len() - i,
        {
            register(&mut self.tags, &mut self.next_tag_id, task.tags[i].as_str());
            proof {
                assert(tdv.subrange(0, i as int + 1).drop_last() =~= tdv.subrange(0, i as int));
                assert(tdv.subrange(0, i as int + 1).last() == tdv[i as int]);
            }
            i = i + 1;
        }
        proof {
            assert(tdv.subrange(0, task.tags.len() as int) =~= tdv);
        }
        Ok(())
    }
}

/// Does some string of the list equal the given one?
fn vec_has_str(v: &Vec<String>, name: &str) -> (b: bool)
    ensures
        b == exists|k: int| 0 <= k < v.deep_view().len() && v.deep_view()[k] == name@,
{
    let mut k: usize = 0;
    while k < v.len()
        invariant
            k <= v.len(),
            forall|k2: int| 0 <= k2 < k ==> v.deep_view()[k2] != name@,
        decreases v.len() - k,
    {
        if str_eq(v[k].as_str(), name) {
            proof {
                assert(v.deep_view()[k as int] == name@);
            }
            return true;
        }
        k = k + 1;
    }
    false
}

/// Removes every row with the given name from a table.
fn remove_name(rows: &mut Vec<NamedRow>, name: &str)
    ensures
        final(rows).deep_view() == old(rows).deep_view().filter(
            |row: NamedRowView| row.name != name@,
        ),
{
    let ghost dv = old(rows).deep_view();
    let mut out: Vec<NamedRow> = Vec::new();
    let mut i: usize = 0;
    proof {
        reveal(Seq::filter);
        assert(dv.subrange(0, 0) =~= Seq::<NamedRowView>::empty());
        assert(out.deep_view() =~= Seq::<NamedRowView>::empty());
    }
    while i < rows.len()
        invariant
            i <= rows.len(),
            dv == rows.deep_view(),
            out.deep_view() == dv.subrange(0, i as int).filter(
                |row: NamedRowView| row.name != name@,
            ),
        decreases rows.len() - i,
    {
        let ghost old_out = out.deep_view();
        if !str_eq(rows[i].name.as_str(), name) {
            out.push(rows[i].clone());
        }
        proof {
            reveal(Seq::filter);
            assert(dv.subrange(0, i as int + 1).drop_last() =~= dv.subrange(0, i as int));
            assert(dv.subrange(0, i as int + 1).last() == dv[i as int]);
            if dv[i as int].name != name@ {
                assert(out.deep_view() =~= old_out.push(dv[i as int]));
            }
        }
        i = i + 1;
    }
    proof {
        assert(dv.subrange(0, rows.len() as int) =~= dv);
    }
    *rows = out;
}

/// A filtered table stays well formed.
proof fn lemma_filter_table_wf(rows: Seq<NamedRowView>, next: int, name: Seq<char>)
    requires
        table_wf(rows, next),
    ensures
        table_wf(rows.filter(|row: NamedRowView| row.name != name), next),
    decreases rows.len(),
{
    reveal(Seq::filter);
    let pred = |row: NamedRowView| row.name != name;
    if rows.len() > 0 {
        let dl = rows.drop_last();
        let last = rows.last();
        assert(table_wf(dl, next));
        lemma_filter_table_wf(dl, next, name);
        let fdl = dl.filter(pred);
        if pred(last) {
            let out = rows.filter(pred);
            assert(out =~= fdl.push(last));
            assert forall|i: int| 0 <= i < fdl.len() implies (#[trigger] fdl[i]).name != last.name
                && fdl[i].id != last.id by {
                assert(fdl.contains(fdl[i]));
                dl.lemma_filter_contains_rev(pred, fdl[i]);
                let j = choose|j: int| 0 <= j < dl.len() && dl[j] == fdl[i];
                assert(rows[j] == fdl[i]);
                assert(rows[rows.len() - 1] == last);
            }
            assert forall|i: int, j: int| 0 <= i < j < out.len() implies out[i].name
                != out[j].name && out[i].id != out[j].id by {
                if j < fdl.len() {
                    assert(out[i] == fdl[i] && out[j] == fdl[j]);
                } else {
                    assert(out[j] == last && out[i] == fdl[i]);
                }
            }
            assert forall|i: int| 0 <= i < out.len() implies 1 <= (#[trigger] out[i]).id
                < next by {
                if i < fdl.len() {
                    assert(out[i] == fdl[i]);
                } else {
                    assert(out[i] == last);
                    assert(last == rows[rows.len() - 1]);
                }
            }
        } else {
            assert(rows.filter(pred) == fdl);
        }
    } else {
        assert(rows.filter(pred) =~= rows);
    }
}

impl Database {
    /// Deletes a category, unless a task still carries it; then the
    /// store refuses, as a foreign key does.
    pub fn delete_category(&mut self, name: &str) -> (r: Result<(), TodoError>)
        requires
            old(self).wf(),
        ensures
            final(self).wf(),
            r is Ok <==> !category_in_use(old(self).tasks.deep_view(), name@),
            r is Ok ==> final(self).categories.deep_view() == old(self).categories.deep_view().filter(|row: NamedRowView| row.name != name@),
            r is Ok ==> final(self).tasks == old(self).tasks && final(self).tags == old(self).tags
                && final(self).next_id == old(self).next_id && final(self).next_category_id == old(self).next_category_id && final(self).next_tag_id == old(self).next_tag_id,
            r is Err ==> *final(self) == *old(self),
            r is Err ==> (r->Err_0 matches TodoError::Store(m) && m@
                == "Violates foreign key constraint"@),
    {
        let ghost dv = old(self).tasks.deep_view();
        let mut i: usize = 0;
        while i < self.tasks.len()
            invariant
                i <= self.tasks.len(),
                *self == *old(self),
                self.wf(),
                dv == self.tasks.deep_view(),
                forall|j: int| 0 <= j < i ==> (#[trigger] dv[j]).category != Some(name@),
            decreases self.tasks.len() - i,
        {
            let used = match &self.tasks[i].category {
                Some(c) => str_eq(c.as_str(), name),
                None => false,
            };
            if used {
                proof {
                    assert(dv[i as int].category == Some(name@));
                    assert(category_in_use(dv, name@));
                }
                return Err(TodoError::Store("Violates foreign key constraint".to_owned()));
            }
            i = i + 1;
        }
        proof {
            lemma_filter_table_wf(
                self.categories.deep_view(),
                self.next_category_id as int,
                name@,
            );
        }
        remove_name(&mut self.categories, name);
        Ok(())
    }

    /// Deletes a tag, unless a task still carries it; then the store
    /// refuses, as a foreign key does.
    pub fn delete_tag(&mut self, name: &str) -> (r: Result<(), TodoError>)
        requires
            old(self).wf(),
        ensures
            final(self).wf(),
            r is Ok <==> !tag_in_use(old(self).tasks.deep_view(), name@),
            r is Ok ==> final(self).tags.deep_view() == old(self).tags.deep_view().filter(
                |row: NamedRowView| row.name != name@,
            ),
            r is Ok ==> final(self).tasks == old(self).tasks && final(self).categories == old(self).categories && final(self).next_id == old(self).next_id && final(self).next_category_id == old(self).next_category_id && final(self).next_tag_id == old(self).next_tag_id,
            r is Err ==> *final(self) == *old(self),
            r is Err ==> (r->Err_0 matches TodoError::Store(m) && m@
                == "Violates foreign key constraint"@),
    {
        let ghost dv = old(self).tasks.deep_view();
        let mut i: usize = 0;
        while i < self.tasks.len()
            invariant
                i <= self.tasks.len(),
                *self == *old(self),
                self.wf(),
                dv == self.tasks.deep_view(),
                forall|j: int, k: int|
                    0 <= j < i && 0 <= k < dv[j].tags.len() ==> (#[trigger] dv[j].tags[k])
                        != name@,
            decreases self.tasks.len() - i,
        {
            if vec_has_str(&self.tasks[i].tags, name) {
                proof {
                    let k = choose|k: int|
                        0 <= k < dv[i as int].tags.len() && dv[i as int].tags[k] == name@;
                    assert(dv[i as int].tags[k] == name@);
                    assert(tag_in_use(dv, name@));
                }
                return Err(TodoError::Store("Violates foreign key constraint".to_owned()));
            }
            i = i + 1;
        }
        proof {
            lemma_filter_table_wf(self.tags.deep_view(), self.next_tag_id as int, name@);
        }
        remove_name(&mut self.tags, name);
        Ok(())
    }
}

/// A partial update: absent fields stay as they are.
pub ghost struct UpdateView {
    pub name: Option<Seq<char>>,
    pub due: Option<Date>,
    pub priority: Option<i32>,
    pub undone: bool,
    pub category: Option<Seq<char>>,
    pub tags: Option<Seq<Seq<char>>>,
}

/// One task after a partial update: every present field replaced,
/// every absent field untouched; marking undone clears both the done
/// flag and the completion date.
pub open spec fn apply_update(t: TaskView, u: UpdateView) -> TaskView {
    TaskView {
        id: t.id,
        name: match u.name {
            Some(n) => n,
            None => t.name,
        },
        category: match u.category {
            Some(c) => Some(c),
            None => t.category,
        },
        tags: match u.tags {
            Some(ts) => ts,
            None => t.tags,
        },
        done: if u.undone {
            false
        } else {
            t.done
        },
        due_date: match u.due {
            Some(d) => Some(d),
            None => t.due_date,
        },
        completion_date: if u.undone {
            None
        } else {
            t.completion_date
        },
        priority: match u.priority {
            Some(p) => p as int,
            None => t.priority,
        },
    }
}

/// The task table after the row with the given id is partially
/// updated.
pub open spec fn spec_update(tasks: Seq<TaskView>, id: int, u: UpdateView) -> Seq<TaskView> {
    tasks.map_values(
        |t: TaskView|
            if t.id == id {
                apply_update(t, u)
            } else {
                t
            },
    )
}

/// The update that the update command's arguments describe: the due
/// date parsed, the tag arguments split at commas and trimmed.
pub open spec fn spec_update_of(
    new_task: Option<Seq<char>>,
    new_due: Option<Seq<char>>,
    new_category: Option<Seq<char>>,
    new_tags: Seq<Seq<char>>,
    new_priority: Option<i32>,
    mark_undone: bool,
) -> UpdateView {
    UpdateView {
        name: new_task,
        due: match new_due {
            Some(s) => spec_parse_date(s),
            None => None,
        },
        priority: new_priority,
        undone: mark_undone,
        category: new_category,
        tags: if new_tags.len() > 0 {
            Some(spec_split_tags(new_tags))
        } else {
            None
        },
    }
}

/// When updating succeeds: room in the category table, and in the tag
/// table for every piece of the new tag list.
pub open spec fn spec_update_ok(db: Database, new_tags: Seq<Seq<char>>) -> bool {
    &&& (db.next_category_id as int) < ID_LIMIT as int
    &&& (new_tags.len() > 0 ==> db.next_tag_id as int + spec_split_tags(new_tags).len()
        <= ID_LIMIT as int)
}

impl Database {
    /// Replaces the given fields of the task with the given id and
    /// leaves the rest alone; registers any new category or tag
    /// names. An id that matches no row changes no task. Fails only
    /// when an id space is exhausted.
    pub fn update_task(
        &mut self,
        id: i32,
        new_task: Option<String>,
        new_due_date: Option<String>,
        new_category: Option<String>,
        new_tags: Vec<String>,
        new_priority: Option<i32>,
        mark_undone: bool,
    ) -> (r: Result<(), TodoError>)
        requires
            old(self).wf(),
            new_due_date matches Some(s) ==> spec_parse_date(s@) is Some,
        ensures
            final(self).wf(),
            r is Ok <==> spec_update_ok(*old(self), new_tags.deep_view()),
            r is Ok ==> final(self).tasks.deep_view() == spec_update(
                old(self).tasks.deep_view(),
                id as int,
                spec_update_of(
                    new_task.deep_view(),
                    new_due_date.deep_view(),
                    new_category.deep_view(),
                    new_tags.deep_view(),
                    new_priority,
                    mark_undone,
                ),
            ),
            r is Ok ==> final(self).categories.deep_view() == (match new_category {
                Some(c) => register_one_rows(
                    old(self).categories.deep_view(),
                    c@,
                    old(self).next_category_id as int,
                ),
                None => old(self).categories.deep_view(),
            }),
            r is Ok ==> final(self).next_category_id as int == (match new_category {
                Some(c) => register_one_next(
                    old(self).categories.deep_view(),
                    c@,
                    old(self).next_category_id as int,
                ),
                None => old(self).next_category_id as int,
            }),
            r is Ok ==> final(self).tags.deep_view() == (if new_tags.deep_view().len() > 0 {
                register_all_rows(
                    old(self).tags.deep_view(),
                    spec_split_tags(new_tags.deep_view()),
                    old(self).next_tag_id as int,
                )
            } else {
                old(self).tags.deep_view()
            }),
            r is Ok ==> final(self).next_tag_id as int == (if new_tags.deep_view().len() > 0 {
                register_all_next(
                    old(self).tags.deep_view(),
                    spec_split_tags(new_tags.deep_view()),
                    old(self).next_tag_id as int,
                )
            } else {
                old(self).next_tag_id as int
            }),
            r is Ok ==> final(self).next_id == old(self).next_id,
            r is Err ==> *final(self) == *old(self),
            r is Err ==> (r->Err_0 matches TodoError::Custom(m) && m@ == "id space exhausted"@),
    {
        let pieces = split_tags(&new_tags);
        let has_new_tags = new_tags.len() > 0;
        if self.next_category_id >= ID_LIMIT {
            return Err(TodoError::Custom("id space exhausted".to_owned()));
        }
        if has_new_tags {
            if pieces.len() as u64 >= 0x8000_0000u64 {
                return Err(TodoError::Custom("id space exhausted".to_owned()));
            }
            let plen = pieces.len() as i64;
            if !(self.next_tag_id <= ID_LIMIT - plen) {
                return Err(TodoError::Custom("id space exhausted".to_owned()));
            }
        }
        let parsed_due = match &new_due_date {
            Some(s) => parse_date(s.as_str()),
            None => None,
        };
        let ghost u = spec_update_of(
            new_task.deep_view(),
            new_due_date.deep_view(),
            new_category.deep_view(),
            new_tags.deep_view(),
            new_priority,
            mark_undone,
        );
        let ghost dv = old(self).tasks.deep_view();
        let mut out: Vec<Task> = Vec::new();
        let mut i: usize = 0;
        while i < self.tasks.len()
            invariant
                i <= self.tasks.len(),
                *self == *old(self),
                self.wf(),
                dv == self.tasks.deep_view(),
                u == spec_update_of(
                    new_task.deep_view(),
                    new_due_date.deep_view(),
                    new_category.deep_view(),
                    new_tags.deep_view(),
                    new_priority,
                    mark_undone,
                ),
                parsed_due == u.due,
                pieces.deep_view() == spec_split_tags(new_tags.deep_view()),
                has_new_tags == (new_tags.deep_view().len() > 0),
                out.deep_view() =~= spec_update(dv.subrange(0, i as int), id as int, u),
            decreases self.tasks.len() - i,
        {
            let mut t = self.tasks[i].clone();
            if t.id == id {
                if let Some(n) = &new_task {
                    t.name = n.clone();
                }
                if let Some(d) = &parsed_due {
                    t.due_date = Some(*d);
                }
                if let Some(p) = new_priority {
                    t.priority = p;
                }
                if mark_undone {
                    t.done = false;
                    t.completion_date = None;
                }
                if let Some(c) = &new_category {
                    t.category = Some(c.clone());
                }
                if has_new_tags {
                    t.tags = clone_string_vec(&pieces);
                }
                proof {
                    assert(t@ == apply_update(dv[i as int], u));
                }
            }
            let ghost old_out = out.deep_view();
            let ghost mapped = (if dv[i as int].id == id as int {
                apply_update(dv[i as int], u)
            } else {
                dv[i as int]
            });
            proof {
                assert(t@ == mapped);
            }
            out.push(t);
            proof {
                assert(out.deep_view() =~= old_out.push(mapped));
                assert(spec_update(dv.subrange(0, i as int + 1), id as int, u) =~= spec_update(
                    dv.subrange(0, i as int),
                    id as int,
                    u,
                ).push(mapped));
            }
            i = i + 1;
        }
        proof {
            assert(dv.subrange(0, self.tasks.len() as int) =~= dv);
        }
        self.tasks = out;
        proof {
            let ndv = self.tasks.deep_view();
            assert(forall|k: int| 0 <= k < ndv.len() ==> (#[trigger] ndv[k]).id == dv[k].id);
        }
        if let Some(c) = &new_category {
            register(&mut self.categories, &mut self.next_category_id, c.as_str());
        }
        let ghost tasks_mid = self.tasks;
        let ghost cats_mid = self.categories;
        let ghost nid_mid = self.next_id;
        let ghost ncat_mid = self.next_category_id;
        let ghost tags1 = self.tags.deep_view();
        let ghost ntag1 = self.next_tag_id as int;
        let ghost pdv = pieces.deep_view();
        if has_new_tags {
            let mut k: usize = 0;
            proof {
                assert(pdv.subrange(0, 0) =~= Seq::<Seq<char>>::empty());
            }
            while k < pieces.len()
                invariant
                    k <= pieces.len(),
                    pdv == pieces.deep_view(),
                    ntag1 + pdv.len() <= ID_LIMIT as int,
                    self.tags.deep_view() == register_all_rows(
                        tags1,
                        pdv.subrange(0, k as int),
                        ntag1,
                    ),
                    self.next_tag_id as int == register_all_next(
                        tags1,
                        pdv.subrange(0, k as int),
                        ntag1,
                    ),
                    self.next_tag_id as int <= ntag1 + k,
                    table_wf(self.tags.deep_view(), self.next_tag_id as int),
                    self.tasks == tasks_mid,
                    self.categories == cats_mid,
                    self.next_id == nid_mid,
                    self.next_category_id == ncat_mid,
                decreases pieces.len() - k,
            {
                register(&mut self.tags, &mut self.next_tag_id, pieces[k].as_str());
                proof {
                    assert(pdv.subrange(0, k as int + 1).drop_last() =~= pdv.subrange(
                        0,
                        k as int,
                    ));
                    assert(pdv.subrange(0, k as int + 1).last() == pdv[k as int]);
                }
                k = k + 1;
            }
            proof {
                assert(pdv.subrange(0, pieces.len() as int) =~= pdv);
            }
        }
        Ok(())
    }
}

/// One row of the task table as bulk import and export carry it: the
/// category and tag links live in their own tables and do not travel.
#[derive(Debug)]
pub struct TaskRow {
    pub id: i32,
    pub name: String,
    pub done: bool,
    pub due_date: Option<Date>,
    pub completion_date: Option<Date>,
    pub priority: i32,
}

/// The mathematical value of a task row.
pub ghost struct TaskRowView {
    pub id: int,
    pub name: Seq<char>,
    pub done: bool,
    pub due_date: Option<Date>,
    pub completion_date: Option<Date>,
    pub priority: int,
}

impl View for TaskRow {
    type V = TaskRowView;

    open spec fn view(&self) -> TaskRowView {
        TaskRowView {
            id: self.id as int,
            name: self.name@,
            done: self.done,
            due_date: self.due_date,
            completion_date: self.completion_date,
            priority: self.priority as int,
        }
    }
}

impl DeepView for TaskRow {
    type V = TaskRowView;

    open spec fn deep_view(&self) -> TaskRowView {
        self.view()
    }
}

impl Clone for TaskRow {
    fn clone(&self) -> (r: TaskRow)
        ensures
            r@ == self@,
    {
        TaskRow {
            id: self.id,
            name: self.name.clone(),
            done: self.done,
            due_date: self.due_date,
            completion_date: self.completion_date,
            priority: self.priority,
        }
    }
}

/// The row a stored task exports to.
pub open spec fn row_of_task(t: TaskView) -> TaskRowView {
    TaskRowView {
        id: t.id,
        name: t.name,
        done: t.done,
        due_date: t.due_date,
        completion_date: t.completion_date,
        priority: t.priority,
    }
}

/// The task an imported row becomes under the given id: no category
/// and no tags, since the links do not travel.
pub open spec fn task_of_row(r: TaskRowView, id: int) -> TaskView {
    TaskView {
        id,
        name: r.name,
        category: None,
        tags: Seq::empty(),
        done: r.done,
        due_date: r.due_date,
        completion_date: r.completion_date,
        priority: r.priority,
    }
}

/// A stored task with its row fields replaced by an incoming row; the
/// category and tag links stay.
pub open spec fn merge_row(t: TaskView, r: TaskRowView) -> TaskView {
    TaskView {
        id: t.id,
        name: r.name,
        category: t.category,
        tags: t.tags,
        done: r.done,
        due_date: r.due_date,
        completion_date: r.completion_date,
        priority: r.priority,
    }
}

/// The task table after a skip-import: each incoming row in order,
/// dropped when its id is already taken.
pub open spec fn spec_import_skip(tasks: Seq<TaskView>, rows: Seq<TaskRowView>) -> Seq<TaskView>
    decreases rows.len(),
{
    if rows.len() == 0 {
        tasks
    } else {
        let prev = spec_import_skip(tasks, rows.drop_last());
        let r = rows.last();
        if has_task_id(prev, r.id) {
            prev
        } else {
            prev.push(task_of_row(r, r.id))
        }
    }
}

/// The next free id after a skip-import.
pub open spec fn spec_import_skip_next(
    tasks: Seq<TaskView>,
    rows: Seq<TaskRowView>,
    next: int,
) -> int
    decreases rows.len(),
{
    if rows.len() == 0 {
        next
    } else {
        let prev = spec_import_skip(tasks, rows.drop_last());
        let prev_next = spec_import_skip_next(tasks, rows.drop_last(), next);
        let r = rows.last();
        if has_task_id(prev, r.id) {
            prev_next
        } else if r.id + 1 > prev_next {
            r.id + 1
        } else {
            prev_next
        }
    }
}

/// The task table after an upsert-import: each incoming row in order,
/// replacing the row fields of the task with its id when that id is
/// taken.
pub open spec fn spec_import_upsert(tasks: Seq<TaskView>, rows: Seq<TaskRowView>) -> Seq<TaskView>
    decreases rows.len(),
{
    if rows.len() == 0 {
        tasks
    } else {
        let prev = spec_import_upsert(tasks, rows.drop_last());
        let r = rows.last();
        if has_task_id(prev, r.id) {
            prev.map_values(
                |t: TaskView|
                    if t.id == r.id {
                        merge_row(t, r)
                    } else {
                        t
                    },
            )
        } else {
            prev.push(task_of_row(r, r.id))
        }
    }
}

/// The next free id after an upsert-import.
pub open spec fn spec_import_upsert_next(
    tasks: Seq<TaskView>,
    rows: Seq<TaskRowView>,
    next: int,
) -> int
    decreases rows.len(),
{
    if rows.len() == 0 {
        next
    } else {
        let prev = spec_import_upsert(tasks, rows.drop_last());
        let prev_next = spec_import_upsert_next(tasks, rows.drop_last(), next);
        let r = rows.last();
        if has_task_id(prev, r.id) {
            prev_next
        } else if r.id + 1 > prev_next {
            r.id + 1
        } else {
            prev_next
        }
    }
}

/// The task table after a remove-import: every incoming row appended
/// in order under a fresh id.
pub open spec fn spec_import_remove(
    tasks: Seq<TaskView>,
    rows: Seq<TaskRowView>,
    next: int,
) -> Seq<TaskView>
    decreases rows.len(),
{
    if rows.len() == 0 {
        tasks
    } else {
        spec_import_remove(tasks, rows.drop_last(), next).push(
            task_of_row(rows.last(), next + rows.len() - 1),
        )
    }
}

/// Builds the stored task an imported row becomes.
fn task_from_row(row: &TaskRow, id: i32) -> (t: Task)
    ensures
        t@ == task_of_row(row@, id as int),
{
    let t = Task {
        id,
        name: row.name.clone(),
        category: None,
        tags: Vec::new(),
        done: row.done,
        due_date: row.due_date,
        completion_date: row.completion_date,
        priority: row.priority,
    };
    proof {
        assert(t.tags.deep_view() =~= Seq::<Seq<char>>::empty());
    }
    t
}

impl Database {
    /// Loads rows under the given conflict policy. `Skip` keeps every
    /// existing row; `Upsert` replaces the row fields of clashing
    /// ids; `Remove` appends everything under fresh ids and is the
    /// only policy that can exhaust the id space. The category and
    /// tag tables never change.
    pub fn import_rows(&mut self, rows: Vec<TaskRow>, strategy: Strategy) -> (r: Result<
        (),
        TodoError,
    >)
        requires
            old(self).wf(),
        ensures
            final(self).wf(),
            final(self).categories == old(self).categories,
            final(self).tags == old(self).tags,
            final(self).next_category_id == old(self).next_category_id,
            final(self).next_tag_id == old(self).next_tag_id,
            strategy is Skip ==> r is Ok && final(self).tasks.deep_view() == spec_import_skip(
                old(self).tasks.deep_view(),
                rows.deep_view(),
            ) && final(self).next_id as int == spec_import_skip_next(
                old(self).tasks.deep_view(),
                rows.deep_view(),
                old(self).next_id as int,
            ),
            strategy is Upsert ==> r is Ok && final(self).tasks.deep_view() == spec_import_upsert(
                old(self).tasks.deep_view(),
                rows.deep_view(),
            ) && final(self).next_id as int == spec_import_upsert_next(
                old(self).tasks.deep_view(),
                rows.deep_view(),
                old(self).next_id as int,
            ),
            strategy is Remove ==> (r is Ok <==> old(self).next_id as int + rows.deep_view().len()
                <= ID_LIMIT as int),
            strategy is Remove && r is Ok ==> final(self).tasks.deep_view() == spec_import_remove(
                old(self).tasks.deep_view(),
                rows.deep_view(),
                old(self).next_id as int,
            ) && final(self).next_id as int == old(self).next_id as int + rows.deep_view().len(),
            r is Err ==> *final(self) == *old(self),
            r is Err ==> (r->Err_0 matches TodoError::Custom(m) && m@ == "id space exhausted"@),
    {
        let ghost odv = old(self).tasks.deep_view();
        let ghost onext = old(self).next_id as int;
        let ghost rdv = rows.deep_view();
        let ghost cats_mid = self.categories;
        let ghost tags_mid = self.tags;
        let ghost ncat_mid = self.next_category_id;
        let ghost ntag_mid = self.next_tag_id;
        match strategy {
            Strategy::Skip => {
                let mut i: usize = 0;
                proof {
                    assert(rdv.subrange(0, 0) =~= Seq::<TaskRowView>::empty());
                }
                while i < rows.len()
                    invariant
                        i <= rows.len(),
                        rdv == rows.deep_view(),
                        self.tasks.deep_view() == spec_import_skip(odv, rdv.subrange(0, i as int)),
                        self.next_id as int == spec_import_skip_next(
                            odv,
                            rdv.subrange(0, i as int),
                            onext,
                        ),
                        1 <= self.next_id as int <= ID_LIMIT as int,
                        forall|k: int|
                            0 <= k < self.tasks.deep_view().len() ==> (
                            #[trigger] self.tasks.deep_view()[k]).id < self.next_id as int,
                        task_ids_unique(self.tasks.deep_view()),
                        self.categories == cats_mid,
                        self.tags == tags_mid,
                        self.next_category_id == ncat_mid,
                        self.next_tag_id == ntag_mid,
                    decreases rows.len() - i,
                {
                    let ghost pre = self.tasks.deep_view();
                    proof {
                        assert(rdv.subrange(0, i as int + 1).drop_last() =~= rdv.subrange(
                            0,
                            i as int,
                        ));
                        assert(rdv.subrange(0, i as int + 1).last() == rdv[i as int]);
                    }
                    match find_task_index(&self.tasks, rows[i].id) {
                        Some(_) => {
                        },
                        None => {
                            let t = task_from_row(&rows[i], rows[i].id);
                            self.tasks.push(t);
                            if (rows[i].id as i64) + 1 > self.next_id {
                                self.next_id = rows[i].id as i64 + 1;
                            }
                            proof {
                                assert(self.tasks.deep_view() =~= pre.push(
                                    task_of_row(rdv[i as int], rdv[i as int].id),
                                ));
                            }
                        },
                    }
                    i = i + 1;
                }
                proof {
                    assert(rdv.subrange(0, rows.len() as int) =~= rdv);
                }
                Ok(())
            },
            Strategy::Upsert => {
                let mut i: usize = 0;
                proof {
                    assert(rdv.subrange(0, 0) =~= Seq::<TaskRowView>::empty());
                }
                while i < rows.len()
                    invariant
                        i <= rows.len(),
                        rdv == rows.deep_view(),
                        self.tasks.deep_view() == spec_import_upsert(
                            odv,
                            rdv.subrange(0, i as int),
                        ),
                        self.next_id as int == spec_import_upsert_next(
                            odv,
                            rdv.subrange(0, i as int),
                            onext,
                        ),
                        1 <= self.next_id as int <= ID_LIMIT as int,
                        forall|k: int|
                            0 <= k < self.tasks.deep_view().len() ==> (
                            #[trigger] self.tasks.deep_view()[k]).id < self.next_id as int,
                        task_ids_unique(self.tasks.deep_view()),
                        self.categories == cats_mid,
                        self.tags == tags_mid,
                        self.next_category_id == ncat_mid,
                        self.next_tag_id == ntag_mid,
                    decreases rows.len() - i,
                {
                    let ghost pre = self.tasks.deep_view();
                    proof {
                        assert(rdv.subrange(0, i as int + 1).drop_last() =~= rdv.subrange(
                            0,
                            i as int,
                        ));
                        assert(rdv.subrange(0, i as int + 1).last() == rdv[i as int]);
                    }
                    match find_task_index(&self.tasks, rows[i].id) {
                        Some(ix) => {
                            let old_t = &self.tasks[ix];
                            let category_copy = match &old_t.category {
                                Some(c) => Some(c.clone()),
                                None => None,
                            };
                            let merged = Task {
                                id: old_t.id,
                                name: rows[i].name.clone(),
                                category: category_copy,
                                tags: clone_string_vec(&old_t.tags),
                                done: rows[i].done,
                                due_date: rows[i].due_date,
                                completion_date: rows[i].completion_date,
                                priority: rows[i].priority,
                            };
                            proof {
                                assert(merged@ == merge_row(pre[ix as int], rdv[i as int]));
                            }
                            let _ = self.tasks.remove(ix);
                            self.tasks.insert(ix, merged);
                            proof {
                                let mapped = pre.map_values(
                                    |t: TaskView|
                                        if t.id == rdv[i as int].id {
                                            merge_row(t, rdv[i as int])
                                        } else {
                                            t
                                        },
                                );
                                assert(self.tasks.deep_view() =~= mapped);
                            }
                        },
                        None => {
                            let t = task_from_row(&rows[i], rows[i].id);
                            self.tasks.push(t);
                            if (rows[i].id as i64) + 1 > self.next_id {
                                self.next_id = rows[i].id as i64 + 1;
                            }
                            proof {
                                assert(self.tasks.deep_view() =~= pre.push(
                                    task_of_row(rdv[i as int], rdv[i as int].id),
                                ));
                            }
                        },
                    }
                    i = i + 1;
                }
                proof {
                    assert(rdv.subrange(0, rows.len() as int) =~= rdv);
                }
                Ok(())
            },
            Strategy::Remove => {
                if rows.len() as u64 >= 0x8000_0000u64 {
                    return Err(TodoError::Custom("id space exhausted".to_owned()));
                }
                let rlen = rows.len() as i64;
                if self.next_id > ID_LIMIT - rlen {
                    return Err(TodoError::Custom("id space exhausted".to_owned()));
                }
                let mut i: usize = 0;
                proof {
                    assert(rdv.subrange(0, 0) =~= Seq::<TaskRowView>::empty());
                }
                while i < rows.len()
                    invariant
                        i <= rows.len(),
                        rdv == rows.deep_view(),
                        1 <= onext,
                        onext + rdv.len() <= ID_LIMIT as int,
                        self.tasks.deep_view() == spec_import_remove(
                            odv,
                            rdv.subrange(0, i as int),
                            onext,
                        ),
                        self.next_id as int == onext + i,
                        forall|k: int|
                            0 <= k < self.tasks.deep_view().len() ==> (
                            #[trigger] self.tasks.deep_view()[k]).id < self.next_id as int,
                        task_ids_unique(self.tasks.deep_view()),
                        self.categories == cats_mid,
                        self.tags == tags_mid,
                        self.next_category_id == ncat_mid,
                        self.next_tag_id == ntag_mid,
                    decreases rows.len() - i,
                {
                    let ghost pre = self.tasks.deep_view();
                    proof {
                        assert(rdv.subrange(0, i as int + 1).drop_last() =~= rdv.subrange(
                            0,
                            i as int,
                        ));
                        assert(rdv.subrange(0, i as int + 1).last() == rdv[i as int]);
                    }
                    proof {
                        assert(onext + i < ID_LIMIT as int);
                    }
                    let fresh = self.next_id as i32;
                    let t = task_from_row(&rows[i], fresh);
                    proof {
                        assert(fresh as int == onext + i);
                        assert(t@ == task_of_row(rdv[i as int], onext + i));
                    }
                    self.tasks.push(t);
                    self.next_id = self.next_id + 1;
                    proof {
                        assert(self.tasks.deep_view() =~= pre.push(
                            task_of_row(rdv[i as int], onext + i),
                        ));
                        assert(rdv.subrange(0, i as int + 1).len() == i + 1);
                    }
                    i = i + 1;
                }
                proof {
                    assert(rdv.subrange(0, rows.len() as int) =~= rdv);
                }
                Ok(())
            },
        }
    }

    /// The rows that a bulk export writes, one per task, in table
    /// order.
    pub fn export_rows(&self) -> (r: Vec<TaskRow>)
        ensures
            r.deep_view() == self.tasks.deep_view().map_values(|t: TaskView| row_of_task(t)),
    {
        let ghost dv = self.tasks.deep_view();
        let mut out: Vec<TaskRow> = Vec::new();
        let mut i: usize = 0;
        while i < self.tasks.len()
            invariant
                i <= self.tasks.len(),
                dv == self.tasks.deep_view(),
                out.deep_view() =~= dv.subrange(0, i as int).map_values(
                    |t: TaskView| row_of_task(t),
                ),
            decreases self.tasks.len() - i,
        {
            let t = &self.tasks[i];
            let row = TaskRow {
                id: t.id,
                name: t.name.clone(),
                done: t.done,
                due_date: t.due_date,
                completion_date: t.completion_date,
                priority: t.priority,
            };
            let ghost old_out = out.deep_view();
            proof {
                assert(row@ == row_of_task(dv[i as int]));
            }
            out.push(row);
            proof {
                let f = |t: TaskView| row_of_task(t);
                assert(out.deep_view() =~= old_out.push(row_of_task(dv[i as int])));
                assert(dv.subrange(0, i as int + 1).map_values(f) =~= dv.subrange(
                    0,
                    i as int,
                ).map_values(f).push(row_of_task(dv[i as int])));
            }
            i = i + 1;
        }
        proof {
            assert(dv.subrange(0, self.tasks.len() as int) =~= dv);
        }
        out
    }
}

// ---------------------------------------------------------------------
// Laws of the store, stated over the same spec functions the
// operations' contracts use.
// ---------------------------------------------------------------------

/// Adding a task and then listing shows the added task last, with the
/// name, category, tags, due date and priority that were given, not
/// yet done.
pub proof fn lemma_add_then_list(db: Database, db2: Database, t: TaskView)
    requires
        db.wf(),
        spec_add_ok(db, t),
        db2.tasks.deep_view() == db.tasks.deep_view().push(
            spec_added_task(t, db.next_id as int),
        ),
    ensures
        spec_list(db2.tasks.deep_view(), None).len() == db.tasks.deep_view().len() + 1,
        spec_list(db2.tasks.deep_view(), None).last().name == t.name,
        spec_list(db2.tasks.deep_view(), None).last().category == t.category,
        spec_list(db2.tasks.deep_view(), None).last().tags == t.tags,
        spec_list(db2.tasks.deep_view(), None).last().due_date == t.due_date,
        spec_list(db2.tasks.deep_view(), None).last().priority == t.priority,
        !spec_list(db2.tasks.deep_view(), None).last().done,
{
}

/// Marking a task done sets its done flag and completion date and
/// changes nothing else of it; every other task is untouched.
pub proof fn lemma_mark_done_effect(tasks: Seq<TaskView>, id: int, today: Date, i: int)
    requires
        0 <= i < tasks.len(),
    ensures
        spec_mark_done(tasks, id, today).len() == tasks.len(),
        tasks[i].id == id ==> spec_mark_done(tasks, id, today)[i] == spec_done_task(
            tasks[i],
            today,
        ) && spec_mark_done(tasks, id, today)[i].done && spec_mark_done(tasks, id, today)[
            i
        ].completion_date == Some(today),
        tasks[i].id != id ==> spec_mark_done(tasks, id, today)[i] == tasks[i],
{
}

/// Marking a task undone clears both the done flag and the completion
/// date.
pub proof fn lemma_mark_undone_effect(tasks: Seq<TaskView>, id: int, u: UpdateView, i: int)
    requires
        0 <= i < tasks.len(),
        tasks[i].id == id,
        u.undone,
    ensures
        !spec_update(tasks, id, u)[i].done,
        spec_update(tasks, id, u)[i].completion_date is None,
{
}

/// A partial update replaces exactly the given fields: every absent
/// field keeps its value, the id never changes, and every other task
/// is untouched.
pub proof fn lemma_update_preserves_untouched(tasks: Seq<TaskView>, id: int, u: UpdateView, i: int)
    requires
        0 <= i < tasks.len(),
    ensures
        spec_update(tasks, id, u).len() == tasks.len(),
        tasks[i].id != id ==> spec_update(tasks, id, u)[i] == tasks[i],
        spec_update(tasks, id, u)[i].id == tasks[i].id,
        u.name is None ==> spec_update(tasks, id, u)[i].name == tasks[i].name,
        u.due is None ==> spec_update(tasks, id, u)[i].due_date == tasks[i].due_date,
        u.priority is None ==> spec_update(tasks, id, u)[i].priority == tasks[i].priority,
        u.category is None ==> spec_update(tasks, id, u)[i].category == tasks[i].category,
        u.tags is None ==> spec_update(tasks, id, u)[i].tags == tasks[i].tags,
        !u.undone ==> spec_update(tasks, id, u)[i].done == tasks[i].done && spec_update(
            tasks,
            id,
            u,
        )[i].completion_date == tasks[i].completion_date,
{
}

/// A skip-import never touches an existing row: it only appends.
pub proof fn lemma_import_skip_keeps_existing(tasks: Seq<TaskView>, rows: Seq<TaskRowView>)
    ensures
        spec_import_skip(tasks, rows).len() >= tasks.len(),
        forall|i: int|
            0 <= i < tasks.len() ==> #[trigger] spec_import_skip(tasks, rows)[i] == tasks[i],
    decreases rows.len(),
{
    if rows.len() > 0 {
        lemma_import_skip_keeps_existing(tasks, rows.drop_last());
    }
}

/// Which ids a skip-import leaves in the table: the old ones and the
/// incoming ones.
proof fn lemma_import_skip_ids(tasks: Seq<TaskView>, rows: Seq<TaskRowView>)
    ensures
        forall|id: int|
            #[trigger] has_task_id(spec_import_skip(tasks, rows), id) <==> (has_task_id(tasks, id)
                || exists|i: int| 0 <= i < rows.len() && (#[trigger] rows[i]).id == id),
    decreases rows.len(),
{
    if rows.len() > 0 {
        lemma_import_skip_ids(tasks, rows.drop_last());
        let prev = spec_import_skip(tasks, rows.drop_last());
        let r = rows.last();
        let out = spec_import_skip(tasks, rows);
        assert forall|id: int| #[trigger] has_task_id(out, id) implies (has_task_id(tasks, id)
            || exists|i: int| 0 <= i < rows.len() && (#[trigger] rows[i]).id == id) by {
            let w = choose|w: int| 0 <= w < out.len() && (#[trigger] out[w]).id == id;
            if has_task_id(prev, r.id) {
                assert(out == prev);
                assert(prev[w].id == id);
                assert(has_task_id(prev, id));
            } else {
                if w < prev.len() {
                    assert(out[w] == prev[w]);
                    assert(prev[w].id == id);
                    assert(has_task_id(prev, id));
                } else {
                    assert(out[w] == task_of_row(r, r.id));
                    assert(rows[rows.len() - 1].id == id);
                }
            }
        }
        assert forall|id: int| (has_task_id(tasks, id) || exists|i: int|
            0 <= i < rows.len() && (#[trigger] rows[i]).id == id) implies #[trigger] has_task_id(
            out,
            id,
        ) by {
            if has_task_id(tasks, id) || exists|i: int|
                0 <= i < rows.len() - 1 && (#[trigger] rows[i]).id == id {
                if !has_task_id(tasks, id) {
                    let i0 = choose|i0: int|
                        0 <= i0 < rows.len() - 1 && (#[trigger] rows[i0]).id == id;
                    assert(rows.drop_last()[i0] == rows[i0]);
                    assert(rows.drop_last()[i0].id == id);
                }
                assert(has_task_id(prev, id));
                let w = choose|w: int| 0 <= w < prev.len() && (#[trigger] prev[w]).id == id;
                if has_task_id(prev, r.id) {
                    assert(out[w].id == id);
                } else {
                    assert(out[w].id == id);
                }
            } else {
                let i = choose|i: int| 0 <= i < rows.len() && (#[trigger] rows[i]).id == id;
                assert(i == rows.len() - 1);
                if has_task_id(prev, r.id) {
                    assert(has_task_id(prev, id));
                    let w = choose|w: int| 0 <= w < prev.len() && (#[trigger] prev[w]).id == id;
                    assert(out[w].id == id);
                } else {
                    assert(out[out.len() - 1].id == id);
                }
            }
        }
    }
}

/// A skip-import whose incoming ids are fresh and distinct appends
/// every row, in order, under its own id.
proof fn lemma_import_skip_all_new(tasks: Seq<TaskView>, rows: Seq<TaskRowView>)
    requires
        forall|i: int, j: int| 0 <= i < j < rows.len() ==> rows[i].id != rows[j].id,
        forall|i: int| 0 <= i < rows.len() ==> !has_task_id(tasks, (#[trigger] rows[i]).id),
    ensures
        spec_import_skip(tasks, rows).len() == tasks.len() + rows.len(),
        forall|i: int|
            0 <= i < rows.len() ==> #[trigger] spec_import_skip(tasks, rows)[tasks.len() + i]
                == task_of_row(rows[i], rows[i].id),
    decreases rows.len(),
{
    if rows.len() > 0 {
        lemma_import_skip_all_new(tasks, rows.drop_last());
        lemma_import_skip_ids(tasks, rows.drop_last());
        let prev = spec_import_skip(tasks, rows.drop_last());
        let r = rows.last();
        assert(!has_task_id(tasks, r.id));
        assert(!(exists|i: int|
            0 <= i < rows.drop_last().len() && (#[trigger] rows.drop_last()[i]).id == r.id));
        assert(!has_task_id(prev, r.id));
    }
}

/// An upsert-import of one row whose id is taken replaces exactly the
/// row fields of that task — name, done flag, dates and priority —
/// and keeps its category, its tags, and every other task.
pub proof fn lemma_import_upsert_replaces(tasks: Seq<TaskView>, row: TaskRowView, i: int)
    requires
        task_ids_unique(tasks),
        0 <= i < tasks.len(),
        tasks[i].id == row.id,
    ensures
        spec_import_upsert(tasks, seq![row]).len() == tasks.len(),
        spec_import_upsert(tasks, seq![row])[i] == merge_row(tasks[i], row),
        forall|j: int|
            0 <= j < tasks.len() && j != i ==> #[trigger] spec_import_upsert(tasks, seq![row])[j]
                == tasks[j],
{
    let rows = seq![row];
    assert(rows.drop_last() =~= Seq::<TaskRowView>::empty());
    assert(spec_import_upsert(tasks, rows.drop_last()) == tasks);
    assert(has_task_id(tasks, row.id));
}

/// Exporting every task and importing the rows into an empty store
/// under the skip policy reproduces the task rows exactly, ids
/// included; only the category and tag links, which rows do not
/// carry, are shed.
pub proof fn lemma_export_import_round_trip(db: Database)
    requires
        db.wf(),
    ensures
        spec_import_skip(
            Seq::<TaskView>::empty(),
            db.tasks.deep_view().map_values(|t: TaskView| row_of_task(t)),
        ).len() == db.tasks.deep_view().len(),
        forall|i: int|
            0 <= i < db.tasks.deep_view().len() ==> row_of_task(
                spec_import_skip(
                    Seq::<TaskView>::empty(),
                    db.tasks.deep_view().map_values(|t: TaskView| row_of_task(t)),
                )[i],
            ) == row_of_task(#[trigger] db.tasks.deep_view()[i]),
{
    let dv = db.tasks.deep_view();
    let rows = dv.map_values(|t: TaskView| row_of_task(t));
    assert forall|i: int, j: int| 0 <= i < j < rows.len() implies rows[i].id != rows[j].id by {
        assert(rows[i] == row_of_task(dv[i]));
        assert(rows[j] == row_of_task(dv[j]));
    }
    assert(forall|i: int|
        0 <= i < rows.len() ==> !has_task_id(Seq::<TaskView>::empty(), (#[trigger] rows[i]).id));
    lemma_import_skip_all_new(Seq::<TaskView>::empty(), rows);
    let imported = spec_import_skip(Seq::<TaskView>::empty(), rows);
    assert forall|i: int| 0 <= i < dv.len() implies row_of_task(imported[i]) == row_of_task(
        #[trigger] dv[i],
    ) by {
        assert(imported[Seq::<TaskView>::empty().len() + i] == task_of_row(rows[i], rows[i].id));
        assert(rows[i] == row_of_task(dv[i]));
    }
}

/// A remove-import appends every row in order under fresh sequential
/// ids; the row fields other than the id are kept as they came.
pub proof fn lemma_import_remove_appends(
    tasks: Seq<TaskView>,
    rows: Seq<TaskRowView>,
    next: int,
)
    ensures
        spec_import_remove(tasks, rows, next).len() == tasks.len() + rows.len(),
        forall|i: int|
            0 <= i < tasks.len() ==> #[trigger] spec_import_remove(tasks, rows, next)[i]
                == tasks[i],
        forall|i: int|
            0 <= i < rows.len() ==> #[trigger] spec_import_remove(tasks, rows, next)[tasks.len()
                + i] == task_of_row(rows[i], next + i),
    decreases rows.len(),
{
    if rows.len() > 0 {
        lemma_import_remove_appends(tasks, rows.drop_last(), next);
    }
}

} // verus!
