//! The cell text of the tables the command line prints. Laying the
//! cells out and printing them is left to the front end; every string
//! shown is computed here.

use vstd::prelude::*;
use crate::date::{Date, spec_format_date, format_date};
use crate::task::{Task, TaskView};
use crate::text::{spec_i32_str, i32_to_string, spec_join_cs, join_comma_space, bool_to_string};

verus! {

/// A date as shown: its text form, or nothing.
pub open spec fn spec_opt_date_text(d: Option<Date>) -> Seq<char> {
    match d {
        Some(x) => spec_format_date(x),
        None => Seq::empty(),
    }
}

/// Both dates of a task, where present, fit the text form.
pub open spec fn task_dates_wf(t: TaskView) -> bool {
    &&& (t.due_date matches Some(d) ==> d.wf())
    &&& (t.completion_date matches Some(d) ==> d.wf())
}

/// The column headers of the task table.
pub open spec fn spec_task_headers(show_completion_date: bool) -> Seq<Seq<char>> {
    let base = seq!["ID"@, "Name"@, "Category"@, "Tags"@, "Due Date"@, "Done"@, "Priority"@];
    if show_completion_date {
        base.push("Completion Date"@)
    } else {
        base
    }
}

/// The cells of one task's row: id, name, category or nothing, the
/// tags joined with a comma, the due date, the done flag, the
/// priority, and the completion date when asked.
pub open spec fn spec_task_cells(t: TaskView, show_completion_date: bool) -> Seq<Seq<char>> {
    let base = seq![
        spec_i32_str(t.id),
        t.name,
        (match t.category {
            Some(c) => c,
            None => Seq::<char>::empty(),
        }),
        spec_join_cs(t.tags),
        spec_opt_date_text(t.due_date),
        (if t.done {
            "true"@
        } else {
            "false"@
        }),
        spec_i32_str(t.priority),
    ];
    if show_completion_date {
        base.push(spec_opt_date_text(t.completion_date))
    } else {
        base
    }
}

fn opt_date_text(d: &Option<Date>) -> (r: String)
    requires
        *d matches Some(x) ==> x.wf(),
    ensures
        r@ == spec_opt_date_text(*d),
{
    match d {
        Some(x) => format_date(x),
        None => String::new(),
    }
}

fn task_cells(t: &Task, show_completion_date: bool) -> (r: Vec<String>)
    requires
        task_dates_wf(t@),
    ensures
        r.deep_view() == spec_task_cells(t@, show_completion_date),
{
    let mut r: Vec<String> = Vec::new();
    r.push(i32_to_string(t.id));
    r.push(t.name.clone());
    let category = match &t.category {
        Some(c) => c.clone(),
        None => String::new(),
    };
    r.push(category);
    r.push(join_comma_space(&t.tags));
    r.push(opt_date_text(&t.due_date));
    r.push(bool_to_string(t.done));
    r.push(i32_to_string(t.priority));
    if show_completion_date {
        r.push(opt_date_text(&t.completion_date));
    }
    proof {
        assert(r.deep_view() =~= spec_task_cells(t@, show_completion_date));
    }
    r
}

pub struct Display;

impl Display {
    /// The task table as rows of cells: a header row, then one row
    /// per task in order.
    pub fn show_tasks(tasks: &Vec<Task>, show_completion_date: bool) -> (r: Vec<Vec<String>>)
        requires
            forall|i: int|
                0 <= i < tasks.deep_view().len() ==> task_dates_wf(
                    #[trigger] tasks.deep_view()[i],
                ),
        ensures
            r.deep_view().len() == tasks.deep_view().len() + 1,
            r.deep_view()[0] == spec_task_headers(show_completion_date),
            forall|i: int|
                0 <= i < tasks.deep_view().len() ==> r.deep_view()[i + 1] == spec_task_cells(
                    #[trigger] tasks.deep_view()[i],
                    show_completion_date,
                ),
    {
        let mut headers: Vec<String> = Vec::new();
        headers.push("ID".to_owned());
        headers.push("Name".to_owned());
        headers.push("Category".to_owned());
        headers.push("Tags".to_owned());
        headers.push("Due Date".to_owned());
        headers.push("Done".to_owned());
        headers.push("Priority".to_owned());
        if show_completion_date {
            headers.push("Completion Date".to_owned());
        }
        proof {
            assert(headers.deep_view() =~= spec_task_headers(show_completion_date));
        }
        let mut r: Vec<Vec<String>> = Vec::new();
        r.push(headers);
        let mut i: usize = 0;
        while i < tasks.len()
            invariant
                i <= tasks.len(),
                forall|j: int|
                    0 <= j < tasks.deep_view().len() ==> task_dates_wf(
                        #[trigger] tasks.deep_view()[j],
                    ),
                r.deep_view().len() == i + 1,
                r.deep_view()[0] == spec_task_headers(show_completion_date),
                forall|j: int|
                    0 <= j < i ==> r.deep_view()[j + 1] == spec_task_cells(
                        #[trigger] tasks.deep_view()[j],
                        show_completion_date,
                    ),
            decreases tasks.len() - i,
        {
            let ghost old_r = r.deep_view();
            proof {
                assert(task_dates_wf(tasks.deep_view()[i as int]));
            }
            let cells = task_cells(&tasks[i], show_completion_date);
            r.push(cells);
            proof {
                assert(r.deep_view() =~= old_r.push(
                    spec_task_cells(tasks.deep_view()[i as int], show_completion_date),
                ));
            }
            i = i + 1;
        }
        r
    }

    /// The category table: a header row, then one row per name.
    pub fn show_categories(categories: &Vec<String>) -> (r: Vec<Vec<String>>)
        ensures
            r.deep_view().len() == categories.deep_view().len() + 1,
            r.deep_view()[0] == seq!["Category"@],
            forall|i: int|
                0 <= i < categories.deep_view().len() ==> r.deep_view()[i + 1] == seq![
                    #[trigger] categories.deep_view()[i],
                ],
    {
        let mut header: Vec<String> = Vec::new();
        header.push("Category".to_owned());
        proof {
            assert(header.deep_view() =~= seq!["Category"@]);
        }
        let mut r: Vec<Vec<String>> = Vec::new();
        r.push(header);
        let mut i: usize = 0;
        while i < categories.len()
            invariant
                i <= categories.len(),
                r.deep_view().len() == i + 1,
                r.deep_view()[0] == seq!["Category"@],
                forall|j: int|
                    0 <= j < i ==> r.deep_view()[j + 1] == seq![
                        #[trigger] categories.deep_view()[j],
                    ],
            decreases categories.len() - i,
        {
            let ghost old_r = r.deep_view();
            let mut row: Vec<String> = Vec::new();
            row.push(categories[i].clone());
            proof {
                assert(row.deep_view() =~= seq![categories.deep_view()[i as int]]);
            }
            r.push(row);
            proof {
                assert(r.deep_view() =~= old_r.push(seq![categories.deep_view()[i as int]]));
            }
            i = i + 1;
        }
        r
    }

    /// The tag table: a header row, then one row per name.
    pub fn show_tags(tags: &Vec<String>) -> (r: Vec<Vec<String>>)
        ensures
            r.deep_view().len() == tags.deep_view().len() + 1,
            r.deep_view()[0] == seq!["Tag"@],
            forall|i: int|
                0 <= i < tags.deep_view().len() ==> r.deep_view()[i + 1] == seq![
                    #[trigger] tags.deep_view()[i],
                ],
    {
        let mut header: Vec<String> = Vec::new();
        header.push("Tag".to_owned());
        proof {
            assert(header.deep_view() =~= seq!["Tag"@]);
        }
        let mut r: Vec<Vec<String>> = Vec::new();
        r.push(header);
        let mut i: usize = 0;
        while i < tags.len()
            invariant
                i <= tags.len(),
                r.deep_view().len() == i + 1,
                r.deep_view()[0] == seq!["Tag"@],
                forall|j: int|
                    0 <= j < i ==> r.deep_view()[j + 1] == seq![#[trigger] tags.deep_view()[j]],
            decreases tags.len() - i,
        {
            let ghost old_r = r.deep_view();
            let mut row: Vec<String> = Vec::new();
            row.push(tags[i].clone());
            proof {
                assert(row.deep_view() =~= seq![tags.deep_view()[i as int]]);
            }
            r.push(row);
            proof {
                assert(r.deep_view() =~= old_r.push(seq![tags.deep_view()[i as int]]));
            }
            i = i + 1;
        }
        r
    }
}

} // verus!
