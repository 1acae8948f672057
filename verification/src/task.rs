//! The in-memory shape of one todo item.

use vstd::prelude::*;
use crate::date::{Date, spec_parse_date};
use crate::date::parse_date;

verus! {

/// One todo item, together with its category and tags.
#[derive(Debug)]
pub struct Task {
    pub id: i32,
    pub name: String,
    pub category: Option<String>,
    pub tags: Vec<String>,
    pub done: bool,
    pub due_date: Option<Date>,
    pub completion_date: Option<Date>,
    pub priority: i32,
}

/// The mathematical value of a task: every string as a sequence of
/// characters, every number as an unbounded integer.
pub ghost struct TaskView {
    pub id: int,
    pub name: Seq<char>,
    pub category: Option<Seq<char>>,
    pub tags: Seq<Seq<char>>,
    pub done: bool,
    pub due_date: Option<Date>,
    pub completion_date: Option<Date>,
    pub priority: int,
}

impl View for Task {
    type V = TaskView;

    open spec fn view(&self) -> TaskView {
        TaskView {
            id: self.id as int,
            name: self.name@,
            category: self.category.deep_view(),
            tags: self.tags.deep_view(),
            done: self.done,
            due_date: self.due_date,
            completion_date: self.completion_date,
            priority: self.priority as int,
        }
    }
}

impl DeepView for Task {
    type V = TaskView;

    open spec fn deep_view(&self) -> TaskView {
        self.view()
    }
}

pub fn clone_string_vec(v: &Vec<String>) -> (r: Vec<String>)
    ensures
        r@ == v@,
{
    let mut r: Vec<String> = Vec::new();
    let mut i: usize = 0;
    while i < v.len()
        invariant
            i <= v.len(),
            r@ =~= v@.subrange(0, i as int),
        decreases v.len() - i,
    {
        r.push(v[i].clone());
        assert(r@ =~= v@.subrange(0, i as int + 1));
        i = i + 1;
    }
    proof {
        assert(r@ =~= v@);
    }
    r
}

impl Clone for Task {
    fn clone(&self) -> (r: Task)
        ensures
            r@ == self@,
    {
        let category = match &self.category {
            Some(c) => Some(c.clone()),
            None => None,
        };
        let r = Task {
            id: self.id,
            name: self.name.clone(),
            category,
            tags: clone_string_vec(&self.tags),
            done: self.done,
            due_date: self.due_date,
            completion_date: self.completion_date,
            priority: self.priority,
        };
        proof {
            assert(r.tags.deep_view() =~= self.tags.deep_view());
            assert(r.category.deep_view() =~= self.category.deep_view());
        }
        r
    }
}

impl Task {
    /// A fresh, not-yet-stored task: id 0, not done, no completion
    /// date, the given category attached. The due date, when present,
    /// must be in `YYYY-MM-DD` form.
    pub fn new(
        name: &str,
        category: String,
        due_date: Option<String>,
        tags: Vec<String>,
        priority: i32,
    ) -> (t: Task)
        requires
            due_date matches Some(s) ==> spec_parse_date(s@) is Some,
        ensures
            t@.id == 0,
            t@.name == name@,
            t@.category == Some(category@),
            t@.tags == tags.deep_view(),
            !t@.done,
            t@.due_date == (match due_date {
                Some(s) => spec_parse_date(s@),
                None => None::<Date>,
            }),
            t@.completion_date is None,
            t@.priority == priority as int,
    {
        let due_date_parsed = match &due_date {
            Some(s) => parse_date(s.as_str()),
            None => None,
        };
        Task {
            id: 0,
            name: name.to_owned(),
            category: Some(category),
            tags,
            done: false,
            due_date: due_date_parsed,
            completion_date: None,
            priority,
        }
    }
}

} // verus!
