//! The search command's filter: a case-sensitive substring test over
//! an already-materialized task list.

use vstd::prelude::*;
use crate::task::{Task, TaskView};
use crate::text::{contains_str, spec_contains};

verus! {

/// Does the query occur in the task's name, its category, or one of
/// its tags?
pub open spec fn spec_matches(t: TaskView, q: Seq<char>) -> bool {
    ||| spec_contains(t.name, q)
    ||| (t.category matches Some(c) && spec_contains(c, q))
    ||| exists|k: int| 0 <= k < t.tags.len() && spec_contains(#[trigger] t.tags[k], q)
}

/// Does the query occur in some tag of the list?
fn any_contains(tags: &Vec<String>, q: &str) -> (b: bool)
    ensures
        b == exists|k: int|
            0 <= k < tags.deep_view().len() && spec_contains(#[trigger] tags.deep_view()[k], q@),
{
    let mut k: usize = 0;
    while k < tags.len()
        invariant
            k <= tags.len(),
            forall|j: int| 0 <= j < k ==> !spec_contains(#[trigger] tags.deep_view()[j], q@),
        decreases tags.len() - k,
    {
        if contains_str(tags[k].as_str(), q) {
            proof {
                assert(spec_contains(tags.deep_view()[k as int], q@));
            }
            return true;
        }
        k = k + 1;
    }
    false
}

fn task_matches(t: &Task, q: &str) -> (b: bool)
    ensures
        b == spec_matches(t@, q@),
{
    if contains_str(t.name.as_str(), q) {
        return true;
    }
    let in_category = match &t.category {
        Some(c) => contains_str(c.as_str(), q),
        None => false,
    };
    if in_category {
        return true;
    }
    let b = any_contains(&t.tags, q);
    proof {
        assert(t@.tags == t.tags.deep_view());
        if b {
            let k = choose|k: int|
                0 <= k < t.tags.deep_view().len() && spec_contains(
                    #[trigger] t.tags.deep_view()[k],
                    q@,
                );
            assert(spec_contains(t@.tags[k], q@));
        }
    }
    b
}

pub struct Search;

impl Search {
    /// The tasks whose name, category or tags contain the query, in
    /// their stored order.
    pub fn find_tasks(tasks: &Vec<Task>, query: &str) -> (r: Vec<Task>)
        ensures
            r.deep_view() == tasks.deep_view().filter(|t: TaskView| spec_matches(t, query@)),
    {
        let ghost dv = tasks.deep_view();
        let ghost pred = |t: TaskView| spec_matches(t, query@);
        let mut out: Vec<Task> = Vec::new();
        let mut i: usize = 0;
        proof {
            reveal(Seq::filter);
            assert(dv.subrange(0, 0) =~= Seq::<TaskView>::empty());
            assert(out.deep_view() =~= Seq::<TaskView>::empty());
        }
        while i < tasks.len()
            invariant
                i <= tasks.len(),
                dv == tasks.deep_view(),
                out.deep_view() == dv.subrange(0, i as int).filter(pred),
                pred == (|t: TaskView| spec_matches(t, query@)),
            decreases tasks.len() - i,
        {
            let ghost old_out = out.deep_view();
            if task_matches(&tasks[i], query) {
                out.push(tasks[i].clone());
            }
            proof {
                reveal(Seq::filter);
                assert(dv.subrange(0, i as int + 1).drop_last() =~= dv.subrange(0, i as int));
                assert(dv.subrange(0, i as int + 1).last() == dv[i as int]);
                if pred(dv[i as int]) {
                    assert(out.deep_view() =~= old_out.push(dv[i as int]));
                }
            }
            i = i + 1;
        }
        proof {
            assert(dv.subrange(0, tasks.len() as int) =~= dv);
        }
        out
    }
}

} // verus!
