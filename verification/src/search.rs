//! The query engine's pure parts: case-insensitive keyword matching, the
//! search predicate, sorting and pagination.  Everything here works on plain
//! task values; the registry walks its storage and delegates to these.

use vstd::prelude::*;
use vstd::multiset::Multiset;
use crate::lifecycle::status_code;
use crate::task::{SearchParamsView, Task, TaskSearchParams, TaskSortBy, TaskView};

verus! {

/// ASCII lower-casing of one byte.
pub open spec fn lower(b: u8) -> u8 {
    if 65 <= b <= 90 {
        (b + 32) as u8
    } else {
        b
    }
}

/// ASCII lower-casing of a byte string.
pub open spec fn lower_seq(s: Seq<u8>) -> Seq<u8> {
    s.map_values(|b: u8| lower(b))
}

/// `needle` occurs in `hay` ignoring ASCII case.
pub open spec fn contains_ci(hay: Seq<u8>, needle: Seq<u8>) -> bool {
    exists|i: int|
        0 <= i <= hay.len() - needle.len() && #[trigger] lower_seq(hay).subrange(
            i,
            i + needle.len(),
        ) == lower_seq(needle)
}

/// The keyword filter: an empty keyword matches everything, otherwise the
/// keyword must occur in the title or in the description, ignoring case.
pub open spec fn matches_keyword(t: TaskView, keyword: Seq<u8>) -> bool {
    ||| keyword.len() == 0
    ||| contains_ci(t.title, keyword)
    ||| contains_ci(t.description, keyword)
}

/// All the filters of one search, conjoined.
pub open spec fn matches_query(t: TaskView, q: SearchParamsView) -> bool {
    &&& matches_keyword(t, q.keyword)
    &&& (match q.status {
        Some(code) => status_code(t.status) == code,
        None => true,
    })
    &&& (match q.priority {
        Some(p) => t.priority == p,
        None => true,
    })
    &&& (match q.difficulty_range {
        Some((lo, hi)) => lo <= t.difficulty && t.difficulty <= hi,
        None => true,
    })
    &&& (match q.reward_range {
        Some((lo, hi)) => lo <= t.reward && t.reward <= hi,
        None => true,
    })
    &&& (match q.creator {
        Some(a) => t.creator == a,
        None => true,
    })
    &&& (match q.assignee {
        Some(a) => t.assignee == Some(a),
        None => true,
    })
    &&& (match q.deadline_range {
        Some((lo, hi)) => t.deadline matches Some(d) && lo <= d && d <= hi,
        None => true,
    })
    &&& (match q.created_time_range {
        Some((lo, hi)) => lo <= t.created_at && t.created_at <= hi,
        None => true,
    })
    &&& (q.has_deadline ==> t.deadline is Some)
    &&& (q.unassigned_only ==> t.assignee is None)
}

/// The search predicate, as a filterable closure.
pub open spec fn query_pred(q: SearchParamsView) -> spec_fn(TaskView) -> bool {
    |t: TaskView| matches_query(t, q)
}

/// The keyword-only predicate of a quick search.
pub open spec fn keyword_pred(keyword: Seq<u8>) -> spec_fn(TaskView) -> bool {
    |t: TaskView| matches_keyword(t, keyword)
}

/// The key a task is sorted under.  A task without a deadline sorts as the
/// largest 32-bit moment.
pub open spec fn sort_key(t: TaskView, by: TaskSortBy) -> int {
    match by {
        TaskSortBy::CreatedAt => t.created_at as int,
        TaskSortBy::UpdatedAt => t.updated_at as int,
        TaskSortBy::Deadline => match t.deadline {
            Some(d) => d as int,
            None => u32::MAX as int,
        },
        TaskSortBy::Reward => t.reward as int,
        TaskSortBy::Difficulty => t.difficulty as int,
        TaskSortBy::Priority => t.priority as int,
    }
}

/// `a` may precede `b` in the result order.
pub open spec fn in_order(a: TaskView, b: TaskView, by: TaskSortBy, desc: bool) -> bool {
    if desc {
        sort_key(a, by) >= sort_key(b, by)
    } else {
        sort_key(a, by) <= sort_key(b, by)
    }
}

/// The sequence is ordered under the sort key.
pub open spec fn sorted_by(s: Seq<TaskView>, by: TaskSortBy, desc: bool) -> bool {
    forall|i: int, j: int| 0 <= i < j < s.len() ==> in_order(#[trigger] s[i], #[trigger] s[j], by, desc)
}

/// The records of a sequence of tasks.
pub open spec fn views_of(s: Seq<Task>) -> Seq<TaskView> {
    s.map_values(|t: Task| t@)
}

/// The page a search returns: `page_size` entries starting at
/// `page * page_size`, clipped to the result; entirely past the end, the
/// page is empty.
pub open spec fn page_of(s: Seq<TaskView>, page: u32, page_size: u32) -> Seq<TaskView> {
    let start = page as int * page_size as int;
    if start < s.len() {
        s.subrange(
            start,
            if start + page_size as int <= s.len() {
                start + page_size as int
            } else {
                s.len() as int
            },
        )
    } else {
        Seq::empty()
    }
}

/// Filtering a prefix one element further keeps the filtered prefix and
/// appends the element exactly when it matches.
pub proof fn lemma_filter_step<T>(s: Seq<T>, p: spec_fn(T) -> bool, i: int)
    requires
        0 <= i < s.len(),
    ensures
        s.subrange(0, i + 1).filter(p) == if p(s[i]) {
            s.subrange(0, i).filter(p).push(s[i])
        } else {
            s.subrange(0, i).filter(p)
        },
{
    reveal(Seq::filter);
    assert(s.subrange(0, i + 1).drop_last() =~= s.subrange(0, i));
    assert(s.subrange(0, i + 1).last() == s[i]);
}

/// ASCII lower-casing of one byte.
pub fn lower_byte(b: u8) -> (r: u8)
    ensures
        r == lower(b),
{
    if 65 <= b && b <= 90 {
        b + 32
    } else {
        b
    }
}

/// Whether the needle matches `hay` at offset `i`, ignoring ASCII case.
fn match_at(hay: &Vec<u8>, needle: &Vec<u8>, i: usize) -> (r: bool)
    requires
        i + needle@.len() <= hay@.len(),
    ensures
        r == (lower_seq(hay@).subrange(i as int, i + needle@.len()) == lower_seq(needle@)),
{
    let hn = hay.len();
    let nn = needle.len();
    let mut j: usize = 0;
    while j < nn
        invariant
            hn == hay@.len(),
            nn == needle@.len(),
            i + nn <= hn,
            j <= nn,
            forall|m: int| 0 <= m < j ==> lower(hay@[i + m]) == lower(#[trigger] needle@[m]),
        decreases nn - j,
    {
        if lower_byte(hay[i + j]) != lower_byte(needle[j]) {
            proof {
                let a = lower_seq(hay@).subrange(i as int, i + needle@.len());
                let b = lower_seq(needle@);
                assert(a[j as int] == lower(hay@[i + j]));
                assert(b[j as int] == lower(needle@[j as int]));
            }
            return false;
        }
        j = j + 1;
    }
    proof {
        let a = lower_seq(hay@).subrange(i as int, i + needle@.len());
        let b = lower_seq(needle@);
        assert forall|m: int| 0 <= m < nn implies a[m] == b[m] by {
            assert(lower(hay@[i + m]) == lower(needle@[m]));
        }
        assert(a =~= b);
    }
    true
}

/// Whether `needle` occurs in `hay`, ignoring ASCII case.
pub fn find_ci(hay: &Vec<u8>, needle: &Vec<u8>) -> (r: bool)
    ensures
        r == contains_ci(hay@, needle@),
{
    let hn = hay.len();
    let nn = needle.len();
    if nn > hn {
        return false;
    }
    if nn == 0 {
        proof {
            assert(lower_seq(hay@).subrange(0int, 0 + needle@.len() as int) =~= lower_seq(needle@));
            assert(contains_ci(hay@, needle@));
        }
        return true;
    }
    let mut i: usize = 0;
    while i <= hn - nn
        invariant
            1 <= nn <= hn,
            hn == hay@.len(),
            nn == needle@.len(),
            i <= hn - nn + 1,
            forall|k: int|
                0 <= k < i ==> #[trigger] lower_seq(hay@).subrange(k, k + needle@.len())
                    != lower_seq(needle@),
        decreases hn - nn + 1 - i,
    {
        if match_at(hay, needle, i) {
            return true;
        }
        i = i + 1;
    }
    proof {
        assert forall|k: int|
            0 <= k <= hay@.len() - needle@.len() implies #[trigger] lower_seq(hay@).subrange(
            k,
            k + needle@.len(),
        ) != lower_seq(needle@) by {
            assert(k < i);
        }
    }
    false
}

/// Whether a task passes every filter of the search.
pub fn task_matches_query(t: &Task, q: &TaskSearchParams) -> (r: bool)
    ensures
        r == matches_query(t@, q@),
{
    let keyword_ok = q.keyword.len() == 0 || find_ci(&t.title, &q.keyword) || find_ci(
        &t.description,
        &q.keyword,
    );
    if !keyword_ok {
        return false;
    }
    if let Some(code) = q.status {
        let c: u8 = u8::from(t.status);
        if c != code {
            return false;
        }
    }
    if let Some(p) = q.priority {
        if t.priority != p {
            return false;
        }
    }
    if let Some((lo, hi)) = q.difficulty_range {
        if t.difficulty < lo || t.difficulty > hi {
            return false;
        }
    }
    if let Some((lo, hi)) = q.reward_range {
        if t.reward < lo || t.reward > hi {
            return false;
        }
    }
    if let Some(a) = q.creator {
        if t.creator != a {
            return false;
        }
    }
    if let Some(a) = q.assignee {
        if t.assignee != Some(a) {
            return false;
        }
    }
    if let Some((lo, hi)) = q.deadline_range {
        match t.deadline {
            Some(d) => {
                if d < lo || d > hi {
                    return false;
                }
            },
            None => {
                return false;
            },
        }
    }
    if let Some((lo, hi)) = q.created_time_range {
        if t.created_at < lo || t.created_at > hi {
            return false;
        }
    }
    if q.has_deadline && t.deadline.is_none() {
        return false;
    }
    if q.unassigned_only && t.assignee.is_some() {
        return false;
    }
    true
}

/// Whether `a` may precede `b` in the result order.
fn in_order_exec(a: &Task, b: &Task, by: TaskSortBy, desc: bool) -> (r: bool)
    ensures
        r == in_order(a@, b@, by, desc),
{
    let ka: u128 = match by {
        TaskSortBy::CreatedAt => a.created_at as u128,
        TaskSortBy::UpdatedAt => a.updated_at as u128,
        TaskSortBy::Deadline => match a.deadline {
            Some(d) => d as u128,
            None => u32::MAX as u128,
        },
        TaskSortBy::Reward => a.reward,
        TaskSortBy::Difficulty => a.difficulty as u128,
        TaskSortBy::Priority => a.priority as u128,
    };
    let kb: u128 = match by {
        TaskSortBy::CreatedAt => b.created_at as u128,
        TaskSortBy::UpdatedAt => b.updated_at as u128,
        TaskSortBy::Deadline => match b.deadline {
            Some(d) => d as u128,
            None => u32::MAX as u128,
        },
        TaskSortBy::Reward => b.reward,
        TaskSortBy::Difficulty => b.difficulty as u128,
        TaskSortBy::Priority => b.priority as u128,
    };
    if desc {
        ka >= kb
    } else {
        ka <= kb
    }
}

/// Sorts tasks under the chosen key by insertion, returning the same tasks
/// in an order the key accepts.
pub fn sort_tasks(input: Vec<Task>, by: TaskSortBy, desc: bool) -> (r: Vec<Task>)
    ensures
        views_of(r@).to_multiset() == views_of(input@).to_multiset(),
        sorted_by(views_of(r@), by, desc),
{
    broadcast use vstd::seq_lib::group_to_multiset_ensures;

    let mut rest = input;
    let mut out: Vec<Task> = Vec::new();
    proof {
        assert(views_of(out@) =~= Seq::<TaskView>::empty());
    }
    while rest.len() > 0
        invariant
            views_of(out@).to_multiset().add(views_of(rest@).to_multiset()) == views_of(
                input@,
            ).to_multiset(),
            sorted_by(views_of(out@), by, desc),
        decreases rest.len(),
    {
        let ghost rest0 = rest@;
        let ghost out0 = out@;
        let t = rest.pop().unwrap();
        let ghost tv = t@;
        proof {
            assert(rest0 =~= rest@.push(t));
            assert(views_of(rest0) =~= views_of(rest@).push(tv));
            vstd::seq_lib::to_multiset_build(views_of(rest@), tv);
        }
        let n = out.len();
        let mut pos: usize = 0;
        while pos < n && in_order_exec(&out[pos], &t, by, desc)
            invariant
                n == out@.len(),
                pos <= n,
                out@ == out0,
                tv == t@,
                forall|m: int| 0 <= m < pos ==> in_order(#[trigger] views_of(out@)[m], tv, by, desc),
            decreases n - pos,
        {
            proof {
                assert(views_of(out@)[pos as int] == out@[pos as int]@);
                assert(in_order(views_of(out@)[pos as int], tv, by, desc));
            }
            pos = pos + 1;
        }
        out.insert(pos, t);
        proof {
            let vs0 = views_of(out0);
            let vs1 = views_of(out@);
            assert(out@ == out0.insert(pos as int, t));
            assert(vs1 =~= vs0.insert(pos as int, tv));
            vstd::seq_lib::to_multiset_insert(vs0, pos as int, tv);
            assert(vs1.to_multiset() == vs0.to_multiset().insert(tv));
            assert forall|i: int, j: int|
                0 <= i < j < vs1.len() implies in_order(
                #[trigger] vs1[i],
                #[trigger] vs1[j],
                by,
                desc,
            ) by {
                if j < pos {
                    assert(vs1[i] == vs0[i] && vs1[j] == vs0[j]);
                } else if i < pos && j == pos {
                    assert(vs1[i] == vs0[i]);
                    assert(in_order(vs0[i], tv, by, desc));
                } else if i < pos && j > pos {
                    assert(vs1[i] == vs0[i] && vs1[j] == vs0[j - 1]);
                } else if i == pos {
                    assert(vs1[j] == vs0[j - 1]);
                    assert(!in_order(vs0[pos as int], tv, by, desc));
                    assert(in_order(tv, vs0[pos as int], by, desc));
                    if j - 1 > pos {
                        assert(in_order(vs0[pos as int], vs0[j - 1], by, desc));
                    }
                } else {
                    assert(vs1[i] == vs0[i - 1] && vs1[j] == vs0[j - 1]);
                }
            }
        }
    }
    proof {
        assert(views_of(rest@) =~= Seq::<TaskView>::empty());
        assert(views_of(rest@).to_multiset() =~= Multiset::<TaskView>::empty());
        assert(views_of(out@).to_multiset() =~= views_of(out@).to_multiset().add(
            views_of(rest@).to_multiset(),
        ));
    }
    out
}

/// Clips a sorted result to the requested page.
pub fn paginate(tasks: Vec<Task>, page: u32, page_size: u32) -> (r: Vec<Task>)
    ensures
        views_of(r@) == page_of(views_of(tasks@), page, page_size),
{
    let ghost orig = tasks@;
    proof {
        assert(page as int * page_size as int <= 0xFFFF_FFFFint * 0xFFFF_FFFFint)
            by (nonlinear_arith)
            requires
                page as int <= 0xFFFF_FFFFint,
                page_size as int <= 0xFFFF_FFFFint,
        ;
    }
    let start64: u64 = (page as u64) * (page_size as u64);
    if start64 >= tasks.len() as u64 {
        let r: Vec<Task> = Vec::new();
        proof {
            assert(views_of(r@) =~= page_of(views_of(orig), page, page_size));
        }
        return r;
    }
    let start: usize = start64 as usize;
    let mut input = tasks;
    let mut tail = input.split_off(start);
    proof {
        assert(tail@ == orig.subrange(start as int, orig.len() as int));
    }
    tail.truncate(page_size as usize);
    proof {
        assert(views_of(tail@) =~= page_of(views_of(orig), page, page_size));
    }
    tail
}

} // verus!
