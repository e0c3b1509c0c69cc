//! What the list endpoints serve: skills, projects (optionally limited), work
//! experience, and pages of the blog listing.
use vstd::prelude::*;
use crate::model::{ExpDes, ProjectDes, TechDes, TypeExp};

verus! {

/// The first `limit` items, or all of them where `limit` is 0 or at least their number.
pub open spec fn limited<T>(items: Seq<T>, limit: usize) -> Seq<T> {
    if limit == 0 || limit >= items.len() {
        items
    } else {
        items.take(limit as int)
    }
}

/// The projects served for a request of `limit`: the first `limit`, or all of them
/// where `limit` is 0 or at least their number.
pub fn limit_projects(projects: Vec<ProjectDes>, limit: usize) -> (served: Vec<ProjectDes>)
    ensures
        served@ == limited(projects@, limit),
        0 < limit < projects@.len() ==> served@.len() == limit && served@ == projects@.take(
            limit as int,
        ),
        limit == 0 || limit >= projects@.len() ==> served@ == projects@,
{
    let mut projects = projects;
    if limit != 0 && limit < projects.len() {
        projects.truncate(limit);
    }
    projects
}

/// The projects served for a request of `limit`, from what the project list parsed
/// to (`None` where it could not be parsed, which serves none).
pub fn projects_served(parsed: Option<Vec<ProjectDes>>, limit: usize) -> (served: Vec<ProjectDes>)
    ensures
        served@ == (match parsed {
            Some(v) => limited(v@, limit),
            None => Seq::<ProjectDes>::empty(),
        }),
        parsed matches Some(v) ==> (0 < limit < v@.len() ==> served@.len() == limit && served@
            == v@.take(limit as int)),
        parsed matches Some(v) ==> ((limit == 0 || limit >= v@.len()) ==> served@ == v@),
{
    match parsed {
        Some(v) => limit_projects(v, limit),
        None => Vec::new(),
    }
}

/// The skills served, from what the skill list parsed to (`None` where it could not
/// be parsed, which serves none).
pub fn skills_served(parsed: Option<Vec<TechDes>>) -> (served: Vec<TechDes>)
    ensures
        served@ == (match parsed {
            Some(v) => v@,
            None => Seq::<TechDes>::empty(),
        }),
{
    match parsed {
        Some(v) => v,
        None => Vec::new(),
    }
}

/// The experience served, from what the experience file parsed to (`None` where it
/// could not be parsed, which serves two empty lists).
pub fn experience_served(parsed: Option<TypeExp>) -> (served: TypeExp)
    ensures
        match parsed {
            Some(e) => served == e,
            None => served.experience_jobs@ == Seq::<ExpDes>::empty()
                && served.experience_vol@ == Seq::<ExpDes>::empty(),
        },
{
    match parsed {
        Some(e) => e,
        None => TypeExp { experience_jobs: Vec::new(), experience_vol: Vec::new() },
    }
}

/// A limit below the number of items keeps exactly that many, the first ones; a
/// limit of 0, or one not below the number of items, keeps them all.
pub proof fn law_limited<T>(items: Seq<T>, limit: usize)
    ensures
        0 < limit < items.len() ==> limited(items, limit).len() == limit && limited(items, limit)
            == items.take(limit as int),
        limit == 0 || limit >= items.len() ==> limited(items, limit) == items,
        limited(items, limit).len() <= items.len(),
        forall|i: int| 0 <= i < limited(items, limit).len() ==> #[trigger] limited(items, limit)[i]
            == items[i],
{
}

/// Where page `page_num` of pages of `num_limit` items starts.
pub open spec fn page_start(num_limit: u8, page_num: u32) -> int {
    page_num as int * num_limit as int
}

/// Page `page_num` of `items` cut into pages of `num_limit`: the items from
/// `page_num * num_limit` on, at most `num_limit` of them; `None` where that start
/// is not before the end.
pub open spec fn page_of<T>(items: Seq<T>, num_limit: u8, page_num: u32) -> Option<Seq<T>> {
    let start = page_start(num_limit, page_num);
    if start >= items.len() {
        None
    } else if start + num_limit >= items.len() {
        Some(items.subrange(start, items.len() as int))
    } else {
        Some(items.subrange(start, start + num_limit))
    }
}

/// Page `page_num` of the listing cut into pages of `num_limit` items.
pub fn listing_page<T>(items: Vec<T>, num_limit: u8, page_num: u32) -> (page: Option<Vec<T>>)
    ensures
        match page_of(items@, num_limit, page_num) {
            Some(p) => page matches Some(v) && v@ == p,
            None => page is None,
        },
{
    let p = page_num as u64;
    let l = num_limit as u64;
    assert(p * l <= 0xffff_ffff * 0xff) by (nonlinear_arith)
        requires
            p <= 0xffff_ffff,
            l <= 0xff,
    ;
    let start: u64 = p * l;
    if start >= items.len() as u64 {
        return None;
    }
    let start = start as usize;
    let mut items = items;
    let mut page = items.split_off(start);
    page.truncate(num_limit as usize);
    Some(page)
}

/// Each item lies on the page its index falls in, at its offset within that page.
pub proof fn law_item_on_its_page<T>(items: Seq<T>, num_limit: u8, i: int)
    requires
        num_limit > 0,
        0 <= i < items.len(),
        i / (num_limit as int) <= u32::MAX,
    ensures
        page_of(items, num_limit, (i / (num_limit as int)) as u32) matches Some(p) && p[i % (
        num_limit as int)] == items[i],
{
    let l = num_limit as int;
    let q = i / l;
    let r = i % l;
    assert(i == q * l + r && 0 <= r < l) by (nonlinear_arith)
        requires
            l > 0,
            q == i / l,
            r == i % l,
    ;
    assert(page_start(num_limit, q as u32) == q * l);
}

/// Every page but the last holds exactly `num_limit` items, and the pages in order
/// leave no item out: the next page starts where this one ends.
pub proof fn law_pages_are_consecutive<T>(items: Seq<T>, num_limit: u8, page_num: u32)
    requires
        page_num < u32::MAX,
        page_of(items, num_limit, page_num) is Some,
        page_of(items, num_limit, (page_num + 1) as u32) is Some,
    ensures
        page_of(items, num_limit, page_num)->0.len() == num_limit,
        page_of(items, num_limit, page_num)->0 + page_of(items, num_limit, (page_num + 1) as u32)->0
            == items.subrange(
            page_start(num_limit, page_num),
            page_start(num_limit, page_num) + num_limit + page_of(
                items,
                num_limit,
                (page_num + 1) as u32,
            )->0.len(),
        ),
{
    let s = page_start(num_limit, page_num);
    let t = page_start(num_limit, (page_num + 1) as u32);
    assert(t == s + num_limit) by (nonlinear_arith)
        requires
            s == page_num as int * num_limit as int,
            t == (page_num + 1) as int * num_limit as int,
    ;
    let p = page_of(items, num_limit, page_num)->0;
    let q = page_of(items, num_limit, (page_num + 1) as u32)->0;
    assert(p + q =~= items.subrange(s, s + num_limit + q.len()));
}

} // verus!
