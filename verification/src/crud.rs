use vstd::prelude::*;
use crate::rule::Rule;
use crate::text::str_eq;
use crate::workflow::Workflow;

verus! {

/// Something stored in a list and found by its id.
pub trait Keyed {
    spec fn key(&self) -> Seq<char>;

    fn key_str(&self) -> (r: &str)
        ensures
            r@ == self.key(),
    ;
}

impl Keyed for Rule {
    open spec fn key(&self) -> Seq<char> {
        self.id@
    }

    fn key_str(&self) -> (r: &str) {
        self.id.as_str()
    }
}

impl Keyed for Workflow {
    open spec fn key(&self) -> Seq<char> {
        self.id@
    }

    fn key_str(&self) -> (r: &str) {
        self.id.as_str()
    }
}

/// Why a change to a stored list was refused.
#[derive(PartialEq, Eq, Structural, Clone, Copy, Debug)]
pub enum CrudError {
    /// No item has the id.
    NotFound,
    /// An item with the id exists already.
    Conflict,
}

/// The first position from `k` on whose item has id `id`, or -1.
pub open spec fn find_from<T: Keyed>(items: Seq<T>, id: Seq<char>, k: int) -> int
    decreases items.len() - k,
{
    if k < 0 || k >= items.len() {
        -1
    } else if items[k].key() == id {
        k
    } else {
        find_from(items, id, k + 1)
    }
}

pub open spec fn find_spec<T: Keyed>(items: Seq<T>, id: Seq<char>) -> int {
    find_from(items, id, 0)
}

pub proof fn lemma_find_from<T: Keyed>(items: Seq<T>, id: Seq<char>, k: int)
    requires
        0 <= k <= items.len(),
    ensures
        -1 <= find_from(items, id, k) < items.len(),
        find_from(items, id, k) >= 0 ==> k <= find_from(items, id, k) && items[find_from(items, id, k)].key() == id,
        find_from(items, id, k) >= 0 ==> forall|j: int| k <= j < find_from(items, id, k) ==> items[j].key() != id,
        find_from(items, id, k) < 0 ==> forall|j: int| k <= j < items.len() ==> items[j].key() != id,
    decreases items.len() - k,
{
    if k < items.len() {
        lemma_find_from(items, id, k + 1);
    }
}

/// The position of the first item with id `id`.
pub fn find_by_id<T: Keyed>(items: &[T], id: &str) -> (r: Option<usize>)
    ensures
        match r {
            Some(i) => i as int == find_spec(items@, id@) && i < items@.len(),
            None => find_spec(items@, id@) == -1,
        },
{
    proof {
        lemma_find_from(items@, id@, 0);
    }
    let mut k: usize = 0;
    while k < items.len()
        invariant
            k <= items@.len(),
            find_spec(items@, id@) == find_from(items@, id@, k as int),
        decreases items@.len() - k,
    {
        if str_eq(items[k].key_str(), id) {
            return Some(k);
        }
        k += 1;
    }
    None
}

/// The first item with id `id`.
pub fn get_by_id<'a, T: Keyed>(items: &'a [T], id: &str) -> (r: Result<&'a T, CrudError>)
    ensures
        find_spec(items@, id@) < 0 ==> r == Err::<&T, CrudError>(CrudError::NotFound),
        find_spec(items@, id@) >= 0 ==> r == Ok::<&T, CrudError>(&items@[find_spec(items@, id@)]),
{
    proof {
        lemma_find_from(items@, id@, 0);
    }
    match find_by_id(items, id) {
        Some(i) => Ok(&items[i]),
        None => Err(CrudError::NotFound),
    }
}

/// Adds `item` at the end, unless an item with its id exists.
pub fn insert_new<T: Keyed>(items: &mut Vec<T>, item: T) -> (r: Result<(), CrudError>)
    ensures
        find_spec(old(items)@, item.key()) >= 0 ==> r == Err::<(), CrudError>(CrudError::Conflict)
            && final(items)@ == old(items)@,
        find_spec(old(items)@, item.key()) < 0 ==> r is Ok && final(items)@ == old(items)@.push(item),
{
    let id = item.key_str();
    match find_by_id(items.as_slice(), id) {
        Some(_) => Err(CrudError::Conflict),
        None => {
            items.push(item);
            Ok(())
        },
    }
}

/// Puts `item` in place of the first item with id `id`.
pub fn replace_by_id<T: Keyed>(items: &mut Vec<T>, id: &str, item: T) -> (r: Result<usize, CrudError>)
    ensures
        find_spec(old(items)@, id@) < 0 ==> r == Err::<usize, CrudError>(CrudError::NotFound)
            && final(items)@ == old(items)@,
        find_spec(old(items)@, id@) >= 0 ==> r == Ok::<usize, CrudError>(find_spec(old(items)@, id@) as usize)
            && final(items)@ == old(items)@.update(find_spec(old(items)@, id@), item),
{
    proof {
        lemma_find_from(items@, id@, 0);
    }
    match find_by_id(items.as_slice(), id) {
        Some(i) => {
            items.set(i, item);
            Ok(i)
        },
        None => Err(CrudError::NotFound),
    }
}

/// The items whose id is not `id`.
pub open spec fn without_id<T: Keyed>(items: Seq<T>, id: Seq<char>) -> Seq<T> {
    items.filter(|x: T| x.key() != id)
}

/// Removes every item with id `id`; refused when there is none.
pub fn remove_by_id<T: Keyed>(items: &mut Vec<T>, id: &str) -> (r: Result<(), CrudError>)
    ensures
        find_spec(old(items)@, id@) < 0 ==> r == Err::<(), CrudError>(CrudError::NotFound)
            && final(items)@ == old(items)@,
        find_spec(old(items)@, id@) >= 0 ==> r is Ok && final(items)@ == without_id(old(items)@, id@),
{
    proof {
        lemma_find_from(items@, id@, 0);
    }
    if find_by_id(items.as_slice(), id).is_none() {
        return Err(CrudError::NotFound);
    }
    let mut kept: Vec<T> = Vec::new();
    let mut rest: Vec<T> = Vec::new();
    std::mem::swap(&mut rest, items);
    let ghost orig = rest@;
    let ghost pred = |x: T| x.key() != id@;
    let n = rest.len();
    let mut k: usize = 0;
    while k < n
        invariant
            k <= n,
            n == orig.len(),
            rest@ == orig.subrange(k as int, n as int),
            kept@ == orig.subrange(0, k as int).filter(pred),
            pred == (|x: T| x.key() != id@),
        decreases n - k,
    {
        let x = rest.remove(0);
        proof {
            assert(rest@ =~= orig.subrange(k as int + 1, n as int));
            assert(x == orig[k as int]);
            assert(orig.subrange(0, k as int + 1) =~= orig.subrange(0, k as int).push(x));
            orig.subrange(0, k as int).lemma_filter_push(x, pred);
        }
        if !str_eq(x.key_str(), id) {
            kept.push(x);
        }
        k += 1;
    }
    proof {
        assert(orig.subrange(0, n as int) =~= orig);
    }
    *items = kept;
    Ok(())
}

/// `r` with `enabled` flipped.
pub open spec fn toggled(r: Rule) -> Rule {
    Rule { enabled: !r.enabled, ..r }
}

/// Flips whether the first rule with id `id` is enabled; returns its position.
pub fn toggle_rule_enabled(rules: &mut Vec<Rule>, id: &str) -> (r: Result<usize, CrudError>)
    ensures
        find_spec(old(rules)@, id@) < 0 ==> r == Err::<usize, CrudError>(CrudError::NotFound)
            && final(rules)@ == old(rules)@,
        find_spec(old(rules)@, id@) >= 0 ==> ({
            let i = find_spec(old(rules)@, id@);
            &&& r == Ok::<usize, CrudError>(i as usize)
            &&& final(rules)@ == old(rules)@.update(i, toggled(old(rules)@[i]))
        }),
{
    proof {
        lemma_find_from(rules@, id@, 0);
    }
    match find_by_id(rules.as_slice(), id) {
        Some(i) => {
            let flipped = !rules[i].enabled;
            rules[i].enabled = flipped;
            Ok(i)
        },
        None => Err(CrudError::NotFound),
    }
}

} // verus!
