use vstd::prelude::*;
use crate::decimal::{compare_decimals, decimal_of_int, parse_decimal, parse_number, scaled_order, Decimal};
pub use crate::decimal::NumOrder;
use crate::json::{Json, JsonValue, json_eq};
use crate::rule::{Condition, GroupMode, Op, Rule};
use crate::text::str_eq;

verus! {

/// The facts of a file that conditions test, by name.
pub struct EvalCtx {
    entries: Vec<(String, JsonValue)>,
}

/// The map that a list of insertions builds: a later insertion of a key replaces an earlier one.
pub open spec fn ctx_map(entries: Seq<(String, JsonValue)>) -> Map<Seq<char>, Json>
    decreases entries.len(),
{
    if entries.len() == 0 {
        Map::empty()
    } else {
        ctx_map(entries.drop_last()).insert(entries.last().0@, entries.last().1@)
    }
}

impl View for EvalCtx {
    type V = Map<Seq<char>, Json>;

    closed spec fn view(&self) -> Map<Seq<char>, Json> {
        ctx_map(self.entries@)
    }
}

impl EvalCtx {
    /// An empty set of facts.
    pub fn new() -> (r: EvalCtx)
        ensures
            r@ == Map::<Seq<char>, Json>::empty(),
    {
        EvalCtx { entries: Vec::new() }
    }

    /// Sets the fact `key` to `value`, replacing any earlier value.
    pub fn insert(&mut self, key: String, value: JsonValue)
        ensures
            final(self)@ == old(self)@.insert(key@, value@),
    {
        proof {
            let e = self.entries@.push((key, value));
            assert(e.drop_last() =~= self.entries@);
        }
        self.entries.push((key, value));
    }

    /// The value of the fact `key`, if it is set.
    pub fn get(&self, key: &str) -> (r: Option<&JsonValue>)
        ensures
            match r {
                Some(v) => self@.contains_key(key@) && v@ == self@[key@],
                None => !self@.contains_key(key@),
            },
    {
        let mut m = self.entries.len();
        while m > 0
            invariant
                m <= self.entries@.len(),
                forall|j: int| m <= j < self.entries@.len() ==> self.entries@[j].0@ != key@,
            decreases m,
        {
            if str_eq(self.entries[m - 1].0.as_str(), key) {
                proof {
                    lemma_ctx_map_last(self.entries@, m as int - 1, key@);
                }
                return Some(&self.entries[m - 1].1);
            }
            m -= 1;
        }
        proof {
            lemma_ctx_map_absent(self.entries@, key@);
        }
        None
    }
}

proof fn lemma_ctx_map_last(entries: Seq<(String, JsonValue)>, j: int, key: Seq<char>)
    requires
        0 <= j < entries.len(),
        entries[j].0@ == key,
        forall|i: int| j < i < entries.len() ==> entries[i].0@ != key,
    ensures
        ctx_map(entries).contains_key(key),
        ctx_map(entries)[key] == entries[j].1@,
    decreases entries.len(),
{
    if j < entries.len() - 1 {
        let t = entries.drop_last();
        assert forall|i: int| j < i < t.len() implies t[i].0@ != key by {
            assert(t[i] == entries[i]);
        }
        lemma_ctx_map_last(t, j, key);
        assert(t[j] == entries[j]);
    }
}

proof fn lemma_ctx_map_absent(entries: Seq<(String, JsonValue)>, key: Seq<char>)
    requires
        forall|i: int| 0 <= i < entries.len() ==> entries[i].0@ != key,
    ensures
        !ctx_map(entries).contains_key(key),
    decreases entries.len(),
{
    if entries.len() > 0 {
        let t = entries.drop_last();
        assert forall|i: int| 0 <= i < t.len() implies t[i].0@ != key by {
            assert(t[i] == entries[i]);
        }
        lemma_ctx_map_absent(t, key);
    }
}

/// The number a fact holds, as a signed mantissa and a power of ten: integers, and
/// numbers written with a fraction or an exponent.
pub open spec fn num_of(v: Json) -> Option<(int, int)> {
    match v {
        Json::Int(x) => Some((x, 0)),
        Json::Real(t) => parse_number(t),
        _ => None,
    }
}

/// How two facts compare as numbers: `None` unless both are numbers.
pub open spec fn compare_spec(a: Json, b: Json) -> Option<NumOrder> {
    match (num_of(a), num_of(b)) {
        (Some(x), Some(y)) => Some(scaled_order(x.0, x.1, y.0, y.1)),
        _ => None,
    }
}

/// Whether `actual op expected` holds.
pub open spec fn op_holds(op: Op, actual: Json, expected: Json) -> bool {
    match op {
        Op::Eq => actual == expected,
        Op::In => match expected {
            Json::Array(items) => items.contains(actual),
            _ => false,
        },
        Op::Gt => compare_spec(actual, expected) == Some(NumOrder::Greater),
        Op::Gte => compare_spec(actual, expected) matches Some(o) && o != NumOrder::Less,
        Op::Lt => compare_spec(actual, expected) == Some(NumOrder::Less),
        Op::Lte => compare_spec(actual, expected) matches Some(o) && o != NumOrder::Greater,
    }
}

/// Whether a condition holds for the facts `ctx`.
pub open spec fn holds(c: Condition, ctx: Map<Seq<char>, Json>) -> bool
    decreases c,
{
    match c {
        Condition::Group { mode, children } => match mode {
            GroupMode::All => all_hold(children@, ctx),
            GroupMode::Any => any_holds(children@, ctx),
        },
        Condition::Predicate { field, op, value } => ctx.contains_key(field@) && op_holds(
            op,
            ctx[field@],
            value@,
        ),
    }
}

/// Every condition of `cs` holds.
pub open spec fn all_hold(cs: Seq<Condition>, ctx: Map<Seq<char>, Json>) -> bool
    decreases cs,
{
    if cs.len() == 0 {
        true
    } else {
        all_hold(cs.subrange(0, cs.len() - 1), ctx) && holds(cs[cs.len() - 1], ctx)
    }
}

/// Some condition of `cs` holds.
pub open spec fn any_holds(cs: Seq<Condition>, ctx: Map<Seq<char>, Json>) -> bool
    decreases cs,
{
    if cs.len() == 0 {
        false
    } else {
        any_holds(cs.subrange(0, cs.len() - 1), ctx) || holds(cs[cs.len() - 1], ctx)
    }
}

pub proof fn lemma_all_hold(cs: Seq<Condition>, ctx: Map<Seq<char>, Json>)
    ensures
        all_hold(cs, ctx) <==> forall|i: int| 0 <= i < cs.len() ==> holds(#[trigger] cs[i], ctx),
    decreases cs.len(),
{
    if cs.len() > 0 {
        let t = cs.subrange(0, cs.len() - 1);
        lemma_all_hold(t, ctx);
        if forall|i: int| 0 <= i < cs.len() ==> holds(#[trigger] cs[i], ctx) {
            assert forall|i: int| 0 <= i < t.len() implies holds(#[trigger] t[i], ctx) by {
                assert(t[i] == cs[i]);
            }
        }
        if all_hold(cs, ctx) {
            assert forall|i: int| 0 <= i < cs.len() implies holds(#[trigger] cs[i], ctx) by {
                if i < cs.len() - 1 {
                    assert(t[i] == cs[i]);
                }
            }
        }
    }
}

pub proof fn lemma_any_holds(cs: Seq<Condition>, ctx: Map<Seq<char>, Json>)
    ensures
        any_holds(cs, ctx) <==> exists|i: int| 0 <= i < cs.len() && holds(#[trigger] cs[i], ctx),
    decreases cs.len(),
{
    if cs.len() > 0 {
        let t = cs.subrange(0, cs.len() - 1);
        lemma_any_holds(t, ctx);
        if exists|i: int| 0 <= i < cs.len() && holds(#[trigger] cs[i], ctx) {
            let i = choose|i: int| 0 <= i < cs.len() && holds(#[trigger] cs[i], ctx);
            if i < cs.len() - 1 {
                assert(t[i] == cs[i]);
            }
        }
        if any_holds(t, ctx) {
            let i = choose|i: int| 0 <= i < t.len() && holds(#[trigger] t[i], ctx);
            assert(t[i] == cs[i]);
        }
    }
}

fn number_of(v: &JsonValue) -> (r: Option<Decimal>)
    ensures
        match num_of(v@) {
            Some((m, e)) => r matches Some(d) && d.well_formed() && d.mantissa() == m && d.exponent == e,
            None => r is None,
        },
{
    match v {
        JsonValue::Int(x) => Some(decimal_of_int(*x)),
        JsonValue::Real(t) => parse_decimal(t.as_str()),
        _ => None,
    }
}

/// How two facts compare as numbers, by their exact decimal values. This is exact
/// where a comparison of `f64` values rounds: two integers above 2^53 that round to the
/// same `f64` (9007199254740993 and 9007199254740992) compare as different here.
pub fn compare(a: &JsonValue, b: &JsonValue) -> (r: Option<NumOrder>)
    ensures
        r == compare_spec(a@, b@),
{
    match (number_of(a), number_of(b)) {
        (Some(x), Some(y)) => Some(compare_decimals(&x, &y)),
        _ => None,
    }
}

fn op_matches(op: Op, actual: &JsonValue, expected: &JsonValue) -> (r: bool)
    ensures
        r == op_holds(op, actual@, expected@),
{
    match op {
        Op::Eq => json_eq(actual, expected),
        Op::In => match expected {
            JsonValue::Array(items) => {
                proof {
                    crate::json::lemma_json_seq(items@);
                }
                let mut i: usize = 0;
                while i < items.len()
                    invariant
                        i <= items@.len(),
                        op == Op::In,
                        *expected == JsonValue::Array(*items),
                        crate::json::json_seq(items@).len() == items@.len(),
                        forall|k: int| 0 <= k < items@.len() ==> #[trigger] crate::json::json_seq(items@)[k] == items@[k]@,
                        forall|k: int| 0 <= k < i ==> items@[k]@ != actual@,
                    decreases items@.len() - i,
                {
                    if json_eq(&items[i], actual) {
                        proof {
                            assert(crate::json::json_seq(items@)[i as int] == actual@);
                            assert(crate::json::json_seq(items@).contains(actual@));
                        }
                        return true;
                    }
                    i += 1;
                }
                proof {
                    let s = crate::json::json_seq(items@);
                    if s.contains(actual@) {
                        let k = choose|k: int| 0 <= k < s.len() && s[k] == actual@;
                        assert(s[k] == items@[k]@);
                    }
                }
                false
            },
            _ => false,
        },
        Op::Gt => match compare(actual, expected) {
            Some(NumOrder::Greater) => true,
            _ => false,
        },
        Op::Gte => match compare(actual, expected) {
            Some(NumOrder::Less) => false,
            Some(_) => true,
            None => false,
        },
        Op::Lt => match compare(actual, expected) {
            Some(NumOrder::Less) => true,
            _ => false,
        },
        Op::Lte => match compare(actual, expected) {
            Some(NumOrder::Greater) => false,
            Some(_) => true,
            None => false,
        },
    }
}

/// Whether `cond` holds for the facts `ctx`.
pub fn eval(cond: &Condition, ctx: &EvalCtx) -> (r: bool)
    ensures
        r == holds(*cond, ctx@),
    decreases cond,
{
    match cond {
        Condition::Group { mode, children } => {
            proof {
                lemma_all_hold(children@, ctx@);
                lemma_any_holds(children@, ctx@);
            }
            let all = match mode {
                GroupMode::All => true,
                GroupMode::Any => false,
            };
            let mut i: usize = 0;
            while i < children.len()
                invariant
                    i <= children@.len(),
                    *cond == (Condition::Group { mode: *mode, children: *children }),
                    all == (*mode == GroupMode::All),
                    all ==> forall|k: int| 0 <= k < i ==> holds(#[trigger] children@[k], ctx@),
                    !all ==> forall|k: int| 0 <= k < i ==> !holds(#[trigger] children@[k], ctx@),
                decreases children@.len() - i,
            {
                proof {
                    assert(decreases_to!(*cond => (*cond)->children));
                    assert(decreases_to!(*children => children@));
                    assert(decreases_to!(children@ => children@[i as int]));
                }
                let h = eval(&children[i], ctx);
                if all && !h {
                    proof {
                        lemma_all_hold(children@, ctx@);
                    }
                    return false;
                }
                if !all && h {
                    proof {
                        lemma_any_holds(children@, ctx@);
                    }
                    return true;
                }
                i += 1;
            }
            all
        },
        Condition::Predicate { field, op, value } => match ctx.get(field.as_str()) {
            Some(actual) => op_matches(*op, actual, value),
            None => false,
        },
    }
}

/// The first rule, from index `k` on, that is enabled and whose condition holds; -1 if none.
pub open spec fn first_match_from(rules: Seq<Rule>, ctx: Map<Seq<char>, Json>, k: int) -> int
    decreases rules.len() - k,
{
    if k < 0 || k >= rules.len() {
        -1
    } else if rules[k].enabled && holds(rules[k].when, ctx) {
        k
    } else {
        first_match_from(rules, ctx, k + 1)
    }
}

/// The position of the first enabled rule whose condition holds for `ctx`.
pub fn first_match_index(rules: &[Rule], ctx: &EvalCtx) -> (r: Option<usize>)
    ensures
        first_match_from(rules@, ctx@, 0) == -1 ==> r is None,
        first_match_from(rules@, ctx@, 0) >= 0 ==> r == Some(first_match_from(rules@, ctx@, 0) as usize),
        -1 <= first_match_from(rules@, ctx@, 0) < rules@.len(),
{
    proof {
        lemma_first_match_bounds(rules@, ctx@, 0);
    }
    let mut i: usize = 0;
    while i < rules.len()
        invariant
            i <= rules@.len(),
            first_match_from(rules@, ctx@, 0) == first_match_from(rules@, ctx@, i as int),
            -1 <= first_match_from(rules@, ctx@, 0) < rules@.len(),
        decreases rules@.len() - i,
    {
        if rules[i].enabled && eval(&rules[i].when, ctx) {
            return Some(i);
        }
        i += 1;
    }
    None
}

proof fn lemma_first_match_bounds(rules: Seq<Rule>, ctx: Map<Seq<char>, Json>, k: int)
    requires
        0 <= k,
    ensures
        -1 <= first_match_from(rules, ctx, k) < rules.len(),
    decreases rules.len() - k,
{
    if k < rules.len() {
        lemma_first_match_bounds(rules, ctx, k + 1);
    }
}

/// The first enabled rule whose condition holds for `ctx`, in list order.
pub fn match_first_rule<'a>(rules: &'a [Rule], ctx: &EvalCtx) -> (r: Option<&'a Rule>)
    ensures
        first_match_from(rules@, ctx@, 0) == -1 ==> r is None,
        first_match_from(rules@, ctx@, 0) >= 0 ==> r == Some(&rules@[first_match_from(rules@, ctx@, 0)]),
{
    match first_match_index(rules, ctx) {
        Some(i) => Some(&rules[i]),
        None => None,
    }
}

} // verus!
