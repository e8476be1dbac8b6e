use vstd::prelude::*;
use crate::json::JsonValue;

verus! {

/// A rule: when its condition holds for an ingested file, its workflow runs.
pub struct Rule {
    pub id: String,
    pub name: String,
    pub enabled: bool,
    pub order_index: i64,
    pub when: Condition,
    pub then: ThenAction,
}

impl Rule {
    /// What the rule does when it matches.
    pub open spec fn action(self) -> ThenAction {
        let Rule { then: action, .. } = self;
        action
    }

    /// The id of the workflow the rule runs.
    pub fn workflow_id(&self) -> (r: &str)
        ensures
            r@ == self.action().workflow_id@,
    {
        let Rule { then: action, .. } = self;
        action.workflow_id.as_str()
    }
}

/// A test on the facts of a file: a single comparison, or a group of tests.
pub enum Condition {
    Group { mode: GroupMode, children: Vec<Condition> },
    Predicate { field: String, op: Op, value: JsonValue },
}

/// How a group combines its children.
#[derive(PartialEq, Eq, Structural, Clone, Copy, Debug)]
pub enum GroupMode {
    /// Every child holds (an empty group holds).
    All,
    /// Some child holds (an empty group does not).
    Any,
}

/// The comparison a predicate makes between a file's fact and its value.
#[derive(PartialEq, Eq, Structural, Clone, Copy, Debug)]
pub enum Op {
    /// Equal as JSON values (`json_eq`: a number with a fraction compares by its text).
    Eq,
    /// Equal to one of the values of an array.
    In,
    /// The four orders compare numbers by their exact decimal values, not as `f64`.
    Gt,
    Gte,
    Lt,
    Lte,
}

/// What a matching rule does: run a workflow.
pub struct ThenAction {
    pub workflow_id: String,
}

} // verus!
