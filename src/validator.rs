//! The validator: checks a token against an ordered constraint set and
//! reports the first violated constraint.
use vstd::prelude::*;
use crate::constraint::{Constraint, ConstraintKind};
use crate::text::{chars_of, contains_chars, contains_seq, joined};

verus! {

/// An ordered sequence of well-formed constraints. Order decides which
/// violation is reported when several apply.
pub struct ConstraintSet {
    constraints: Vec<Constraint>,
}

impl ConstraintSet {
    /// The constraints, in evaluation order.
    pub closed spec fn members(&self) -> Seq<Constraint> {
        self.constraints@
    }

    /// The number of constraints.
    pub fn len(&self) -> (r: usize)
        ensures
            r == self.members().len(),
    {
        self.constraints.len()
    }

    /// The constraint at position `i`.
    pub fn get(&self, i: usize) -> (r: &Constraint)
        requires
            i < self.members().len(),
        ensures
            *r == self.members()[i as int],
    {
        &self.constraints[i]
    }

    /// Every constraint was built by `Constraint::new`.
    pub open spec fn wf(&self) -> bool {
        forall|i: int| 0 <= i < self.members().len() ==> #[trigger] self.members()[i].wf()
    }

    /// The empty set, which accepts every token.
    pub fn new() -> (r: ConstraintSet)
        ensures
            r.wf(),
            r.members().len() == 0,
    {
        ConstraintSet { constraints: Vec::new() }
    }

    /// Appends a constraint, which is checked after those already present.
    pub fn push(&mut self, c: Constraint)
        requires
            old(self).wf(),
            c.wf(),
        ensures
            final(self).wf(),
            final(self).members() == old(self).members().push(c),
    {
        self.constraints.push(c);
    }

    /// A set of forbidden substrings, in the order given.
    pub fn forbid_substrings(list: &Vec<String>) -> (r: ConstraintSet)
        ensures
            r.wf(),
            r.members().len() == list@.len(),
            forall|i: int|
                0 <= i < list@.len() ==> (#[trigger] r.members()[i]).spec_kind()
                    == ConstraintKind::ForbidSubstring && r.members()[i].spec_payload() == list@[i]@,
    {
        let mut r = ConstraintSet::new();
        let mut i: usize = 0;
        while i < list.len()
            invariant
                i <= list@.len(),
                r.wf(),
                r.members().len() == i,
                forall|k: int|
                    0 <= k < i ==> (#[trigger] r.members()[k]).spec_kind()
                        == ConstraintKind::ForbidSubstring && r.members()[k].spec_payload()
                        == list@[k]@,
            decreases list@.len() - i,
        {
            r.push(Constraint::forbid_substring(list[i].as_str()));
            i += 1;
        }
        r
    }
}

/// The outcome of validating one token.
pub enum Verdict {
    Accepted,
    /// `index` is the position of the violated constraint in the set.
    Rejected { index: usize, explanation: String },
}

/// The position of the first constraint at or after `i` that `t` violates.
pub open spec fn first_violation_from(cs: Seq<Constraint>, t: Seq<char>, i: nat) -> Option<int>
    decreases cs.len() - i,
{
    if i >= cs.len() {
        None
    } else if cs[i as int].violated_by(t) {
        Some(i as int)
    } else {
        first_violation_from(cs, t, i + 1)
    }
}

/// The position of the first constraint of `cs` that `t` violates.
pub open spec fn first_violation(cs: Seq<Constraint>, t: Seq<char>) -> Option<int> {
    first_violation_from(cs, t, 0)
}

/// The text that opens every explanation.
pub open spec fn violation_prefix() -> Seq<char> {
    "Constraint violation detected: "@
}

/// The explanation given for a violation of a constraint with this payload.
pub open spec fn explanation_for(payload: Seq<char>) -> Seq<char> {
    violation_prefix() + payload
}

/// `v` is the verdict owed to token `t` under constraints `cs`.
pub open spec fn is_verdict_for(v: Verdict, cs: Seq<Constraint>, t: Seq<char>) -> bool {
    match first_violation(cs, t) {
        None => v is Accepted,
        Some(i) => match v {
            Verdict::Accepted => false,
            Verdict::Rejected { index, explanation } => index == i && explanation@
                == explanation_for(cs[i].spec_payload()),
        },
    }
}

/// Two verdicts say the same thing.
pub open spec fn same_verdict(a: Verdict, b: Verdict) -> bool {
    match (a, b) {
        (Verdict::Accepted, Verdict::Accepted) => true,
        (
            Verdict::Rejected { index: i, explanation: e },
            Verdict::Rejected { index: j, explanation: f },
        ) => i == j && e@ == f@,
        _ => false,
    }
}

fn explain(payload: &String) -> (r: String)
    ensures
        r@ == explanation_for(payload@),
{
    let prefix = "Constraint violation detected: ";
    proof {
        reveal_strlit("Constraint violation detected: ");
    }
    joined(prefix, payload.as_str())
}

/// Checks `token` against every constraint of `set`, in order, and rejects
/// it at the first one it violates.
pub fn validate(token: &str, set: &ConstraintSet) -> (v: Verdict)
    requires
        set.wf(),
    ensures
        is_verdict_for(v, set.members(), token@),
{
    let t = chars_of(token);
    let ghost cs = set.members();
    let mut i: usize = 0;
    while i < set.len()
        invariant
            set.wf(),
            cs == set.members(),
            t@ == token@,
            i <= cs.len(),
            first_violation(cs, t@) == first_violation_from(cs, t@, i as nat),
        decreases cs.len() - i,
    {
        let c = set.get(i);
        if c.is_violated_by(&t) {
            return Verdict::Rejected { index: i, explanation: explain(c.payload()) };
        }
        i += 1;
    }
    Verdict::Accepted
}

/// The position of the first payload at or after `i` that occurs in `t`.
pub open spec fn first_hit_from(list: Seq<String>, t: Seq<char>, i: nat) -> Option<int>
    decreases list.len() - i,
{
    if i >= list.len() {
        None
    } else if contains_seq(t, list[i as int]@) {
        Some(i as int)
    } else {
        first_hit_from(list, t, i + 1)
    }
}

/// The command form of validation, on forbidden substrings: `Ok(true)` when
/// no listed string occurs in `token`, else an error naming the first that does.
pub fn validate_inference(token: &str, constraints: Vec<String>) -> (r: Result<bool, String>)
    ensures
        match first_hit_from(constraints@, token@, 0) {
            None => r == Ok::<bool, String>(true),
            Some(i) => r matches Err(m) && m@ == explanation_for(constraints@[i]@),
        },
{
    let t = chars_of(token);
    let mut i: usize = 0;
    while i < constraints.len()
        invariant
            t@ == token@,
            i <= constraints@.len(),
            first_hit_from(constraints@, token@, 0) == first_hit_from(constraints@, token@, i as nat),
        decreases constraints@.len() - i,
    {
        let c = &constraints[i];
        if contains_chars(&t, &chars_of(c.as_str())) {
            return Err(explain(c));
        }
        i += 1;
    }
    Ok(true)
}

proof fn lemma_none_from(cs: Seq<Constraint>, t: Seq<char>, i: nat)
    ensures
        first_violation_from(cs, t, i) is None <==> forall|k: int|
            i <= k < cs.len() ==> !(#[trigger] cs[k].violated_by(t)),
    decreases cs.len() - i,
{
    if i < cs.len() {
        lemma_none_from(cs, t, i + 1);
    }
}

proof fn lemma_reported_from(cs: Seq<Constraint>, t: Seq<char>, i: nat, j: nat)
    requires
        j <= i < cs.len(),
        cs[i as int].violated_by(t),
        forall|k: int| 0 <= k < i ==> !(#[trigger] cs[k].violated_by(t)),
    ensures
        first_violation_from(cs, t, j) == Some(i as int),
    decreases i - j,
{
    if j < i {
        lemma_reported_from(cs, t, i, j + 1);
    }
}

/// A token is accepted exactly when it violates no constraint of the set.
pub proof fn law_accepted_iff_no_violation(set: ConstraintSet, t: Seq<char>, v: Verdict)
    requires
        is_verdict_for(v, set.members(), t),
    ensures
        (v is Accepted) <==> forall|i: int|
            0 <= i < set.members().len() ==> !(#[trigger] set.members()[i].violated_by(t)),
{
    lemma_none_from(set.members(), t, 0);
}

/// When constraint `i` is violated and none before it is, the verdict
/// rejects the token at exactly position `i`.
pub proof fn law_first_violation_reported(set: ConstraintSet, t: Seq<char>, i: int, v: Verdict)
    requires
        0 <= i < set.members().len(),
        set.members()[i].violated_by(t),
        forall|k: int| 0 <= k < i ==> !(#[trigger] set.members()[k].violated_by(t)),
        is_verdict_for(v, set.members(), t),
    ensures
        v matches Verdict::Rejected { index, explanation } && index == i && explanation@
            == explanation_for(set.members()[i].spec_payload()),
{
    lemma_reported_from(set.members(), t, i as nat, 0);
}

/// Validating the same token against the same set twice gives the same verdict.
pub proof fn law_verdict_deterministic(set: ConstraintSet, t: Seq<char>, v1: Verdict, v2: Verdict)
    requires
        is_verdict_for(v1, set.members(), t),
        is_verdict_for(v2, set.members(), t),
    ensures
        same_verdict(v1, v2),
{
}

} // verus!
