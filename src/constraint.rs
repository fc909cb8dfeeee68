//! Constraints and constraint sets, checked when they are built.
use vstd::prelude::*;
use crate::text::{chars_of, contains_seq, glob, same_chars};

verus! {

/// The four kinds of constraint.
#[derive(Clone, Copy, Debug, PartialEq, Eq, Structural)]
pub enum ConstraintKind {
    ForbidSubstring,
    ForbidPattern,
    RequirePattern,
    CustomPredicate,
}

/// The registered predicates a custom constraint can name. A token violates
/// a predicate constraint when the predicate does not hold of it.
#[derive(Clone, Copy, Debug, PartialEq, Eq, Structural)]
pub enum Predicate {
    /// The token has at least one character.
    NonEmpty,
    /// Every character of the token is ASCII.
    Ascii,
    /// The token holds no line break.
    SingleLine,
}

/// Why a constraint could not be built.
#[derive(Clone, Copy, Debug, PartialEq, Eq, Structural)]
pub enum ConfigError {
    /// The predicate name is not registered.
    UnknownPredicate,
}

/// What a predicate says of a token.
pub open spec fn predicate_holds(p: Predicate, t: Seq<char>) -> bool {
    match p {
        Predicate::NonEmpty => t.len() > 0,
        Predicate::Ascii => forall|i: int| 0 <= i < t.len() ==> (t[i] as u32) < 128,
        Predicate::SingleLine => forall|i: int| 0 <= i < t.len() ==> t[i] != '\n' && t[i] != '\r',
    }
}

/// The registered name of each predicate.
pub open spec fn predicate_named(name: Seq<char>) -> Option<Predicate> {
    if name == "non_empty"@ {
        Some(Predicate::NonEmpty)
    } else if name == "ascii"@ {
        Some(Predicate::Ascii)
    } else if name == "single_line"@ {
        Some(Predicate::SingleLine)
    } else {
        None
    }
}

/// A symbolic rule on tokens. The payload is the literal, the pattern or the
/// predicate name, as given; it also names the constraint in explanations.
pub struct Constraint {
    kind: ConstraintKind,
    payload: String,
    chars: Vec<char>,
    predicate: Option<Predicate>,
}

impl Constraint {
    /// The kind of the constraint.
    pub closed spec fn spec_kind(&self) -> ConstraintKind {
        self.kind
    }

    /// The payload as given.
    pub closed spec fn spec_payload(&self) -> Seq<char> {
        self.payload@
    }

    /// The kind of the constraint.
    pub fn kind(&self) -> (r: ConstraintKind)
        ensures
            r == self.spec_kind(),
    {
        self.kind
    }

    /// The payload as given.
    pub fn payload(&self) -> (r: &String)
        ensures
            r@ == self.spec_payload(),
    {
        &self.payload
    }

    /// The constraint was built by `new`: its cached characters and its
    /// predicate agree with the payload.
    pub closed spec fn wf(&self) -> bool {
        &&& self.chars@ == self.payload@
        &&& self.predicate == (if self.kind == ConstraintKind::CustomPredicate {
            predicate_named(self.payload@)
        } else {
            None
        })
        &&& self.kind == ConstraintKind::CustomPredicate ==> self.predicate is Some
    }

    /// Whether token `t` violates this constraint.
    pub open spec fn violated_by(&self, t: Seq<char>) -> bool {
        match self.spec_kind() {
            ConstraintKind::ForbidSubstring => contains_seq(t, self.spec_payload()),
            ConstraintKind::ForbidPattern => glob(self.spec_payload(), t),
            ConstraintKind::RequirePattern => !glob(self.spec_payload(), t),
            ConstraintKind::CustomPredicate => match predicate_named(self.spec_payload()) {
                Some(p) => !predicate_holds(p, t),
                None => true,
            },
        }
    }

    /// Builds a constraint. A custom predicate must name a registered
    /// predicate; patterns are always well formed.
    pub fn new(kind: ConstraintKind, payload: &str) -> (r: Result<Constraint, ConfigError>)
        ensures
            r is Err <==> (kind == ConstraintKind::CustomPredicate && predicate_named(payload@) is None),
            r is Err ==> r == Err::<Constraint, ConfigError>(ConfigError::UnknownPredicate),
            r matches Ok(c) ==> c.wf() && c.spec_kind() == kind && c.spec_payload() == payload@,
    {
        let chars = chars_of(payload);
        let predicate = if kind == ConstraintKind::CustomPredicate {
            let p = lookup_predicate(&chars);
            if p.is_none() {
                return Err(ConfigError::UnknownPredicate);
            }
            p
        } else {
            None
        };
        Ok(Constraint { kind, payload: String::from_str(payload), chars, predicate })
    }

    /// A forbidden substring.
    pub fn forbid_substring(payload: &str) -> (r: Constraint)
        ensures
            r.wf(),
            r.spec_kind() == ConstraintKind::ForbidSubstring,
            r.spec_payload() == payload@,
    {
        Constraint {
            kind: ConstraintKind::ForbidSubstring,
            payload: String::from_str(payload),
            chars: chars_of(payload),
            predicate: None,
        }
    }

    /// Whether token `t` violates this constraint.
    pub fn is_violated_by(&self, t: &Vec<char>) -> (r: bool)
        requires
            self.wf(),
        ensures
            r == self.violated_by(t@),
    {
        match self.kind {
            ConstraintKind::ForbidSubstring => crate::text::contains_chars(t, &self.chars),
            ConstraintKind::ForbidPattern => crate::text::glob_matches(&self.chars, t),
            ConstraintKind::RequirePattern => !crate::text::glob_matches(&self.chars, t),
            ConstraintKind::CustomPredicate => match self.predicate {
                Some(p) => !check_predicate(p, t),
                None => true,
            },
        }
    }
}

fn lookup_predicate(name: &Vec<char>) -> (r: Option<Predicate>)
    ensures
        r == predicate_named(name@),
{
    if same_chars(name, &chars_of("non_empty")) {
        Some(Predicate::NonEmpty)
    } else if same_chars(name, &chars_of("ascii")) {
        Some(Predicate::Ascii)
    } else if same_chars(name, &chars_of("single_line")) {
        Some(Predicate::SingleLine)
    } else {
        None
    }
}

/// Whether predicate `p` holds of token `t`.
pub fn check_predicate(p: Predicate, t: &Vec<char>) -> (r: bool)
    ensures
        r == predicate_holds(p, t@),
{
    match p {
        Predicate::NonEmpty => t.len() > 0,
        Predicate::Ascii => {
            let mut i: usize = 0;
            while i < t.len()
                invariant
                    i <= t@.len(),
                    p == Predicate::Ascii,
                    forall|k: int| 0 <= k < i ==> (t@[k] as u32) < 128,
                decreases t@.len() - i,
            {
                if (t[i] as u32) >= 128 {
                    assert(!((t@[i as int] as u32) < 128));
                    return false;
                }
                i += 1;
            }
            true
        },
        Predicate::SingleLine => {
            let mut i: usize = 0;
            while i < t.len()
                invariant
                    i <= t@.len(),
                    p == Predicate::SingleLine,
                    forall|k: int| 0 <= k < i ==> t@[k] != '\n' && t@[k] != '\r',
                decreases t@.len() - i,
            {
                if t[i] == '\n' || t[i] == '\r' {
                    assert(!(t@[i as int] != '\n' && t@[i as int] != '\r'));
                    return false;
                }
                i += 1;
            }
            true
        },
    }
}

} // verus!
