use vstd::prelude::*;

verus! {

/// Error payload that points at one registered specification by its
/// registration index (the order in which [`crate::parser::Parser::add`]
/// accepted it), together with a short description.
#[derive(Debug)]
pub struct SpecErr {
    /// Registration index of the specification the error is about.
    pub spec: usize,
    /// Human-readable description of the failure.
    pub msg: String,
}

/// Ghost mirror of [`ErrKind`]: the identifying content of each error,
/// with strings abstracted to character sequences.
pub ghost enum ErrKindV {
    /// A specification required more trailing tokens than remained.
    MissArg { spec: int },
    /// A positional token arrived with no positional specification left.
    MissSpec,
    /// A positional specification was added after a remainder-capturing one.
    BadContext,
    /// An option token named a short character or long name that no
    /// registered specification carries; `name` is that character or name,
    /// without its dash prefix.
    UnknownOpt { name: Seq<char> },
    /// A specification was added whose short character, long name or
    /// positional name is already taken; `name` is the taken identity.
    Collision { name: Seq<char> },
}

/// The error kinds the parser reports.  All of them end the call that
/// produced them; none is retried.
#[derive(Debug)]
pub enum ErrKind {
    /// A specification required more trailing tokens than remained.
    MissArg(SpecErr),
    /// A positional token arrived with no positional specification left.
    MissSpec(String),
    /// A positional specification was added after a remainder-capturing one.
    BadContext(String),
    /// An option token named a short character or long name that no
    /// registered specification carries; the payload is that character or
    /// name, without its dash prefix.
    UnknownOpt(String),
    /// A specification was added whose short character, long name or
    /// positional name is already taken; the payload is the taken identity.
    Collision(String),
}

impl View for ErrKind {
    type V = ErrKindV;

    open spec fn view(&self) -> ErrKindV {
        match self {
            ErrKind::MissArg(se) => ErrKindV::MissArg { spec: se.spec as int },
            ErrKind::MissSpec(_) => ErrKindV::MissSpec,
            ErrKind::BadContext(_) => ErrKindV::BadContext,
            ErrKind::UnknownOpt(s) => ErrKindV::UnknownOpt { name: s@ },
            ErrKind::Collision(s) => ErrKindV::Collision { name: s@ },
        }
    }
}

impl ErrKind {
    /// A second error with the same content.
    pub fn duplicate(&self) -> (r: ErrKind)
        ensures
            r@ == self@,
    {
        match self {
            ErrKind::MissArg(se) => ErrKind::MissArg(
                SpecErr { spec: se.spec, msg: se.msg.clone() },
            ),
            ErrKind::MissSpec(s) => ErrKind::MissSpec(s.clone()),
            ErrKind::BadContext(s) => ErrKind::BadContext(s.clone()),
            ErrKind::UnknownOpt(s) => ErrKind::UnknownOpt(s.clone()),
            ErrKind::Collision(s) => ErrKind::Collision(s.clone()),
        }
    }
}

} // verus!
