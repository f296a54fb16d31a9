//! Transition rules: the records a rule file describes.

use vstd::prelude::*;

use crate::symbol::Symbol;

verus! {

/// The direction the head moves after a rule fires.
#[derive(Clone, Copy, PartialEq, Eq, Structural, Debug)]
pub enum Step {
    Left,
    Right,
}

/// One transition rule: when the machine is in state `state` and the
/// symbol under the head is `read`, write `write`, move the head by
/// `step`, and enter state `next`. Rules are immutable once parsed.
#[derive(PartialEq, Debug)]
pub struct Rule {
    pub state: Symbol,
    pub read: Symbol,
    pub write: Symbol,
    pub next: Symbol,
    pub step: Step,
}

/// The mathematical image of a rule: each symbol as its character
/// sequence.
#[verifier::ext_equal]
pub ghost struct RuleV {
    pub state: Seq<char>,
    pub read: Seq<char>,
    pub write: Seq<char>,
    pub next: Seq<char>,
    pub step: Step,
}

impl View for Rule {
    type V = RuleV;

    open spec fn view(&self) -> RuleV {
        RuleV {
            state: self.state@,
            read: self.read@,
            write: self.write@,
            next: self.next@,
            step: self.step,
        }
    }
}

impl DeepView for Rule {
    type V = RuleV;

    open spec fn deep_view(&self) -> RuleV {
        self@
    }
}

} // verus!
