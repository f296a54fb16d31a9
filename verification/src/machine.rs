//! The machine: current state, tape, head position and halt flag, with
//! the single-step transition against a rule table.

use vstd::prelude::*;

use crate::rules::{Rule, RuleV, Step};
use crate::symbol::Symbol;

verus! {

/// What happens when the head moves right off the end of the tape: a
/// fixed tape never grows, an auto-extending tape appends one copy of the
/// default symbol chosen at construction time.
pub enum Growth {
    Fixed,
    AutoExtend(Symbol),
}

/// The mathematical image of a growth policy.
pub ghost enum GrowthV {
    Fixed,
    AutoExtend(Seq<char>),
}

impl View for Growth {
    type V = GrowthV;

    open spec fn view(&self) -> GrowthV {
        match self {
            Growth::Fixed => GrowthV::Fixed,
            Growth::AutoExtend(default) => GrowthV::AutoExtend(default@),
        }
    }
}

/// The one fatal run-time condition: the head left the tape. Moving left
/// at index zero is never wrapped or clamped, and a fixed tape has no
/// cell past its last index.
#[derive(Clone, Copy, PartialEq, Eq, Structural, Debug)]
pub enum MachineError {
    OutOfBounds,
}

/// Raised at construction when the initial tape holds no symbol: the
/// head must always rest on a cell.
#[derive(Clone, Copy, PartialEq, Eq, Structural, Debug)]
pub struct EmptyTapeError;

/// A machine configuration. The tape is never empty and the head always
/// rests on a tape cell.
pub struct Machine {
    pub state: Symbol,
    pub tape: Vec<Symbol>,
    pub head: usize,
    pub halt: bool,
    pub growth: Growth,
}

/// The mathematical image of a configuration.
#[verifier::ext_equal]
pub ghost struct MachineV {
    pub state: Seq<char>,
    pub tape: Seq<Seq<char>>,
    pub head: int,
    pub halt: bool,
    pub growth: GrowthV,
}

impl View for Machine {
    type V = MachineV;

    open spec fn view(&self) -> MachineV {
        MachineV {
            state: self.state@,
            tape: self.tape.deep_view(),
            head: self.head as int,
            halt: self.halt,
            growth: self.growth@,
        }
    }
}

/// A rule fires when its state equals the machine's state and its read
/// symbol equals the symbol under the head.
pub open spec fn rule_fires(rule: RuleV, state: Seq<char>, read: Seq<char>) -> bool {
    rule.state == state && rule.read == read
}

/// The index of the first rule, in declared order, that fires on the
/// given state and read symbol; `None` if none does. Lookup is a linear
/// first-match scan: later duplicates of a (state, read) pair never fire.
pub open spec fn first_match(rules: Seq<RuleV>, state: Seq<char>, read: Seq<char>) -> Option<int>
    decreases rules.len(),
{
    if rules.len() == 0 {
        None
    } else if rule_fires(rules[0], state, read) {
        Some(0int)
    } else {
        match first_match(rules.drop_first(), state, read) {
            None => None,
            Some(i) => Some(i + 1),
        }
    }
}

/// No rule in the table fires on the given state and read symbol.
pub open spec fn no_match(rules: Seq<RuleV>, state: Seq<char>, read: Seq<char>) -> bool {
    forall|i: int| 0 <= i < rules.len() ==> !rule_fires(rules[i], state, read)
}

/// The machine after one step. With no matching rule the step is a
/// no-op. Otherwise the first matching rule fires: the cell under the
/// head takes the rule's write symbol, the head moves, the state becomes
/// the rule's next symbol and the halt flag clears. `Err` is the fatal
/// out-of-bounds case — its payload is the configuration left behind,
/// with the write already applied but no move taken.
pub open spec fn step_spec(m: MachineV, rules: Seq<RuleV>) -> Result<MachineV, MachineV> {
    match first_match(rules, m.state, m.tape[m.head]) {
        None => Ok(m),
        Some(i) => {
            let rule = rules[i];
            let written = m.tape.update(m.head, rule.write);
            let stranded = MachineV {
                state: m.state,
                tape: written,
                head: m.head,
                halt: m.halt,
                growth: m.growth,
            };
            match rule.step {
                Step::Left => {
                    if m.head == 0 {
                        Err(stranded)
                    } else {
                        Ok(
                            MachineV {
                                state: rule.next,
                                tape: written,
                                head: m.head - 1,
                                halt: false,
                                growth: m.growth,
                            },
                        )
                    }
                },
                Step::Right => {
                    match m.growth {
                        GrowthV::AutoExtend(default) => Ok(
                            MachineV {
                                state: rule.next,
                                tape: if m.head + 1 >= written.len() {
                                    written.push(default)
                                } else {
                                    written
                                },
                                head: m.head + 1,
                                halt: false,
                                growth: m.growth,
                            },
                        ),
                        GrowthV::Fixed => {
                            if m.head + 1 >= written.len() {
                                Err(stranded)
                            } else {
                                Ok(
                                    MachineV {
                                        state: rule.next,
                                        tape: written,
                                        head: m.head + 1,
                                        halt: false,
                                        growth: m.growth,
                                    },
                                )
                            }
                        },
                    }
                },
            }
        },
    }
}

/// If some rule at `i` fires and none before it does, the scan picks
/// exactly `i`.
pub proof fn lemma_first_match_at(rules: Seq<RuleV>, state: Seq<char>, read: Seq<char>, i: int)
    requires
        0 <= i < rules.len(),
        rule_fires(rules[i], state, read),
        forall|j: int| 0 <= j < i ==> !rule_fires(rules[j], state, read),
    ensures
        first_match(rules, state, read) == Some(i),
    decreases i,
{
    if i > 0 {
        assert forall|j: int| 0 <= j < i - 1 implies !rule_fires(
            rules.drop_first()[j],
            state,
            read,
        ) by {
            assert(rules.drop_first()[j] == rules[j + 1]);
        }
        assert(rules.drop_first()[i - 1] == rules[i]);
        lemma_first_match_at(rules.drop_first(), state, read, i - 1);
    }
}

/// If no rule fires, the scan comes back empty.
pub proof fn lemma_first_match_none(rules: Seq<RuleV>, state: Seq<char>, read: Seq<char>)
    requires
        no_match(rules, state, read),
    ensures
        first_match(rules, state, read) is None,
    decreases rules.len(),
{
    if rules.len() > 0 {
        assert forall|j: int| 0 <= j < rules.len() - 1 implies !rule_fires(
            rules.drop_first()[j],
            state,
            read,
        ) by {
            assert(rules.drop_first()[j] == rules[j + 1]);
        }
        lemma_first_match_none(rules.drop_first(), state, read);
    }
}

/// What the scan's answer means: a found index is in range, fires, and
/// nothing before it fires; an empty answer means nothing fires at all.
pub proof fn lemma_first_match_characterization(
    rules: Seq<RuleV>,
    state: Seq<char>,
    read: Seq<char>,
)
    ensures
        match first_match(rules, state, read) {
            Some(i) => 0 <= i < rules.len() && rule_fires(rules[i], state, read) && forall|j: int|
                0 <= j < i ==> !rule_fires(rules[j], state, read),
            None => no_match(rules, state, read),
        },
    decreases rules.len(),
{
    if rules.len() > 0 && !rule_fires(rules[0], state, read) {
        lemma_first_match_characterization(rules.drop_first(), state, read);
        assert forall|j: int| 0 <= j < rules.len() - 1 implies rules.drop_first()[j] == rules[j
            + 1] by {}
        match first_match(rules, state, read) {
            Some(i) => {
                assert(first_match(rules.drop_first(), state, read) == Some(i - 1));
                assert forall|j: int| 0 <= j < i implies !rule_fires(rules[j], state, read) by {
                    if j > 0 {
                        assert(rules[j] == rules.drop_first()[j - 1]);
                    }
                }
            },
            None => {
                assert forall|j: int| 0 <= j < rules.len() implies !rule_fires(
                    rules[j],
                    state,
                    read,
                ) by {
                    if j > 0 {
                        assert(rules[j] == rules.drop_first()[j - 1]);
                    }
                }
            },
        }
    }
}

/// The first matching rule in file order — and only it — decides a step:
/// of two rules that both fire on the same (state, read) pair, the later
/// one is never the one chosen, and the chosen index is never past the
/// earlier of the two.
pub proof fn lemma_first_match_wins(
    rules: Seq<RuleV>,
    state: Seq<char>,
    read: Seq<char>,
    i: int,
    j: int,
)
    requires
        0 <= i < j < rules.len(),
        rule_fires(rules[i], state, read),
    ensures
        first_match(rules, state, read) != Some(j),
        first_match(rules, state, read) matches Some(k) && k <= i,
{
    lemma_first_match_characterization(rules, state, read);
    match first_match(rules, state, read) {
        Some(k) => {
            if k > i {
                assert(!rule_fires(rules[i], state, read));
            }
        },
        None => {
            assert(!rule_fires(rules[i], state, read));
        },
    }
}

impl Machine {
    /// The configuration invariant: the head rests on a tape cell, so the
    /// tape is never empty.
    pub open spec fn wf(&self) -> bool {
        self.head < self.tape.len()
    }

    /// A machine over the given tape and growth policy, in the entry
    /// state `Inc` with the head on the leftmost cell, not yet halted.
    /// An empty tape gives the head no cell to rest on and is refused.
    pub fn new(tape: Vec<Symbol>, growth: Growth) -> (r: Result<Machine, EmptyTapeError>)
        ensures
            tape.len() == 0 <==> r is Err,
            r matches Ok(m) ==> {
                &&& m.wf()
                &&& m@.state == "Inc"@
                &&& m@.tape == tape.deep_view()
                &&& m@.head == 0
                &&& m@.halt == false
                &&& m@.growth == growth@
            },
    {
        if tape.len() == 0 {
            Err(EmptyTapeError)
        } else {
            Ok(Machine { state: Symbol::new("Inc"), tape, head: 0, halt: false, growth })
        }
    }

    /// A machine seeded from an externally supplied tape: the tape's last
    /// symbol, as it stands now, becomes the default fill value for
    /// rightward growth, and later rewrites of the tape do not track it.
    pub fn from_tape(tape: Vec<Symbol>) -> (r: Result<Machine, EmptyTapeError>)
        ensures
            tape.len() == 0 <==> r is Err,
            r matches Ok(m) ==> {
                &&& m.wf()
                &&& m@.state == "Inc"@
                &&& m@.tape == tape.deep_view()
                &&& m@.head == 0
                &&& m@.halt == false
                &&& m@.growth == GrowthV::AutoExtend(tape.deep_view().last())
            },
    {
        if tape.len() == 0 {
            Err(EmptyTapeError)
        } else {
            let default = tape[tape.len() - 1].clone();
            Machine::new(tape, Growth::AutoExtend(default))
        }
    }

    /// One transition: scan the rules in declared order and fire the
    /// first that matches the current state and the symbol under the
    /// head, as `step_spec` lays down. With no match the machine is left
    /// exactly as it was. On the fatal out-of-bounds move the write has
    /// happened but the head, state and halt flag stand unchanged.
    #[verifier::loop_isolation(false)]
    pub fn next(&mut self, rules: &Vec<Rule>) -> (r: Result<(), MachineError>)
        requires
            old(self).wf(),
        ensures
            match r {
                Ok(_) => {
                    &&& final(self).wf()
                    &&& step_spec(old(self)@, rules.deep_view()) == Ok::<MachineV, MachineV>(
                        final(self)@,
                    )
                },
                Err(_) => step_spec(old(self)@, rules.deep_view()) == Err::<MachineV, MachineV>(
                    final(self)@,
                ),
            },
            final(self).growth@ == old(self).growth@,
            no_match(rules.deep_view(), old(self)@.state, old(self)@.tape[old(self)@.head]) ==> (r
                is Ok && *final(self) == *old(self)),
    {
        let ghost rs = rules.deep_view();
        let ghost m0 = self@;
        let ghost read0 = m0.tape[m0.head];
        let n = rules.len();
        let mut idx: usize = 0;
        while idx < n
            invariant
                idx <= n,
                *self == *old(self),
                forall|j: int| 0 <= j < idx ==> !rule_fires(rs[j], m0.state, read0),
            decreases n - idx,
        {
            let rule = &rules[idx];
            if rule.state == self.state && rule.read == self.tape[self.head] {
                proof {
                    lemma_first_match_at(rs, m0.state, read0, idx as int);
                }
                let h = self.head;
                self.tape[h] = rule.write.clone();
                proof {
                    assert(self.tape.deep_view() =~= m0.tape.update(m0.head, rs[idx as int].write));
                }
                match rule.step {
                    Step::Left => {
                        if h == 0 {
                            return Err(MachineError::OutOfBounds);
                        }
                        self.head = h - 1;
                    },
                    Step::Right => {
                        let moved = h + 1;
                        match &self.growth {
                            Growth::AutoExtend(default) => {
                                if moved >= self.tape.len() {
                                    let fill = default.clone();
                                    let ghost written = self.tape.deep_view();
                                    self.tape.push(fill);
                                    proof {
                                        assert(self.tape.deep_view() =~= written.push(
                                            m0.growth->AutoExtend_0,
                                        ));
                                    }
                                }
                                self.head = moved;
                            },
                            Growth::Fixed => {
                                if moved >= self.tape.len() {
                                    return Err(MachineError::OutOfBounds);
                                }
                                self.head = moved;
                            },
                        }
                    },
                }
                self.state = rule.next.clone();
                self.halt = false;
                return Ok(());
            }
            idx = idx + 1;
        }
        proof {
            lemma_first_match_none(rs, m0.state, read0);
        }
        Ok(())
    }

    /// One driver iteration after the configuration has been rendered:
    /// set the halt flag optimistically, then step. A fired rule clears
    /// the flag; with no matching rule the flag stays set and the rest of
    /// the machine stands untouched — halting is inferred, never declared
    /// by the rule table.
    pub fn advance(&mut self, rules: &Vec<Rule>) -> (r: Result<(), MachineError>)
        requires
            old(self).wf(),
        ensures
            match r {
                Ok(_) => {
                    &&& final(self).wf()
                    &&& step_spec(halted(old(self)@), rules.deep_view()) == Ok::<
                        MachineV,
                        MachineV,
                    >(final(self)@)
                },
                Err(_) => step_spec(halted(old(self)@), rules.deep_view()) == Err::<
                    MachineV,
                    MachineV,
                >(final(self)@),
            },
            final(self).growth@ == old(self).growth@,
            no_match(rules.deep_view(), old(self)@.state, old(self)@.tape[old(self)@.head]) ==> (r
                is Ok && final(self)@ == halted(old(self)@)),
    {
        self.halt = true;
        proof {
            assert(self@ =~= halted(old(self)@));
        }
        self.next(rules)
    }
}

/// The same configuration with its halt flag set: the driver's
/// optimistic guess before each step.
pub open spec fn halted(m: MachineV) -> MachineV {
    MachineV { state: m.state, tape: m.tape, head: m.head, halt: true, growth: m.growth }
}

/// With no matching rule a step is a no-op: a machine whose halt flag is
/// already set stays exactly as it is, and the run has halted normally.
pub proof fn lemma_no_match_halts(m: MachineV, rules: Seq<RuleV>)
    requires
        no_match(rules, m.state, m.tape[m.head]),
    ensures
        step_spec(m, rules) == Ok::<MachineV, MachineV>(m),
{
    lemma_first_match_none(rules, m.state, m.tape[m.head]);
}

/// A matching rule that moves left while the head is at index zero is a
/// fatal boundary error — the run aborts rather than wrap or clamp.
pub proof fn lemma_left_at_origin_is_fatal(m: MachineV, rules: Seq<RuleV>, i: int)
    requires
        m.head == 0,
        first_match(rules, m.state, m.tape[m.head]) == Some(i),
        0 <= i < rules.len(),
        rules[i].step == Step::Left,
    ensures
        step_spec(m, rules) is Err,
{
}

/// Stepping right at the last tape index under the auto-extend policy
/// appends exactly one copy of the default symbol fixed at construction
/// time; the rest of the tape is the stepped tape, and the policy — with
/// its default — carries over unchanged.
pub proof fn lemma_right_growth(m: MachineV, rules: Seq<RuleV>, default: Seq<char>, i: int)
    requires
        m.growth == GrowthV::AutoExtend(default),
        0 <= m.head < m.tape.len(),
        m.head == m.tape.len() - 1,
        first_match(rules, m.state, m.tape[m.head]) == Some(i),
        0 <= i < rules.len(),
        rules[i].step == Step::Right,
    ensures
        step_spec(m, rules) matches Ok(next) && {
            &&& next.tape.len() == m.tape.len() + 1
            &&& next.tape.last() == default
            &&& next.tape.drop_last() == m.tape.update(m.head, rules[i].write)
            &&& next.growth == m.growth
        },
{
    let written = m.tape.update(m.head, rules[i].write);
    assert(written.push(default).drop_last() =~= written);
}

} // verus!
