//! Step bookkeeping: when a team meets, and where an agent stands in its cooling schedule.
use vstd::prelude::*;

verus! {

/// When the agents of a team share their solutions.
#[derive(Clone, Debug)]
pub enum MeetingRule {
    /// On each step with a fixed probability; the caller draws against it.
    ConstantFrequency,
    /// On every step that is a multiple of `interval`.
    RegularInterval { interval: usize },
    /// On the listed one-based steps.
    ScheduledMeetings { times: Vec<usize> },
    /// Never: the agents search independently.
    Never,
}

/// Whether `rule` calls a meeting on one-based step `step`, where `chance` is the
/// outcome of this step's draw for a constant-frequency rule. An interval of zero
/// calls a meeting only on step zero, which a team never reaches.
pub open spec fn meets_at(rule: MeetingRule, step: int, chance: bool) -> bool {
    match rule {
        MeetingRule::ConstantFrequency => chance,
        MeetingRule::RegularInterval { interval } => if interval == 0 {
            step == 0
        } else {
            step % (interval as int) == 0
        },
        MeetingRule::ScheduledMeetings { times } => times@.contains(step as usize),
        MeetingRule::Never => false,
    }
}

/// A regular-interval rule with a positive interval calls a meeting on step `step` exactly when
/// `step` is a whole multiple of the interval, whatever the draw.
pub proof fn regular_meetings_fall_on_multiples(interval: usize, step: int, chance: bool)
    requires
        interval > 0,
    ensures
        meets_at(MeetingRule::RegularInterval { interval }, step, chance) <==> exists|k: int|
            #[trigger] (k * interval) == step,
{
    let rule = MeetingRule::RegularInterval { interval };
    let q = step / (interval as int);
    vstd::arithmetic::div_mod::lemma_fundamental_div_mod(step, interval as int);
    if meets_at(rule, step, chance) {
        assert((q * interval) == step) by (nonlinear_arith)
            requires
                step == interval * q + step % (interval as int),
                step % (interval as int) == 0,
        ;
    }
    if exists|k: int| #[trigger] (k * interval) == step {
        let k = choose|k: int| #[trigger] (k * interval) == step;
        vstd::arithmetic::div_mod::lemma_mod_multiples_basic(k, interval as int);
    }
}

/// Scheduled meetings happen exactly on the listed steps, a constant-frequency rule follows the
/// step's draw alone, and a team without meetings never meets.
pub proof fn other_rules_decide_as_documented(times: Vec<usize>, step: int, chance: bool)
    requires
        0 <= step <= usize::MAX,
    ensures
        meets_at(MeetingRule::ScheduledMeetings { times }, step, chance) <==> exists|i: int|
            0 <= i < times@.len() && #[trigger] times@[i] == step,
        meets_at(MeetingRule::ConstantFrequency, step, chance) == chance,
        !meets_at(MeetingRule::Never, step, chance),
{
    let rule = MeetingRule::ScheduledMeetings { times };
    if meets_at(rule, step, chance) {
        let i = choose|i: int| 0 <= i < times@.len() && times@[i] == step as usize;
        assert(times@[i] == step);
    }
    if exists|i: int| 0 <= i < times@.len() && #[trigger] times@[i] == step {
        let i = choose|i: int| 0 <= i < times@.len() && #[trigger] times@[i] == step;
        assert(times@[i] == step as usize);
    }
}

/// Whether `rule` calls a meeting on step `step`.
pub fn meets(rule: &MeetingRule, step: usize, chance: bool) -> (r: bool)
    ensures
        r == meets_at(*rule, step as int, chance),
{
    match rule {
        MeetingRule::ConstantFrequency => chance,
        MeetingRule::RegularInterval { interval } => {
            if *interval == 0 {
                step == 0
            } else {
                step % *interval == 0
            }
        },
        MeetingRule::ScheduledMeetings { times } => lists_step(times, step),
        MeetingRule::Never => false,
    }
}

/// Whether `step` is one of `times`.
pub(crate) fn lists_step(times: &Vec<usize>, step: usize) -> (r: bool)
    ensures
        r == times@.contains(step),
{
    let mut k: usize = 0;
    while k < times.len()
        invariant
            k <= times@.len(),
            forall|i: int| 0 <= i < k ==> times@[i] != step,
        decreases times@.len() - k,
    {
        if times[k] == step {
            assert(times@[k as int] == step);
            return true;
        }
        k += 1;
    }
    false
}

/// A team's meeting rule together with the one-based number of its next step.
#[derive(Clone, Debug)]
pub struct MeetingClock {
    rule: MeetingRule,
    step: usize,
}

impl MeetingClock {
    /// The rule that this clock follows.
    pub closed spec fn rule_spec(&self) -> MeetingRule {
        self.rule
    }

    /// The one-based number of the next step.
    pub closed spec fn step_spec(&self) -> int {
        self.step as int
    }

    /// A clock before the first step.
    pub fn new(rule: MeetingRule) -> (c: MeetingClock)
        ensures
            c.rule_spec() == rule,
            c.step_spec() == 1,
    {
        MeetingClock { rule, step: 1 }
    }

    /// The one-based number of the next step.
    pub fn step(&self) -> (s: usize)
        ensures
            s == self.step_spec(),
    {
        self.step
    }

    /// Start the next step: report whether the team meets first, then count the step.
    pub fn tick(&mut self, chance: bool) -> (meet: bool)
        requires
            old(self).step_spec() < usize::MAX,
        ensures
            meet == meets_at(old(self).rule_spec(), old(self).step_spec(), chance),
            final(self).rule_spec() == old(self).rule_spec(),
            final(self).step_spec() == old(self).step_spec() + 1,
    {
        let meet = meets(&self.rule, self.step, chance);
        self.step = self.step + 1;
        meet
    }
}

/// Number of dwells completed after `iteration` search steps.
pub fn cooling_stage(iteration: usize, dwell: usize) -> (k: usize)
    requires
        dwell > 0,
    ensures
        k == iteration / dwell,
{
    iteration / dwell
}

/// Whether an adaptive update is due before step `iteration`: at least one step
/// is done and the steps done fill a whole number of dwells.
pub fn dwell_complete(iteration: usize, dwell: usize) -> (r: bool)
    requires
        dwell > 0,
    ensures
        r == (iteration > 0 && iteration % dwell == 0),
{
    iteration > 0 && iteration % dwell == 0
}

} // verus!
