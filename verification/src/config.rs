//! Validation of a model configuration.
//!
//! The configuration is read here through what the rules look at: the counts, the
//! matrix shapes, and for every real-valued setting whether it lies in its range.
use vstd::prelude::*;

verus! {

/// One row of initial learning weights.
#[derive(Clone, Copy, Debug, PartialEq, Eq, Structural)]
pub struct WeightRow {
    /// Number of weights in the row.
    pub len: usize,
    /// Every weight is finite and nonnegative.
    pub finite_nonnegative: bool,
    /// Some weight is positive.
    pub any_positive: bool,
}

/// The cooling schedule, with its real parameters checked against their ranges.
#[derive(Clone, Copy, Debug, PartialEq, Eq, Structural)]
pub enum CoolingShape {
    /// Adaptive cooling from the variance of candidate qualities.
    Triki { initial_ok: bool, delta_ok: bool, dwell: usize },
    /// `T_initial / (1 + delta * k)` after `k` dwells.
    Cauchy { initial_ok: bool, delta_ok: bool, dwell: usize },
    /// `T_initial * 0.95^k` after `k` dwells.
    Geometric { initial_ok: bool, dwell: usize },
    /// Greedy acceptance.
    Greedy,
}

/// The communication style, with a frequency checked against `[0, 1]`.
#[derive(Clone, Debug)]
pub enum MeetingShape {
    /// Meetings with a constant probability per step.
    ConstantFrequency { frequency_ok: bool },
    /// Meetings every `interval` steps.
    RegularInterval { interval: usize },
    /// Meetings on the listed one-based steps.
    ScheduledMeetings { times: Vec<usize> },
    /// No meetings.
    Never,
}

/// The operational learning style, with the rows of its initial matrices.
#[derive(Clone, Debug)]
pub enum LearningShape {
    /// One row over the move operators; a row of length zero means uniform weights.
    Multinomial { rate_ok: bool, row: WeightRow },
    /// One row per previous operator; no rows means uniform weights.
    Markov { rate_ok: bool, rows: Vec<WeightRow> },
    /// State-by-state transitions and state-by-operator emissions; none means uniform.
    HiddenMarkov { rate_ok: bool, transitions: Vec<WeightRow>, emissions: Vec<WeightRow> },
    /// Uniform choice without learning.
    Uniform,
}

/// A configuration as the validation rules see it.
#[derive(Clone, Debug)]
pub struct Settings {
    /// Number of teams.
    pub teams: usize,
    /// Number of agents on each team.
    pub agents: usize,
    /// The self bias is finite and nonnegative.
    pub self_bias_ok: bool,
    /// The quality bias is finite and nonnegative.
    pub quality_bias_ok: bool,
    /// The satisficing fraction is finite and in `[0, 1]`.
    pub satisficing_ok: bool,
    /// The cooling schedule.
    pub cooling: CoolingShape,
    /// The communication style.
    pub meetings: MeetingShape,
    /// The operational learning style.
    pub learning: LearningShape,
}

/// Why a configuration is refused.
#[derive(Clone, Copy, Debug, PartialEq, Eq, Structural)]
pub enum ConfigError {
    /// There are no teams or no agents.
    EmptyPopulation,
    /// The self bias is negative or not finite.
    SelfBias,
    /// The quality bias is negative or not finite.
    QualityBias,
    /// The satisficing fraction lies outside `[0, 1]`.
    SatisficingFraction,
    /// The initial temperature is not finite and positive, or the dwell is zero.
    Temperature,
    /// The cooling coefficient is not finite and positive.
    TemperatureDelta,
    /// The meeting frequency lies outside `[0, 1]`.
    Frequency,
    /// The meeting interval is zero.
    Interval,
    /// A scheduled meeting is at step zero.
    MeetingStep,
    /// The learning rate lies outside `[0, 1)`.
    LearningRate,
    /// A weight row is empty, has a negative or nonfinite weight, or has no positive weight.
    WeightRow,
    /// The Markov matrix is not square.
    MarkovShape,
    /// Exactly one of the two hidden Markov matrices is given.
    HiddenMarkovPresence,
    /// The transition matrix is not square, or there is not one emission row per state.
    HiddenMarkovShape,
    /// The emission rows differ in length.
    EmissionWidth,
    /// The problem declares no move operator.
    NoMoves,
    /// A learning matrix does not match the number of move operators.
    MoveCount,
}

/// A usable weight row: nonempty, finite, nonnegative and not all zero.
pub open spec fn row_ok(row: WeightRow) -> bool {
    row.len > 0 && row.finite_nonnegative && row.any_positive
}

/// Every row is usable.
pub open spec fn rows_ok(rows: Seq<WeightRow>) -> bool {
    forall|i: int| 0 <= i < rows.len() ==> row_ok(#[trigger] rows[i])
}

/// Every row has `width` weights.
pub open spec fn rows_of_width(rows: Seq<WeightRow>, width: int) -> bool {
    forall|i: int| 0 <= i < rows.len() ==> (#[trigger] rows[i]).len == width
}

/// The first rule of the cooling schedule that fails, if any.
pub open spec fn cooling_error(cooling: CoolingShape) -> Option<ConfigError> {
    match cooling {
        CoolingShape::Greedy => None,
        CoolingShape::Geometric { initial_ok, dwell } => if !initial_ok || dwell == 0 {
            Some(ConfigError::Temperature)
        } else {
            None
        },
        CoolingShape::Cauchy { initial_ok, delta_ok, dwell }
        | CoolingShape::Triki { initial_ok, delta_ok, dwell } => if !initial_ok || dwell == 0 {
            Some(ConfigError::Temperature)
        } else if !delta_ok {
            Some(ConfigError::TemperatureDelta)
        } else {
            None
        },
    }
}

/// The first rule of the communication style that fails, if any.
pub open spec fn meeting_error(meetings: MeetingShape) -> Option<ConfigError> {
    match meetings {
        MeetingShape::ConstantFrequency { frequency_ok } => if !frequency_ok {
            Some(ConfigError::Frequency)
        } else {
            None
        },
        MeetingShape::RegularInterval { interval } => if interval == 0 {
            Some(ConfigError::Interval)
        } else {
            None
        },
        MeetingShape::ScheduledMeetings { times } => if times@.contains(0) {
            Some(ConfigError::MeetingStep)
        } else {
            None
        },
        MeetingShape::Never => None,
    }
}

/// The first rule of the learning style that fails, if any.
pub open spec fn learning_error(learning: LearningShape) -> Option<ConfigError> {
    match learning {
        LearningShape::Uniform => None,
        LearningShape::Multinomial { rate_ok, row } => if !rate_ok {
            Some(ConfigError::LearningRate)
        } else if row.len != 0 && !row_ok(row) {
            Some(ConfigError::WeightRow)
        } else {
            None
        },
        LearningShape::Markov { rate_ok, rows } => if !rate_ok {
            Some(ConfigError::LearningRate)
        } else if !rows_of_width(rows@, rows@.len() as int) {
            Some(ConfigError::MarkovShape)
        } else if !rows_ok(rows@) {
            Some(ConfigError::WeightRow)
        } else {
            None
        },
        LearningShape::HiddenMarkov { rate_ok, transitions, emissions } => if !rate_ok {
            Some(ConfigError::LearningRate)
        } else if (transitions@.len() == 0) != (emissions@.len() == 0) {
            Some(ConfigError::HiddenMarkovPresence)
        } else if !rows_of_width(transitions@, transitions@.len() as int)
            || emissions@.len() != transitions@.len() {
            Some(ConfigError::HiddenMarkovShape)
        } else if emissions@.len() > 0 && !rows_of_width(emissions@, emissions@[0].len as int) {
            Some(ConfigError::EmissionWidth)
        } else if !rows_ok(transitions@ + emissions@) {
            Some(ConfigError::WeightRow)
        } else {
            None
        },
    }
}

/// The first rule of `settings` that fails, if any, in the order the rules are checked.
pub open spec fn settings_error(settings: Settings) -> Option<ConfigError> {
    if settings.teams == 0 || settings.agents == 0 {
        Some(ConfigError::EmptyPopulation)
    } else if !settings.self_bias_ok {
        Some(ConfigError::SelfBias)
    } else if !settings.quality_bias_ok {
        Some(ConfigError::QualityBias)
    } else if !settings.satisficing_ok {
        Some(ConfigError::SatisficingFraction)
    } else if cooling_error(settings.cooling) is Some {
        cooling_error(settings.cooling)
    } else if meeting_error(settings.meetings) is Some {
        meeting_error(settings.meetings)
    } else {
        learning_error(settings.learning)
    }
}

/// The learning matrices fit a problem with `moves` move operators.
pub open spec fn fits_moves(learning: LearningShape, moves: int) -> bool {
    match learning {
        LearningShape::Multinomial { row, .. } => row.len == 0 || row.len == moves,
        LearningShape::Markov { rows, .. } => rows@.len() == 0 || (rows@.len() == moves
            && rows_of_width(rows@, moves)),
        LearningShape::HiddenMarkov { emissions, .. } => rows_of_width(emissions@, moves),
        LearningShape::Uniform => true,
    }
}

/// The first rule that fails for a problem with `moves` move operators, if any.
pub open spec fn moves_error(settings: Settings, moves: int) -> Option<ConfigError> {
    if settings_error(settings) is Some {
        settings_error(settings)
    } else if moves == 0 {
        Some(ConfigError::NoMoves)
    } else if !fits_moves(settings.learning, moves) {
        Some(ConfigError::MoveCount)
    } else {
        None
    }
}

/// `Ok` for no failed rule, otherwise the error of the first.
pub open spec fn outcome(error: Option<ConfigError>) -> Result<(), ConfigError> {
    match error {
        Some(e) => Err(e),
        None => Ok(()),
    }
}

/// A configuration accepted for a problem with `moves` move operators is accepted on its
/// own, and the problem declares at least one move operator.
pub proof fn accepted_for_moves_is_accepted(settings: Settings, moves: usize)
    requires
        moves_error(settings, moves as int) is None,
    ensures
        settings_error(settings) is None,
        moves > 0,
{
}

/// Empty initial matrices (uniform weights) with a learning rate in range are accepted and
/// fit a problem with any number of move operators.
pub proof fn empty_matrices_fit_any_moves(learning: LearningShape, moves: int)
    requires
        match learning {
            LearningShape::Multinomial { rate_ok, row } => rate_ok && row.len == 0,
            LearningShape::Markov { rate_ok, rows } => rate_ok && rows@.len() == 0,
            LearningShape::HiddenMarkov { rate_ok, transitions, emissions } => rate_ok
                && transitions@.len() == 0 && emissions@.len() == 0,
            LearningShape::Uniform => true,
        },
    ensures
        learning_error(learning) is None,
        fits_moves(learning, moves),
{
    if let LearningShape::HiddenMarkov { transitions, emissions, .. } = learning {
        assert(transitions@ + emissions@ =~= Seq::<WeightRow>::empty());
    }
}

/// A weight row is usable: it has a weight, every weight is finite and nonnegative, and some
/// weight is positive.
pub open spec fn usable_row(row: WeightRow) -> bool {
    &&& row.len >= 1
    &&& row.finite_nonnegative
    &&& row.any_positive
}

/// A configuration is accepted exactly when every rule holds: teams and agents exist, both
/// biases and the satisficing fraction are in range, the cooling schedule has a valid initial
/// temperature, a positive dwell and (Cauchy, Triki) a valid delta, a meeting frequency is in
/// range, an interval is positive and no meeting is at step zero, the learning rate is in range,
/// and every given weight row is usable, with square Markov and transition matrices, one
/// emission row per hidden state and emission rows of one width.
pub proof fn accepted_settings_satisfy_every_rule(s: Settings)
    ensures
        settings_error(s) is None <==> {
            &&& s.teams >= 1 && s.agents >= 1
            &&& s.self_bias_ok && s.quality_bias_ok && s.satisficing_ok
            &&& match s.cooling {
                CoolingShape::Greedy => true,
                CoolingShape::Geometric { initial_ok, dwell } => initial_ok && dwell >= 1,
                CoolingShape::Cauchy { initial_ok, delta_ok, dwell } => initial_ok && delta_ok
                    && dwell >= 1,
                CoolingShape::Triki { initial_ok, delta_ok, dwell } => initial_ok && delta_ok
                    && dwell >= 1,
            }
            &&& match s.meetings {
                MeetingShape::ConstantFrequency { frequency_ok } => frequency_ok,
                MeetingShape::RegularInterval { interval } => interval >= 1,
                MeetingShape::ScheduledMeetings { times } => forall|i: int|
                    0 <= i < times@.len() ==> #[trigger] times@[i] >= 1,
                MeetingShape::Never => true,
            }
            &&& match s.learning {
                LearningShape::Uniform => true,
                LearningShape::Multinomial { rate_ok, row } => rate_ok && (row.len == 0
                    || usable_row(row)),
                LearningShape::Markov { rate_ok, rows } => rate_ok && forall|i: int|
                    0 <= i < rows@.len() ==> (#[trigger] rows@[i]).len == rows@.len()
                        && usable_row(rows@[i]),
                LearningShape::HiddenMarkov { rate_ok, transitions, emissions } => {
                    &&& rate_ok
                    &&& emissions@.len() == transitions@.len()
                    &&& forall|i: int|
                        0 <= i < transitions@.len() ==> (#[trigger] transitions@[i]).len
                            == transitions@.len() && usable_row(transitions@[i])
                    &&& forall|i: int|
                        0 <= i < emissions@.len() ==> (#[trigger] emissions@[i]).len
                            == emissions@[0].len && usable_row(emissions@[i])
                },
            }
        },
{
    match s.meetings {
        MeetingShape::ScheduledMeetings { times } => {
            if times@.contains(0) {
                let i = choose|i: int| 0 <= i < times@.len() && times@[i] == 0;
                assert(!(times@[i] >= 1));
            }
            if !(forall|i: int| 0 <= i < times@.len() ==> #[trigger] times@[i] >= 1) {
                let i = choose|i: int| !(0 <= i < times@.len() ==> #[trigger] times@[i] >= 1);
                assert(times@.contains(times@[i]));
            }
        },
        _ => {},
    }
    match s.learning {
        LearningShape::HiddenMarkov { transitions, emissions, .. } => {
            lemma_rows_ok_concat(transitions@, emissions@);
        },
        _ => {},
    }
}

/// A configuration is accepted for a problem with `moves` move operators exactly when it is
/// accepted on its own, the problem has a move operator, and every given learning matrix is
/// laid out over those operators: a multinomial row has one weight per operator, a Markov
/// matrix one row per operator with one weight per operator, and every emission row one weight
/// per operator.
pub proof fn accepted_for_moves_exactly_when_shapes_match(s: Settings, moves: usize)
    ensures
        moves_error(s, moves as int) is None <==> {
            &&& settings_error(s) is None
            &&& moves >= 1
            &&& match s.learning {
                LearningShape::Uniform => true,
                LearningShape::Multinomial { row, .. } => row.len == 0 || row.len == moves,
                LearningShape::Markov { rows, .. } => rows@.len() == 0 || (rows@.len() == moves
                    && forall|i: int| 0 <= i < rows@.len() ==> (#[trigger] rows@[i]).len == moves),
                LearningShape::HiddenMarkov { emissions, .. } => forall|i: int|
                    0 <= i < emissions@.len() ==> (#[trigger] emissions@[i]).len == moves,
            }
        },
{
}

/// A refused configuration names a rule that fails: each error comes only from an input that
/// breaks the rule it names.
pub proof fn refusals_name_a_failing_rule(s: Settings, moves: usize)
    ensures
        moves_error(s, moves as int) matches Some(e) ==> match e {
            ConfigError::EmptyPopulation => s.teams == 0 || s.agents == 0,
            ConfigError::SelfBias => !s.self_bias_ok,
            ConfigError::QualityBias => !s.quality_bias_ok,
            ConfigError::SatisficingFraction => !s.satisficing_ok,
            ConfigError::Temperature => match s.cooling {
                CoolingShape::Geometric { initial_ok, dwell } => !initial_ok || dwell == 0,
                CoolingShape::Cauchy { initial_ok, dwell, .. } => !initial_ok || dwell == 0,
                CoolingShape::Triki { initial_ok, dwell, .. } => !initial_ok || dwell == 0,
                CoolingShape::Greedy => false,
            },
            ConfigError::TemperatureDelta => match s.cooling {
                CoolingShape::Cauchy { delta_ok, .. } => !delta_ok,
                CoolingShape::Triki { delta_ok, .. } => !delta_ok,
                _ => false,
            },
            ConfigError::Frequency => s.meetings matches MeetingShape::ConstantFrequency {
                frequency_ok,
            } && !frequency_ok,
            ConfigError::Interval => s.meetings matches MeetingShape::RegularInterval {
                interval,
            } && interval == 0,
            ConfigError::MeetingStep => s.meetings matches MeetingShape::ScheduledMeetings {
                times,
            } && exists|i: int| 0 <= i < times@.len() && #[trigger] times@[i] == 0,
            ConfigError::LearningRate => match s.learning {
                LearningShape::Multinomial { rate_ok, .. } => !rate_ok,
                LearningShape::Markov { rate_ok, .. } => !rate_ok,
                LearningShape::HiddenMarkov { rate_ok, .. } => !rate_ok,
                LearningShape::Uniform => false,
            },
            ConfigError::WeightRow => match s.learning {
                LearningShape::Multinomial { row, .. } => row.len != 0 && !usable_row(row),
                LearningShape::Markov { rows, .. } => exists|i: int|
                    0 <= i < rows@.len() && !usable_row(#[trigger] rows@[i]),
                LearningShape::HiddenMarkov { transitions, emissions, .. } => (exists|i: int|
                    0 <= i < transitions@.len() && !usable_row(#[trigger] transitions@[i])) || (
                exists|i: int| 0 <= i < emissions@.len() && !usable_row(#[trigger] emissions@[i])),
                LearningShape::Uniform => false,
            },
            ConfigError::MarkovShape => s.learning matches LearningShape::Markov { rows, .. }
                && exists|i: int| 0 <= i < rows@.len() && (#[trigger] rows@[i]).len != rows@.len(),
            ConfigError::HiddenMarkovPresence => s.learning matches LearningShape::HiddenMarkov {
                transitions,
                emissions,
                ..
            } && (transitions@.len() == 0) != (emissions@.len() == 0),
            ConfigError::HiddenMarkovShape => s.learning matches LearningShape::HiddenMarkov {
                transitions,
                emissions,
                ..
            } && (emissions@.len() != transitions@.len() || exists|i: int|
                0 <= i < transitions@.len() && (#[trigger] transitions@[i]).len
                    != transitions@.len()),
            ConfigError::EmissionWidth => s.learning matches LearningShape::HiddenMarkov {
                emissions,
                ..
            } && exists|i: int|
                0 <= i < emissions@.len() && (#[trigger] emissions@[i]).len != emissions@[0].len,
            ConfigError::NoMoves => moves == 0,
            ConfigError::MoveCount => match s.learning {
                LearningShape::Multinomial { row, .. } => row.len != 0 && row.len != moves,
                LearningShape::Markov { rows, .. } => rows@.len() != 0 && (rows@.len() != moves
                    || exists|i: int| 0 <= i < rows@.len() && (#[trigger] rows@[i]).len != moves),
                LearningShape::HiddenMarkov { emissions, .. } => exists|i: int|
                    0 <= i < emissions@.len() && (#[trigger] emissions@[i]).len != moves,
                LearningShape::Uniform => false,
            },
        },
{
    match s.learning {
        LearningShape::HiddenMarkov { transitions, emissions, .. } => {
            lemma_rows_ok_concat(transitions@, emissions@);
        },
        _ => {},
    }
    if let MeetingShape::ScheduledMeetings { times } = s.meetings {
        if times@.contains(0) {
            let i = choose|i: int| 0 <= i < times@.len() && times@[i] == 0;
            assert(times@[i] == 0);
        }
    }
}

/// Whether every row has `width` weights.
fn all_of_width(rows: &Vec<WeightRow>, width: usize) -> (r: bool)
    ensures
        r == rows_of_width(rows@, width as int),
{
    let mut k: usize = 0;
    while k < rows.len()
        invariant
            k <= rows@.len(),
            forall|i: int| 0 <= i < k ==> (#[trigger] rows@[i]).len == width,
        decreases rows@.len() - k,
    {
        if rows[k].len != width {
            return false;
        }
        k += 1;
    }
    true
}

/// Whether a weight row is usable.
fn usable(row: &WeightRow) -> (r: bool)
    ensures
        r == row_ok(*row),
{
    row.len > 0 && row.finite_nonnegative && row.any_positive
}

/// Whether every row is usable.
fn all_usable(rows: &Vec<WeightRow>) -> (r: bool)
    ensures
        r == rows_ok(rows@),
{
    let mut k: usize = 0;
    while k < rows.len()
        invariant
            k <= rows@.len(),
            forall|i: int| 0 <= i < k ==> row_ok(#[trigger] rows@[i]),
        decreases rows@.len() - k,
    {
        if !usable(&rows[k]) {
            return false;
        }
        k += 1;
    }
    true
}

/// Check the cooling schedule.
fn check_cooling(cooling: &CoolingShape) -> (r: Result<(), ConfigError>)
    ensures
        r == outcome(cooling_error(*cooling)),
{
    match cooling {
        CoolingShape::Greedy => Ok(()),
        CoolingShape::Geometric { initial_ok, dwell } => {
            if !*initial_ok || *dwell == 0 {
                Err(ConfigError::Temperature)
            } else {
                Ok(())
            }
        },
        CoolingShape::Cauchy { initial_ok, delta_ok, dwell }
        | CoolingShape::Triki { initial_ok, delta_ok, dwell } => {
            if !*initial_ok || *dwell == 0 {
                Err(ConfigError::Temperature)
            } else if !*delta_ok {
                Err(ConfigError::TemperatureDelta)
            } else {
                Ok(())
            }
        },
    }
}

/// Check the communication style.
fn check_meetings(meetings: &MeetingShape) -> (r: Result<(), ConfigError>)
    ensures
        r == outcome(meeting_error(*meetings)),
{
    match meetings {
        MeetingShape::ConstantFrequency { frequency_ok } => {
            if !*frequency_ok {
                Err(ConfigError::Frequency)
            } else {
                Ok(())
            }
        },
        MeetingShape::RegularInterval { interval } => {
            if *interval == 0 {
                Err(ConfigError::Interval)
            } else {
                Ok(())
            }
        },
        MeetingShape::ScheduledMeetings { times } => {
            if crate::schedule::lists_step(times, 0) {
                Err(ConfigError::MeetingStep)
            } else {
                Ok(())
            }
        },
        MeetingShape::Never => Ok(()),
    }
}

/// Check the learning style.
fn check_learning(learning: &LearningShape) -> (r: Result<(), ConfigError>)
    ensures
        r == outcome(learning_error(*learning)),
{
    match learning {
        LearningShape::Uniform => Ok(()),
        LearningShape::Multinomial { rate_ok, row } => {
            if !*rate_ok {
                Err(ConfigError::LearningRate)
            } else if row.len != 0 && !usable(row) {
                Err(ConfigError::WeightRow)
            } else {
                Ok(())
            }
        },
        LearningShape::Markov { rate_ok, rows } => {
            if !*rate_ok {
                Err(ConfigError::LearningRate)
            } else if !all_of_width(rows, rows.len()) {
                Err(ConfigError::MarkovShape)
            } else if !all_usable(rows) {
                Err(ConfigError::WeightRow)
            } else {
                Ok(())
            }
        },
        LearningShape::HiddenMarkov { rate_ok, transitions, emissions } => {
            if !*rate_ok {
                Err(ConfigError::LearningRate)
            } else if (transitions.len() == 0) != (emissions.len() == 0) {
                Err(ConfigError::HiddenMarkovPresence)
            } else if !all_of_width(transitions, transitions.len())
                || emissions.len() != transitions.len() {
                Err(ConfigError::HiddenMarkovShape)
            } else if emissions.len() > 0 && !all_of_width(emissions, emissions[0].len) {
                Err(ConfigError::EmissionWidth)
            } else if !all_usable(transitions) || !all_usable(emissions) {
                proof {
                    lemma_rows_ok_concat(transitions@, emissions@);
                }
                Err(ConfigError::WeightRow)
            } else {
                proof {
                    lemma_rows_ok_concat(transitions@, emissions@);
                }
                Ok(())
            }
        },
    }
}

/// Rows of a concatenation are usable exactly when the rows of both parts are.
proof fn lemma_rows_ok_concat(a: Seq<WeightRow>, b: Seq<WeightRow>)
    ensures
        rows_ok(a + b) <==> (rows_ok(a) && rows_ok(b)),
{
    let c = a + b;
    if rows_ok(c) {
        assert forall|i: int| 0 <= i < a.len() implies row_ok(#[trigger] a[i]) by {
            assert(c[i] == a[i]);
        }
        assert forall|i: int| 0 <= i < b.len() implies row_ok(#[trigger] b[i]) by {
            assert(c[a.len() + i] == b[i]);
        }
    }
    if rows_ok(a) && rows_ok(b) {
        assert forall|i: int| 0 <= i < c.len() implies row_ok(#[trigger] c[i]) by {
            if i < a.len() {
                assert(c[i] == a[i]);
            } else {
                assert(c[i] == b[i - a.len()]);
            }
        }
    }
}

/// Validate a configuration independently of the problem's move count, reporting the
/// first rule that fails.
pub fn validate(settings: &Settings) -> (r: Result<(), ConfigError>)
    ensures
        r == outcome(settings_error(*settings)),
{
    if settings.teams == 0 || settings.agents == 0 {
        return Err(ConfigError::EmptyPopulation);
    }
    if !settings.self_bias_ok {
        return Err(ConfigError::SelfBias);
    }
    if !settings.quality_bias_ok {
        return Err(ConfigError::QualityBias);
    }
    if !settings.satisficing_ok {
        return Err(ConfigError::SatisficingFraction);
    }
    check_cooling(&settings.cooling)?;
    check_meetings(&settings.meetings)?;
    check_learning(&settings.learning)
}

/// Validate a configuration for a problem with `moves` move operators, reporting the
/// first rule that fails.
pub fn validate_for_moves(settings: &Settings, moves: usize) -> (r: Result<(), ConfigError>)
    ensures
        r == outcome(moves_error(*settings, moves as int)),
{
    validate(settings)?;
    if moves == 0 {
        return Err(ConfigError::NoMoves);
    }
    let fits = match &settings.learning {
        LearningShape::Multinomial { row, .. } => row.len == 0 || row.len == moves,
        LearningShape::Markov { rows, .. } => rows.len() == 0 || (rows.len() == moves
            && all_of_width(rows, moves)),
        LearningShape::HiddenMarkov { emissions, .. } => all_of_width(emissions, moves),
        LearningShape::Uniform => true,
    };
    if !fits {
        return Err(ConfigError::MoveCount);
    }
    Ok(())
}

} // verus!
