use cisat::config::{LearningShape, WeightRow};
use cisat::context::{shape_of, ContextKind, LearningContext};
use cisat::schedule::{cooling_stage, dwell_complete, meets, MeetingClock, MeetingRule};

/// The one-based steps on which a clock calls a meeting over `steps` steps, with the
/// constant-frequency draw succeeding exactly when `always` holds.
fn meeting_steps(rule: MeetingRule, steps: usize, always: bool) -> Vec<usize> {
    let mut clock = MeetingClock::new(rule);
    let mut met = vec![];
    for _ in 0..steps {
        let step = clock.step();
        if clock.tick(always) {
            met.push(step);
        }
    }
    met
}

#[test]
fn every_communication_style_uses_the_expected_steps() {
    assert_eq!(meeting_steps(MeetingRule::Never, 5, true), Vec::<usize>::new());
    assert_eq!(
        meeting_steps(MeetingRule::RegularInterval { interval: 2 }, 5, true),
        vec![2, 4]
    );
    assert_eq!(
        meeting_steps(MeetingRule::ScheduledMeetings { times: vec![1, 3, 5] }, 5, true),
        vec![1, 3, 5]
    );
    // Frequency zero: a draw in [0, 1) is never below it.
    assert_eq!(meeting_steps(MeetingRule::ConstantFrequency, 5, false), Vec::<usize>::new());
    // Frequency one: a draw in [0, 1) is always below it.
    assert_eq!(meeting_steps(MeetingRule::ConstantFrequency, 5, true), vec![1, 2, 3, 4, 5]);
}

#[test]
fn clocks_count_one_based_steps() {
    let mut clock = MeetingClock::new(MeetingRule::RegularInterval { interval: 1 });
    assert_eq!(clock.step(), 1);
    assert!(clock.tick(false));
    assert_eq!(clock.step(), 2);
    assert!(!meets(&MeetingRule::RegularInterval { interval: 0 }, 3, true));
    assert!(meets(&MeetingRule::RegularInterval { interval: 3 }, 9, false));
    assert!(!meets(&MeetingRule::ScheduledMeetings { times: vec![] }, 1, true));
}

#[test]
fn dwell_boundaries_follow_completed_steps() {
    assert_eq!(cooling_stage(0, 2), 0);
    assert_eq!(cooling_stage(1, 2), 0);
    assert_eq!(cooling_stage(2, 2), 1);
    assert_eq!(cooling_stage(7, 3), 2);
    assert!(!dwell_complete(0, 2));
    assert!(!dwell_complete(1, 2));
    assert!(dwell_complete(2, 2));
    assert!(dwell_complete(4, 2));
    assert!(dwell_complete(1, 1));
}

#[test]
fn learning_rows_follow_the_context_kind() {
    let single = LearningContext::new(ContextKind::Single, 1, 4);
    assert_eq!(single.row(), 0);
    assert!(single.last_operation() < 4);

    let mut markov = LearningContext::new(ContextKind::PreviousMove, 2, 2);
    markov.record(1);
    assert_eq!(markov.row(), 1);
    markov.record(0);
    assert_eq!(markov.row(), 0);

    let mut hidden = LearningContext::new(ContextKind::HiddenState, 3, 2);
    assert!(hidden.hidden_state() < 3);
    hidden.enter_state(2);
    assert_eq!(hidden.row(), 2);
    hidden.record(1);
    assert_eq!(hidden.row(), 2);
    assert_eq!(hidden.last_operation(), 1);
}

#[test]
fn initial_contexts_are_drawn_over_all_rows() {
    let mut states = std::collections::BTreeSet::new();
    let mut operations = std::collections::BTreeSet::new();
    for _ in 0..300 {
        let c = LearningContext::new(ContextKind::HiddenState, 3, 4);
        assert!(c.hidden_state() < 3 && c.last_operation() < 4);
        states.insert(c.hidden_state());
        operations.insert(c.last_operation());
    }
    assert_eq!(states.len(), 3);
    assert_eq!(operations.len(), 4);
}

#[test]
fn context_shapes_follow_the_learning_style() {
    let row = |len| WeightRow { len, finite_nonnegative: true, any_positive: true };
    assert_eq!(shape_of(&LearningShape::Uniform, 7), (ContextKind::Single, 1));
    assert_eq!(
        shape_of(&LearningShape::Multinomial { rate_ok: true, row: row(7) }, 7),
        (ContextKind::Single, 1)
    );
    assert_eq!(
        shape_of(&LearningShape::Markov { rate_ok: true, rows: vec![] }, 7),
        (ContextKind::PreviousMove, 7)
    );
    assert_eq!(
        shape_of(&LearningShape::Markov { rate_ok: true, rows: vec![row(2), row(2)] }, 2),
        (ContextKind::PreviousMove, 2)
    );
    assert_eq!(
        shape_of(
            &LearningShape::HiddenMarkov { rate_ok: true, transitions: vec![], emissions: vec![] },
            4
        ),
        (ContextKind::HiddenState, 4)
    );
    assert_eq!(
        shape_of(
            &LearningShape::HiddenMarkov {
                rate_ok: true,
                transitions: vec![row(3), row(3), row(3)],
                emissions: vec![row(2), row(2), row(2)],
            },
            2
        ),
        (ContextKind::HiddenState, 3)
    );
}
