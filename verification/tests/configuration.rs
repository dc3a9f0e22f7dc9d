use cisat::config::{
    validate, validate_for_moves, ConfigError, CoolingShape, LearningShape, MeetingShape, Settings,
    WeightRow,
};

/// The default configuration: one team of three agents, geometric cooling, no learning.
fn default_settings() -> Settings {
    Settings {
        teams: 1,
        agents: 3,
        self_bias_ok: true,
        quality_bias_ok: true,
        satisficing_ok: true,
        cooling: CoolingShape::Geometric {
            initial_ok: true,
            dwell: 1,
        },
        meetings: MeetingShape::Never,
        learning: LearningShape::Uniform,
    }
}

fn good_row(len: usize) -> WeightRow {
    WeightRow {
        len,
        finite_nonnegative: true,
        any_positive: true,
    }
}

#[test]
fn invalid_parameter_boundaries_and_learning_shapes_are_rejected() {
    let invalid = vec![
        // zero agents
        Settings {
            agents: 0,
            ..default_settings()
        },
        // zero teams
        Settings {
            teams: 0,
            ..default_settings()
        },
        // self bias NaN
        Settings {
            self_bias_ok: false,
            ..default_settings()
        },
        // quality bias -1
        Settings {
            quality_bias_ok: false,
            ..default_settings()
        },
        // satisficing fraction infinite
        Settings {
            satisficing_ok: false,
            ..default_settings()
        },
        Settings {
            meetings: MeetingShape::RegularInterval { interval: 0 },
            ..default_settings()
        },
        // frequency NaN
        Settings {
            meetings: MeetingShape::ConstantFrequency {
                frequency_ok: false,
            },
            ..default_settings()
        },
        Settings {
            meetings: MeetingShape::ScheduledMeetings { times: vec![0] },
            ..default_settings()
        },
        Settings {
            cooling: CoolingShape::Geometric {
                initial_ok: true,
                dwell: 0,
            },
            ..default_settings()
        },
        // Cauchy with delta -1
        Settings {
            cooling: CoolingShape::Cauchy {
                initial_ok: true,
                delta_ok: false,
                dwell: 1,
            },
            ..default_settings()
        },
        // Multinomial with learning rate 1
        Settings {
            learning: LearningShape::Multinomial {
                rate_ok: false,
                row: good_row(0),
            },
            ..default_settings()
        },
        // Multinomial with weights [0, 0]
        Settings {
            learning: LearningShape::Multinomial {
                rate_ok: true,
                row: WeightRow {
                    len: 2,
                    finite_nonnegative: true,
                    any_positive: false,
                },
            },
            ..default_settings()
        },
        // Markov with [[1]]
        Settings {
            learning: LearningShape::Markov {
                rate_ok: true,
                rows: vec![good_row(1)],
            },
            ..default_settings()
        },
        // hidden Markov with transitions [[1]] and no emissions
        Settings {
            learning: LearningShape::HiddenMarkov {
                rate_ok: true,
                transitions: vec![good_row(1)],
                emissions: vec![],
            },
            ..default_settings()
        },
        // hidden Markov with transitions [[1]] and emissions [[1]]
        Settings {
            learning: LearningShape::HiddenMarkov {
                rate_ok: true,
                transitions: vec![good_row(1)],
                emissions: vec![good_row(1)],
            },
            ..default_settings()
        },
    ];
    for settings in invalid {
        assert!(validate_for_moves(&settings, 2).is_err());
    }
    assert!(validate_for_moves(&default_settings(), 0).is_err());
}

#[test]
fn each_rule_reports_its_own_error() {
    let cases = vec![
        (
            Settings {
                teams: 0,
                ..default_settings()
            },
            ConfigError::EmptyPopulation,
        ),
        (
            Settings {
                self_bias_ok: false,
                ..default_settings()
            },
            ConfigError::SelfBias,
        ),
        (
            Settings {
                quality_bias_ok: false,
                ..default_settings()
            },
            ConfigError::QualityBias,
        ),
        (
            Settings {
                satisficing_ok: false,
                ..default_settings()
            },
            ConfigError::SatisficingFraction,
        ),
        (
            Settings {
                cooling: CoolingShape::Triki {
                    initial_ok: false,
                    delta_ok: true,
                    dwell: 3,
                },
                ..default_settings()
            },
            ConfigError::Temperature,
        ),
        (
            Settings {
                cooling: CoolingShape::Triki {
                    initial_ok: true,
                    delta_ok: false,
                    dwell: 3,
                },
                ..default_settings()
            },
            ConfigError::TemperatureDelta,
        ),
        (
            Settings {
                meetings: MeetingShape::ConstantFrequency {
                    frequency_ok: false,
                },
                ..default_settings()
            },
            ConfigError::Frequency,
        ),
        (
            Settings {
                meetings: MeetingShape::RegularInterval { interval: 0 },
                ..default_settings()
            },
            ConfigError::Interval,
        ),
        (
            Settings {
                meetings: MeetingShape::ScheduledMeetings {
                    times: vec![3, 0, 5],
                },
                ..default_settings()
            },
            ConfigError::MeetingStep,
        ),
        (
            Settings {
                learning: LearningShape::Markov {
                    rate_ok: false,
                    rows: vec![],
                },
                ..default_settings()
            },
            ConfigError::LearningRate,
        ),
        (
            Settings {
                learning: LearningShape::Markov {
                    rate_ok: true,
                    rows: vec![
                        good_row(2),
                        WeightRow {
                            len: 2,
                            finite_nonnegative: false,
                            any_positive: true,
                        },
                    ],
                },
                ..default_settings()
            },
            ConfigError::WeightRow,
        ),
        (
            Settings {
                learning: LearningShape::Markov {
                    rate_ok: true,
                    rows: vec![good_row(2), good_row(3)],
                },
                ..default_settings()
            },
            ConfigError::MarkovShape,
        ),
        (
            Settings {
                learning: LearningShape::HiddenMarkov {
                    rate_ok: true,
                    transitions: vec![],
                    emissions: vec![good_row(2)],
                },
                ..default_settings()
            },
            ConfigError::HiddenMarkovPresence,
        ),
        (
            Settings {
                learning: LearningShape::HiddenMarkov {
                    rate_ok: true,
                    transitions: vec![good_row(2), good_row(2)],
                    emissions: vec![good_row(2)],
                },
                ..default_settings()
            },
            ConfigError::HiddenMarkovShape,
        ),
        (
            Settings {
                learning: LearningShape::HiddenMarkov {
                    rate_ok: true,
                    transitions: vec![good_row(2), good_row(2)],
                    emissions: vec![good_row(2), good_row(3)],
                },
                ..default_settings()
            },
            ConfigError::EmissionWidth,
        ),
        (
            Settings {
                learning: LearningShape::HiddenMarkov {
                    rate_ok: true,
                    transitions: vec![good_row(2), good_row(2)],
                    emissions: vec![
                        good_row(2),
                        WeightRow {
                            len: 2,
                            finite_nonnegative: true,
                            any_positive: false,
                        },
                    ],
                },
                ..default_settings()
            },
            ConfigError::WeightRow,
        ),
    ];
    for (settings, expected) in cases {
        assert_eq!(validate(&settings), Err(expected));
        assert_eq!(validate_for_moves(&settings, 2), Err(expected));
    }
}

#[test]
fn earlier_rules_are_reported_first() {
    let settings = Settings {
        agents: 0,
        self_bias_ok: false,
        meetings: MeetingShape::RegularInterval { interval: 0 },
        ..default_settings()
    };
    assert_eq!(validate(&settings), Err(ConfigError::EmptyPopulation));
    let settings = Settings {
        cooling: CoolingShape::Geometric {
            initial_ok: true,
            dwell: 0,
        },
        meetings: MeetingShape::RegularInterval { interval: 0 },
        ..default_settings()
    };
    assert_eq!(validate(&settings), Err(ConfigError::Temperature));
}

#[test]
fn valid_settings_pass_and_move_counts_are_checked() {
    assert_eq!(validate(&default_settings()), Ok(()));
    assert_eq!(validate_for_moves(&default_settings(), 7), Ok(()));
    assert_eq!(
        validate_for_moves(&default_settings(), 0),
        Err(ConfigError::NoMoves)
    );
    let markov = Settings {
        learning: LearningShape::Markov {
            rate_ok: true,
            rows: vec![good_row(2), good_row(2)],
        },
        ..default_settings()
    };
    assert_eq!(validate_for_moves(&markov, 2), Ok(()));
    assert_eq!(validate_for_moves(&markov, 3), Err(ConfigError::MoveCount));
    let multinomial = Settings {
        learning: LearningShape::Multinomial {
            rate_ok: true,
            row: good_row(0),
        },
        ..default_settings()
    };
    assert_eq!(validate_for_moves(&multinomial, 5), Ok(()));
    let hidden = Settings {
        learning: LearningShape::HiddenMarkov {
            rate_ok: true,
            transitions: vec![good_row(3), good_row(3), good_row(3)],
            emissions: vec![good_row(2), good_row(2), good_row(2)],
        },
        ..default_settings()
    };
    assert_eq!(validate_for_moves(&hidden, 2), Ok(()));
    assert_eq!(validate_for_moves(&hidden, 3), Err(ConfigError::MoveCount));
    let empty_hidden = Settings {
        learning: LearningShape::HiddenMarkov {
            rate_ok: true,
            transitions: vec![],
            emissions: vec![],
        },
        ..default_settings()
    };
    assert_eq!(validate_for_moves(&empty_hidden, 4), Ok(()));
}
