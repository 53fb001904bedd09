use aeron_rs::agent::idle_strategy::{idle, IdleAction, IdleStrategy};

// IdleStrategy::default_backoff

#[test]
fn default_backoff_values() {
    match IdleStrategy::default_backoff() {
        IdleStrategy::Backoff {
            max_spins,
            max_yields,
            min_park_ns,
            max_park_ns,
        } => {
            assert_eq!(max_spins, 10);
            assert_eq!(max_yields, 5);
            assert_eq!(min_park_ns, 1_000);
            assert_eq!(max_park_ns, 1_000_000);
        }
        _ => panic!("expected Backoff variant"),
    }
}

// Phase transitions for Backoff

#[test]
fn backoff_spins_then_yields_then_parks() {
    let strategy = IdleStrategy::Backoff {
        max_spins: 3,
        max_yields: 2,
        min_park_ns: 100,
        max_park_ns: 1000,
    };
    let mut state = strategy.new_state();

    // 3 spins.
    for i in 0..3 {
        idle(&strategy, &mut state, 0);
        assert_eq!(state.spin_count, i + 1, "spin phase iteration {i}");
        assert_eq!(state.yield_count, 0);
    }

    // 2 yields.
    for i in 0..2 {
        idle(&strategy, &mut state, 0);
        assert_eq!(state.spin_count, 3, "spin count stable in yield phase");
        assert_eq!(state.yield_count, i + 1, "yield phase iteration {i}");
    }

    // Park phase - park_ns ramps.
    idle(&strategy, &mut state, 0);
    assert_eq!(state.park_ns, 200); // 100 + 100
    idle(&strategy, &mut state, 0);
    assert_eq!(state.park_ns, 300); // 200 + 100
}

#[test]
fn backoff_park_ramp_capped_at_max() {
    let strategy = IdleStrategy::Backoff {
        max_spins: 0,
        max_yields: 0,
        min_park_ns: 500,
        max_park_ns: 1000,
    };
    let mut state = strategy.new_state();

    // First park: starts at 500, ramps to 1000.
    idle(&strategy, &mut state, 0);
    assert_eq!(state.park_ns, 1000); // 500 + 500

    // Second park: capped at 1000.
    idle(&strategy, &mut state, 0);
    assert_eq!(state.park_ns, 1000);
}

#[test]
fn backoff_reset_on_positive_work_count() {
    let strategy = IdleStrategy::Backoff {
        max_spins: 2,
        max_yields: 2,
        min_park_ns: 100,
        max_park_ns: 1000,
    };
    let mut state = strategy.new_state();

    // Advance into yield phase.
    for _ in 0..3 {
        idle(&strategy, &mut state, 0);
    }
    assert!(state.spin_count > 0);
    assert!(state.yield_count > 0);

    // Positive work resets.
    idle(&strategy, &mut state, 1);
    assert_eq!(state.spin_count, 0);
    assert_eq!(state.yield_count, 0);
    assert_eq!(state.park_ns, 100);
}

// BusySpin

#[test]
fn busy_spin_does_not_modify_state() {
    let strategy = IdleStrategy::BusySpin;
    let mut state = strategy.new_state();
    let before = state;
    assert_eq!(idle(&strategy, &mut state, 0), IdleAction::Spin);
    assert_eq!(idle(&strategy, &mut state, 1), IdleAction::Nothing);
    assert_eq!(state, before);
}

// Noop

#[test]
fn noop_does_nothing() {
    let strategy = IdleStrategy::Noop;
    let mut state = strategy.new_state();
    idle(&strategy, &mut state, 0);
    idle(&strategy, &mut state, 1);
}

// Sleeping

#[test]
fn sleeping_does_not_crash() {
    let strategy = IdleStrategy::Sleeping { period_ns: 1 };
    let mut state = strategy.new_state();
    // Just verify it doesn't panic (actual sleep is ~0).
    idle(&strategy, &mut state, 0);
    // No sleep when work was done.
    idle(&strategy, &mut state, 1);
}

// Skip phases

#[test]
fn backoff_zero_spins_skips_to_yield() {
    let strategy = IdleStrategy::Backoff {
        max_spins: 0,
        max_yields: 2,
        min_park_ns: 100,
        max_park_ns: 1000,
    };
    let mut state = strategy.new_state();

    // First idle should go directly to yield.
    idle(&strategy, &mut state, 0);
    assert_eq!(state.spin_count, 0);
    assert_eq!(state.yield_count, 1);
}

#[test]
fn backoff_zero_spins_zero_yields_skips_to_park() {
    let strategy = IdleStrategy::Backoff {
        max_spins: 0,
        max_yields: 0,
        min_park_ns: 100,
        max_park_ns: 1000,
    };
    let mut state = strategy.new_state();

    // First idle should go directly to park.
    idle(&strategy, &mut state, 0);
    assert_eq!(state.spin_count, 0);
    assert_eq!(state.yield_count, 0);
    // park_ns should have ramped.
    assert_eq!(state.park_ns, 200);
}

// new_state

#[test]
fn new_state_initializes_park_ns_from_config() {
    let strategy = IdleStrategy::Backoff {
        max_spins: 0,
        max_yields: 0,
        min_park_ns: 42,
        max_park_ns: 100,
    };
    let state = strategy.new_state();
    assert_eq!(state.park_ns, 42);

    let noop_state = IdleStrategy::Noop.new_state();
    assert_eq!(noop_state.park_ns, 0);
}

#[test]
fn each_strategy_has_its_action() {
    let strategy = IdleStrategy::Sleeping { period_ns: 7 };
    let mut state = strategy.new_state();
    assert_eq!(idle(&strategy, &mut state, 0), IdleAction::Park(7));
    assert_eq!(idle(&strategy, &mut state, 1), IdleAction::Nothing);
    let strategy = IdleStrategy::Noop;
    let mut state = strategy.new_state();
    assert_eq!(idle(&strategy, &mut state, 0), IdleAction::Nothing);
    let strategy =
        IdleStrategy::Backoff { max_spins: 1, max_yields: 1, min_park_ns: 100, max_park_ns: 150 };
    let mut state = strategy.new_state();
    assert_eq!(idle(&strategy, &mut state, 0), IdleAction::Spin);
    assert_eq!(idle(&strategy, &mut state, 0), IdleAction::Yield);
    assert_eq!(idle(&strategy, &mut state, 0), IdleAction::Park(100));
    assert_eq!(idle(&strategy, &mut state, 0), IdleAction::Park(150));
    assert_eq!(idle(&strategy, &mut state, 0), IdleAction::Park(150));
}

#[test]
fn backoff_stays_within_its_limits() {
    let strategy = IdleStrategy::Backoff {
        max_spins: 2,
        max_yields: 3,
        min_park_ns: 10,
        max_park_ns: 25,
    };
    let mut state = strategy.new_state();
    let mut parked = Vec::new();
    for _ in 0..9 {
        if let IdleAction::Park(ns) = idle(&strategy, &mut state, 0) {
            parked.push(ns);
        }
        assert!(state.spin_count <= 2 && state.yield_count <= 3);
        assert!((10..=25).contains(&state.park_ns));
    }
    assert_eq!(parked, vec![10, 20, 25, 25]);
}
