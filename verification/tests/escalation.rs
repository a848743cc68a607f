//! Tests of the escalation policy and the crossing predicate.

use killrs::monitor::{crossed, escalate_level, MonitorState};
use killrs::resource::Aggression;

#[test]
fn test_escalation() {
    let (mut level, mut tries, mut timeout) = (0, 0, 1);

    // increase tries, but no change to level and timeout just yet
    escalate_level(&mut level, &mut tries, &mut timeout);
    assert_eq!((level, tries, timeout), (0, 1, 1));

    // increase all
    escalate_level(&mut level, &mut tries, &mut timeout);
    assert_eq!((level, tries, timeout), (1, 2, 2));
}

#[test]
fn escalate_steps_up_and_saturates() {
    assert_eq!(Aggression::Interrupt.escalate(), Aggression::Terminate);
    assert_eq!(Aggression::Terminate.escalate(), Aggression::Kill);
    assert_eq!(Aggression::Kill.escalate(), Aggression::Kill);
}

#[test]
fn level_never_decreases_over_decision_sequences() {
    // a long run of escalation decisions: the level only ever steps up,
    // and stays at Kill once there
    let mut st = MonitorState::start(Aggression::Interrupt);
    let mut previous = st.current_level;
    for _ in 0..20 {
        st.escalation_decision();
        let rank = |a: Aggression| match a {
            Aggression::Interrupt => 0,
            Aggression::Terminate => 1,
            Aggression::Kill => 2,
        };
        assert!(rank(st.current_level) >= rank(previous));
        previous = st.current_level;
    }
    assert_eq!(st.current_level, Aggression::Kill);
    st.escalation_decision();
    assert_eq!(st.current_level, Aggression::Kill);
}

#[test]
fn backoff_doubles_only_on_even_decisions() {
    let mut st = MonitorState::start(Aggression::Interrupt);
    assert_eq!((st.attempts, st.backoff_seconds), (0, 1));

    st.escalation_decision();
    assert_eq!((st.current_level, st.attempts, st.backoff_seconds), (Aggression::Interrupt, 1, 1));
    st.escalation_decision();
    assert_eq!((st.current_level, st.attempts, st.backoff_seconds), (Aggression::Terminate, 2, 2));
    st.escalation_decision();
    assert_eq!((st.current_level, st.attempts, st.backoff_seconds), (Aggression::Terminate, 3, 2));
    st.escalation_decision();
    assert_eq!((st.current_level, st.attempts, st.backoff_seconds), (Aggression::Kill, 4, 4));
    st.escalation_decision();
    assert_eq!((st.current_level, st.attempts, st.backoff_seconds), (Aggression::Kill, 5, 4));
    st.escalation_decision();
    assert_eq!((st.current_level, st.attempts, st.backoff_seconds), (Aggression::Kill, 6, 8));
}

#[test]
fn crossing_predicate_is_pure() {
    // the same inputs always give the same boolean
    let first = crossed(1, 5, 3);
    let second = crossed(1, 5, 3);
    assert_eq!(first, second);
    assert!(first);
}

#[test]
fn crossing_predicate_directions() {
    // above: +1 crosses when the value is over the threshold
    assert!(crossed(1, 4, 3));
    assert!(!crossed(1, 3, 3));
    assert!(!crossed(1, 2, 3));
    // below: -1 crosses when the value is under the threshold
    assert!(crossed(-1, 2, 3));
    assert!(!crossed(-1, 3, 3));
    assert!(!crossed(-1, 4, 3));
    // a zero multiplier never crosses
    assert!(!crossed(0, 100, 3));
}
