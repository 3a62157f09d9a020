use agentropic_cognition::bdi::belief::CERTAINTY_UNIT;
use agentropic_cognition::prelude::{
    BDIAgent, Belief, BeliefBase, Desire, Goal, GoalType, Intention, IntentionStack, Plan,
};

#[test]
fn create_belief() {
    let belief = Belief::new("temperature", "25");
    assert_eq!(belief.key(), "temperature");
    assert_eq!(belief.value(), "25");
    assert_eq!(belief.certainty(), CERTAINTY_UNIT);
}

#[test]
fn belief_base_operations() {
    let mut base = BeliefBase::new();

    base.add(Belief::fact("x", "10"));
    assert!(base.contains("x"));
    assert_eq!(base.len(), 1);

    let belief = base.get("x").unwrap();
    assert_eq!(belief.value(), "10");

    base.remove("x");
    assert!(!base.contains("x"));
    assert!(base.is_empty());
}

#[test]
fn create_goal() {
    let goal = Goal::achievement("reach_destination")
        .with_condition("at_location(home)")
        .with_priority(900);

    assert_eq!(goal.name(), "reach_destination");
    assert_eq!(goal.priority(), 900);
    assert_eq!(goal.conditions().len(), 1);
}

#[test]
fn create_desire() {
    let goal = Goal::achievement("test_goal");
    let desire = Desire::new(goal, 800);

    assert_eq!(desire.priority(), 800);
    assert_eq!(desire.goal().name(), "test_goal");
}

#[test]
fn intention_stack() {
    let mut stack = IntentionStack::new();
    assert!(stack.is_empty());

    let goal = Goal::achievement("test");
    let plan = Plan::new("test_plan");
    let intention = Intention::new(goal, plan);

    stack.push(intention);
    assert_eq!(stack.len(), 1);
    assert!(stack.current().is_some());
}

#[test]
fn bdi_agent_creation() {
    let agent = BDIAgent::new();

    assert!(agent.beliefs().is_empty());
    assert!(agent.desires().is_empty());
    assert!(agent.intentions().is_empty());
}

#[test]
fn certainty_clamped_on_construction() {
    let high = Belief::with_certainty("k", "v", 1500);
    assert_eq!(high.certainty(), CERTAINTY_UNIT);

    let low = Belief::with_certainty("k", "v", -5);
    assert_eq!(low.certainty(), 0);

    let mid = Belief::with_certainty("k", "v", 700);
    assert_eq!(mid.certainty(), 700);
}

#[test]
fn certainty_clamped_on_mutation() {
    let mut b = Belief::new("k", "v");
    b.set_certainty(2000);
    assert_eq!(b.certainty(), CERTAINTY_UNIT);
    b.set_certainty(-1);
    assert_eq!(b.certainty(), 0);
    b.set_certainty(421);
    assert_eq!(b.certainty(), 421);
}

#[test]
fn priority_clamped() {
    let goal = Goal::achievement("g").with_priority(5000);
    assert_eq!(goal.priority(), 1000);
    let goal = goal.with_priority(-3);
    assert_eq!(goal.priority(), 0);

    let mut d = Desire::new(Goal::achievement("g"), 9999);
    assert_eq!(d.priority(), 1000);
    d.set_priority(-7);
    assert_eq!(d.priority(), 0);
}

#[test]
fn add_then_get_returns_added_value() {
    let mut base = BeliefBase::new();
    base.add(Belief::with_certainty("door", "open", 600));
    base.add(Belief::with_certainty("door", "closed", 900));
    let b = base.get("door").unwrap();
    assert_eq!(b.value(), "closed");
    assert_eq!(b.certainty(), 900);
    assert_eq!(base.len(), 1);

    let removed = base.remove("door").unwrap();
    assert_eq!(removed.value(), "closed");
    assert!(base.get("door").is_none());
    assert!(!base.contains("door"));
}

#[test]
fn query_filters_by_predicate() {
    let mut base = BeliefBase::new();
    base.add(Belief::with_certainty("a", "1", 300));
    base.add(Belief::with_certainty("b", "2", 800));
    base.add(Belief::with_certainty("c", "3", 900));
    let confident = base.query(|b: &Belief| b.certainty() >= 700);
    assert_eq!(confident.len(), 2);
    for b in &confident {
        assert!(b.certainty() >= 700);
    }
}

#[test]
fn intention_completion() {
    let plan = Plan::new("two_steps")
        .add_action(agentropic_cognition::Action::new("first"))
        .add_action(agentropic_cognition::Action::new("second"));
    let mut intention = Intention::new(Goal::achievement("done"), plan);
    assert!(!intention.is_completed());
    assert_eq!(intention.current_step(), 0);

    intention.next_step();
    intention.next_step();
    assert!(intention.is_completed());

    intention.next_step();
    assert_eq!(intention.current_step(), 2);

    let mut stack = IntentionStack::new();
    stack.push(intention);
    assert_eq!(stack.len(), 1);
    stack.remove_completed();
    assert!(stack.is_empty());
}

#[test]
fn intention_reset() {
    let plan = Plan::new("p").add_action(agentropic_cognition::Action::new("a"));
    let mut intention = Intention::new(Goal::achievement("g"), plan);
    intention.next_step();
    assert!(intention.is_completed());
    intention.reset();
    assert_eq!(intention.current_step(), 0);
    assert!(!intention.is_completed());
}

#[test]
fn goal_types() {
    assert_eq!(Goal::achievement("a").goal_type(), GoalType::Achievement);
    assert_eq!(Goal::maintenance("m").goal_type(), GoalType::Maintenance);
    assert_eq!(Goal::new("t", GoalType::Test).goal_type(), GoalType::Test);
}
