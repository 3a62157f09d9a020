use agentropic_cognition::bdi::bdi_agent::{goal_satisfied, goal_state, select_desire_index};
use agentropic_cognition::prelude::{
    Action, BDIAgent, Belief, BeliefBase, CognitionError, Desire, Goal, Planner, Predicate,
    ReasoningEngine, Rule,
};

#[test]
fn rule_derives_conclusion() {
    let mut engine = ReasoningEngine::new();
    engine.add_rule(
        Rule::new("battery_check")
            .with_condition(Predicate::equals("battery_level", "80"))
            .with_conclusion(Predicate::equals("battery_ok", "true")),
    );

    let mut agent = BDIAgent::new();
    agent.add_belief(Belief::fact("battery_level", "80"));

    let derived = agent.run_inference(&engine).unwrap();
    assert_eq!(derived.len(), 1);
    assert_eq!(derived[0].key(), "battery_ok");
    assert_eq!(derived[0].value(), "true");

    let committed = agent.beliefs().get("battery_ok").unwrap();
    assert_eq!(committed.value(), "true");
    assert_eq!(committed.certainty(), 1000);
}

#[test]
fn inference_fixpoint_is_idempotent() {
    let mut engine = ReasoningEngine::new();
    engine.add_rule(
        Rule::new("chain_one")
            .with_condition(Predicate::equals("a", "1"))
            .with_conclusion(Predicate::equals("b", "2")),
    );
    engine.add_rule(
        Rule::new("chain_two")
            .with_condition(Predicate::equals("b", "2"))
            .with_conclusion(Predicate::equals("c", "3")),
    );

    let mut agent = BDIAgent::new();
    agent.add_belief(Belief::fact("a", "1"));

    let first = agent.run_inference(&engine).unwrap();
    assert_eq!(first.len(), 2);

    let second = agent.run_inference(&engine).unwrap();
    assert!(second.is_empty());
}

#[test]
fn derived_certainty_is_minimum_of_matched() {
    let mut engine = ReasoningEngine::new();
    engine.add_rule(
        Rule::new("both")
            .with_condition(Predicate::equals("x", "1"))
            .with_condition(Predicate::equals("y", "2"))
            .with_conclusion(Predicate::equals("z", "3")),
    );

    let mut store = BeliefBase::new();
    store.add(Belief::with_certainty("x", "1", 400));
    store.add(Belief::with_certainty("y", "2", 700));

    let derived = engine.infer(&store).unwrap();
    assert_eq!(derived.len(), 1);
    assert_eq!(derived[0].key(), "z");
    assert_eq!(derived[0].certainty(), 400);
}

#[test]
fn presence_only_conditions_derive_full_certainty() {
    let mut engine = ReasoningEngine::new();
    engine.add_rule(
        Rule::new("seen")
            .with_condition(Predicate::present("battery_level"))
            .with_conclusion(Predicate::equals("battery_known", "true")),
    );

    let mut store = BeliefBase::new();
    store.add(Belief::with_certainty("battery_level", "80", 350));

    let derived = engine.infer(&store).unwrap();
    assert_eq!(derived.len(), 1);
    assert_eq!(derived[0].certainty(), 1000);
}

#[test]
fn absent_condition_blocks_until_removed() {
    let mut engine = ReasoningEngine::new();
    engine.add_rule(
        Rule::new("fallback")
            .with_condition(Predicate::absent("plan_cached"))
            .with_conclusion(Predicate::equals("needs_planning", "yes")),
    );

    let mut store = BeliefBase::new();
    store.add(Belief::fact("plan_cached", "true"));
    let none = engine.infer(&store).unwrap();
    assert!(none.is_empty());

    store.remove("plan_cached");
    let some = engine.infer(&store).unwrap();
    assert_eq!(some.len(), 1);
    assert_eq!(some[0].key(), "needs_planning");
}

#[test]
fn desire_selection_prefers_priority_then_insertion() {
    let d_low = Desire::new(Goal::achievement("low"), 300);
    let d_high = Desire::new(Goal::achievement("high"), 900);
    let desires = vec![d_low, d_high];
    assert_eq!(select_desire_index(&desires), Some(1));

    let d_first = Desire::new(Goal::achievement("first"), 500);
    let d_second = Desire::new(Goal::achievement("second"), 500);
    let tied = vec![d_first, d_second];
    assert_eq!(select_desire_index(&tied), Some(0));

    let empty: Vec<Desire> = vec![];
    assert_eq!(select_desire_index(&empty), None);
}

#[test]
fn higher_priority_desire_promoted_first() {
    let mut agent = BDIAgent::new();
    agent.add_belief(Belief::fact("at", "A"));

    agent.add_desire(Desire::new(
        Goal::achievement("go_b").with_condition("at=B"),
        300,
    ));
    agent.add_desire(Desire::new(
        Goal::achievement("go_c").with_condition("at=C"),
        900,
    ));

    let planner = Planner::with_actions(vec![
        Action::new("to_b").with_precondition("at", "A").with_effect("at", "B"),
        Action::new("to_c").with_precondition("at", "A").with_effect("at", "C"),
    ]);
    let engine = ReasoningEngine::new();

    let outcome = agent.tick(Vec::new(), &planner, &engine).unwrap();
    assert!(outcome.dropped.is_empty());

    let stack = agent.intentions();
    assert_eq!(stack.len(), 2);
    assert_eq!(stack.intentions[0].goal().name(), "go_c");
    assert_eq!(stack.intentions[1].goal().name(), "go_b");
}

#[test]
fn tick_hands_out_action_and_outcome_advances() {
    let mut agent = BDIAgent::new();
    agent.add_belief(Belief::fact("at", "A"));
    agent.add_desire(Desire::new(
        Goal::achievement("deliver").with_condition("at=B"),
        900,
    ));

    let planner = Planner::with_actions(vec![Action::new("move")
        .with_precondition("at", "A")
        .with_effect("at", "B")]);
    let engine = ReasoningEngine::new();

    let outcome = agent.tick(Vec::new(), &planner, &engine).unwrap();
    let action = outcome.action.unwrap();
    assert_eq!(action.name(), "move");
    let top = agent.intentions().current().unwrap();
    assert_eq!(top.plan().name(), "deliver");

    agent.report_action_outcome(true, &planner).unwrap();
    assert!(agent.intentions().is_empty());

    let sensed = vec![Belief::fact("at", "B")];
    let after = agent.tick(sensed, &planner, &engine).unwrap();
    assert!(after.action.is_none());
    assert!(agent.desires().is_empty());
}

#[test]
fn unachievable_goal_dropped_and_reported() {
    let mut agent = BDIAgent::new();
    agent.add_belief(Belief::fact("at", "A"));
    agent.add_desire(Desire::new(
        Goal::achievement("teleport").with_condition("at=Z"),
        800,
    ));

    let planner = Planner::new();
    let engine = ReasoningEngine::new();

    let outcome = agent.tick(Vec::new(), &planner, &engine).unwrap();
    assert!(outcome.action.is_none());
    assert_eq!(outcome.dropped, vec!["teleport".to_string()]);
    assert!(agent.desires().is_empty());
    assert!(agent.intentions().is_empty());
}

#[test]
fn failed_action_replans_without_advancing() {
    let mut agent = BDIAgent::new();
    agent.add_belief(Belief::fact("at", "A"));
    agent.add_desire(Desire::new(
        Goal::achievement("arrive").with_condition("at=B"),
        900,
    ));

    let planner = Planner::with_actions(vec![Action::new("move")
        .with_precondition("at", "A")
        .with_effect("at", "B")]);
    let engine = ReasoningEngine::new();

    let outcome = agent.tick(Vec::new(), &planner, &engine).unwrap();
    assert!(outcome.action.is_some());

    agent.report_action_outcome(false, &planner).unwrap();
    let top = agent.intentions().current().unwrap();
    assert_eq!(top.current_step(), 0);
    assert_eq!(agent.intentions().len(), 1);
    assert_eq!(top.goal().name(), "arrive");
}

#[test]
fn failed_action_with_no_plan_drops_intention() {
    let mut agent = BDIAgent::new();
    agent.add_belief(Belief::fact("at", "A"));
    agent.add_desire(Desire::new(
        Goal::achievement("arrive").with_condition("at=B"),
        900,
    ));

    let planner = Planner::with_actions(vec![Action::new("move")
        .with_precondition("at", "A")
        .with_effect("at", "B")]);
    let engine = ReasoningEngine::new();
    agent.tick(Vec::new(), &planner, &engine).unwrap();

    let stranded = Planner::new();
    let result = agent.report_action_outcome(false, &stranded);
    assert!(matches!(result, Err(CognitionError::GoalNotAchievable(_))));
    assert!(agent.intentions().is_empty());
}

#[test]
fn remove_completed_keeps_order() {
    let mut agent = agentropic_cognition::IntentionStack::new();
    let done = {
        let plan = agentropic_cognition::Plan::new("empty");
        agentropic_cognition::Intention::new(Goal::achievement("done"), plan)
    };
    let busy = {
        let plan = agentropic_cognition::Plan::new("busy").add_action(Action::new("step"));
        agentropic_cognition::Intention::new(Goal::achievement("busy"), plan)
    };
    agent.push(done);
    agent.push(busy);
    agent.remove_completed();
    assert_eq!(agent.len(), 1);
    assert_eq!(agent.current().unwrap().goal().name(), "busy");
}

#[test]
fn malformed_update_rejected() {
    let mut agent = BDIAgent::new();
    let raw = Belief {
        key: "x".to_string(),
        value: "1".to_string(),
        certainty: 2000,
    };
    let result = agent.merge_updates(vec![raw]);
    assert!(matches!(result, Err(CognitionError::BeliefRevisionFailed(_))));
    assert!(agent.beliefs().is_empty());
}

#[test]
fn bare_condition_is_presence_test() {
    let goal = Goal::achievement("seen").with_condition("at_location(home)");
    let mut store = BeliefBase::new();
    assert!(!goal_satisfied(&goal, &store));
    store.add(Belief::fact("at_location(home)", "yes"));
    assert!(goal_satisfied(&goal, &store));

    let result = goal_state(&goal);
    assert!(matches!(result, Err(CognitionError::GoalNotAchievable(_))));
}

#[test]
fn equality_condition_satisfied_by_exact_value() {
    let goal = Goal::achievement("charged").with_condition("battery=full");
    let mut store = BeliefBase::new();
    store.add(Belief::fact("battery", "low"));
    assert!(!goal_satisfied(&goal, &store));
    store.add(Belief::fact("battery", "full"));
    assert!(goal_satisfied(&goal, &store));

    let st = goal_state(&goal).unwrap();
    assert!(st.matches("battery", "full"));
}

#[test]
fn error_details_kept() {
    assert_eq!(CognitionError::PlanningFailed("p".to_string()).detail(), "p");
    assert_eq!(CognitionError::GoalNotAchievable("g".to_string()).detail(), "g");
    assert_eq!(CognitionError::BeliefRevisionFailed("b".to_string()).detail(), "b");
    assert_eq!(CognitionError::ReasoningError("r".to_string()).detail(), "r");
    assert_eq!(CognitionError::Other("o".to_string()).detail(), "o");
}

#[test]
fn utility_placeholder_is_indifferent() {
    let u = agentropic_cognition::decision::UtilityFunction::new("score");
    assert_eq!(u.name(), "score");
    assert_eq!(u.evaluate(&vec!["anything".to_string()]), 500);
}
