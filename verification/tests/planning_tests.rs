use agentropic_cognition::planning::planner::apply_action;
use agentropic_cognition::prelude::{Action, CognitionError, Plan, Planner, State};

#[test]
fn create_action() {
    let action = Action::new("move").with_parameter("destination");

    assert_eq!(action.name(), "move");
    assert_eq!(action.parameters().len(), 1);
}

#[test]
fn create_state() {
    let state = State::new().set("location", "home").set("has_key", "true");

    assert!(state.matches("location", "home"));
    assert!(state.matches("has_key", "true"));
}

#[test]
fn create_plan() {
    let plan = Plan::new("test_plan")
        .add_action(Action::new("step1"))
        .add_action(Action::new("step2"));

    assert_eq!(plan.name(), "test_plan");
    assert_eq!(plan.len(), 2);
    assert!(!plan.is_empty());
}

#[test]
fn planner_creation() {
    let planner = Planner::new();
    assert_eq!(planner.actions().len(), 0);

    let initial = State::new().set("at", "A");
    let goal = State::new().set("at", "B");

    let result = planner.plan(&initial, &goal);
    assert!(matches!(result, Err(CognitionError::GoalNotAchievable(_))));
}

#[test]
fn one_step_plan_found() {
    let mv = Action::new("move")
        .with_precondition("at", "A")
        .with_effect("at", "B");
    let planner = Planner::with_actions(vec![mv]);

    let initial = State::new().set("at", "A");
    let goal = State::new().set("at", "B");

    let plan = planner.plan(&initial, &goal).unwrap();
    assert_eq!(plan.len(), 1);
    assert_eq!(plan.actions()[0].name(), "move");
}

#[test]
fn unreachable_goal_reported() {
    let mv = Action::new("move")
        .with_precondition("at", "A")
        .with_effect("at", "B");
    let planner = Planner::with_actions(vec![mv]);

    let initial = State::new().set("at", "A");
    let goal = State::new().set("at", "C");

    let result = planner.plan(&initial, &goal);
    assert!(matches!(result, Err(CognitionError::GoalNotAchievable(_))));
}

#[test]
fn plan_reaches_goal_when_applied() {
    let a_to_b = Action::new("a_to_b")
        .with_precondition("at", "A")
        .with_effect("at", "B");
    let b_to_c = Action::new("b_to_c")
        .with_precondition("at", "B")
        .with_effect("at", "C")
        .with_effect("delivered", "yes");
    let planner = Planner::with_actions(vec![a_to_b, b_to_c]);

    let initial = State::new().set("at", "A");
    let goal = State::new().set("at", "C").set("delivered", "yes");

    let plan = planner.plan(&initial, &goal).unwrap();
    assert_eq!(plan.len(), 2);

    let mut state = initial;
    for action in plan.actions() {
        state = apply_action(&state, action);
    }
    assert!(state.matches("at", "C"));
    assert!(state.matches("delivered", "yes"));
}

#[test]
fn satisfied_goal_yields_empty_plan() {
    let planner = Planner::new();
    let initial = State::new().set("at", "B");
    let goal = State::new().set("at", "B");
    let plan = planner.plan(&initial, &goal).unwrap();
    assert!(plan.is_empty());
}

#[test]
fn state_lookup() {
    let state = State::new().set("k", "v1").set("k", "v2");
    assert_eq!(state.get("k").unwrap().as_str(), "v2");
    assert!(state.get("missing").is_none());
    assert!(!state.matches("k", "v1"));
    assert_eq!(state.variables().len(), 1);
}

#[test]
fn planner_add_action() {
    let mut planner = Planner::new();
    planner.add_action(Action::new("noop"));
    assert_eq!(planner.actions().len(), 1);
    assert_eq!(planner.actions()[0].name(), "noop");
}
