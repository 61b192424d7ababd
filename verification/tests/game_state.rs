use flappy_core::components::{
    Background, Component, ComponentKind, GameComponent, Pillar, PillarContainer, Player, Priority,
    Rect,
};
use flappy_core::game_state::{DrawCommand, GameComponentContainer, GameError, GameState};

fn player_at(x: i32) -> Component {
    Component::Player(Player { rect: Rect { x, y: 40, w: 10, h: 10 } })
}

fn pillars(width: i32, ps: Vec<Pillar>) -> Component {
    Component::PillarContainer(PillarContainer { pillar_width: width, pillars: ps })
}

fn backdrop() -> Component {
    Component::Background(Background { offset: 0 })
}

#[test]
fn first_registration_wins() {
    let mut gs = GameState::default();
    let a = player_at(100);
    let a2 = player_at(999);
    gs.add_component(a.clone());
    gs.add_component(a2);
    assert_eq!(gs.components.len(), 1);
    assert_eq!(gs.find_component(ComponentKind::Player), Some(&a));
}

#[test]
fn find_unregistered_kind_is_none() {
    let mut gs = GameState::default();
    assert_eq!(gs.find_component(ComponentKind::Player), None);
    gs.add_component(backdrop());
    assert_eq!(gs.find_component(ComponentKind::Player), None);
    assert_eq!(gs.find_component(ComponentKind::PillarContainer), None);
}

#[test]
fn find_registered_kind_is_exact_instance() {
    let mut gs = GameState::default();
    let p = player_at(123);
    let o = pillars(20, vec![Pillar { pos_x: 5, passed: false }]);
    gs.add_component(p.clone());
    gs.add_component(o.clone());
    assert_eq!(gs.find_component(ComponentKind::Player), Some(&p));
    assert_eq!(gs.find_component(ComponentKind::PillarContainer), Some(&o));
    assert_eq!(gs.find_component(ComponentKind::Background), None);
}

#[test]
fn find_component_mut_reaches_the_stored_component() {
    let mut gs = GameState::default();
    gs.add_component(player_at(1));
    match gs.find_component_mut(ComponentKind::Player) {
        Some(Component::Player(p)) => p.rect.x = 77,
        _ => panic!("player must be registered"),
    }
    assert_eq!(gs.find_component(ComponentKind::Player), Some(&player_at(77)));
    assert_eq!(gs.find_component_mut(ComponentKind::Background), None);
}

#[test]
fn priorities_are_fixed_per_kind() {
    assert_eq!(ComponentKind::Background.priority(), Priority::Low);
    assert_eq!(ComponentKind::PillarContainer.priority(), Priority::Mid);
    assert_eq!(ComponentKind::Player.priority(), Priority::High);
    assert_eq!(player_at(0).priority(), Priority::High);
    assert_eq!(backdrop().kind(), ComponentKind::Background);
}

#[test]
fn draw_by_priority_filters_in_registry_order() {
    let mut gs = GameState::default();
    gs.add_component(player_at(0));
    gs.add_component(backdrop());
    gs.add_component(pillars(20, vec![]));
    assert_eq!(gs.draw_by_priority(Priority::Low), vec![ComponentKind::Background]);
    assert_eq!(gs.draw_by_priority(Priority::Mid), vec![ComponentKind::PillarContainer]);
    assert_eq!(gs.draw_by_priority(Priority::High), vec![ComponentKind::Player]);
}

#[test]
fn draw_schedule_is_layered_low_mid_high() {
    let mut gs = GameState::default();
    // registered in the reverse of the draw order
    gs.add_component(player_at(0));
    gs.add_component(pillars(20, vec![]));
    gs.add_component(backdrop());
    let plan = gs.draw();
    assert_eq!(
        plan,
        vec![
            DrawCommand::Clear,
            DrawCommand::Draw(ComponentKind::Background),
            DrawCommand::Draw(ComponentKind::PillarContainer),
            DrawCommand::Draw(ComponentKind::Player),
            DrawCommand::Present,
        ]
    );
}

#[test]
fn draw_schedule_of_empty_registry_only_clears_and_presents() {
    let gs = GameState::default();
    assert_eq!(gs.draw(), vec![DrawCommand::Clear, DrawCommand::Present]);
}

#[test]
fn pass_through_scores_one_point() {
    // player at x = 100, obstacle at x = 50 with width 20: 100 > 70
    let mut gs = GameState::default();
    gs.add_component(player_at(100));
    gs.add_component(pillars(20, vec![Pillar { pos_x: 50, passed: false }]));
    assert_eq!(gs.score, 0);
    gs.check_score();
    assert_eq!(gs.score, 1);
    match gs.find_component(ComponentKind::PillarContainer) {
        Some(Component::PillarContainer(pc)) => assert!(pc.pillars[0].passed),
        _ => panic!("obstacle set must be registered"),
    }
}

#[test]
fn passed_obstacle_is_not_counted_again() {
    // the same obstacle already credited; the player is further along
    let mut gs = GameState::default();
    gs.add_component(player_at(150));
    gs.add_component(pillars(20, vec![Pillar { pos_x: 50, passed: true }]));
    gs.score = 1;
    gs.check_score();
    assert_eq!(gs.score, 1);
    gs.check_score();
    gs.check_score();
    assert_eq!(gs.score, 1);
}

#[test]
fn two_eligible_obstacles_give_exactly_one_point() {
    let mut gs = GameState::default();
    gs.add_component(player_at(100));
    gs.add_component(pillars(
        20,
        vec![Pillar { pos_x: 50, passed: false }, Pillar { pos_x: 60, passed: false }],
    ));
    gs.check_score();
    assert_eq!(gs.score, 1);
    match gs.find_component(ComponentKind::PillarContainer) {
        Some(Component::PillarContainer(pc)) => {
            assert!(pc.pillars[0].passed);
            assert!(!pc.pillars[1].passed);
        },
        _ => panic!("obstacle set must be registered"),
    }
    // the next tick credits the second obstacle
    gs.check_score();
    assert_eq!(gs.score, 2);
}

#[test]
fn exactly_at_the_trailing_edge_is_not_a_pass() {
    // 70 is not strictly greater than 50 + 20
    let mut gs = GameState::default();
    gs.add_component(player_at(70));
    gs.add_component(pillars(20, vec![Pillar { pos_x: 50, passed: false }]));
    gs.check_score();
    assert_eq!(gs.score, 0);
    match gs.find_component(ComponentKind::PillarContainer) {
        Some(Component::PillarContainer(pc)) => assert!(!pc.pillars[0].passed),
        _ => panic!("obstacle set must be registered"),
    }
}

#[test]
fn empty_obstacle_set_never_scores() {
    let mut gs = GameState::default();
    gs.add_component(player_at(1000));
    gs.add_component(pillars(20, vec![]));
    gs.check_score();
    assert_eq!(gs.score, 0);
}

#[test]
fn update_applies_outcomes_and_runs_the_score_rule() {
    let mut gs = GameState::default();
    gs.add_component(player_at(0));
    gs.add_component(pillars(20, vec![Pillar { pos_x: 50, passed: false }]));
    let outcomes = vec![
        Ok(player_at(100)),
        Ok(pillars(20, vec![Pillar { pos_x: 50, passed: false }])),
    ];
    let r = gs.update(outcomes);
    assert_eq!(r, Ok(()));
    assert_eq!(gs.score, 1);
    assert_eq!(gs.find_component(ComponentKind::Player), Some(&player_at(100)));
}

#[test]
fn update_failure_stops_the_tick_and_skips_the_score_rule() {
    let mut gs = GameState::default();
    gs.add_component(player_at(100));
    gs.add_component(pillars(20, vec![Pillar { pos_x: 50, passed: false }]));
    gs.add_component(backdrop());
    // the second of three updates fails; the obstacle would otherwise score
    let outcomes = vec![
        Ok(player_at(110)),
        Err(GameError { message: String::from("obstacle update failed") }),
    ];
    let r = gs.update(outcomes);
    assert_eq!(r, Err(GameError { message: String::from("obstacle update failed") }));
    // the first update was applied, the failing one and the third were not
    assert_eq!(gs.find_component(ComponentKind::Player), Some(&player_at(110)));
    assert_eq!(gs.find_component(ComponentKind::Background), Some(&backdrop()));
    // the score rule did not run: nothing was credited
    assert_eq!(gs.score, 0);
    match gs.find_component(ComponentKind::PillarContainer) {
        Some(Component::PillarContainer(pc)) => assert!(!pc.pillars[0].passed),
        _ => panic!("obstacle set must be registered"),
    }
}

#[test]
fn update_failure_of_the_first_component_leaves_everything_unchanged() {
    let mut gs = GameState::default();
    gs.add_component(player_at(100));
    gs.add_component(pillars(20, vec![Pillar { pos_x: 50, passed: false }]));
    let r = gs.update(vec![Err(GameError { message: String::from("input device lost") })]);
    assert_eq!(r, Err(GameError { message: String::from("input device lost") }));
    assert_eq!(gs.score, 0);
    assert_eq!(gs.find_component(ComponentKind::Player), Some(&player_at(100)));
}

#[test]
fn mark_first_reports_whether_a_pillar_was_credited() {
    let mut pc = PillarContainer {
        pillar_width: 20,
        pillars: vec![Pillar { pos_x: 50, passed: true }, Pillar { pos_x: 55, passed: false }],
    };
    // the first pillar is already credited, so the second is the first scorable
    assert!(pc.mark_first(100));
    assert!(pc.pillars[1].passed);
    // every pillar is credited now, so nothing more is scorable
    assert!(!pc.mark_first(100));
}
