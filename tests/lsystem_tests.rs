use lsystem::drawing::{Diagnostic, Drawing};
use lsystem::lsystem::LSystem;
use lsystem::rules::{RuleError, RuleSet};
use lsystem::turtle::{Step, Turtle};

fn rules_of(list: &[(char, &str, u8)]) -> RuleSet {
    let mut rules = RuleSet::new();
    for (symbol, replacement, weight) in list {
        rules.add(*symbol, replacement.to_string(), *weight).unwrap();
    }
    rules
}

fn stochastic_plant() -> RuleSet {
    rules_of(&[('F', "F[+F]F[-F]F", 1), ('F', "F[+F]F", 1), ('F', "F[-F]F", 1)])
}

fn koch() -> RuleSet {
    rules_of(&[('F', "F+F-F-F+F", 1)])
}

/// Coordinates of every vertex, for a step length and a turn angle in degrees.
fn coordinates(d: &Drawing, length: f64, angle: f64) -> Vec<(f64, f64)> {
    let mut pts = vec![(0.0, 0.0)];
    for s in &d.steps {
        let (x, y) = pts[s.from];
        let h = (s.heading as f64) * angle.to_radians();
        pts.push((x + length * h.cos(), y + length * h.sin()));
    }
    pts
}

#[test]
fn zero_generations_give_the_start() {
    let mut l = LSystem::new("F-G", koch(), 3);
    assert_eq!(l.generate(0), "F-G");
    let mut s = LSystem::new("F[X]", stochastic_plant(), 9);
    assert_eq!(s.generate(0), "F[X]");
}

#[test]
fn deterministic_rewrite_is_repeatable() {
    let mut a = LSystem::new("F", koch(), 1);
    let mut b = LSystem::new("F", koch(), 2);
    let first = a.generate(3);
    assert_eq!(first, a.generate(3));
    assert_eq!(first, b.generate(3));
    assert_eq!(a.rewrite(&"F-F".to_string()), "F+F-F-F+F-F+F-F-F+F");
}

#[test]
fn same_seed_gives_same_output() {
    let mut a = LSystem::new("F", stochastic_plant(), 42);
    let mut b = LSystem::new("F", stochastic_plant(), 42);
    assert_eq!(a.generate(4), b.generate(4));
}

#[test]
fn different_seeds_give_different_output() {
    let mut a = LSystem::new("F", stochastic_plant(), 1);
    let mut b = LSystem::new("F", stochastic_plant(), 2);
    assert_ne!(a.generate(4), b.generate(4));
}

#[test]
fn stochastic_output_uses_only_alternatives() {
    let mut a = LSystem::new("F", stochastic_plant(), 7);
    let out = a.rewrite(&"F".to_string());
    assert!(out == "F[+F]F[-F]F" || out == "F[+F]F" || out == "F[-F]F");
}

#[test]
fn weighted_selection_converges() {
    let mut l = LSystem::new("F", rules_of(&[('F', "a", 1), ('F', "b", 3)]), 2024);
    let trials = 100_000;
    let mut a = 0;
    for _ in 0..trials {
        let out = l.rewrite(&"F".to_string());
        if out == "a" {
            a += 1;
        } else {
            assert_eq!(out, "b");
        }
    }
    let fraction = a as f64 / trials as f64;
    assert!((fraction - 0.25).abs() < 0.01, "fraction {}", fraction);
}

#[test]
fn unknown_symbols_pass_through() {
    let mut l = LSystem::new("F", koch(), 0);
    assert_eq!(l.rewrite(&"a+[G]".to_string()), "a+[G]");
    assert_eq!(l.rewrite(&String::new()), "");
}

#[test]
fn expand_follows_the_rules() {
    let mut l = LSystem::new("F", rules_of(&[('F', "F+G", 1), ('G', "a", 2), ('G', "b", 5)]), 11);
    assert_eq!(l.expand('F'), "F+G");
    assert_eq!(l.expand('q'), "q");
    let g = l.expand('G');
    assert!(g == "a" || g == "b");
}

#[test]
fn koch_fixed_points() {
    let mut l = LSystem::new("F", koch(), 0);
    let one = l.generate(1);
    assert_eq!(one, "F+F-F-F+F");
    assert_eq!(one.chars().count(), 9);
    let two = l.generate(2);
    assert_eq!(
        two,
        "F+F-F-F+F+F+F-F-F+F-F+F-F-F+F-F+F-F-F+F+F+F-F-F+F"
    );
    assert_eq!(two.chars().count(), 49);
    assert_eq!(two.chars().filter(|c| *c == 'F').count(), 25);
}

#[test]
fn render_without_brackets_has_one_polyline() {
    let l = LSystem::new("F", koch(), 0);
    let d = l.calc_points(&"F+F-F-F+F".to_string());
    assert_eq!(d.polylines.len(), 1);
    assert_eq!(d.polylines[0], vec![0, 1, 2, 3, 4, 5]);
    assert!(d.diagnostics.is_empty());
    let empty = l.calc_points(&String::new());
    assert_eq!(empty.polylines, vec![vec![0]]);
    assert!(empty.steps.is_empty());
}

#[test]
fn unmatched_close_adds_no_polyline() {
    let l = LSystem::new("F", koch(), 0);
    let d = l.calc_points(&"F]F".to_string());
    assert_eq!(d.polylines, vec![vec![0, 1, 2]]);
    assert_eq!(d.diagnostics, vec![Diagnostic::EmptyStack { at: 1 }]);
    assert_eq!(
        d.steps,
        vec![Step { from: 0, heading: 0 }, Step { from: 1, heading: 0 }]
    );
}

#[test]
fn branch_opens_a_polyline_at_the_saved_vertex() {
    let l = LSystem::new("F", koch(), 0);
    let d = l.calc_points(&"F[+F]F".to_string());
    assert_eq!(d.polylines, vec![vec![0, 1, 2], vec![1, 3]]);
    assert_eq!(
        d.steps,
        vec![
            Step { from: 0, heading: 0 },
            Step { from: 1, heading: 1 },
            Step { from: 1, heading: 0 },
        ]
    );
    assert!(d.diagnostics.is_empty());
}

#[test]
fn marker_and_unknown_symbols_do_not_move() {
    let l = LSystem::new("X", rules_of(&[('X', "F[X]", 1), ('F', "FF", 1)]), 0);
    let d = l.calc_points(&"XFqX".to_string());
    assert_eq!(d.polylines, vec![vec![0, 1]]);
    assert_eq!(d.diagnostics, vec![Diagnostic::Unrecognized { at: 2, symbol: 'q' }]);
}

#[test]
fn symbol_with_rule_draws_before_turning() {
    let l = LSystem::new("F", rules_of(&[('+', "+", 1)]), 0);
    let d = l.calc_points(&"+".to_string());
    assert_eq!(d.steps, vec![Step { from: 0, heading: 0 }]);
}

#[test]
fn forward_then_left_quarter_turn() {
    let l = LSystem::new("F", koch(), 0);
    let d = l.calc_points(&"F+F".to_string());
    let pts = coordinates(&d, 10.0, 90.0);
    assert_eq!(pts.len(), 3);
    assert!((pts[1].0 - 10.0).abs() < 1e-9 && pts[1].1.abs() < 1e-9);
    assert!((pts[2].0 - 10.0).abs() < 1e-9 && (pts[2].1 - 10.0).abs() < 1e-9);
}

#[test]
fn turns_commute_within_a_run() {
    let l = LSystem::new("F", koch(), 0);
    let a = l.calc_points(&"F+-++F".to_string());
    let b = l.calc_points(&"F++-+F".to_string());
    assert_eq!(a.steps, b.steps);
    assert_eq!(a.steps[1], Step { from: 1, heading: 2 });
    let c = l.calc_points(&"F--+F".to_string());
    assert_eq!(c.steps[1], Step { from: 1, heading: -1 });
}

#[test]
fn draw_generates_then_walks() {
    let mut l = LSystem::new("F", koch(), 0);
    let d = l.draw(1).unwrap();
    assert_eq!(d.steps.len(), 5);
    assert_eq!(d.polylines, vec![vec![0, 1, 2, 3, 4, 5]]);
    let h: Vec<i64> = d.steps.iter().map(|s| s.heading).collect();
    assert_eq!(h, vec![0, 1, 0, -1, 0]);
}

#[test]
fn rule_weights_are_checked() {
    let mut rules = RuleSet::new();
    assert_eq!(rules.add('F', "FF".to_string(), 0), Err(RuleError::ZeroWeight));
    assert!(!rules.contains('F'));
    assert_eq!(rules.add('F', "FF".to_string(), 200), Ok(()));
    assert_eq!(rules.add('F', "F+F".to_string(), 100), Err(RuleError::WeightOverflow));
    assert_eq!(rules.add('F', "F-F".to_string(), 55), Ok(()));
    assert_eq!(rules.alternatives('F').unwrap().len(), 2);
    assert!(rules.alternatives('G').is_none());
}

#[test]
fn turtle_pop_on_empty_stack_fails() {
    let mut t = Turtle::new();
    assert_eq!(t.pop(), None);
    assert_eq!(t.curr(), 0);
    t.push();
    t.left();
    assert_eq!(t.fd(), 1);
    assert_eq!(t.pop(), Some(0));
    t.right();
    assert_eq!(t.fd(), 2);
    assert_eq!(
        t.into_steps(),
        vec![Step { from: 0, heading: 1 }, Step { from: 0, heading: -1 }]
    );
}
