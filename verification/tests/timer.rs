use bfs_anim::animation::{AnimationTimer, Linear, LinearConfig, Percent};
use bfs_anim::geom::Point;

fn as_f64(p: Percent) -> f64 {
    p.num as f64 / p.den as f64
}

#[test]
fn zero_budget_is_complete_immediately() {
    let t = AnimationTimer::new(0);
    assert!(t.is_ended());
    let mut t = t;
    let p = t.percent(0);
    assert_eq!(as_f64(p), 1.0);
    assert!(t.is_ended());
}

#[test]
fn fresh_timer_with_budget_is_not_complete() {
    let t = AnimationTimer::new(10);
    assert!(!t.is_ended());
}

#[test]
fn percent_reports_exact_fractions() {
    let mut t = AnimationTimer::new(10);
    let p = t.percent(3);
    assert_eq!((p.num, p.den), (3, 10));
    let p = t.percent(4);
    assert_eq!((p.num, p.den), (7, 10));
    assert!(!t.is_ended());
}

#[test]
fn repeated_advance_reaches_one_and_stays_monotonic() {
    let mut t = AnimationTimer::new(7);
    let mut last = 0.0f64;
    for _ in 0..20 {
        let p = t.percent(1);
        let f = as_f64(p);
        assert!(f >= last, "fraction decreased from {last} to {f}");
        last = f;
    }
    assert_eq!(last, 1.0);
    assert!(t.is_ended());
    let p = t.percent(1);
    assert_eq!(as_f64(p), 1.0);
}

#[test]
fn counter_saturates_on_huge_tick_counts() {
    let mut t = AnimationTimer::new(5);
    let p = t.percent(usize::MAX);
    assert_eq!(as_f64(p), 1.0);
    assert!(t.is_ended());
    let p = t.percent(usize::MAX);
    assert_eq!(as_f64(p), 1.0);
}

#[test]
fn linear_animation_interpolates_and_completes() {
    let config = LinearConfig {
        begin_state: (Point { x: 0, y: 0 }, Point { x: 100, y: 200 }),
        frame_count: 4,
    };
    let mut anim: Linear = config.start();
    assert!(!anim.is_ended());
    let mid = anim.draw(1);
    assert_eq!((mid.x, mid.y), (25, 50));
    let mid = anim.draw(1);
    assert_eq!((mid.x, mid.y), (50, 100));
    let mid = anim.draw(2);
    assert_eq!((mid.x, mid.y), (100, 200));
    assert!(anim.is_ended());
    let mid = anim.draw(1);
    assert_eq!((mid.x, mid.y), (100, 200));
}

#[test]
fn linear_animation_zero_budget_ends_at_once() {
    let config = LinearConfig {
        begin_state: (Point { x: 3, y: 4 }, Point { x: 9, y: 8 }),
        frame_count: 0,
    };
    let anim = config.start();
    assert!(anim.is_ended());
}
