use loader::addon::{AddonObject, Sign};
use loader::console::{parse_command, Command};
use loader::counter_api::{counter_addon_name, AlphaApi};
use loader::reduce_counter;
use loader::reduce_counter::ReduceCounter;
use loader::resolve::{resolve_load_order, AddonRegistry};
use loader::simple_counter;
use loader::simple_counter::SimpleCounter;
use loader::text::{has_extension, push_decimal, trim};
use loader::timer;
use loader::timer::{tick, TimerAction, TimerAddon};

fn obj(name: &str, deps: &[&str]) -> AddonObject {
    AddonObject {
        name: name.to_string(),
        version: "0.1".to_string(),
        dependency: deps.iter().map(|d| d.to_string()).collect(),
    }
}

fn position(order: &[usize], i: usize) -> usize {
    order.iter().position(|&x| x == i).unwrap()
}

/// A counter kept outside the library, as a host would keep the shared one.
struct Probe {
    value: i32,
}

impl AlphaApi for Probe {
    fn counter_value(&self) -> i32 {
        self.value
    }

    fn get_counter(&self) -> i32 {
        self.value
    }

    fn set_counter(&mut self, v: i32) {
        self.value = v;
    }
}

#[test]
fn decimal_matches_display() {
    for v in [0, 7, 10, 42, -5, -10, 1234567, i32::MIN, i32::MAX] {
        let mut out = "v=".to_string();
        push_decimal(&mut out, v);
        assert_eq!(out, format!("v={}", v));
    }
}

#[test]
fn trim_removes_surrounding_white_space() {
    assert_eq!(trim("  reduce \n"), "reduce");
    assert_eq!(trim("\t\r\n "), "");
    assert_eq!(trim(""), "");
    assert_eq!(trim("\u{3000}x y\u{2003}"), "x y");
    assert_eq!(trim("a"), "a");
    for s in ["  timer  ", "\u{85}simpcnt\u{a0}", "no-space", " \u{200b}x"] {
        assert_eq!(trim(s), s.trim());
    }
}

#[test]
fn extension_follows_path_rules() {
    assert!(has_extension("libalpha.so", "so"));
    assert!(has_extension("a.tar.so", "so"));
    assert!(!has_extension(".so", "so"));
    assert!(!has_extension("so", "so"));
    assert!(!has_extension("a.so.1", "so"));
    assert!(!has_extension("..", ""));
    assert!(has_extension("a.", ""));
    assert!(!has_extension("libbeta.dll", "so"));
    assert!(has_extension("libtimer.dylib", "dylib"));
    assert!(!has_extension("README", "so"));
}

#[test]
fn registry_replaces_by_name() {
    let mut reg = AddonRegistry::new();
    assert_eq!(reg.insert(obj("simpcnt", &[])), 0);
    assert_eq!(reg.insert(obj("reduce", &["simpcnt"])), 1);
    let mut again = obj("simpcnt", &[]);
    again.version = "0.2".to_string();
    assert_eq!(reg.insert(again), 0);
    assert_eq!(reg.len(), 2);
    assert_eq!(reg.objects()[0].version, "0.2");
    assert_eq!(reg.find(&"reduce".to_string()), Some(1));
    assert_eq!(reg.find(&"timer".to_string()), None);
}

#[test]
fn resolve_loads_dependencies_first() {
    let objs = vec![
        obj("timer", &["simpcnt"]),
        obj("reduce", &["simpcnt"]),
        obj("simpcnt", &[]),
    ];
    let (order, complete) = resolve_load_order(&objs);
    assert!(complete);
    assert_eq!(order.len(), 3);
    assert!(position(&order, 2) < position(&order, 0));
    assert!(position(&order, 2) < position(&order, 1));
}

#[test]
fn resolve_chain_in_one_round() {
    let objs = vec![obj("a", &[]), obj("b", &["a"]), obj("c", &["b", "a"])];
    let (order, complete) = resolve_load_order(&objs);
    assert!(complete);
    assert_eq!(order, vec![0, 1, 2]);
}

#[test]
fn resolve_reverse_chain_takes_rounds() {
    let objs = vec![obj("c", &["b"]), obj("b", &["a"]), obj("a", &[])];
    let (order, complete) = resolve_load_order(&objs);
    assert!(complete);
    assert_eq!(order, vec![2, 1, 0]);
}

#[test]
fn resolve_missing_dependency_fails() {
    let objs = vec![obj("reduce", &["simpcnt"]), obj("other", &[])];
    let (order, complete) = resolve_load_order(&objs);
    assert!(!complete);
    assert_eq!(order, vec![1]);
}

#[test]
fn resolve_cycle_and_self_dependency_fail() {
    let objs = vec![obj("x", &["y"]), obj("y", &["x"]), obj("z", &["z"]), obj("w", &[])];
    let (order, complete) = resolve_load_order(&objs);
    assert!(!complete);
    assert_eq!(order, vec![3]);
}

#[test]
fn resolve_nothing_is_complete() {
    let (order, complete) = resolve_load_order(&Vec::new());
    assert!(complete);
    assert!(order.is_empty());
}

#[test]
fn registry_resolve_matches_bundled_addons() {
    let mut reg = AddonRegistry::new();
    reg.insert(timer::export_addon_object());
    reg.insert(reduce_counter::export_addon_object());
    reg.insert(simple_counter::export_addon_object());
    let (order, complete) = reg.resolve();
    assert!(complete);
    assert_eq!(order[0], 2);
    assert_eq!(reg.find_loaded(&order, &"timer".to_string()), Some(0));
    assert_eq!(reg.find_loaded(&vec![2], &"timer".to_string()), None);
}

#[test]
fn parse_command_cases() {
    let mut reg = AddonRegistry::new();
    reg.insert(simple_counter::export_addon_object());
    reg.insert(reduce_counter::export_addon_object());
    let loaded = vec![0, 1];
    assert!(matches!(parse_command("", &reg, &loaded), Command::Quit));
    assert!(matches!(parse_command("  \t", &reg, &loaded), Command::Quit));
    assert!(matches!(parse_command(" simpcnt \n", &reg, &loaded), Command::Launch(0)));
    assert!(matches!(parse_command("reduce", &reg, &loaded), Command::Launch(1)));
    match parse_command("  nope ", &reg, &loaded) {
        Command::Missing(name) => assert_eq!(name, "nope"),
        _ => panic!("expected a missing addon"),
    }
    assert!(matches!(parse_command("reduce", &reg, &vec![0]), Command::Missing(_)));
}

#[test]
fn exported_objects() {
    let a = simple_counter::export_addon_object();
    assert_eq!((a.name.as_str(), a.version.as_str()), ("simpcnt", "0.1"));
    assert!(a.dependency.is_empty());
    let b = reduce_counter::export_addon_object();
    assert_eq!(b.name, "reduce");
    assert_eq!(b.dependency, vec!["simpcnt".to_string()]);
    let t = timer::export_addon_object();
    assert_eq!(t.name, "timer");
    assert_eq!(t.version, "0.1");
    assert_eq!(t.dependency, vec!["simpcnt".to_string()]);
    assert_eq!(counter_addon_name(), "simpcnt");
}

#[test]
fn simple_counter_counts() {
    let mut c: SimpleCounter = simple_counter::new_addon();
    let mut log = Vec::new();
    c.set_counter(41);
    c.on_load(&mut log);
    assert_eq!(log, vec!["SimpleCounter on_load() called!".to_string()]);
    assert_eq!(c.get_counter(), 0);
    let r = c.issue();
    assert_eq!(r.state, Sign::NEUTRAL);
    assert_eq!(r.msg, "Counter is 1");
    let r = c.issue();
    assert_eq!(r.msg, "Counter is 2");
    c.set_counter(-7);
    assert_eq!(c.issue().msg, "Counter is -6");
    c.set_counter(i32::MAX - 1);
    assert_eq!(c.issue().msg, format!("Counter is {}", i32::MAX));
}

#[test]
fn reduce_counter_lowers_by_ten() {
    let mut counter = simple_counter::new_addon();
    counter.set_counter(5);
    let mut r: ReduceCounter<SimpleCounter> = reduce_counter::new_addon();
    let mut log = Vec::new();
    r.on_load(Some(counter), &mut log);
    let res = r.issue(&mut log);
    assert_eq!(res.state, Sign::POSITIVE);
    assert_eq!(res.msg, "");
    assert_eq!(
        log,
        vec![
            "ReduceCounter on_load() called!".to_string(),
            "Reduced Counter by 10! (5 -> -5)".to_string(),
        ]
    );
    r.issue(&mut log);
    assert_eq!(log[2], "Reduced Counter by 10! (-5 -> -15)");
}

#[test]
fn reduce_counter_without_counter() {
    let mut r: ReduceCounter<SimpleCounter> = reduce_counter::new_addon();
    let mut log = Vec::new();
    r.on_load(None, &mut log);
    let res = r.issue(&mut log);
    assert_eq!(res.state, Sign::NEGATIVE);
    assert_eq!(res.msg, "");
    assert_eq!(log[1], "Simpcnt module not found");
}

#[test]
fn reduce_counter_with_outside_counter() {
    let mut r: ReduceCounter<Probe> = reduce_counter::new_addon();
    let mut log = Vec::new();
    r.on_load(Some(Probe { value: 100 }), &mut log);
    r.issue(&mut log);
    assert_eq!(log[1], "Reduced Counter by 10! (100 -> 90)");
}

#[test]
fn timer_switches_on_and_off() {
    let mut t: TimerAddon<SimpleCounter> = timer::new_addon();
    let mut log = Vec::new();
    t.on_load(Some(simple_counter::new_addon()), &mut log);
    assert_eq!(log, vec!["TimerAddon on_load() called!".to_string()]);
    let (res, action) = t.issue(&mut log);
    assert_eq!(res.state, Sign::POSITIVE);
    assert_eq!(res.msg, "Turned ON timer");
    assert!(t.running());
    let mut counter = match action {
        TimerAction::Start(c) => c,
        _ => panic!("expected the task to start"),
    };
    assert!(tick(false, &mut counter, &mut log));
    assert!(tick(false, &mut counter, &mut log));
    assert!(!tick(true, &mut counter, &mut log));
    assert_eq!(counter.get_counter(), 2);
    assert_eq!(log.len(), 3);
    assert_eq!(log[1], "Increased counter!");
    let (res, action) = t.issue(&mut log);
    assert_eq!(res.state, Sign::NEGATIVE);
    assert_eq!(res.msg, "Turned OFF timer");
    assert!(matches!(action, TimerAction::Stop));
    assert!(!t.running());
    t.reattach(counter);
    let (res, action) = t.issue(&mut log);
    assert_eq!(res.msg, "Turned ON timer");
    match action {
        TimerAction::Start(c) => assert_eq!(c.get_counter(), 2),
        _ => panic!("expected the task to start"),
    }
}

#[test]
fn timer_without_counter() {
    let mut t: TimerAddon<SimpleCounter> = timer::new_addon();
    let mut log = Vec::new();
    t.on_load(None, &mut log);
    let (res, action) = t.issue(&mut log);
    assert_eq!(res.state, Sign::NEUTRAL);
    assert_eq!(res.msg, "");
    assert!(matches!(action, TimerAction::Idle));
    assert!(!t.running());
    assert_eq!(log[1], "Simpcnt module not found");
}

#[test]
fn reduce_counter_repeated() {
    let mut counter = simple_counter::new_addon();
    counter.set_counter(3);
    let mut r: ReduceCounter<SimpleCounter> = reduce_counter::new_addon();
    let mut log = vec!["earlier".to_string()];
    r.on_load(Some(counter), &mut log);
    for _ in 0..4 {
        let res = r.issue(&mut log);
        assert_eq!(res.state, Sign::POSITIVE);
        assert_eq!(res.msg, "");
    }
    assert_eq!(r.counter().unwrap().get_counter(), 3 - 40);
    assert_eq!(log.len(), 6);
    for k in 0..4 {
        let before = 3 - 10 * k;
        assert_eq!(log[2 + k as usize], format!("Reduced Counter by 10! ({} -> {})", before, before - 10));
    }
}

#[test]
fn timer_alternates_over_many_issues() {
    let mut t: TimerAddon<SimpleCounter> = timer::new_addon();
    let mut log = Vec::new();
    t.on_load(Some(simple_counter::new_addon()), &mut log);
    let mut task: Option<SimpleCounter> = None;
    for k in 0..7 {
        assert!(!(t.running() && t.holds_counter()));
        let (res, action) = t.issue(&mut log);
        if k % 2 == 0 {
            assert_eq!(res.state, Sign::POSITIVE);
            assert_eq!(res.msg, "Turned ON timer");
            match action {
                TimerAction::Start(c) => task = Some(c),
                _ => panic!("expected the task to start"),
            }
            assert!(t.running() && !t.holds_counter());
        } else {
            assert_eq!(res.state, Sign::NEGATIVE);
            assert_eq!(res.msg, "Turned OFF timer");
            assert!(matches!(action, TimerAction::Stop));
            t.reattach(task.take().unwrap());
            assert!(!t.running() && t.holds_counter());
        }
    }
    assert_eq!(log.len(), 1);
}

#[test]
fn timer_without_counter_repeated() {
    let mut t: TimerAddon<SimpleCounter> = timer::new_addon();
    let mut log = Vec::new();
    t.on_load(None, &mut log);
    for _ in 0..3 {
        let (res, action) = t.issue(&mut log);
        assert_eq!(res.state, Sign::NEUTRAL);
        assert_eq!(res.msg, "");
        assert!(matches!(action, TimerAction::Idle));
        assert!(!t.running() && !t.holds_counter());
    }
    assert_eq!(log.len(), 4);
    assert!(log[1..].iter().all(|l| l == "Simpcnt module not found"));
}
