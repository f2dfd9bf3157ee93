use anim_machine::parameter::{Parameter, ParameterContainer};
use anim_machine::pool::{Handle, Pool};
use anim_machine::transition::Condition;

#[test]
fn spawn_borrow_free_round_trip() {
    let mut pool: Pool<u64> = Pool::new();
    let a = pool.spawn(10);
    let b = pool.spawn(20);
    assert!(pool.is_valid(a));
    assert!(pool.is_valid(b));
    assert_eq!(*pool.borrow(a), 10);
    assert_eq!(*pool.borrow(b), 20);
    assert!(pool.free(a));
    assert!(!pool.is_valid(a));
    assert!(pool.try_borrow(a).is_none());
    assert_eq!(*pool.borrow(b), 20);
    // Freeing twice removes nothing.
    assert!(!pool.free(a));
}

#[test]
fn recycled_slot_does_not_alias_old_handle() {
    let mut pool: Pool<u64> = Pool::new();
    let a = pool.spawn(10);
    assert!(pool.free(a));
    let c = pool.spawn(30);
    // The new value reuses the slot under a new generation: the retired
    // handle stays dead rather than silently pointing at the newcomer.
    assert_ne!(a, c);
    assert!(!pool.is_valid(a));
    assert_eq!(*pool.borrow(c), 30);
}

#[test]
fn set_replaces_in_place() {
    let mut pool: Pool<u64> = Pool::new();
    let a = pool.spawn(1);
    pool.set(a, 2);
    assert_eq!(*pool.borrow(a), 2);
}

#[test]
fn none_handle_never_resolves() {
    let mut pool: Pool<u64> = Pool::new();
    let none = Handle::none();
    assert!(none.is_none_handle());
    assert!(!pool.is_valid(none));
    let a = pool.spawn(5);
    assert!(!a.is_none_handle());
    assert!(!pool.is_valid(Handle::none()));
}

#[test]
fn slot_enumeration_walks_live_values() {
    let mut pool: Pool<u64> = Pool::new();
    let a = pool.spawn(1);
    let b = pool.spawn(2);
    pool.free(a);
    assert_eq!(pool.slot_len(), 2);
    assert!(pool.handle_at(0).is_none());
    assert_eq!(pool.handle_at(1), Some(b));
    assert!(pool.handle_at(7).is_none());
}

#[test]
fn parameters_overwrite_and_degrade() {
    let mut params = ParameterContainer::new();
    assert!(params.get("a").is_none());
    params.set("a", Parameter::Weight(300));
    params.set("b", Parameter::Index(2));
    params.set("c", Parameter::Rule(true));
    assert_eq!(params.get("a"), Some(Parameter::Weight(300)));
    assert_eq!(params.weight_of("a"), 300);
    assert_eq!(params.index_of("b"), 2);
    assert!(params.rule_of("c"));
    // Overwriting rebinds in place.
    params.set("a", Parameter::Weight(-40));
    assert_eq!(params.weight_of("a"), -40);
    // Missing names and wrong kinds degrade to zero or false, not errors.
    assert_eq!(params.weight_of("missing"), 0);
    assert_eq!(params.index_of("missing"), 0);
    assert!(!params.rule_of("missing"));
    assert_eq!(params.weight_of("c"), 0);
    assert_eq!(params.index_of("a"), 0);
    assert!(!params.rule_of("b"));
}

#[test]
fn conditions_evaluate_purely_from_parameters() {
    let mut params = ParameterContainer::new();
    params.set("speed", Parameter::Weight(1500));
    params.set("mode", Parameter::Index(2));
    params.set("armed", Parameter::Rule(true));

    assert!(Condition::Rule(String::from("armed")).eval(&params));
    assert!(!Condition::Rule(String::from("absent")).eval(&params));
    assert!(Condition::WeightAbove(String::from("speed"), 1000).eval(&params));
    assert!(!Condition::WeightAbove(String::from("speed"), 1500).eval(&params));
    assert!(Condition::IndexEquals(String::from("mode"), 2).eval(&params));
    assert!(!Condition::IndexEquals(String::from("mode"), 3).eval(&params));

    let not = Condition::Not(Box::new(Condition::Rule(String::from("armed"))));
    assert!(!not.eval(&params));
    let both = Condition::And(
        Box::new(Condition::Rule(String::from("armed"))),
        Box::new(Condition::WeightAbove(String::from("speed"), 1000)),
    );
    assert!(both.eval(&params));
    let either = Condition::Or(
        Box::new(Condition::Rule(String::from("absent"))),
        Box::new(Condition::IndexEquals(String::from("mode"), 2)),
    );
    assert!(either.eval(&params));
    let neither = Condition::Or(
        Box::new(Condition::Rule(String::from("absent"))),
        Box::new(Condition::IndexEquals(String::from("mode"), 9)),
    );
    assert!(!neither.eval(&params));
}

#[test]
fn condition_duplicate_is_equal_in_behavior() {
    let mut params = ParameterContainer::new();
    params.set("armed", Parameter::Rule(true));
    let c = Condition::And(
        Box::new(Condition::Rule(String::from("armed"))),
        Box::new(Condition::Not(Box::new(Condition::Rule(String::from("off"))))),
    );
    let d = c.duplicate();
    assert_eq!(c.eval(&params), d.eval(&params));
    assert!(d.eval(&params));
}
