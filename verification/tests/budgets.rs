use ruster::budget::ConcurrencyBudget;

#[test]
fn budget_never_passes_its_limit() {
    let mut budget = ConcurrencyBudget::new(2);
    assert_eq!(budget.limit(), 2);
    assert_eq!(budget.in_flight(), 0);
    assert_eq!(budget.available(), 2);
    assert!(budget.try_acquire());
    assert!(budget.try_acquire());
    assert_eq!(budget.in_flight(), 2);
    assert_eq!(budget.available(), 0);
    assert!(!budget.try_acquire());
    assert_eq!(budget.in_flight(), 2);
    assert!(budget.release());
    assert_eq!(budget.in_flight(), 1);
    assert!(budget.try_acquire());
    assert!(!budget.try_acquire());
    assert_eq!(budget.limit(), 2);
}

#[test]
fn budget_is_never_negative() {
    let mut budget = ConcurrencyBudget::new(1);
    assert!(!budget.release());
    assert_eq!(budget.in_flight(), 0);
    assert!(budget.try_acquire());
    assert!(budget.release());
    assert!(!budget.release());
    assert_eq!(budget.in_flight(), 0);
    assert_eq!(budget.available(), 1);
}

#[test]
fn empty_budget_grants_nothing() {
    let mut budget = ConcurrencyBudget::new(0);
    assert!(!budget.try_acquire());
    assert!(!budget.release());
    assert_eq!(budget.in_flight(), 0);
    assert_eq!(budget.available(), 0);
}

#[test]
fn largest_budget_counts_without_overflow() {
    let mut budget = ConcurrencyBudget::new(usize::MAX);
    assert!(budget.try_acquire());
    assert_eq!(budget.available(), usize::MAX - 1);
}
