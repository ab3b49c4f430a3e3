use sortlist::bank::Bank;
use sortlist::basics::add_with_extra;
use sortlist::basics::plus_or_minus;
use sortlist::basics::ret_unit_type;
use sortlist::generics::largest;
use sortlist::generics::Point;

#[test]
fn plus_or_minus_both_branches() {
    assert_eq!(plus_or_minus(5), 10);
    assert_eq!(plus_or_minus(6), 1);
    assert_eq!(plus_or_minus(-4), 1);
}

#[test]
fn add_small_numbers() {
    assert_eq!(sortlist::basics::add(6, 10), 16);
}

#[test]
fn add_with_extra_bumps_both() {
    assert_eq!(add_with_extra(0, 0), 6);
    assert_eq!(add_with_extra(3, 4), 13);
}

#[test]
fn ret_unit_type_returns_unit() {
    assert_eq!(ret_unit_type(), ());
}

#[test]
fn largest_finds_maximum() {
    let arr: Vec<i32> = vec![2, 4, 6, 8, 10];
    assert_eq!(largest(&arr), 10);
    let single: Vec<i32> = vec![-7];
    assert_eq!(largest(&single), -7);
}

#[test]
fn mixup_combines_coordinates() {
    let p1 = Point { x: 5, y: 10 };
    let p2 = Point { x: "Hello", y: 'c' };
    let p3 = p1.mixup(p2);
    assert_eq!(p3.x, 5);
    assert_eq!(p3.y, 'c');
}

#[test]
fn bank_deposit_and_withdraw() {
    let mut bank = Bank::new();
    bank.deposit(100);
    assert!(bank.withdraw(50));
    assert_eq!(bank.balance(), 50);
}

#[test]
fn bank_uncovered_withdrawal_changes_nothing() {
    let mut bank = Bank::new();
    bank.deposit(30);
    assert!(!bank.withdraw(31));
    assert_eq!(bank.balance(), 30);
}
