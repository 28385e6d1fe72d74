use batty::tabs::TabBar;

fn bar(n: usize) -> TabBar {
    TabBar::new((0..n).map(|i| format!("BAT{}", i)).collect())
}

#[test]
fn tabs_wrap_around_forward() {
    let mut t = bar(3);
    assert_eq!(t.index(), 0);
    t.next();
    assert_eq!(t.index(), 1);
    t.next();
    assert_eq!(t.index(), 2);
    t.next();
    assert_eq!(t.index(), 0);
    assert_eq!(t.titles(), &["BAT0".to_string(), "BAT1".to_string(), "BAT2".to_string()][..]);
}

#[test]
fn tabs_wrap_around_backward() {
    let mut t = bar(3);
    t.previous();
    assert_eq!(t.index(), 2);
    t.previous();
    assert_eq!(t.index(), 1);
    t.previous();
    assert_eq!(t.index(), 0);
}

#[test]
fn single_and_no_tab() {
    let mut one = bar(1);
    one.next();
    assert_eq!(one.index(), 0);
    one.previous();
    assert_eq!(one.index(), 0);
    let mut none = bar(0);
    none.next();
    none.previous();
    assert_eq!(none.index(), 0);
    assert!(none.titles().is_empty());
}
