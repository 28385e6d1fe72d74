use batty::config::{Config, Units};
use batty::events::{apply_event, Action, Event, EventHandler, Input, Key, KeyKind, Step};
use batty::tabs::TabBar;

fn press(key: Key, control: bool) -> Input {
    Input::Key { key, control, kind: KeyKind::Press }
}

#[test]
fn arrows_switch_tabs() {
    let h = EventHandler { tick_nanos: 1 };
    assert_eq!(h.on_input(press(Key::Left, false)), Some(Event::PreviousTab));
    assert_eq!(h.on_input(press(Key::Right, false)), Some(Event::NextTab));
    let repeat = Input::Key { key: Key::Right, control: false, kind: KeyKind::Repeat };
    assert_eq!(h.on_input(repeat), Some(Event::NextTab));
}

#[test]
fn q_escape_and_control_c_quit() {
    let h = EventHandler { tick_nanos: 1 };
    assert_eq!(h.on_input(press(Key::Char('q'), false)), Some(Event::Exit));
    assert_eq!(h.on_input(press(Key::Char('q'), true)), Some(Event::Exit));
    assert_eq!(h.on_input(press(Key::Esc, false)), Some(Event::Exit));
    assert_eq!(h.on_input(press(Key::Char('c'), true)), Some(Event::Exit));
}

#[test]
fn other_inputs_are_ignored() {
    let h = EventHandler { tick_nanos: 1 };
    assert_eq!(h.on_input(press(Key::Char('c'), false)), None);
    assert_eq!(h.on_input(press(Key::Char('Q'), false)), None);
    assert_eq!(h.on_input(press(Key::Other, false)), None);
    let release = Input::Key { key: Key::Char('q'), control: false, kind: KeyKind::Release };
    assert_eq!(h.on_input(release), None);
    assert_eq!(h.on_input(Input::Other), None);
}

#[test]
fn ticks_follow_the_configured_delay() {
    let config = Config::new(0, 2, Units::Human);
    let h = EventHandler::from_config(&config);
    assert_eq!(h.tick_nanos, 2_000_000_000);
    assert_eq!(h.next(false, 0), Step::Wait(2_000_000_000));
    assert_eq!(h.next(false, 1_500_000_000), Step::Wait(500_000_000));
    assert_eq!(h.next(false, 2_000_000_000), Step::Deliver(Event::Tick));
    assert_eq!(h.next(false, 9_000_000_000), Step::Deliver(Event::Tick));
}

#[test]
fn an_interrupt_quits_first() {
    let h = EventHandler { tick_nanos: 1_000_000_000 };
    assert_eq!(h.next(true, 0), Step::Deliver(Event::Exit));
    assert_eq!(h.next(true, 5_000_000_000), Step::Deliver(Event::Exit));
}

#[test]
fn events_drive_the_tabs() {
    let mut tabs = TabBar::new(vec!["A".to_string(), "B".to_string()]);
    assert_eq!(apply_event(&mut tabs, Event::NextTab), Action::Redraw);
    assert_eq!(tabs.index(), 1);
    assert_eq!(apply_event(&mut tabs, Event::NextTab), Action::Redraw);
    assert_eq!(tabs.index(), 0);
    assert_eq!(apply_event(&mut tabs, Event::PreviousTab), Action::Redraw);
    assert_eq!(tabs.index(), 1);
    assert_eq!(apply_event(&mut tabs, Event::Tick), Action::Refresh);
    assert_eq!(tabs.index(), 1);
    assert_eq!(apply_event(&mut tabs, Event::Exit), Action::Quit);
    assert_eq!(tabs.index(), 1);
}
