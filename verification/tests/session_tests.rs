use bsh::session::Effect;
use bsh::session::InputMode;
use bsh::session::Key;
use bsh::session::Mode;
use bsh::session::Session;
use bsh::store::Store;

fn s(x: &str) -> String {
    x.to_string()
}

fn two_category_store() -> Store {
    let mut store = Store::new();
    store.add_category(&s("a"));
    store.add_category(&s("b"));
    store
}

fn press(session: &mut Session, store: &mut Store, key: Key) -> Effect {
    session.handle_key(store, key)
}

#[test]
fn down_stops_at_last_category_then_opens_adding() {
    let mut store = two_category_store();
    let mut session = Session::init(&store);
    assert_eq!(session.selected_category, Some(0));
    press(&mut session, &mut store, Key::Down);
    assert_eq!(session.selected_category, Some(1));
    press(&mut session, &mut store, Key::Down);
    assert_eq!(session.selected_category, Some(1));
    press(&mut session, &mut store, Key::Down);
    assert_eq!(session.selected_category, Some(1));
    assert_eq!(session.input_mode, InputMode::Adding);
    assert!(session.input.is_empty());
    assert_eq!(store.num_categories(), 2);
}

#[test]
fn deleting_last_category_clears_selection_and_blocks_descent() {
    let mut store = Store::new();
    store.add_category(&s("only"));
    let mut session = Session::init(&store);
    let eff = press(&mut session, &mut store, Key::Char('d'));
    assert!(matches!(eff, Effect::Persist));
    assert_eq!(store.num_categories(), 0);
    assert_eq!(session.selected_category, None);
    let eff = press(&mut session, &mut store, Key::Right);
    assert!(matches!(eff, Effect::Continue));
    assert_eq!(session.mode, Mode::Category);
    let eff = press(&mut session, &mut store, Key::Enter);
    assert!(matches!(eff, Effect::Continue));
    assert_eq!(session.mode, Mode::Category);
    assert_eq!(session.selected_command, None);
}

#[test]
fn deleting_first_of_two_categories_keeps_selection_index() {
    let mut store = two_category_store();
    let mut session = Session::init(&store);
    press(&mut session, &mut store, Key::Char('d'));
    assert_eq!(store.num_categories(), 1);
    assert_eq!(store.category_name(0), &s("b"));
    assert_eq!(session.selected_category, Some(0));
}

#[test]
fn commit_without_whitespace_is_dropped_and_adding_stays_open() {
    let mut store = Store::new();
    store.add_category(&s("a"));
    let mut session = Session::init(&store);
    press(&mut session, &mut store, Key::Right);
    assert_eq!(session.mode, Mode::Command);
    press(&mut session, &mut store, Key::Down);
    assert_eq!(session.input_mode, InputMode::Adding);
    press(&mut session, &mut store, Key::Char('f'));
    press(&mut session, &mut store, Key::Char('o'));
    press(&mut session, &mut store, Key::Char('o'));
    let eff = press(&mut session, &mut store, Key::Enter);
    assert!(matches!(eff, Effect::Continue));
    assert_eq!(session.input_mode, InputMode::Adding);
    assert_eq!(session.input, vec!['f', 'o', 'o']);
    assert_eq!(store.num_commands(0), 0);
}

#[test]
fn adding_a_command_splits_on_first_space() {
    let mut store = Store::new();
    store.add_category(&s("git"));
    let mut session = Session::init(&store);
    press(&mut session, &mut store, Key::Enter);
    press(&mut session, &mut store, Key::Down);
    for c in "st git status".chars() {
        press(&mut session, &mut store, Key::Char(c));
    }
    let eff = press(&mut session, &mut store, Key::Enter);
    assert!(matches!(eff, Effect::Persist));
    assert_eq!(session.input_mode, InputMode::Normal);
    assert_eq!(session.mode, Mode::Command);
    assert!(session.input.is_empty());
    assert_eq!(store.lookup(&s("git"), &s("st")), Some(s("git status")));
}

#[test]
fn adding_a_duplicate_alias_is_dropped() {
    let mut store = Store::new();
    store.add_or_update_command(&s("git"), &s("st"), &s("git status"));
    let mut session = Session::init(&store);
    press(&mut session, &mut store, Key::Right);
    press(&mut session, &mut store, Key::Down);
    for c in "st echo other".chars() {
        press(&mut session, &mut store, Key::Char(c));
    }
    let eff = press(&mut session, &mut store, Key::Enter);
    assert!(matches!(eff, Effect::Continue));
    assert_eq!(session.input_mode, InputMode::Adding);
    assert_eq!(store.lookup(&s("git"), &s("st")), Some(s("git status")));
    assert_eq!(store.num_commands(0), 1);
}

#[test]
fn adding_a_category_from_the_empty_store_selects_it() {
    let mut store = Store::new();
    let mut session = Session::init(&store);
    assert_eq!(session.selected_category, None);
    press(&mut session, &mut store, Key::Down);
    assert_eq!(session.input_mode, InputMode::Adding);
    press(&mut session, &mut store, Key::Char('a'));
    let eff = press(&mut session, &mut store, Key::Enter);
    assert!(matches!(eff, Effect::Persist));
    assert_eq!(session.input_mode, InputMode::Normal);
    assert_eq!(session.selected_category, Some(0));
    assert!(store.has_category(&s("a")));
}

#[test]
fn adding_an_existing_category_changes_nothing() {
    let mut store = Store::new();
    store.add_category(&s("a"));
    let mut session = Session::init(&store);
    press(&mut session, &mut store, Key::Down);
    assert_eq!(session.input_mode, InputMode::Adding);
    press(&mut session, &mut store, Key::Char('a'));
    let eff = press(&mut session, &mut store, Key::Enter);
    assert!(matches!(eff, Effect::Continue));
    assert_eq!(session.input_mode, InputMode::Adding);
    assert_eq!(store.num_categories(), 1);
}

#[test]
fn enter_at_a_command_asks_to_run_it() {
    let mut store = Store::new();
    store.add_or_update_command(&s("git"), &s("st"), &s("git status"));
    let mut session = Session::init(&store);
    press(&mut session, &mut store, Key::Right);
    let eff = press(&mut session, &mut store, Key::Enter);
    match eff {
        Effect::Run { category, alias } => {
            assert_eq!(category, s("git"));
            assert_eq!(alias, s("st"));
        }
        _ => panic!("expected a run request"),
    }
}

#[test]
fn enter_on_an_empty_command_list_runs_nothing() {
    let mut store = Store::new();
    store.add_category(&s("git"));
    let mut session = Session::init(&store);
    press(&mut session, &mut store, Key::Right);
    assert_eq!(session.mode, Mode::Command);
    let eff = press(&mut session, &mut store, Key::Enter);
    assert!(matches!(eff, Effect::Continue));
}

#[test]
fn update_button_edits_the_selected_command() {
    let mut store = Store::new();
    store.add_or_update_command(&s("git"), &s("st"), &s("git status"));
    let mut session = Session::init(&store);
    press(&mut session, &mut store, Key::Right);
    press(&mut session, &mut store, Key::Right);
    assert_eq!(session.mode, Mode::Buttons);
    assert_eq!(session.selected_button, Some(0));
    press(&mut session, &mut store, Key::Enter);
    assert_eq!(session.input_mode, InputMode::Editing);
    let held: String = session.input.iter().collect();
    assert_eq!(held, s("git status"));
    press(&mut session, &mut store, Key::Backspace);
    press(&mut session, &mut store, Key::Char('!'));
    let eff = press(&mut session, &mut store, Key::Enter);
    assert!(matches!(eff, Effect::Persist));
    assert_eq!(session.mode, Mode::Command);
    assert_eq!(session.input_mode, InputMode::Normal);
    assert_eq!(store.lookup(&s("git"), &s("st")), Some(s("git statu!")));
}

#[test]
fn editing_escape_discards_the_buffer() {
    let mut store = Store::new();
    store.add_or_update_command(&s("git"), &s("st"), &s("git status"));
    let mut session = Session::init(&store);
    press(&mut session, &mut store, Key::Right);
    press(&mut session, &mut store, Key::Right);
    press(&mut session, &mut store, Key::Enter);
    press(&mut session, &mut store, Key::Char('x'));
    press(&mut session, &mut store, Key::Esc);
    assert_eq!(session.input_mode, InputMode::Normal);
    assert!(session.input.is_empty());
    assert_eq!(store.lookup(&s("git"), &s("st")), Some(s("git status")));
}

#[test]
fn delete_button_removes_only_the_selected_command() {
    let mut store = Store::new();
    store.add_or_update_command(&s("git"), &s("st"), &s("git status"));
    store.add_or_update_command(&s("git"), &s("lg"), &s("git log"));
    let mut session = Session::init(&store);
    press(&mut session, &mut store, Key::Right);
    press(&mut session, &mut store, Key::Right);
    press(&mut session, &mut store, Key::Right);
    assert_eq!(session.selected_button, Some(1));
    let eff = press(&mut session, &mut store, Key::Enter);
    assert!(matches!(eff, Effect::Persist));
    assert_eq!(session.mode, Mode::Command);
    assert_eq!(session.selected_command, Some(0));
    assert!(!store.has_alias(&s("git"), &s("st")));
    assert_eq!(store.lookup(&s("git"), &s("lg")), Some(s("git log")));
}

#[test]
fn left_walks_back_up_the_levels() {
    let mut store = Store::new();
    store.add_or_update_command(&s("git"), &s("st"), &s("git status"));
    let mut session = Session::init(&store);
    press(&mut session, &mut store, Key::Right);
    press(&mut session, &mut store, Key::Right);
    press(&mut session, &mut store, Key::Right);
    assert_eq!(session.selected_button, Some(1));
    press(&mut session, &mut store, Key::Left);
    assert_eq!(session.selected_button, Some(0));
    assert_eq!(session.mode, Mode::Buttons);
    press(&mut session, &mut store, Key::Left);
    assert_eq!(session.mode, Mode::Command);
    press(&mut session, &mut store, Key::Left);
    assert_eq!(session.mode, Mode::Category);
    assert_eq!(session.selected_command, None);
}

#[test]
fn escape_asks_to_quit_from_every_level() {
    let mut store = Store::new();
    store.add_or_update_command(&s("git"), &s("st"), &s("git status"));
    let mut session = Session::init(&store);
    assert!(matches!(press(&mut session, &mut store, Key::Esc), Effect::Quit));
    press(&mut session, &mut store, Key::Right);
    assert!(matches!(press(&mut session, &mut store, Key::Esc), Effect::Quit));
    press(&mut session, &mut store, Key::Right);
    assert!(matches!(press(&mut session, &mut store, Key::Esc), Effect::Quit));
}

#[test]
fn up_in_adding_discards_the_buffer() {
    let mut store = two_category_store();
    let mut session = Session::init(&store);
    press(&mut session, &mut store, Key::Down);
    press(&mut session, &mut store, Key::Down);
    assert_eq!(session.input_mode, InputMode::Adding);
    press(&mut session, &mut store, Key::Char('c'));
    press(&mut session, &mut store, Key::Up);
    assert_eq!(session.input_mode, InputMode::Normal);
    assert!(session.input.is_empty());
    assert_eq!(store.num_categories(), 2);
}
