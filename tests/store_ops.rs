use comphost::config::Configuration;
use comphost::network::{network_next, NetworkStep};
use comphost::store::{CloneAction, Entry, PathKind, Store};
use comphost::text::{is_space_char, split_words, trim_input};

fn s(x: &str) -> String {
    x.to_string()
}

fn store_of(names: &[&str]) -> Store {
    let mut st = Store::new();
    for n in names {
        st.add(s(n), format!("https://example/{}.git", n));
    }
    st
}

fn active_of(st: &Store, name: &str) -> bool {
    let i = st.find(&s(name)).expect("present");
    st.entry(i).config.active
}

#[test]
fn add_creates_active_uncloned_record() {
    let st = store_of(&["app"]);
    assert_eq!(st.len(), 1);
    let e = st.entry(0);
    assert_eq!(e.name, "app");
    assert!(e.config.active);
    assert_eq!(e.config.url, "https://example/app.git");
    assert_eq!(e.config.clone_path, None);
}

#[test]
fn add_existing_name_replaces_record_in_place() {
    let mut st = store_of(&["a", "b"]);
    st.set_active(&vec![s("a")], false);
    st.finish_clone(0, "/src", true);
    st.add(s("a"), s("https://other/a.git"));
    assert_eq!(st.len(), 2);
    assert_eq!(st.names(), vec![s("a"), s("b")]);
    let e = st.entry(0);
    assert!(e.config.active);
    assert_eq!(e.config.url, "https://other/a.git");
    assert_eq!(e.config.clone_path, None);
}

#[test]
fn on_twice_leaves_active() {
    let mut st = store_of(&["app"]);
    st.set_active(&vec![s("app")], false);
    let f1 = st.set_active(&vec![s("app")], true);
    let f2 = st.set_active(&vec![s("app")], true);
    assert_eq!(f1, vec![true]);
    assert_eq!(f2, vec![true]);
    assert!(active_of(&st, "app"));
}

#[test]
fn off_on_already_off_reports_found() {
    let mut st = store_of(&["app"]);
    assert_eq!(st.set_active(&vec![s("app")], false), vec![true]);
    assert_eq!(st.set_active(&vec![s("app")], false), vec![true]);
    assert!(!active_of(&st, "app"));
}

#[test]
fn on_with_unknown_name_still_turns_on_known_one() {
    let mut st = store_of(&["a", "c"]);
    st.set_active(&vec![s("a"), s("c")], false);
    let found = st.set_active(&vec![s("a"), s("b")], true);
    assert_eq!(found, vec![true, false]);
    assert!(active_of(&st, "a"));
    assert!(!active_of(&st, "c"));
    assert_eq!(st.len(), 2);
    assert_eq!(st.find(&s("b")), None);
}

#[test]
fn off_ghost_on_empty_store() {
    let mut st = Store::new();
    let found = st.set_active(&vec![s("ghost")], false);
    assert_eq!(found, vec![false]);
    assert_eq!(st.len(), 0);
    assert!(st.names().is_empty());
}

#[test]
fn clone_target_joins_directory_and_name() {
    let st = store_of(&["app"]);
    assert_eq!(st.clone_target(0, "/home/u/src"), "/home/u/src/app");
}

#[test]
fn clone_existing_directory_is_taken_without_running_client() {
    let mut st = store_of(&["app"]);
    let action = st.clone_entry(0, "/src", PathKind::Directory);
    assert_eq!(action, CloneAction::AlreadyCloned);
    assert_eq!(st.entry(0).config.clone_path, Some(s("/src/app")));
}

#[test]
fn clone_missing_target_asks_for_client_and_records_success() {
    let mut st = store_of(&["app"]);
    assert_eq!(st.clone_entry(0, "/src", PathKind::Missing), CloneAction::Run);
    assert_eq!(st.entry(0).config.clone_path, None);
    st.finish_clone(0, "/src", true);
    assert_eq!(st.entry(0).config.clone_path, Some(s("/src/app")));
}

#[test]
fn clone_failure_leaves_path_unset() {
    let mut st = store_of(&["app"]);
    assert_eq!(st.clone_entry(0, "/src", PathKind::Missing), CloneAction::Run);
    st.finish_clone(0, "/src", false);
    assert_eq!(st.entry(0).config.clone_path, None);
}

#[test]
fn clone_collision_with_file_is_skipped() {
    let mut st = store_of(&["app"]);
    assert_eq!(st.clone_entry(0, "/src", PathKind::Other), CloneAction::NotADirectory);
    assert_eq!(st.entry(0).config.clone_path, None);
}

#[test]
fn clone_ignores_inactive() {
    let mut st = store_of(&["app"]);
    st.set_active(&vec![s("app")], false);
    assert_eq!(st.clone_entry(0, "/src", PathKind::Directory), CloneAction::Inactive);
    assert_eq!(st.entry(0).config.clone_path, None);
}

#[test]
fn start_without_clone_path_brings_nothing_up() {
    let mut st = Store::new();
    st.add(s("app"), s("https://example/app.git"));
    assert_eq!(network_next(NetworkStep::Inspect, false), NetworkStep::Create);
    assert!(st.compose_targets().is_empty());
}

#[test]
fn compose_targets_are_active_cloned_in_order() {
    let mut st = store_of(&["a", "b", "c", "d"]);
    st.finish_clone(0, "/src", true);
    st.finish_clone(1, "/src", true);
    st.finish_clone(3, "/src", true);
    st.set_active(&vec![s("b")], false);
    assert_eq!(st.compose_targets(), vec![0, 3]);
}

#[test]
fn network_steps() {
    assert_eq!(network_next(NetworkStep::Inspect, true), NetworkStep::Ready);
    assert_eq!(network_next(NetworkStep::Inspect, false), NetworkStep::Create);
    assert_eq!(network_next(NetworkStep::Create, true), NetworkStep::Ready);
    assert_eq!(network_next(NetworkStep::Create, false), NetworkStep::Failed);
    assert_eq!(network_next(NetworkStep::Ready, false), NetworkStep::Ready);
    assert_eq!(network_next(NetworkStep::Failed, true), NetworkStep::Failed);
}

#[test]
fn reload_gives_back_same_store() {
    let mut st = store_of(&["x", "y", "z"]);
    st.set_active(&vec![s("y")], false);
    st.finish_clone(2, "/src", true);
    let mut listed = Vec::new();
    for i in 0..st.len() {
        let e = st.entry(i);
        listed.push(Entry {
            name: e.name.clone(),
            config: Configuration {
                active: e.config.active,
                url: e.config.url.clone(),
                clone_path: e.config.clone_path.clone(),
            },
        });
    }
    let back = Store::from_entries(listed);
    assert_eq!(back.len(), 3);
    assert_eq!(back.names(), st.names());
    for i in 0..3 {
        let (a, b) = (st.entry(i), back.entry(i));
        assert_eq!(a.config.active, b.config.active);
        assert_eq!(a.config.url, b.config.url);
        assert_eq!(a.config.clone_path, b.config.clone_path);
    }
}

#[test]
fn loading_repeated_name_keeps_last_record() {
    let v = vec![
        Entry { name: s("a"), config: Configuration::new(s("u1")) },
        Entry { name: s("b"), config: Configuration::new(s("u2")) },
        Entry { name: s("a"), config: Configuration::new(s("u3")) },
    ];
    let st = Store::from_entries(v);
    assert_eq!(st.names(), vec![s("a"), s("b")]);
    assert_eq!(st.entry(0).config.url, "u3");
}

#[test]
fn clone_project_sets_path() {
    let mut c = Configuration::new(s("u"));
    c.clone_project(s("/src/app"));
    assert_eq!(c.clone_path, Some(s("/src/app")));
    assert!(c.active);
    assert_eq!(c.url, "u");
}

#[test]
fn trim_removes_surrounding_white_space() {
    assert_eq!(trim_input("  https://example/app.git \n"), "https://example/app.git");
    assert_eq!(trim_input("a b"), "a b");
    assert_eq!(trim_input(" \t\n"), "");
    assert_eq!(trim_input(""), "");
    assert_eq!(trim_input("\u{3000}x\u{a0}"), "x");
}

#[test]
fn split_words_lists_container_ids() {
    assert_eq!(split_words("4f2a\n9bc1\n"), vec![s("4f2a"), s("9bc1")]);
    assert_eq!(split_words("  one  two\tthree "), vec![s("one"), s("two"), s("three")]);
    assert!(split_words("").is_empty());
    assert!(split_words(" \n ").is_empty());
    assert_eq!(split_words("x\u{2003}y"), vec![s("x"), s("y")]);
}

#[test]
fn space_characters() {
    assert!(is_space_char(' '));
    assert!(is_space_char('\u{0B}'));
    assert!(is_space_char('\u{85}'));
    assert!(is_space_char('\u{200A}'));
    assert!(!is_space_char('a'));
    assert!(!is_space_char('\u{200B}'));
}

#[test]
fn space_agrees_with_std_on_all_chars() {
    for u in 0u32..=0x10FFFF {
        if let Some(c) = char::from_u32(u) {
            assert_eq!(is_space_char(c), c.is_whitespace(), "U+{:04X}", u);
        }
    }
}
