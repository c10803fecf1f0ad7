use desktop_launcher::cli::{Cli, CliCommands};
use desktop_launcher::config::Config;
use desktop_launcher::entry::{Entry, EntryAction, EntryType};
use desktop_launcher::entry_cache::{add_found_entry, check_read_size, check_write_size, CacheError, EntryDB, MAX_SIZE, OLD_THRESHOLD};
use desktop_launcher::launch::{plan_action, plan_entry, LaunchError};
use desktop_launcher::order::{sort_entries_by_name, sort_positions_by_tag, str_lt};
use desktop_launcher::rofi::{
    action_icon, decode_info, encode_info, entry_icon, entry_menu, entry_meta, rofi_entry_row, rofi_header, rofi_row, rofi_start,
    rofi_step, InfoError, RofiCommand, RofiStart, RofiStep, RETV_CUSTOM_KB_1, RETV_CUSTOM_KB_2, RETV_INIT_CALL,
    RETV_SELECTED_ENTRY,
};
use desktop_launcher::text::{dedup_strings, replace_str, split_char};

fn strings(v: &[&str]) -> Vec<String> {
    v.iter().map(|s| s.to_string()).collect()
}

fn entry(id: &str, name: &str, tags: &[&str]) -> Entry {
    Entry {
        id: id.to_string(),
        entry_type: EntryType::Application,
        name: name.to_string(),
        tags: strings(tags),
        ..Default::default()
    }
}

fn cli() -> Cli {
    Cli {
        cache: None,
        config: "~/.config/launcher.json".to_string(),
        exec_app: strings(&["systemd-run", "--user", "sh", "-c", "%command%"]),
        exec_term: strings(&["kitty", "-e", "sh", "-c", "%command%"]),
        exec_link: strings(&["xdg-open", "%url%"]),
        sort_tag: None,
        only_tag: None,
        cmd: CliCommands::Unset,
    }
}

#[test]
fn split_and_replace_like_std() {
    for s in ["", ";", "a;b", "a;;b;", "no separators"] {
        assert_eq!(split_char(s, ';'), s.split(';').map(|x| x.to_string()).collect::<Vec<_>>());
    }
    for (s, pat, rep) in [("%%%", "%%", "%"), ("aaaa", "aa", "b"), ("x %command% y %command%", "%command%", "ls -l"), ("", "a", "b")] {
        assert_eq!(replace_str(s, pat, rep), s.replace(pat, rep));
    }
    assert_eq!(dedup_strings(strings(&["b", "a", "b", "", "a"])), strings(&["b", "a", ""]));
}

#[test]
fn config_tags() {
    let mut config = Config::new();
    assert!(config.tags_of("firefox").is_empty());
    assert!(config.add_tag("firefox", "favorite"));
    assert_eq!(config.tags_of("firefox"), strings(&["favorite"]));
    assert!(!config.add_tag("firefox", "favorite"));
    assert!(config.add_tag("firefox", "web"));
    assert_eq!(config.tags_of("firefox"), strings(&["favorite", "web"]));
    assert!(config.tags_of("vivaldi").is_empty());
    assert_eq!(config.mtime, 0);
}

#[test]
fn plans_for_entries() {
    let args = cli();
    let mut app = entry("a", "A", &[]);
    app.exec_line = Some("firefox --private".to_string());
    app.path = Some("/tmp".to_string());
    let plan = plan_entry(&args, &app).unwrap().unwrap();
    assert_eq!(plan.program, "systemd-run");
    assert_eq!(plan.args, strings(&["--user", "sh", "-c", "firefox --private"]));
    assert_eq!(plan.cwd.as_deref(), Some("/tmp"));
    assert!(plan.detached_io && !plan.wait);

    app.terminal = true;
    let plan = plan_entry(&args, &app).unwrap().unwrap();
    assert_eq!(plan.program, "kitty");
    assert_eq!(plan.args, strings(&["-e", "sh", "-c", "firefox --private"]));

    app.exec_line = None;
    assert_eq!(plan_entry(&args, &app).unwrap_err(), LaunchError::MissingExec);
    assert_eq!(LaunchError::MissingExec.message(), "Tried to execute invalid application entry with empty Exec");

    let mut link = entry("l", "L", &[]);
    link.entry_type = EntryType::Link;
    assert_eq!(plan_entry(&args, &link).unwrap_err(), LaunchError::MissingUrl);
    link.url = Some("https://example.org".to_string());
    link.path = Some("/ignored".to_string());
    let plan = plan_entry(&args, &link).unwrap().unwrap();
    assert_eq!(plan.program, "xdg-open");
    assert_eq!(plan.args, strings(&["https://example.org"]));
    assert_eq!(plan.cwd, None);
    assert!(!plan.detached_io && plan.wait);

    let mut other = entry("o", "O", &[]);
    other.entry_type = EntryType::Other;
    assert!(plan_entry(&args, &other).unwrap().is_none());
}

#[test]
fn plan_for_action() {
    let args = cli();
    let mut e = entry("b", "Brave", &[]);
    e.path = Some("/home".to_string());
    let action = EntryAction { name: "New".to_string(), exec_line: "brave --new".to_string(), icon: None };
    let plan = plan_action(&args, &e, &action);
    assert_eq!(plan.program, "kitty");
    assert_eq!(plan.args, strings(&["-e", "sh", "-c", "brave --new"]));
    assert_eq!(plan.cwd.as_deref(), Some("/home"));
    assert!(plan.wait && !plan.detached_io);
}

#[test]
fn string_order() {
    assert!(str_lt("Brave", "Vivaldi"));
    assert!(!str_lt("Vivaldi", "Brave"));
    assert!(str_lt("Ab", "Abc"));
    assert!(!str_lt("Abc", "Abc"));
    assert!(str_lt("Z", "a"));
    assert!(str_lt("", "a"));
}

#[test]
fn sorting_is_stable_by_name() {
    let sorted = sort_entries_by_name(vec![entry("3", "b", &[]), entry("1", "a", &[]), entry("4", "b", &[]), entry("2", "a", &[])]);
    let ids: Vec<&str> = sorted.iter().map(|e| e.id.as_str()).collect();
    assert_eq!(ids, vec!["1", "2", "3", "4"]);
}

#[test]
fn tagged_entries_first() {
    let entries = vec![entry("a", "A", &[]), entry("b", "B", &["fav"]), entry("c", "C", &[]), entry("d", "D", &["fav"])];
    assert_eq!(sort_positions_by_tag(&entries, "fav"), vec![1, 3, 0, 2]);
}

#[test]
fn entrydb_indexes() {
    let db = EntryDB::from_entries_at(vec![
        entry("com.vivaldi.vivaldi", "Vivaldi", &["strawberry", "fruit"]),
        entry("com.bravesoftware.brave", "Brave", &["banana", "fruit", "fruit"]),
    ], 1234);
    assert_eq!(db.timestamp, 1234);
    assert_eq!(db.entries[0].name, "Brave");
    assert_eq!(db.entries[1].name, "Vivaldi");
    assert!(db.actions.is_empty());
    assert_eq!(db.get_by_id("com.vivaldi.vivaldi").unwrap().name, "Vivaldi");
    assert!(db.get_by_id("org.gnome.Files").is_none());
    let fruit: Vec<&str> = db.get_by_tag("fruit").unwrap().iter().map(|e| e.name.as_str()).collect();
    assert_eq!(fruit, vec!["Brave", "Vivaldi"]);
    let banana: Vec<&str> = db.get_by_tag("banana").unwrap().iter().map(|e| e.name.as_str()).collect();
    assert_eq!(banana, vec!["Brave"]);
    assert!(db.get_by_tag("cherry").is_none());

    let all: Vec<&str> = db.listing(None, None).unwrap().iter().map(|e| e.name.as_str()).collect();
    assert_eq!(all, vec!["Brave", "Vivaldi"]);
    let sorted: Vec<&str> = db.listing(Some("strawberry"), None).unwrap().iter().map(|e| e.name.as_str()).collect();
    assert_eq!(sorted, vec!["Vivaldi", "Brave"]);
    let by_name: Vec<&str> = db.listing(Some("none"), None).unwrap().iter().map(|e| e.name.as_str()).collect();
    assert_eq!(by_name, vec!["Brave", "Vivaldi"]);
    let only: Vec<&str> = db.listing(None, Some("banana")).unwrap().iter().map(|e| e.name.as_str()).collect();
    assert_eq!(only, vec!["Brave"]);
    assert!(db.listing(None, Some("cherry")).is_none());
}

#[test]
fn duplicate_ids_resolve_to_the_last() {
    let db = EntryDB::from_entries_at(vec![entry("x", "Second", &[]), entry("x", "First", &[])], 0);
    assert_eq!(db.get_by_id("x").unwrap().name, "Second");
}

#[test]
fn entrydb_validity() {
    let db = EntryDB::from_entries_at(vec![], 1000);
    assert!(db.is_valid_at(1000 + OLD_THRESHOLD + 1, 999));
    assert!(!db.is_valid_at(1000 + OLD_THRESHOLD, 999));
    assert!(!db.is_valid_at(1000 + OLD_THRESHOLD + 1, 1000));
    let fresh = EntryDB::from_entries(vec![]);
    assert!(!fresh.is_valid(0));
}

#[test]
fn size_limits() {
    assert_eq!(MAX_SIZE, 102400);
    assert_eq!(check_read_size(0), Ok(()));
    assert_eq!(check_read_size(102399), Ok(()));
    assert_eq!(check_read_size(102400), Err(CacheError::ReadTooLarge));
    assert_eq!(check_write_size(102400), Err(CacheError::WriteTooLarge(102400)));
    assert_eq!(check_write_size(10), Ok(()));
}

#[test]
fn found_entries_override_by_id() {
    let mut found = vec![];
    add_found_entry(&mut found, entry("a", "First A", &[]));
    add_found_entry(&mut found, entry("b", "B", &[]));
    add_found_entry(&mut found, entry("a", "Second A", &[]));
    let names: Vec<&str> = found.iter().map(|e| e.name.as_str()).collect();
    assert_eq!(names, vec!["Second A", "B"]);
}

#[test]
fn rofi_protocol_steps() {
    assert_eq!(rofi_start(RETV_INIT_CALL), RofiStart::Init);
    assert_eq!(rofi_start(RETV_SELECTED_ENTRY), RofiStart::Continue);
    assert_eq!(rofi_start(RETV_CUSTOM_KB_1), RofiStart::Continue);
    assert_eq!(rofi_start(RETV_CUSTOM_KB_2), RofiStart::Continue);
    assert_eq!(rofi_start(2), RofiStart::Ignore);
    assert_eq!(rofi_start(12), RofiStart::Ignore);

    assert_eq!(rofi_step(RETV_INIT_CALL, &RofiCommand::default()), RofiStep::ListEntries);
    let cmd = RofiCommand::Entry { entry: entry("a", "A", &[]), force_execute: false };
    assert_eq!(rofi_step(RETV_SELECTED_ENTRY, &cmd), RofiStep::ExecuteEntry);
    assert_eq!(rofi_step(RETV_CUSTOM_KB_2, &cmd), RofiStep::AddFavorite);
    assert_eq!(rofi_step(RETV_CUSTOM_KB_1, &cmd), RofiStep::ShowEntryMenu);
    let forced = RofiCommand::Entry { entry: entry("a", "A", &[]), force_execute: true };
    assert_eq!(rofi_step(RETV_CUSTOM_KB_2, &forced), RofiStep::ExecuteEntry);
    let action = RofiCommand::ExecuteAction(entry("a", "A", &[]), EntryAction::default());
    assert_eq!(rofi_step(RETV_CUSTOM_KB_1, &action), RofiStep::ExecuteAction);
}

#[test]
fn rofi_rows() {
    assert_eq!(rofi_header(), strings(&["\0no-custom\x1ftrue", "\0use-hot-keys\x1ftrue"]));
    assert_eq!(rofi_row("Back", "go-previous", "00"), "Back\0icon\x1fgo-previous\x1finfo\x1f00");
    assert_eq!(rofi_entry_row("A", "i", "m", "ff"), "A\0icon\x1fi\x1fmeta\x1fm\x1finfo\x1fff");
    let mut e = entry("a", "A", &[]);
    assert_eq!(entry_icon(&e), "application-x-executable");
    e.icon = Some("firefox".to_string());
    assert_eq!(entry_icon(&e), "firefox");
    e.entry_type = EntryType::Link;
    let action = EntryAction::default();
    assert_eq!(action_icon(&e, &action), "open-link");
    e.generic_name = Some("Web Browser".to_string());
    e.categories = strings(&["Network", "WebBrowser"]);
    assert_eq!(entry_meta(&e), "Web Browser  Network WebBrowser");
    e.categories = strings(&["", "X", "Y"]);
    assert_eq!(entry_meta(&e), "Web Browser  XY".replace("XY", "X Y"));
}

#[test]
fn info_text_roundtrip() {
    let bytes = vec![0u8, 1, 0x7f, 0x80, 0xab, 0xff];
    let text = encode_info(&bytes);
    assert_eq!(text, "00017f80abff");
    assert_eq!(decode_info(&text), Ok(bytes));
    assert_eq!(decode_info("ABff"), Ok(vec![0xab, 0xff]));
    assert_eq!(decode_info("abc"), Err(InfoError::NotHex));
    assert_eq!(decode_info("zz"), Err(InfoError::NotHex));
    assert_eq!(decode_info(""), Ok(vec![]));
}

#[test]
fn config_from_stored_tags_keeps_each_tag_once() {
    let config = Config::from_tags(42, vec![
        ("firefox".to_string(), strings(&["web", "favorite", "web"])),
        ("kitty".to_string(), strings(&["term"])),
    ]);
    assert_eq!(config.mtime, 42);
    assert_eq!(config.tags_of("firefox"), strings(&["web", "favorite"]));
    assert_eq!(config.tags_of("kitty"), strings(&["term"]));
    assert!(config.tags_of("vim").is_empty());
}

#[test]
fn restored_db_rebuilds_its_indexes() {
    let entries = vec![entry("b", "Brave", &["fruit"]), entry("v", "Vivaldi", &["fruit", "red"])];
    let db = EntryDB::restored(77, entries, vec![]);
    assert_eq!(db.timestamp, 77);
    assert_eq!(db.entries[0].name, "Brave");
    assert_eq!(db.get_by_id("v").unwrap().name, "Vivaldi");
    assert!(db.get_by_id("x").is_none());
    let fruit: Vec<&str> = db.get_by_tag("fruit").unwrap().iter().map(|e| e.name.as_str()).collect();
    assert_eq!(fruit, vec!["Brave", "Vivaldi"]);
    let red: Vec<&str> = db.get_by_tag("red").unwrap().iter().map(|e| e.name.as_str()).collect();
    assert_eq!(red, vec!["Vivaldi"]);
    assert!(db.get_by_tag("green").is_none());
}

#[test]
fn validity_lasts_as_time_passes() {
    let db = EntryDB::from_entries_at(vec![], 500);
    let now = 500 + OLD_THRESHOLD + 1;
    assert!(db.is_valid_at(now, 400));
    assert!(db.is_valid_at(now + 1000, 400));
    assert!(db.is_valid_at(now, 10));
    assert!(db.is_valid_at(u64::MAX, 0));
}

#[test]
fn tagged_first_then_by_name() {
    let db = EntryDB::from_entries_at(vec![
        entry("a", "Alpha", &[]),
        entry("b", "Beta", &["fav"]),
        entry("c", "Gamma", &["fav"]),
    ], 0);
    let names: Vec<&str> = db.listing(Some("fav"), None).unwrap().iter().map(|e| e.name.as_str()).collect();
    assert_eq!(names, vec!["Beta", "Gamma", "Alpha"]);
}

#[test]
fn reuse_only_recent_databases() {
    let db = EntryDB::from_entries_at(vec![], 1000);
    assert_eq!(OLD_THRESHOLD, 3600);
    assert!(db.reusable_at(1000));
    assert!(db.reusable_at(1000 + OLD_THRESHOLD));
    assert!(!db.reusable_at(1000 + OLD_THRESHOLD + 1));
    assert!(db.is_valid_at(1000 + 3601, 999));
    let fresh = EntryDB::from_entries(vec![]);
    assert!(fresh.reusable());
}

#[test]
fn entry_menu_rows() {
    let mut e = entry("brave", "Brave", &[]);
    e.icon = Some("brave".to_string());
    e.actions = vec![
        EntryAction { name: "New Window".to_string(), exec_line: "brave --new-window".to_string(), icon: None },
        EntryAction { name: "Incognito".to_string(), exec_line: "brave --incognito".to_string(), icon: Some("private".to_string()) },
    ];
    let rows = entry_menu(&e);
    let shown: Vec<(&str, &str)> = rows.iter().map(|r| (r.label.as_str(), r.icon.as_str())).collect();
    assert_eq!(shown, vec![
        ("Start", "brave"),
        ("New Window", "application-x-executable"),
        ("Incognito", "private"),
        ("Back", "go-previous"),
    ]);
    match &rows[0].command {
        RofiCommand::Entry { entry, force_execute } => {
            assert_eq!(entry, &e);
            assert!(*force_execute);
        },
        _ => panic!("Start runs the entry"),
    }
    match &rows[2].command {
        RofiCommand::ExecuteAction(entry, action) => {
            assert_eq!(entry, &e);
            assert_eq!(action, &e.actions[1]);
        },
        _ => panic!("an action row runs its action"),
    }
    assert!(matches!(rows[3].command, RofiCommand::ListEntries));
}
