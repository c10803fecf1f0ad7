use configparser::ini::{Ini, IniDefault};
use desktop_launcher::config::Config;
use desktop_launcher::entry::{applications_dir, desktop_dirs, desktop_file_id, get_fallback_icon, read_desktop_file, Entry, EntryAction, EntryType};

fn ini(text: &str) -> Ini {
    let mut parser = Ini::new();
    parser.read(text.to_string()).unwrap();
    parser
}

/// A parser that keeps `;` in values (only `#` starts a comment).
fn ini_keeping_semicolons(text: &str) -> Ini {
    let mut defaults = IniDefault::default();
    defaults.comment_symbols = vec!['#'];
    let mut parser = Ini::new_from_defaults(defaults);
    parser.read(text.to_string()).unwrap();
    parser
}

fn config_with(id: &str, tags: &[&str]) -> Config {
    Config {
        mtime: 0,
        tags: vec![(id.to_string(), tags.iter().map(|t| t.to_string()).collect())],
    }
}

#[test]
fn desktop_file_placeholders() {
    assert_eq!(
        Entry::clean_exec(&"/nix/store/ix23cwqfjdap6wyhx27lz189kv5hsw3x-vivaldi-8.1.4087.70/bin/vivaldi %U".to_string()),
        "/nix/store/ix23cwqfjdap6wyhx27lz189kv5hsw3x-vivaldi-8.1.4087.70/bin/vivaldi ".to_string()
    );
}

#[test]
fn clean_exec_unescapes_percent() {
    assert_eq!(Entry::clean_exec(&"echo 100%% %f done".to_string()), "echo 100%  done");
    assert_eq!(Entry::clean_exec(&"%%U".to_string()), "%U");
    assert_eq!(Entry::clean_exec(&"printf %%s".to_string()), "printf %s");
    assert_eq!(Entry::clean_exec(&"%%%f".to_string()), "%");
    assert_eq!(Entry::clean_exec(&"a %1 b".to_string()), "a %1 b");
    assert_eq!(Entry::clean_exec(&"x%".to_string()), "x%");
}

#[test]
fn entry_type_from_and_name() {
    assert_eq!(EntryType::from("Application"), EntryType::Application);
    assert_eq!(EntryType::from("Link"), EntryType::Link);
    assert_eq!(EntryType::from("Directory"), EntryType::Other);
    assert_eq!(EntryType::from("application"), EntryType::Other);
    assert_eq!(EntryType::default(), EntryType::Application);
    for t in [EntryType::Application, EntryType::Link, EntryType::Other] {
        assert_eq!(EntryType::from(t.as_str()), t);
    }
    assert_eq!(EntryType::Link.as_str(), "Link");
}

#[test]
fn fallback_icons() {
    assert_eq!(get_fallback_icon(&EntryType::Application), "application-x-executable");
    assert_eq!(get_fallback_icon(&EntryType::Link), "open-link");
    assert_eq!(get_fallback_icon(&EntryType::Other), "");
}

#[test]
fn parses_application_entry() {
    let parser = ini_keeping_semicolons("[Desktop Entry]\nType=Application\nName=Firefox\nGenericName=Web Browser\nComment=Browse\nExec=firefox %u\nTryExec=firefox\nPath=/tmp\nTerminal=false\nIcon=firefox\nCategories=Network;WebBrowser;Network;\nOnlyShowIn=GNOME;KDE\n");
    let config = config_with("firefox", &["favorite"]);
    let entry = Entry::from_parser(&parser, "firefox", None, &config).unwrap().unwrap();
    assert_eq!(entry.id, "firefox");
    assert_eq!(entry.entry_type, EntryType::Application);
    assert_eq!(entry.name, "Firefox");
    assert_eq!(entry.generic_name.as_deref(), Some("Web Browser"));
    assert_eq!(entry.comment.as_deref(), Some("Browse"));
    assert_eq!(entry.exec_line.as_deref(), Some("firefox "));
    assert_eq!(entry.try_exec.as_deref(), Some("firefox"));
    assert_eq!(entry.path.as_deref(), Some("/tmp"));
    assert_eq!(entry.url, None);
    assert!(!entry.terminal);
    assert_eq!(entry.icon.as_deref(), Some("firefox"));
    assert_eq!(entry.categories, vec!["Network".to_string(), "WebBrowser".to_string(), "".to_string()]);
    assert_eq!(entry.only_show_in, vec!["GNOME".to_string(), "KDE".to_string()]);
    assert_eq!(entry.tags, vec!["favorite".to_string()]);
    assert!(entry.actions.is_empty());
}

#[test]
fn parses_link_and_terminal() {
    let parser = ini("[Desktop Entry]\nType=Link\nName=Docs\nURL=https://example.org\nTerminal=TRUE\n");
    let entry = Entry::from_parser(&parser, "docs", None, &Config::new()).unwrap().unwrap();
    assert_eq!(entry.entry_type, EntryType::Link);
    assert_eq!(entry.url.as_deref(), Some("https://example.org"));
    assert!(entry.terminal);
    assert!(entry.tags.is_empty());
    assert_eq!(entry.exec_line, None);
}

#[test]
fn hidden_and_other_entries_are_skipped() {
    let hidden = ini("[Desktop Entry]\nType=Application\nName=A\nNoDisplay=true\n");
    assert_eq!(Entry::from_parser(&hidden, "a", None, &Config::new()), Ok(None));
    let shown = ini("[Desktop Entry]\nType=Application\nName=A\nNoDisplay=false\n");
    assert!(Entry::from_parser(&shown, "a", None, &Config::new()).unwrap().is_some());
    let dir = ini("[Desktop Entry]\nType=Directory\nName=A\n");
    assert_eq!(Entry::from_parser(&dir, "a", None, &Config::new()), Ok(None));
}

#[test]
fn missing_required_keys_are_errors() {
    let no_type = ini("[Desktop Entry]\nName=A\n");
    assert_eq!(Entry::from_parser(&no_type, "a", None, &Config::new()), Err("Type is required in desktop files".to_string()));
    let no_name = ini("[Desktop Entry]\nType=Application\n");
    assert_eq!(Entry::from_parser(&no_name, "a", None, &Config::new()), Err("Name is required in desktop files".to_string()));
    let action_no_exec = ini("[Desktop Entry]\nType=Application\nName=A\nActions=new\n[Desktop Action new]\nName=New\n");
    assert_eq!(Entry::from_parser(&action_no_exec, "a", None, &Config::new()), Err("Exec is required in actions".to_string()));
    // a trailing separator names an action without a section
    let trailing = ini_keeping_semicolons("[Desktop Entry]\nType=Application\nName=A\nActions=new;\n[Desktop Action new]\nName=New\nExec=a --new\n");
    assert_eq!(Entry::from_parser(&trailing, "a", None, &Config::new()), Err("Name is required in actions".to_string()));
}

#[test]
fn parses_actions() {
    let parser = ini_keeping_semicolons("[Desktop Entry]\nType=Application\nName=Brave\nExec=brave %U\nActions=new-window;incognito\n[Desktop Action new-window]\nName=New Window\nExec=brave --new-window %U\n[Desktop Action incognito]\nName=Incognito\nExec=brave --incognito\nIcon=brave-private\n");
    let entry = Entry::from_parser(&parser, "brave", None, &Config::new()).unwrap().unwrap();
    assert_eq!(entry.actions, vec![
        EntryAction { name: "New Window".to_string(), exec_line: "brave --new-window ".to_string(), icon: None },
        EntryAction { name: "Incognito".to_string(), exec_line: "brave --incognito".to_string(), icon: Some("brave-private".to_string()) },
    ]);
}

#[test]
fn semicolon_starts_a_comment_by_default() {
    let parser = ini("[Desktop Entry]\nType=Application\nName=A\nCategories=Utility;Office;\nActions=one;two\n[Desktop Action one]\nName=One\nExec=a 1\n");
    let entry = Entry::from_parser(&parser, "a", None, &Config::new()).unwrap().unwrap();
    assert_eq!(entry.categories, vec!["Utility".to_string()]);
    assert_eq!(entry.actions.len(), 1);
}

#[test]
fn localized_lookup() {
    let parser = ini("[Desktop Entry]\nType=Application\nName=Files\nName[de]=Dateien\n");
    let de = Entry::from_parser(&parser, "files", Some("de"), &Config::new()).unwrap().unwrap();
    assert_eq!(de.name, "Dateien");
    // without a localized key, the plain key is the fallback
    let fr = Entry::from_parser(&parser, "files", Some("fr"), &Config::new()).unwrap().unwrap();
    assert_eq!(fr.name, "Files");
    let plain = Entry::from_parser(&parser, "files", Some(""), &Config::new()).unwrap().unwrap();
    assert_eq!(plain.name, "Files");
}

#[test]
fn desktop_file_ids() {
    assert_eq!(desktop_file_id("org.gnome.Files.desktop"), Some("org.gnome.Files".to_string()));
    assert_eq!(desktop_file_id(".desktop"), Some("".to_string()));
    assert_eq!(desktop_file_id("notes.txt"), None);
    assert_eq!(desktop_file_id("desktop"), None);
}

#[test]
fn applications_dirs() {
    assert_eq!(applications_dir("/usr/share"), "/usr/share/applications");
    assert_eq!(applications_dir("/usr/share/"), "/usr/share/applications");
    assert_eq!(applications_dir(""), "applications");
}

#[test]
fn missing_boolean_keys_with_cascading_defaults() {
    let mut parser = ini("[Desktop Entry]\nType=Application\nName=Files\n");
    parser.set_default_section("Defaults");
    parser.set_cascade_defaults(true);
    let entry = Entry::from_parser(&parser, "files", None, &Config::new()).unwrap().unwrap();
    assert_eq!(entry.name, "Files");
    assert!(!entry.terminal);
}

#[test]
fn desktop_file_text_to_entry() {
    let mut parser = Ini::new();
    let (err, found) = read_desktop_file(&mut parser, "[Desktop Entry]\nType=Application\nName=Files\n".to_string(), "files", None, &Config::new());
    assert!(err.is_none());
    assert_eq!(found.unwrap().unwrap().name, "Files");

    // a text that does not parse leaves the file before in the parser
    let (err, found) = read_desktop_file(&mut parser, "[Desktop Entry]\n=broken\n".to_string(), "other", None, &Config::new());
    assert!(err.unwrap().contains("Key cannot be empty"));
    let found = found.unwrap().unwrap();
    assert_eq!(found.id, "other");
    assert_eq!(found.name, "Files");

    let (err, found) = read_desktop_file(&mut Ini::new(), "=broken\n".to_string(), "x", None, &Config::new());
    assert!(err.is_some());
    assert_eq!(found, Err("Type is required in desktop files".to_string()));
}

#[test]
fn desktop_directories_in_order() {
    let defaults = desktop_dirs(None);
    assert_eq!(defaults.len(), 6);
    assert_eq!(defaults[0], "/usr/share/applications");
    assert_eq!(defaults[5], "~/.local/share/applications");
    let all = desktop_dirs(Some("/opt/share:/home/u/.nix/share/:"));
    assert_eq!(&all[..6], &defaults[..]);
    assert_eq!(&all[6..], &["/opt/share/applications".to_string(), "/home/u/.nix/share/applications".to_string(), "applications".to_string()]);
}
