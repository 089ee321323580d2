use cosmic_toplevel::app::{App, Effect, Request, Response, SearchHit, SearchResult, Step};
use cosmic_toplevel::handle::Handle;
use cosmic_toplevel::icon::{
    default_icon_name, find_entry, icon_or_default, resolve_icon, DesktopFile,
};
use cosmic_toplevel::toplevel::{Toplevel, ToplevelAction, ToplevelEvent};

fn window(id: u32, generation: u64, app_id: &str, title: &str) -> Toplevel {
    Toplevel {
        name: title.to_string(),
        app_id: app_id.to_string(),
        toplevel_handle: Handle::new(id, generation),
        states: vec![],
        output: None,
        workspace: None,
    }
}

fn entry(stem: &str, path: &str) -> DesktopFile {
    DesktopFile { stem: stem.to_string(), path: path.to_string() }
}

fn app_with_windows() -> App {
    let mut app = App::new(vec![
        entry("org.gnome.Terminal", "/usr/share/applications/org.gnome.Terminal.desktop"),
        entry("firefox", "/usr/share/applications/firefox.desktop"),
        entry("firefox", "/home/u/.local/share/applications/firefox.desktop"),
    ]);
    app.toplevel_event(ToplevelEvent::Add(window(1, 0, "firefox", "Mozilla Firefox")));
    app.toplevel_event(ToplevelEvent::Add(window(2, 0, "org.gnome.Terminal", "bash")));
    app.toplevel_event(ToplevelEvent::Add(window(3, 0, "thunderbird", "Inbox")));
    app
}

fn listed(app: &App) -> Vec<u32> {
    app.toplevels().iter().map(|t| t.toplevel_handle.id).collect()
}

const FIREFOX_ENTRY: &str = "[Desktop Entry]\nName=Firefox\nIcon=firefox-icon\nExec=firefox %u\n";

#[test]
fn add_appends_a_new_window() {
    let app = app_with_windows();
    assert_eq!(listed(&app), vec![1, 2, 3]);
    assert!(app.ids_to_ignore().is_empty());
}

#[test]
fn add_replaces_the_record_of_a_known_handle() {
    let mut app = app_with_windows();
    app.toplevel_event(ToplevelEvent::Add(window(1, 0, "firefox", "New Tab")));
    assert_eq!(listed(&app), vec![2, 3, 1]);
    assert_eq!(app.toplevels()[2].name, "New Tab");
}

#[test]
fn remove_drops_the_window_and_ignores_its_id() {
    let mut app = app_with_windows();
    app.toplevel_event(ToplevelEvent::Remove(window(2, 0, "org.gnome.Terminal", "bash")));
    assert_eq!(listed(&app), vec![1, 3]);
    assert_eq!(app.ids_to_ignore(), &vec![2]);
}

#[test]
fn remove_of_an_unlisted_window_still_ignores_its_id() {
    let mut app = app_with_windows();
    app.toplevel_event(ToplevelEvent::Remove(window(9, 0, "x", "y")));
    assert_eq!(listed(&app), vec![1, 2, 3]);
    assert_eq!(app.ids_to_ignore(), &vec![9]);
}

#[test]
fn activate_toggles_then_forwards() {
    let app = app_with_windows();
    assert_eq!(
        app.activate(2),
        vec![
            Effect::ToggleFrontend,
            Effect::Forward(ToplevelAction::Activate(Handle::new(2, 0))),
        ]
    );
}

#[test]
fn quit_forwards_a_close() {
    let app = app_with_windows();
    assert_eq!(app.quit(3), vec![Effect::Forward(ToplevelAction::Close(Handle::new(3, 0)))]);
}

#[test]
fn unknown_id_has_no_effect() {
    let app = app_with_windows();
    assert_eq!(app.activate(77), vec![]);
    assert_eq!(app.quit(77), vec![]);
    assert_eq!(app.target(77), None);
}

#[test]
fn removed_id_is_ignored_until_the_next_search() {
    let mut app = app_with_windows();
    app.toplevel_event(ToplevelEvent::Remove(window(2, 0, "org.gnome.Terminal", "bash")));
    app.toplevel_event(ToplevelEvent::Add(window(2, 1, "gedit", "notes")));
    assert_eq!(app.target(2), None);
    assert_eq!(app.activate(2), vec![]);
    assert_eq!(app.quit(2), vec![]);
    let hits = app.search("");
    let contents = vec![None; hits.len()];
    app.respond(&hits, &contents);
    assert!(app.ids_to_ignore().is_empty());
    assert_eq!(app.target(2), Some(Handle::new(2, 1)));
    assert_eq!(
        app.activate(2),
        vec![
            Effect::ToggleFrontend,
            Effect::Forward(ToplevelAction::Activate(Handle::new(2, 1))),
        ]
    );
    assert_eq!(app.quit(2), vec![Effect::Forward(ToplevelAction::Close(Handle::new(2, 1)))]);
}

#[test]
fn removed_id_without_a_live_window_stays_without_effect() {
    let mut app = app_with_windows();
    app.toplevel_event(ToplevelEvent::Remove(window(2, 0, "org.gnome.Terminal", "bash")));
    let hits = app.search("nothing matches this");
    app.respond(&hits, &vec![]);
    assert!(app.ids_to_ignore().is_empty());
    assert_eq!(app.activate(2), vec![]);
}

#[test]
fn first_listed_window_with_the_id_is_the_target() {
    let mut app = App::new(vec![]);
    app.toplevel_event(ToplevelEvent::Add(window(5, 0, "a", "")));
    app.toplevel_event(ToplevelEvent::Add(window(5, 1, "b", "")));
    assert_eq!(app.target(5), Some(Handle::new(5, 0)));
}

#[test]
fn empty_search_returns_every_window_then_finished() {
    let mut app = app_with_windows();
    let hits = app.search("");
    assert_eq!(
        hits,
        vec![
            SearchHit {
                id: 1,
                app_id: "firefox".to_string(),
                title: "Mozilla Firefox".to_string(),
                entry: Some("/usr/share/applications/firefox.desktop".to_string()),
            },
            SearchHit {
                id: 2,
                app_id: "org.gnome.Terminal".to_string(),
                title: "bash".to_string(),
                entry: Some("/usr/share/applications/org.gnome.Terminal.desktop".to_string()),
            },
            SearchHit {
                id: 3,
                app_id: "thunderbird".to_string(),
                title: "Inbox".to_string(),
                entry: None,
            },
        ]
    );
    let contents = vec![Some(FIREFOX_ENTRY.to_string()), None, None];
    let out = app.respond(&hits, &contents);
    assert_eq!(
        out,
        vec![
            Response::Append(SearchResult {
                id: 1,
                name: "firefox".to_string(),
                description: "Mozilla Firefox".to_string(),
                icon: "firefox-icon".to_string(),
            }),
            Response::Append(SearchResult {
                id: 2,
                name: "org.gnome.Terminal".to_string(),
                description: "bash".to_string(),
                icon: "application-x-executable".to_string(),
            }),
            Response::Append(SearchResult {
                id: 3,
                name: "thunderbird".to_string(),
                description: "Inbox".to_string(),
                icon: "application-x-executable".to_string(),
            }),
            Response::Finished,
        ]
    );
}

#[test]
fn search_fire_finds_firefox() {
    let app = app_with_windows();
    let ids: Vec<u32> = app.search("fire").iter().map(|h| h.id).collect();
    assert_eq!(ids, vec![1]);
    let ids: Vec<u32> = app.search("fire fox").iter().map(|h| h.id).collect();
    assert_eq!(ids, vec![1]);
    assert_eq!(app.search("fire chrome"), vec![]);
}

#[test]
fn search_looks_at_titles() {
    let app = app_with_windows();
    let ids: Vec<u32> = app.search("BASH").iter().map(|h| h.id).collect();
    assert_eq!(ids, vec![2]);
}

#[test]
fn search_without_hits_answers_finished_alone() {
    let mut app = app_with_windows();
    let hits = app.search("zzz");
    assert_eq!(app.respond(&hits, &vec![]), vec![Response::Finished]);
}

#[test]
fn search_on_an_empty_list() {
    let mut app = App::new(vec![]);
    let hits = app.search("");
    assert!(hits.is_empty());
    assert_eq!(app.respond(&hits, &vec![]), vec![Response::Finished]);
}

#[test]
fn missing_contents_count_as_unreadable() {
    let mut app = app_with_windows();
    let hits = app.search("fire");
    let out = app.respond(&hits, &vec![]);
    assert_eq!(
        out,
        vec![
            Response::Append(SearchResult {
                id: 1,
                name: "firefox".to_string(),
                description: "Mozilla Firefox".to_string(),
                icon: "application-x-executable".to_string(),
            }),
            Response::Finished,
        ]
    );
}

#[test]
fn request_dispatch() {
    let app = app_with_windows();
    assert_eq!(app.request(&Request::Activate(1)), Step::Act(app.activate(1)));
    assert_eq!(app.request(&Request::Quit(1)), Step::Act(app.quit(1)));
    assert_eq!(app.request(&Request::Search("fire".to_string())), Step::Lookup(app.search("fire")));
    assert_eq!(app.request(&Request::Exit), Step::Exit);
    assert_eq!(app.request(&Request::Other), Step::Act(vec![]));
}

#[test]
fn icon_of_a_declaring_entry() {
    assert_eq!(
        resolve_icon("/usr/share/applications/firefox.desktop", Some(FIREFOX_ENTRY)),
        "firefox-icon"
    );
}

#[test]
fn icon_without_a_matching_entry_is_the_default() {
    let entries = vec![entry("chromium", "/usr/share/applications/chromium.desktop")];
    assert_eq!(find_entry(&entries, "firefox"), None);
    let mut app = App::new(entries);
    app.toplevel_event(ToplevelEvent::Add(window(1, 0, "firefox", "")));
    let hits = app.search("");
    assert_eq!(hits[0].entry, None);
    let out = app.respond(&hits, &vec![Some(FIREFOX_ENTRY.to_string())]);
    match &out[0] {
        Response::Append(r) => assert_eq!(r.icon, "application-x-executable"),
        Response::Finished => panic!("a line was expected"),
    }
}

#[test]
fn icon_of_an_entry_without_icon_is_the_default() {
    assert_eq!(
        resolve_icon("/usr/share/applications/firefox.desktop", Some("[Desktop Entry]\nName=Firefox\n")),
        "application-x-executable"
    );
}

#[test]
fn icon_of_an_entry_that_does_not_parse_is_the_default() {
    assert_eq!(
        resolve_icon("/usr/share/applications/firefox.desktop", Some("[Desktop Entry\nIcon=x\n")),
        "application-x-executable"
    );
    assert_eq!(
        resolve_icon("/usr/share/applications/firefox.desktop", Some("Icon=x\nno equals sign\n")),
        "application-x-executable"
    );
}

#[test]
fn icon_of_an_unreadable_entry_is_the_default() {
    assert_eq!(
        resolve_icon("/usr/share/applications/firefox.desktop", None),
        "application-x-executable"
    );
}

#[test]
fn icon_is_read_from_the_desktop_entry_group() {
    let data = "[Desktop Action new]\nIcon=other\n[Desktop Entry]\nIcon=right\n";
    assert_eq!(resolve_icon("/usr/share/applications/a.desktop", Some(data)), "right");
}

#[test]
fn default_icon() {
    assert_eq!(default_icon_name(), "application-x-executable");
    assert_eq!(icon_or_default(None), "application-x-executable");
    assert_eq!(icon_or_default(Some("x".to_string())), "x");
    assert_eq!(icon_or_default(Some(String::new())), "");
}

#[test]
fn first_matching_entry_is_found() {
    let entries = vec![
        entry("a", "/1/a.desktop"),
        entry("firefox", "/2/firefox.desktop"),
        entry("firefox", "/3/firefox.desktop"),
    ];
    assert_eq!(find_entry(&entries, "firefox"), Some(1));
    assert_eq!(find_entry(&entries, "a"), Some(0));
    assert_eq!(find_entry(&entries, "Firefox"), None);
    assert_eq!(find_entry(&vec![], "a"), None);
}
