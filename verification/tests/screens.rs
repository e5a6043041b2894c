use k_download::kodansha::series::Series;
use k_download::kodansha::user::User;
use k_download::kodansha::volume::{Chapter, LibraryItem, VolumeListing};
use k_download::tui::app::{App, AppAction, AppState};
use k_download::tui::download::{
    epub_file_name, percent_label, spawn_batches, Download, DownloadDestination, DownloadMode,
    PrerenderAction,
};
use k_download::tui::nav::Key;
use k_download::tui::tree::Tree;
use k_download::tui::user::UserMode;
use k_download::{Library, Volume};

fn volume(id: u16, series_id: u16, name: &str) -> Volume {
    Volume {
        series_name: "Series".to_string(),
        volume_name: name.to_string(),
        volume_number: 1,
        page_count: 3,
        description: String::new(),
        id,
        series_id,
    }
}

fn listing_row(id: u16, name: Option<&str>) -> VolumeListing {
    VolumeListing {
        series_name: "Series".to_string(),
        volume_name: name.map(|n| n.to_string()),
        volume_number: 1,
        page_count: 3,
        description: String::new(),
        id,
        series_id: 1,
    }
}

#[test]
fn library_keeps_only_named_volumes() {
    let rows = vec![
        listing_row(1, Some("One")),
        listing_row(2, None),
        listing_row(3, Some("Three")),
    ];
    let library = Library::from_listing(rows);
    let names: Vec<&str> = library.volumes.iter().map(|v| v.volume_name.as_str()).collect();
    assert_eq!(names, vec!["One", "Three"]);
    // The chapter row (no volume name) is gone.
    assert_eq!(library.volumes.len(), 2);
    let _ = LibraryItem::Chapter(Chapter);
}

#[test]
fn series_groups_by_first_appearance() {
    let library = Library {
        volumes: vec![
            volume(1, 10, "a"),
            volume(2, 20, "b"),
            volume(3, 10, "c"),
            volume(4, 30, "d"),
            volume(5, 20, "e"),
        ],
    };
    let groups = Series::series_groups(&library);
    let keys: Vec<u16> = groups.iter().map(|g| g.0).collect();
    assert_eq!(keys, vec![10, 20, 30]);
    assert_eq!(groups[0].1, vec![0, 2]);
    assert_eq!(groups[1].1, vec![1, 4]);
    assert_eq!(groups[2].1, vec![3]);
}

/// Selecting the same volume twice never doubles its pipeline: the plan
/// holds one entry per volume id.
#[test]
fn duplicate_selection_gets_one_pipeline() {
    // The same volume appears twice in the library and both rows are
    // selected.
    let volumes = vec![volume(7, 1, "dup"), volume(7, 1, "dup"), volume(8, 1, "other")];
    let mut panel = Download::new();
    panel.toggle_selected(0);
    panel.toggle_selected(1);
    panel.toggle_selected(2);
    let plan = panel.selection_plan(&volumes);
    assert_eq!(plan, vec![0, 2]);
}

#[test]
fn toggling_twice_removes_the_selection() {
    let mut panel = Download::new();
    panel.toggle_selected(4);
    assert_eq!(panel.get_selections(), &vec![4]);
    panel.toggle_selected(4);
    assert!(panel.get_selections().is_empty());
}

#[test]
fn finish_volume_removes_exactly_once() {
    let volumes = vec![volume(7, 1, "dup"), volume(7, 1, "dup")];
    let mut panel = Download::new();
    panel.toggle_selected(0);
    panel.toggle_selected(1);
    assert!(panel.finish_volume(&volumes, 7));
    assert_eq!(panel.get_selections(), &vec![1]);
    assert!(panel.finish_volume(&volumes, 7));
    assert!(panel.get_selections().is_empty());
    assert!(!panel.finish_volume(&volumes, 7));
}

#[test]
fn progress_reports_fold_with_last_wins() {
    let mut panel = Download::new();
    panel.drain_progress(&vec![(1, 10), (2, 5), (1, 40)]);
    assert_eq!(panel.percent_for(1), Some(40));
    assert_eq!(panel.percent_for(2), Some(5));
    assert_eq!(panel.percent_for(3), None);
    panel.drain_progress(&vec![(2, 100)]);
    assert_eq!(panel.percent_for(2), Some(100));
}

#[test]
fn download_prerender_walks_the_destination() {
    let volumes = vec![volume(1, 1, "a")];
    let mut panel = Download::new();
    // No destination yet: the stored one is asked for.
    assert!(matches!(panel.prerender(&volumes), PrerenderAction::LoadDir));
    panel.destination_loaded(Some("/books".to_string()));
    assert!(matches!(&panel.destination, DownloadDestination::Current(p) if p == "/books"));
    // A download request with a destination standing hands out the plan.
    panel.toggle_selected(0);
    let mut normal = true;
    assert!(panel.new_event(&mut normal, Key::Char('d')));
    match panel.prerender(&volumes) {
        PrerenderAction::StartDownloads(plan) => assert_eq!(plan, vec![0]),
        other => panic!("expected a download plan, got {:?}", label(&other)),
    }
    assert!(matches!(panel.mode, DownloadMode::Normal));
}

fn label(action: &PrerenderAction) -> &'static str {
    match action {
        PrerenderAction::PersistDir(_) => "PersistDir",
        PrerenderAction::LoadDir => "LoadDir",
        PrerenderAction::BuildTree => "BuildTree",
        PrerenderAction::StartDownloads(_) => "StartDownloads",
        PrerenderAction::Idle => "Idle",
    }
}

#[test]
fn spawn_batches_run_at_most_three_side_by_side() {
    let plan = vec![1, 2, 3, 4, 5, 6, 7];
    let batches = spawn_batches(&plan);
    assert_eq!(batches, vec![vec![1, 2, 3], vec![4, 5, 6], vec![7]]);
    assert!(spawn_batches(&Vec::new()).is_empty());
}

#[test]
fn file_names_and_labels() {
    assert_eq!(epub_file_name("My Volume"), "My Volume.epub");
    assert_eq!(percent_label(50), "[50%] ");
}

#[test]
fn tree_lists_rows_in_display_order() {
    let mut root = Tree::new("/".to_string(), true);
    let mut child_a = Tree::new("/a".to_string(), true);
    child_a.set_children(vec![Tree::new("/a/x".to_string(), true)]);
    child_a.open();
    let child_b = Tree::new("/b".to_string(), true);
    let file = Tree::new("/f.txt".to_string(), false);
    root.set_children(vec![child_a, file, child_b]);
    root.open();

    let rows = root.visible_paths();
    assert_eq!(rows, vec!["/", "/a", "/a/x", "/b"]);

    let mut index: usize = 2;
    let node = root.get(&mut index).unwrap();
    assert_eq!(node.path().as_str(), "/a/x");
    assert!(node.is_dir());

    let mut beyond: usize = 9;
    assert!(root.get(&mut beyond).is_none());
}

#[test]
fn tree_toggl_folds_children_away() {
    let mut root = Tree::new("/".to_string(), true);
    root.set_children_optional(Some(vec![Tree::new("/a".to_string(), true)]));
    root.open();
    assert_eq!(root.visible_paths().len(), 2);
    root.toggl();
    assert_eq!(root.visible_paths(), vec!["/"]);
}

#[test]
fn login_form_collects_credentials() {
    let mut app = App::default();
    assert!(matches!(app.prerender(), AppAction::ConfigLogin));

    let mut normal = true;
    app.new_event(&mut normal, Key::Char('u'), 0);
    app.new_event(&mut normal, Key::Char('m'), 0);
    app.new_event(&mut normal, Key::Char('e'), 0);
    app.new_event(&mut normal, Key::Backspace, 0);
    app.new_event(&mut normal, Key::Esc, 0);
    app.new_event(&mut normal, Key::Char('p'), 0);
    app.new_event(&mut normal, Key::Char('s'), 0);
    app.new_event(&mut normal, Key::Esc, 0);
    app.new_event(&mut normal, Key::Enter, 0);

    match app.prerender() {
        AppAction::Login(credentials) => {
            assert_eq!(credentials.username, "m");
            assert_eq!(credentials.password().as_str(), "s");
        },
        _ => panic!("expected submitted credentials"),
    }
}

#[test]
fn user_screen_toggles_selection_with_space() {
    let mut screen = k_download::tui::user::User::new();
    let mut normal = true;
    assert!(screen.new_event(&mut normal, Key::Char('l'), 3));
    assert!(matches!(screen.mode, UserMode::Highlight));
    assert_eq!(screen.list_state, Some(0));
    // Move down twice, wrap over the end once.
    screen.new_event(&mut normal, Key::Char('j'), 3);
    screen.new_event(&mut normal, Key::Down, 3);
    assert_eq!(screen.list_state, Some(2));
    screen.new_event(&mut normal, Key::Char('j'), 3);
    assert_eq!(screen.list_state, Some(0));
    screen.new_event(&mut normal, Key::Up, 3);
    assert_eq!(screen.list_state, Some(2));
    // Select the highlighted volume.
    screen.new_event(&mut normal, Key::Char(' '), 3);
    assert_eq!(screen.download_tab.get_selections(), &vec![2]);
    // Leave browsing.
    assert!(screen.new_event(&mut normal, Key::Esc, 3));
    assert!(matches!(screen.mode, UserMode::Normal));
    assert!(normal);
}

#[test]
fn stored_user_round_trips() {
    let user = User::from_stored("tok".to_string(), "ref".to_string(), 500);
    assert!(user.token_is_fresh(499));
    assert!(!user.token_is_fresh(500));
    assert_eq!(user.token(), "tok");
    assert_eq!(user.refresh_request(), "ref");
    let (token, refresh, expiry) = user.stored();
    assert_eq!((token.as_str(), refresh.as_str(), expiry), ("tok", "ref", 500));

    let mut user = User::from_login("t2".to_string(), "r2".to_string(), 7200, 1000);
    assert_eq!(user.stored().2, 1000 + 7200 - 3600);
    user.refreshed("t3".to_string(), 7200, 10_000);
    assert_eq!(user.token(), "t3");
    assert_eq!(user.refresh_request(), "r2");
    assert_eq!(user.stored().2, 10_000 + 7200 - 3600);

    let _ = matches!(AppState::NoUser(Default::default()), AppState::NoUser(_));
}
