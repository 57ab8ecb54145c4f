use hero_grid::resolver::{pick_account, pick_install_root, AccountCandidate, InstallCandidate};
use hero_grid::settings::{menu_action, saved_flag, shows_window_at_start, AppSettings, MenuAction};

fn timed(t: i128) -> AccountCandidate {
    AccountCandidate { cfg_dir_present: true, config_present: true, modified: Some(t) }
}

fn empty_cfg() -> AccountCandidate {
    AccountCandidate { cfg_dir_present: true, config_present: false, modified: None }
}

fn no_cfg() -> AccountCandidate {
    AccountCandidate { cfg_dir_present: false, config_present: false, modified: None }
}

#[test]
fn later_grid_file_wins() {
    assert_eq!(pick_account(&vec![timed(200), timed(100)]), Some(0));
    assert_eq!(pick_account(&vec![timed(100), timed(200)]), Some(1));
}

#[test]
fn no_accounts_gives_none() {
    assert_eq!(pick_account(&Vec::new()), None);
    assert_eq!(pick_account(&vec![no_cfg(), no_cfg()]), None);
}

#[test]
fn equal_times_keep_first() {
    assert_eq!(pick_account(&vec![no_cfg(), timed(5), timed(5)]), Some(1));
}

#[test]
fn account_without_grid_file_is_fallback_only() {
    assert_eq!(pick_account(&vec![no_cfg(), empty_cfg(), empty_cfg()]), Some(1));
    assert_eq!(pick_account(&vec![empty_cfg(), timed(-3)]), Some(1));
    assert_eq!(pick_account(&vec![timed(1), empty_cfg()]), Some(0));
}

#[test]
fn grid_file_with_unreadable_time_is_never_chosen() {
    let unreadable = AccountCandidate { cfg_dir_present: true, config_present: true, modified: None };
    assert_eq!(pick_account(&vec![unreadable]), None);
    let unreadable = AccountCandidate { cfg_dir_present: true, config_present: true, modified: None };
    assert_eq!(pick_account(&vec![unreadable, empty_cfg()]), Some(1));
}

#[test]
fn first_existing_install_location_wins() {
    let c = |g: bool, r: bool| InstallCandidate { game_dir_present: g, root_present: r };
    assert_eq!(pick_install_root(&vec![c(false, false), c(false, true), c(true, true)]), Some(1));
    assert_eq!(pick_install_root(&vec![c(true, false)]), Some(0));
    assert_eq!(pick_install_root(&vec![c(false, false)]), None);
    assert_eq!(pick_install_root(&Vec::new()), None);
}

#[test]
fn settings_changes() {
    let mut s = AppSettings::new();
    assert!(s.minimize_to_tray);
    assert!(!s.start_minimized);
    s.set_minimize_to_tray(false);
    assert!(!s.minimize_to_tray);
    assert_eq!(s.set_start_minimized(true), "true");
    assert!(s.start_minimized);
    assert!(!s.minimize_to_tray);
    assert_eq!(s.initialize_settings(true, false), "false");
    assert!(s.minimize_to_tray);
    assert!(!s.start_minimized);
    assert_eq!(saved_flag(true), "true");
}

#[test]
fn window_shown_at_start_unless_saved_true() {
    assert!(!shows_window_at_start(Some(" true\n")));
    assert!(shows_window_at_start(Some("false")));
    assert!(shows_window_at_start(Some("TRUE")));
    assert!(shows_window_at_start(None));
}

#[test]
fn tray_menu_actions() {
    assert!(matches!(menu_action("show"), MenuAction::ShowWindow));
    assert!(matches!(menu_action("quit"), MenuAction::Quit));
    assert!(matches!(menu_action("other"), MenuAction::Nothing));
    assert!(matches!(menu_action(""), MenuAction::Nothing));
}
