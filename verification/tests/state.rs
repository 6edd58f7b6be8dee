use binglish::state::{menu_action, AppStateInner, MenuAction, MenuKind, WallpaperMode};

#[test]
fn default_state() {
    let s = AppStateInner::default();
    assert_eq!(s.current_word, None);
    assert!(!s.is_rest_enabled);
    assert!(!s.is_overlay_showing);
    assert_eq!(s.rest_interval_seconds, 2700);
    assert_eq!(s.idle_reset_seconds, 300);
    assert_eq!(s.rest_lock_seconds, 30);
    assert_eq!(s.overlay_color, "#2C3E50");
    assert_eq!(s.wallpaper_mode, WallpaperMode::Normal);
    assert_eq!(s.custom_image_path, None);
    assert_eq!(WallpaperMode::default(), WallpaperMode::Normal);
}

#[test]
fn rest_toggles_and_completes() {
    let mut s = AppStateInner::default();
    let on = std::time::Instant::now() + std::time::Duration::from_secs(10);
    s.toggle_rest(on);
    assert!(s.is_rest_enabled);
    assert_eq!(s.last_activity_time, on);
    assert_eq!(s.last_rest_time, on);
    let off = on + std::time::Duration::from_secs(10);
    s.toggle_rest(off);
    assert!(!s.is_rest_enabled);
    assert_eq!(s.last_activity_time, on);
    assert_eq!(s.last_rest_time, on);
    s.overlay_shown();
    assert!(s.is_overlay_showing);
    assert_eq!(s.last_rest_time, on);
    let done = off + std::time::Duration::from_secs(10);
    s.rest_completed(done);
    assert!(!s.is_overlay_showing);
    assert_eq!(s.last_activity_time, done);
    assert_eq!(s.last_rest_time, done);
}

#[test]
fn custom_picture_mode() {
    let mut s = AppStateInner::default();
    s.use_custom_image("/data/custom_base.png".to_string());
    assert_eq!(s.wallpaper_mode, WallpaperMode::Custom);
    assert_eq!(s.custom_image_path.as_deref(), Some("/data/custom_base.png"));
    s.clear_custom_image();
    assert_eq!(s.wallpaper_mode, WallpaperMode::Normal);
    assert_eq!(s.custom_image_path, None);
}

#[test]
fn saved_settings_are_applied() {
    let mut s = AppStateInner::default();
    let (activity, rest) = (s.last_activity_time, s.last_rest_time);
    s.apply_config(Some(true), None, Some("#000000".to_string()), Some(WallpaperMode::Custom), None);
    assert!(s.is_rest_enabled);
    assert_eq!(s.rest_interval_seconds, 2700);
    assert_eq!(s.overlay_color, "#000000");
    assert_eq!(s.wallpaper_mode, WallpaperMode::Custom);
    assert_eq!(s.custom_image_path, None);
    s.apply_config(None, Some(60), None, None, Some("/x.jpg".to_string()));
    assert_eq!(s.rest_interval_seconds, 60);
    assert_eq!(s.custom_image_path.as_deref(), Some("/x.jpg"));
    assert_eq!(s.last_activity_time, activity);
    assert_eq!(s.last_rest_time, rest);
}

#[test]
fn tray_menu_lines() {
    let mut s = AppStateInner::default();
    let m = s.menu_entries(0);
    let ids: Vec<&str> = m.iter().map(|e| e.id.as_str()).collect();
    assert_eq!(ids, vec!["next_word", "copy_save", "custom_wallpaper", "", "toggle_rest", "", "games", "", "autostart", "about", "quit"]);
    assert_eq!(m[2].label, "自定义壁纸");
    assert_eq!(m[4].label, "提醒休息");
    assert_eq!(m[4].kind, MenuKind::Check);
    assert!(!m[4].checked);
    assert_eq!(m[3].kind, MenuKind::Separator);
    s.current_word = Some("apple".to_string());
    s.wallpaper_mode = WallpaperMode::Custom;
    s.is_rest_enabled = true;
    s.rest_interval_seconds = 2700;
    let m = s.menu_entries(600);
    assert_eq!(m[0].id, "current_word");
    assert_eq!(m[0].label, "当前单词: apple");
    assert!(!m[0].enabled);
    assert_eq!(m[1].kind, MenuKind::Separator);
    assert_eq!(m[4].label, "取消自定义壁纸");
    assert_eq!(m[6].label, "提醒休息 (剩余35分)");
    assert!(m[6].checked);
    let late = s.menu_entries(5000);
    assert_eq!(late[6].label, "提醒休息 (剩余0分)");
    assert_eq!(s.build_menu().len(), 13);
}

#[test]
fn menu_clicks() {
    assert_eq!(menu_action("next_word"), MenuAction::NextWord);
    assert_eq!(menu_action("copy_save"), MenuAction::CopySave);
    assert_eq!(menu_action("toggle_rest"), MenuAction::ToggleRest);
    assert_eq!(menu_action("games"), MenuAction::Games);
    assert_eq!(menu_action("custom_wallpaper"), MenuAction::CustomWallpaper);
    assert_eq!(menu_action("about"), MenuAction::About);
    assert_eq!(menu_action("quit"), MenuAction::Quit);
    assert_eq!(menu_action("current_word"), MenuAction::Nothing);
}

#[test]
fn timers_restart_from_the_reading_given() {
    let mut s = AppStateInner::default();
    s.is_rest_enabled = true;
    let now = std::time::Instant::now() + std::time::Duration::from_secs(5);
    s.reset_timers(now);
    assert_eq!(s.last_activity_time, now);
    assert_eq!(s.last_rest_time, now);
    assert!(s.is_rest_enabled);
    assert_eq!(s.rest_interval_seconds, 2700);
}
