//! The application state: the current word, the wallpaper mode and the rest
//! reminder, and the tray menu it is shown in.
use vstd::prelude::*;
use std::time::Instant;
use crate::text::{decimal, push_decimal};

verus! {

broadcast use vstd::string::group_string_axioms;

#[verifier::external_type_specification]
#[verifier::external_body]
pub struct ExInstant(std::time::Instant);

/// Calls `std::time::Instant::now`: a reading of the monotonic clock. Nothing
/// is claimed of it.
#[verifier::external_body]
pub(crate) fn instant_now() -> (r: Instant) {
    Instant::now()
}

/// Calls `std::time::Instant::elapsed` and takes the whole seconds of the
/// duration: how long ago `since` was read. It depends on the clock, so
/// nothing is claimed of it.
#[verifier::external_body]
pub(crate) fn elapsed_secs(since: &Instant) -> (r: u64) {
    since.elapsed().as_secs()
}

/// Where the wallpaper picture comes from.
#[derive(Debug, Clone, Copy, PartialEq, Eq, Structural)]
pub enum WallpaperMode {
    /// A photograph downloaded for each new wallpaper.
    Normal,
    /// A picture the user chose.
    Custom,
}

impl Default for WallpaperMode {
    fn default() -> (r: Self)
        ensures
            r == WallpaperMode::Normal,
    {
        WallpaperMode::Normal
    }
}

/// The state the application shares between its windows and timers.
pub struct AppStateInner {
    pub current_word: Option<String>,
    pub is_rest_enabled: bool,
    pub last_activity_time: Instant,
    pub last_rest_time: Instant,
    pub is_overlay_showing: bool,
    pub rest_interval_seconds: u64,
    pub idle_reset_seconds: u64,
    pub rest_lock_seconds: u64,
    pub overlay_color: String,
    pub wallpaper_mode: WallpaperMode,
    pub custom_image_path: Option<String>,
}

/// Two states hold the same work and activity clock readings.
pub open spec fn same_clocks(a: AppStateInner, b: AppStateInner) -> bool {
    a.last_activity_time == b.last_activity_time && a.last_rest_time == b.last_rest_time
}

/// The settings and flags of two states agree (the clock readings aside).
pub open spec fn same_settings(a: AppStateInner, b: AppStateInner) -> bool {
    &&& a.current_word == b.current_word
    &&& a.is_rest_enabled == b.is_rest_enabled
    &&& a.is_overlay_showing == b.is_overlay_showing
    &&& a.rest_interval_seconds == b.rest_interval_seconds
    &&& a.idle_reset_seconds == b.idle_reset_seconds
    &&& a.rest_lock_seconds == b.rest_lock_seconds
    &&& a.overlay_color == b.overlay_color
    &&& a.wallpaper_mode == b.wallpaper_mode
    &&& a.custom_image_path == b.custom_image_path
}

impl Default for AppStateInner {
    fn default() -> (r: Self)
        ensures
            r.current_word is None,
            !r.is_rest_enabled,
            !r.is_overlay_showing,
            r.rest_interval_seconds == 2700,
            r.idle_reset_seconds == 300,
            r.rest_lock_seconds == 30,
            r.overlay_color@ == "#2C3E50"@,
            r.wallpaper_mode == WallpaperMode::Normal,
            r.custom_image_path is None,
    {
        AppStateInner {
            current_word: None,
            is_rest_enabled: false,
            last_activity_time: instant_now(),
            last_rest_time: instant_now(),
            is_overlay_showing: false,
            rest_interval_seconds: 2700,
            idle_reset_seconds: 300,
            rest_lock_seconds: 30,
            overlay_color: "#2C3E50".to_string(),
            wallpaper_mode: WallpaperMode::default(),
            custom_image_path: None,
        }
    }
}

impl AppStateInner {
    /// Restarts the work and activity clocks from the reading `now`.
    pub fn reset_timers(&mut self, now: Instant)
        ensures
            final(self).last_activity_time == now,
            final(self).last_rest_time == now,
            same_settings(*old(self), *final(self)),
    {
        self.last_activity_time = now;
        self.last_rest_time = now;
    }

    /// The rest overlay was closed after a completed rest: it is no longer
    /// showing and the clocks restart from the reading `now`.
    pub fn rest_completed(&mut self, now: Instant)
        ensures
            !final(self).is_overlay_showing,
            final(self).last_activity_time == now,
            final(self).last_rest_time == now,
            same_settings(*old(self), AppStateInner { is_overlay_showing: old(self).is_overlay_showing, ..*final(self) }),
    {
        self.is_overlay_showing = false;
        self.reset_timers(now);
    }

    /// The rest overlay is being shown.
    pub fn overlay_shown(&mut self)
        ensures
            final(self).is_overlay_showing,
            same_settings(*old(self), AppStateInner { is_overlay_showing: old(self).is_overlay_showing, ..*final(self) }),
            same_clocks(*old(self), *final(self)),
    {
        self.is_overlay_showing = true;
    }

    /// Switches the rest reminder on or off; switching it on restarts the
    /// clocks from the reading `now`, switching it off leaves them alone.
    pub fn toggle_rest(&mut self, now: Instant)
        ensures
            final(self).is_rest_enabled == !old(self).is_rest_enabled,
            final(self).is_rest_enabled ==> final(self).last_activity_time == now && final(self).last_rest_time == now,
            !final(self).is_rest_enabled ==> same_clocks(*old(self), *final(self)),
            same_settings(*old(self), AppStateInner { is_rest_enabled: old(self).is_rest_enabled, ..*final(self) }),
    {
        self.is_rest_enabled = !self.is_rest_enabled;
        if self.is_rest_enabled {
            self.reset_timers(now);
        }
    }

    /// Uses the picture stored at `path` as the wallpaper base.
    pub fn use_custom_image(&mut self, path: String)
        ensures
            final(self).wallpaper_mode == WallpaperMode::Custom,
            final(self).custom_image_path == Some(path),
            same_settings(
                *old(self),
                AppStateInner {
                    wallpaper_mode: old(self).wallpaper_mode,
                    custom_image_path: old(self).custom_image_path,
                    ..*final(self)
                },
            ),
            same_clocks(*old(self), *final(self)),
    {
        self.wallpaper_mode = WallpaperMode::Custom;
        self.custom_image_path = Some(path);
    }

    /// Goes back to downloaded pictures.
    pub fn clear_custom_image(&mut self)
        ensures
            final(self).wallpaper_mode == WallpaperMode::Normal,
            final(self).custom_image_path is None,
            same_settings(
                *old(self),
                AppStateInner {
                    wallpaper_mode: old(self).wallpaper_mode,
                    custom_image_path: old(self).custom_image_path,
                    ..*final(self)
                },
            ),
            same_clocks(*old(self), *final(self)),
    {
        self.wallpaper_mode = WallpaperMode::Normal;
        self.custom_image_path = None;
    }

    /// Takes over the saved settings that were found; an absent one keeps
    /// the current value.
    pub fn apply_config(
        &mut self,
        rest_enabled: Option<bool>,
        rest_interval: Option<u64>,
        overlay_color: Option<String>,
        wallpaper_mode: Option<WallpaperMode>,
        custom_image_path: Option<String>,
    )
        ensures
            final(self).is_rest_enabled == match rest_enabled {
                Some(b) => b,
                None => old(self).is_rest_enabled,
            },
            final(self).rest_interval_seconds == match rest_interval {
                Some(n) => n,
                None => old(self).rest_interval_seconds,
            },
            final(self).overlay_color == match overlay_color {
                Some(c) => c,
                None => old(self).overlay_color,
            },
            final(self).wallpaper_mode == match wallpaper_mode {
                Some(m) => m,
                None => old(self).wallpaper_mode,
            },
            final(self).custom_image_path == match custom_image_path {
                Some(p) => Some(p),
                None => old(self).custom_image_path,
            },
            final(self).current_word == old(self).current_word,
            final(self).is_overlay_showing == old(self).is_overlay_showing,
            final(self).idle_reset_seconds == old(self).idle_reset_seconds,
            final(self).rest_lock_seconds == old(self).rest_lock_seconds,
            same_clocks(*old(self), *final(self)),
    {
        if let Some(b) = rest_enabled {
            self.is_rest_enabled = b;
        }
        if let Some(n) = rest_interval {
            self.rest_interval_seconds = n;
        }
        if let Some(c) = overlay_color {
            self.overlay_color = c;
        }
        if let Some(m) = wallpaper_mode {
            self.wallpaper_mode = m;
        }
        if let Some(p) = custom_image_path {
            self.custom_image_path = Some(p);
        }
    }
}


/// The kinds of tray menu lines.
#[derive(Debug, Clone, Copy, PartialEq, Eq, Structural)]
pub enum MenuKind {
    Item,
    Check,
    Separator,
}

/// One line of the tray menu.
#[derive(Debug)]
pub struct MenuEntry {
    pub kind: MenuKind,
    pub id: String,
    pub label: String,
    pub enabled: bool,
    pub checked: bool,
}

/// A tray menu line as text.
pub struct MenuLine {
    pub kind: MenuKind,
    pub id: Seq<char>,
    pub label: Seq<char>,
    pub enabled: bool,
    pub checked: bool,
}

/// The text of a menu line.
pub open spec fn line_of(e: MenuEntry) -> MenuLine {
    MenuLine { kind: e.kind, id: e.id@, label: e.label@, enabled: e.enabled, checked: e.checked }
}

/// A plain menu item.
pub open spec fn item_line(id: Seq<char>, label: Seq<char>, enabled: bool) -> MenuLine {
    MenuLine { kind: MenuKind::Item, id, label, enabled, checked: false }
}

/// A menu item with a check mark.
pub open spec fn check_line(id: Seq<char>, label: Seq<char>, checked: bool) -> MenuLine {
    MenuLine { kind: MenuKind::Check, id, label, enabled: true, checked }
}

/// A separator line.
pub open spec fn separator_line() -> MenuLine {
    MenuLine { kind: MenuKind::Separator, id: Seq::empty(), label: Seq::empty(), enabled: false, checked: false }
}

/// The whole minutes left until the next rest, `elapsed` seconds into the
/// work interval (none once it is over).
pub open spec fn minutes_left(interval: u64, elapsed: u64) -> nat {
    (if interval >= elapsed { interval - elapsed } else { 0 }) as nat / 60
}

/// The rest reminder's menu label: with the minutes left while it is on.
pub open spec fn rest_label(enabled: bool, interval: u64, elapsed: u64) -> Seq<char> {
    if enabled {
        "提醒休息 (剩余"@ + decimal(minutes_left(interval, elapsed)) + "分)"@
    } else {
        "提醒休息"@
    }
}

/// The tray menu of a state, `elapsed` seconds into the work interval: the
/// current word (not selectable) where there is one, the wallpaper actions
/// (the custom-wallpaper item offers to cancel a custom picture), the rest
/// reminder, the games, start at login, about and quit.
pub open spec fn menu_spec(s: AppStateInner, elapsed: u64) -> Seq<MenuLine> {
    let head = match s.current_word {
        Some(w) => seq![item_line("current_word"@, "当前单词: "@ + w@, false), separator_line()],
        None => Seq::empty(),
    };
    head + seq![
        item_line("next_word"@, "换个单词"@, true),
        item_line("copy_save"@, "复制保存"@, true),
        item_line(
            "custom_wallpaper"@,
            if s.wallpaper_mode == WallpaperMode::Custom { "取消自定义壁纸"@ } else { "自定义壁纸"@ },
            true,
        ),
        separator_line(),
        check_line("toggle_rest"@, rest_label(s.is_rest_enabled, s.rest_interval_seconds, elapsed), s.is_rest_enabled),
        separator_line(),
        item_line("games"@, "英语小游戏"@, true),
        separator_line(),
        check_line("autostart"@, "开机运行"@, false),
        item_line("about"@, "关于"@, true),
        item_line("quit"@, "退出"@, true),
    ]
}

/// The text of each line of a menu.
pub open spec fn lines_of(m: Seq<MenuEntry>) -> Seq<MenuLine> {
    m.map_values(|e: MenuEntry| line_of(e))
}

fn item(id: &str, label: String, enabled: bool) -> (r: MenuEntry)
    ensures
        line_of(r) == item_line(id@, label@, enabled),
{
    MenuEntry { kind: MenuKind::Item, id: id.to_string(), label, enabled, checked: false }
}

fn check(id: &str, label: String, checked: bool) -> (r: MenuEntry)
    ensures
        line_of(r) == check_line(id@, label@, checked),
{
    MenuEntry { kind: MenuKind::Check, id: id.to_string(), label, enabled: true, checked }
}

fn separator() -> (r: MenuEntry)
    ensures
        line_of(r) == separator_line(),
{
    MenuEntry { kind: MenuKind::Separator, id: String::new(), label: String::new(), enabled: false, checked: false }
}

impl AppStateInner {
    /// The tray menu, `elapsed` seconds into the work interval.
    pub fn menu_entries(&self, elapsed: u64) -> (r: Vec<MenuEntry>)
        ensures
            lines_of(r@) == menu_spec(*self, elapsed),
    {
        let mut m: Vec<MenuEntry> = Vec::new();
        if let Some(word) = &self.current_word {
            let mut label = "当前单词: ".to_string();
            label.append(word.as_str());
            m.push(item("current_word", label, false));
            m.push(separator());
        }
        let ghost head = lines_of(m@);
        m.push(item("next_word", "换个单词".to_string(), true));
        m.push(item("copy_save", "复制保存".to_string(), true));
        let custom_label = if self.wallpaper_mode == WallpaperMode::Custom {
            "取消自定义壁纸"
        } else {
            "自定义壁纸"
        };
        m.push(item("custom_wallpaper", custom_label.to_string(), true));
        m.push(separator());
        let rest = if self.is_rest_enabled {
            let remaining = if self.rest_interval_seconds >= elapsed {
                self.rest_interval_seconds - elapsed
            } else {
                0
            };
            let mut l = "提醒休息 (剩余".to_string();
            push_decimal(&mut l, remaining / 60);
            l.append("分)");
            l
        } else {
            "提醒休息".to_string()
        };
        m.push(check("toggle_rest", rest, self.is_rest_enabled));
        m.push(separator());
        m.push(item("games", "英语小游戏".to_string(), true));
        m.push(separator());
        m.push(check("autostart", "开机运行".to_string(), false));
        m.push(item("about", "关于".to_string(), true));
        m.push(item("quit", "退出".to_string(), true));
        proof {
            assert(lines_of(m@) =~= menu_spec(*self, elapsed));
        }
        m
    }

    /// The tray menu now.
    pub fn build_menu(&self) -> (r: Vec<MenuEntry>)
        ensures
            exists|elapsed: u64| lines_of(r@) == #[trigger] menu_spec(*self, elapsed),
    {
        let elapsed = if self.is_rest_enabled { elapsed_secs(&self.last_rest_time) } else { 0 };
        self.menu_entries(elapsed)
    }
}

/// What a tray menu click asks for.
#[derive(Debug, Clone, Copy, PartialEq, Eq, Structural)]
pub enum MenuAction {
    NextWord,
    CopySave,
    ToggleRest,
    Games,
    CustomWallpaper,
    About,
    Quit,
    Nothing,
}

/// The action of the menu line with the id `id`.
pub open spec fn action_of(id: Seq<char>) -> MenuAction {
    if id == "next_word"@ {
        MenuAction::NextWord
    } else if id == "copy_save"@ {
        MenuAction::CopySave
    } else if id == "toggle_rest"@ {
        MenuAction::ToggleRest
    } else if id == "games"@ {
        MenuAction::Games
    } else if id == "custom_wallpaper"@ {
        MenuAction::CustomWallpaper
    } else if id == "about"@ {
        MenuAction::About
    } else if id == "quit"@ {
        MenuAction::Quit
    } else {
        MenuAction::Nothing
    }
}

/// The action of a tray menu click on the line `id`.
pub fn menu_action(id: &str) -> (r: MenuAction)
    ensures
        r == action_of(id@),
{
    let s = id.to_string();
    if s == "next_word".to_string() {
        MenuAction::NextWord
    } else if s == "copy_save".to_string() {
        MenuAction::CopySave
    } else if s == "toggle_rest".to_string() {
        MenuAction::ToggleRest
    } else if s == "games".to_string() {
        MenuAction::Games
    } else if s == "custom_wallpaper".to_string() {
        MenuAction::CustomWallpaper
    } else if s == "about".to_string() {
        MenuAction::About
    } else if s == "quit".to_string() {
        MenuAction::Quit
    } else {
        MenuAction::Nothing
    }
}

} // verus!
