//! Application settings: validation, defaults, and the merge of user
//! settings with workspace overrides.
//!
//! Workspace overrides win over user settings, which win over defaults.
use vstd::prelude::*;
use std::path::PathBuf;
use crate::text::{str_eq};
use crate::ui::ThemeMode;

verus! {

#[verifier::external_type_specification]
#[verifier::external_body]
pub struct ExIoError(std::io::Error);

#[verifier::external_type_specification]
#[verifier::external_body]
pub struct ExPathBuf(std::path::PathBuf);

/// Why settings could not be loaded, saved or accepted.
#[derive(Debug)]
pub enum SettingsError {
    Io(std::io::Error),
    Json(serde_json::Error),
    Validation(String),
}

/// Appearance and UI customization.
#[derive(Debug, Clone, Copy, PartialEq, Eq, Structural)]
pub struct AppearanceSettings {
    pub theme: ThemeMode,
    pub ui_scale: u32,
    pub compact_mode: bool,
}

impl Default for AppearanceSettings {
    /// Follow the system theme at 100 % scale.
    fn default() -> (r: Self)
        ensures
            r == (AppearanceSettings { theme: ThemeMode::System, ui_scale: 100, compact_mode: false }),
    {
        AppearanceSettings { theme: ThemeMode::System, ui_scale: 100, compact_mode: false }
    }
}

/// Code and text editor settings.
#[derive(Debug, Clone, PartialEq, Eq)]
pub struct EditorSettings {
    pub font_size: u32,
    pub font_family: String,
    pub tab_size: u32,
    pub word_wrap: bool,
    pub line_numbers: bool,
}

pub ghost struct EditorView {
    pub font_size: u32,
    pub font_family: Seq<char>,
    pub tab_size: u32,
    pub word_wrap: bool,
    pub line_numbers: bool,
}

impl View for EditorSettings {
    type V = EditorView;

    open spec fn view(&self) -> EditorView {
        EditorView {
            font_size: self.font_size,
            font_family: self.font_family@,
            tab_size: self.tab_size,
            word_wrap: self.word_wrap,
            line_numbers: self.line_numbers,
        }
    }
}

pub open spec fn default_editor() -> EditorView {
    EditorView {
        font_size: 13,
        font_family: "JetBrains Mono, Menlo, monospace"@,
        tab_size: 2,
        word_wrap: true,
        line_numbers: true,
    }
}

impl Default for EditorSettings {
    /// 13 pt monospace, two-space tabs, wrapping and line numbers on.
    fn default() -> (r: Self)
        ensures
            r@ == default_editor(),
    {
        EditorSettings {
            font_size: 13,
            font_family: "JetBrains Mono, Menlo, monospace".to_owned(),
            tab_size: 2,
            word_wrap: true,
            line_numbers: true,
        }
    }
}

impl EditorSettings {
    pub fn copy(&self) -> (r: Self)
        ensures
            r@ == self@,
    {
        EditorSettings {
            font_size: self.font_size,
            font_family: self.font_family.clone(),
            tab_size: self.tab_size,
            word_wrap: self.word_wrap,
            line_numbers: self.line_numbers,
        }
    }
}

/// Global networking and transport defaults.
#[derive(Debug, Clone, Copy, PartialEq, Eq, Structural)]
pub struct NetworkSettings {
    pub timeout_ms: u64,
    pub follow_redirects: bool,
    pub max_redirects: u32,
    pub verify_ssl: bool,
}

impl Default for NetworkSettings {
    /// 30 s timeout, up to ten redirects followed, certificates verified.
    fn default() -> (r: Self)
        ensures
            r == (NetworkSettings {
                timeout_ms: 30000,
                follow_redirects: true,
                max_redirects: 10,
                verify_ssl: true,
            }),
    {
        NetworkSettings { timeout_ms: 30000, follow_redirects: true, max_redirects: 10, verify_ssl: true }
    }
}

/// Proxy routing configuration.
#[derive(Debug, Clone, PartialEq, Eq)]
pub struct ProxySettings {
    pub enabled: bool,
    pub use_system_proxy: bool,
    pub http_proxy: Option<String>,
    pub https_proxy: Option<String>,
    pub no_proxy: Vec<String>,
}

pub ghost struct ProxyView {
    pub enabled: bool,
    pub use_system_proxy: bool,
    pub http_proxy: Option<Seq<char>>,
    pub https_proxy: Option<Seq<char>>,
    pub no_proxy: Seq<Seq<char>>,
}

pub open spec fn opt_text(o: Option<String>) -> Option<Seq<char>> {
    match o {
        Some(s) => Some(s@),
        None => None,
    }
}

impl View for ProxySettings {
    type V = ProxyView;

    open spec fn view(&self) -> ProxyView {
        ProxyView {
            enabled: self.enabled,
            use_system_proxy: self.use_system_proxy,
            http_proxy: opt_text(self.http_proxy),
            https_proxy: opt_text(self.https_proxy),
            no_proxy: self.no_proxy@.map_values(|s: String| s@),
        }
    }
}

pub open spec fn default_proxy() -> ProxyView {
    ProxyView {
        enabled: false,
        use_system_proxy: true,
        http_proxy: None,
        https_proxy: None,
        no_proxy: seq!["localhost"@, "127.0.0.1"@],
    }
}

impl Default for ProxySettings {
    /// Off, using the system proxy, excluding the local host.
    fn default() -> (r: Self)
        ensures
            r@ == default_proxy(),
    {
        let r = ProxySettings {
            enabled: false,
            use_system_proxy: true,
            http_proxy: None,
            https_proxy: None,
            no_proxy: vec!["localhost".to_owned(), "127.0.0.1".to_owned()],
        };
        assert(r@.no_proxy =~= seq!["localhost"@, "127.0.0.1"@]);
        r
    }
}

fn copy_text(o: &Option<String>) -> (r: Option<String>)
    ensures
        opt_text(r) == opt_text(*o),
{
    match o {
        Some(s) => Some(s.clone()),
        None => None,
    }
}

impl ProxySettings {
    pub fn copy(&self) -> (r: Self)
        ensures
            r@ == self@,
    {
        let mut no_proxy: Vec<String> = Vec::new();
        let mut i: usize = 0;
        while i < self.no_proxy.len()
            invariant
                i <= self.no_proxy.len(),
                no_proxy@.map_values(|s: String| s@) == self.no_proxy@.take(i as int).map_values(
                    |s: String| s@,
                ),
            decreases self.no_proxy.len() - i,
        {
            let ghost before = no_proxy@;
            let c = self.no_proxy[i].clone();
            no_proxy.push(c);
            proof {
                assert(no_proxy@ == before.push(c));
                assert(self.no_proxy@.take(i + 1) =~= self.no_proxy@.take(i as int).push(self.no_proxy@[i as int]));
                assert(no_proxy@.map_values(|s: String| s@) =~= before.map_values(|s: String| s@).push(c@));
                assert(no_proxy@.map_values(|s: String| s@) =~= self.no_proxy@.take(i + 1).map_values(
                    |s: String| s@,
                ));
            }
            i = i + 1;
        }
        assert(self.no_proxy@.take(i as int) =~= self.no_proxy@);
        ProxySettings {
            enabled: self.enabled,
            use_system_proxy: self.use_system_proxy,
            http_proxy: copy_text(&self.http_proxy),
            https_proxy: copy_text(&self.https_proxy),
            no_proxy,
        }
    }
}

/// Privacy and telemetry preferences: telemetry is opt-in only.
#[derive(Debug, Clone, Copy, PartialEq, Eq, Structural)]
pub struct PrivacySettings {
    pub telemetry_enabled: bool,
    pub local_crash_reports: bool,
}

impl Default for PrivacySettings {
    /// No telemetry; local crash reports allowed.
    fn default() -> (r: Self)
        ensures
            r == (PrivacySettings { telemetry_enabled: false, local_crash_reports: true }),
    {
        PrivacySettings { telemetry_enabled: false, local_crash_reports: true }
    }
}

/// Master application-wide settings.
#[derive(Debug, Clone, PartialEq)]
pub struct AppSettings {
    pub appearance: AppearanceSettings,
    pub editor: EditorSettings,
    pub network: NetworkSettings,
    pub proxy: ProxySettings,
    pub privacy: PrivacySettings,
}

pub ghost struct SettingsView {
    pub appearance: AppearanceSettings,
    pub editor: EditorView,
    pub network: NetworkSettings,
    pub proxy: ProxyView,
    pub privacy: PrivacySettings,
}

impl View for AppSettings {
    type V = SettingsView;

    open spec fn view(&self) -> SettingsView {
        SettingsView {
            appearance: self.appearance,
            editor: self.editor@,
            network: self.network,
            proxy: self.proxy@,
            privacy: self.privacy,
        }
    }
}

pub open spec fn default_settings() -> SettingsView {
    SettingsView {
        appearance: AppearanceSettings { theme: ThemeMode::System, ui_scale: 100, compact_mode: false },
        editor: default_editor(),
        network: NetworkSettings {
            timeout_ms: 30000,
            follow_redirects: true,
            max_redirects: 10,
            verify_ssl: true,
        },
        proxy: default_proxy(),
        privacy: PrivacySettings { telemetry_enabled: false, local_crash_reports: true },
    }
}

impl Default for AppSettings {
    fn default() -> (r: Self)
        ensures
            r@ == default_settings(),
    {
        AppSettings {
            appearance: AppearanceSettings::default(),
            editor: EditorSettings::default(),
            network: NetworkSettings::default(),
            proxy: ProxySettings::default(),
            privacy: PrivacySettings::default(),
        }
    }
}

/// The first rule that settings break, if any.
pub open spec fn validation_error(s: SettingsView) -> Option<Seq<char>> {
    if s.network.timeout_ms == 0 {
        Some("Network timeout must be greater than 0 ms"@)
    } else if s.network.max_redirects > 50 {
        Some("Maximum redirects cannot exceed 50"@)
    } else if s.editor.font_size < 8 || s.editor.font_size > 72 {
        Some("Editor font size must be between 8 and 72 pt"@)
    } else if s.editor.tab_size == 0 || s.editor.tab_size > 8 {
        Some("Tab size must be between 1 and 8"@)
    } else {
        None
    }
}

impl AppSettings {
    /// Checks the runtime limits: a positive timeout, at most 50 redirects,
    /// a font size from 8 to 72 pt, and a tab size from 1 to 8.
    pub fn validate(&self) -> (r: Result<(), SettingsError>)
        ensures
            match validation_error(self@) {
                None => r is Ok,
                Some(m) => r matches Err(SettingsError::Validation(e)) && e@ == m,
            },
            r is Ok <==> (self.network.timeout_ms > 0 && self.network.max_redirects <= 50 && 8
                <= self.editor.font_size <= 72 && 1 <= self.editor.tab_size <= 8),
    {
        if self.network.timeout_ms == 0 {
            return Err(SettingsError::Validation("Network timeout must be greater than 0 ms".to_owned()));
        }
        if self.network.max_redirects > 50 {
            return Err(SettingsError::Validation("Maximum redirects cannot exceed 50".to_owned()));
        }
        if self.editor.font_size < 8 || self.editor.font_size > 72 {
            return Err(
                SettingsError::Validation("Editor font size must be between 8 and 72 pt".to_owned()),
            );
        }
        if self.editor.tab_size == 0 || self.editor.tab_size > 8 {
            return Err(SettingsError::Validation("Tab size must be between 1 and 8".to_owned()));
        }
        Ok(())
    }

    pub fn copy(&self) -> (r: Self)
        ensures
            r@ == self@,
    {
        AppSettings {
            appearance: self.appearance,
            editor: self.editor.copy(),
            network: self.network,
            proxy: self.proxy.copy(),
            privacy: self.privacy,
        }
    }
}

/// Workspace-level overrides.
#[derive(Debug, Clone, Copy, PartialEq, Eq, Structural, Default)]
pub struct WorkspaceSettingsOverride {
    pub default_timeout_ms: Option<u64>,
    pub verify_ssl: Option<bool>,
    pub follow_redirects: Option<bool>,
    pub theme: Option<ThemeMode>,
}

/// User settings with the workspace overrides applied.
pub open spec fn merged(user: SettingsView, o: WorkspaceSettingsOverride) -> SettingsView {
    SettingsView {
        network: NetworkSettings {
            timeout_ms: match o.default_timeout_ms {
                Some(t) => t,
                None => user.network.timeout_ms,
            },
            verify_ssl: match o.verify_ssl {
                Some(v) => v,
                None => user.network.verify_ssl,
            },
            follow_redirects: match o.follow_redirects {
                Some(f) => f,
                None => user.network.follow_redirects,
            },
            ..user.network
        },
        appearance: AppearanceSettings {
            theme: match o.theme {
                Some(t) => t,
                None => user.appearance.theme,
            },
            ..user.appearance
        },
        ..user
    }
}

/// User settings, workspace overrides, and the settings in effect.
pub struct SettingsStore {
    user_settings: AppSettings,
    workspace_override: WorkspaceSettingsOverride,
    effective: AppSettings,
    user_settings_path: PathBuf,
}

impl SettingsStore {
    pub closed spec fn user(self) -> SettingsView {
        self.user_settings@
    }

    pub closed spec fn overrides(self) -> WorkspaceSettingsOverride {
        self.workspace_override
    }

    pub closed spec fn in_effect(self) -> SettingsView {
        self.effective@
    }

    pub closed spec fn path(self) -> PathBuf {
        self.user_settings_path
    }

    /// The settings in effect are the merge of the other two.
    pub open spec fn wf(self) -> bool {
        self.in_effect() == merged(self.user(), self.overrides())
    }

    /// Defaults everywhere; user settings live at `user_settings_path`.
    pub fn new(user_settings_path: PathBuf) -> (r: Self)
        ensures
            r.wf(),
            r.user() == default_settings(),
            r.overrides() == (WorkspaceSettingsOverride {
                default_timeout_ms: None,
                verify_ssl: None,
                follow_redirects: None,
                theme: None,
            }),
            r.path() == user_settings_path,
    {
        let mut store = SettingsStore {
            user_settings: AppSettings::default(),
            workspace_override: WorkspaceSettingsOverride {
                default_timeout_ms: None,
                verify_ssl: None,
                follow_redirects: None,
                theme: None,
            },
            effective: AppSettings::default(),
            user_settings_path,
        };
        store.recompute_effective();
        store
    }

    /// Applies workspace-level overrides.
    pub fn set_workspace_override(&mut self, overrides: WorkspaceSettingsOverride)
        ensures
            final(self).wf(),
            final(self).user() == old(self).user(),
            final(self).overrides() == overrides,
            final(self).path() == old(self).path(),
    {
        self.workspace_override = overrides;
        self.recompute_effective();
    }

    /// Merges user settings and workspace overrides into the settings in effect.
    pub fn recompute_effective(&mut self)
        ensures
            final(self).wf(),
            final(self).user() == old(self).user(),
            final(self).overrides() == old(self).overrides(),
            final(self).path() == old(self).path(),
    {
        let mut eff = self.user_settings.copy();
        match self.workspace_override.default_timeout_ms {
            Some(t) => {
                eff.network.timeout_ms = t;
            },
            None => {},
        }
        match self.workspace_override.verify_ssl {
            Some(v) => {
                eff.network.verify_ssl = v;
            },
            None => {},
        }
        match self.workspace_override.follow_redirects {
            Some(f) => {
                eff.network.follow_redirects = f;
            },
            None => {},
        }
        match self.workspace_override.theme {
            Some(t) => {
                eff.appearance.theme = t;
            },
            None => {},
        }
        self.effective = eff;
    }

    /// The settings in effect.
    pub fn effective(&self) -> (r: &AppSettings)
        ensures
            r@ == self.in_effect(),
    {
        &self.effective
    }

    pub fn user_settings(&self) -> (r: &AppSettings)
        ensures
            r@ == self.user(),
    {
        &self.user_settings
    }

    /// The user settings, for editing; the settings in effect follow only
    /// once `recompute_effective` runs.
    pub fn user_settings_mut(&mut self) -> (r: &mut AppSettings)
        ensures
            r@ == old(self).user(),
            final(self).user() == final(r)@,
            final(self).overrides() == old(self).overrides(),
            final(self).in_effect() == old(self).in_effect(),
            final(self).path() == old(self).path(),
    {
        &mut self.user_settings
    }

    pub fn user_settings_path(&self) -> (r: &PathBuf)
        ensures
            *r == self.path(),
    {
        &self.user_settings_path
    }

    /// Replaces the user settings, as loading them from disk does.
    pub fn replace_user_settings(&mut self, settings: AppSettings)
        ensures
            final(self).wf(),
            final(self).user() == settings@,
            final(self).overrides() == old(self).overrides(),
            final(self).path() == old(self).path(),
    {
        self.user_settings = settings;
        self.recompute_effective();
    }

    /// Resets one category of user settings (`appearance`, `editor`,
    /// `network`, `proxy` or `privacy`) to its defaults; other names change
    /// nothing but the merge.
    pub fn reset_category(&mut self, category: &str)
        ensures
            final(self).wf(),
            final(self).user() == (if category@ == "appearance"@ {
                SettingsView { appearance: default_settings().appearance, ..old(self).user() }
            } else if category@ == "editor"@ {
                SettingsView { editor: default_settings().editor, ..old(self).user() }
            } else if category@ == "network"@ {
                SettingsView { network: default_settings().network, ..old(self).user() }
            } else if category@ == "proxy"@ {
                SettingsView { proxy: default_settings().proxy, ..old(self).user() }
            } else if category@ == "privacy"@ {
                SettingsView { privacy: default_settings().privacy, ..old(self).user() }
            } else {
                old(self).user()
            }),
            final(self).overrides() == old(self).overrides(),
            final(self).path() == old(self).path(),
    {
        if str_eq(category, "appearance") {
            self.user_settings.appearance = AppearanceSettings::default();
        } else if str_eq(category, "editor") {
            self.user_settings.editor = EditorSettings::default();
        } else if str_eq(category, "network") {
            self.user_settings.network = NetworkSettings::default();
        } else if str_eq(category, "proxy") {
            self.user_settings.proxy = ProxySettings::default();
        } else if str_eq(category, "privacy") {
            self.user_settings.privacy = PrivacySettings::default();
        }
        self.recompute_effective();
    }

    /// Resets user settings and workspace overrides to factory defaults.
    pub fn reset_all(&mut self)
        ensures
            final(self).wf(),
            final(self).user() == default_settings(),
            final(self).overrides() == (WorkspaceSettingsOverride {
                default_timeout_ms: None,
                verify_ssl: None,
                follow_redirects: None,
                theme: None,
            }),
            final(self).path() == old(self).path(),
    {
        self.user_settings = AppSettings::default();
        self.workspace_override = WorkspaceSettingsOverride {
            default_timeout_ms: None,
            verify_ssl: None,
            follow_redirects: None,
            theme: None,
        };
        self.recompute_effective();
    }
}

/// Workspace overrides win: every value a workspace sets is the value in
/// effect, and every value it leaves unset is the user's.
pub proof fn law_workspace_overrides_win(store: SettingsStore)
    requires
        store.wf(),
    ensures
        store.in_effect().network.timeout_ms == match store.overrides().default_timeout_ms {
            Some(t) => t,
            None => store.user().network.timeout_ms,
        },
        store.in_effect().network.verify_ssl == match store.overrides().verify_ssl {
            Some(v) => v,
            None => store.user().network.verify_ssl,
        },
        store.in_effect().network.follow_redirects == match store.overrides().follow_redirects {
            Some(f) => f,
            None => store.user().network.follow_redirects,
        },
        store.in_effect().appearance.theme == match store.overrides().theme {
            Some(t) => t,
            None => store.user().appearance.theme,
        },
        store.in_effect().editor == store.user().editor,
        store.in_effect().proxy == store.user().proxy,
        store.in_effect().privacy == store.user().privacy,
{
}

/// Default settings pass validation and keep telemetry off.
pub proof fn law_defaults_are_valid_and_private()
    ensures
        validation_error(default_settings()) is None,
        !default_settings().privacy.telemetry_enabled,
{
}

/// Settings pass validation exactly when the timeout is positive, there are
/// at most 50 redirects, the font size is from 8 to 72 pt and the tab size
/// from 1 to 8.
pub proof fn law_validation_bounds(s: SettingsView)
    ensures
        validation_error(s) is None <==> (s.network.timeout_ms > 0 && s.network.max_redirects <= 50 && 8
            <= s.editor.font_size <= 72 && 1 <= s.editor.tab_size <= 8),
{
}
} // verus!
