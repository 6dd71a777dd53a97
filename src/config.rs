//! Launcher settings and their defaults.

use vstd::prelude::*;
use vstd::string::*;
use crate::actions::{string_views, to_strings};

verus! {

/// All settings.
#[derive(Debug, Clone)]
pub struct Settings {
    pub general: GeneralSettings,
    pub activation: ActivationSettings,
    pub search: SearchSettings,
    pub theme: ThemeSettings,
    pub web_searches: Vec<WebSearch>,
    pub file_search: FileSearchSettings,
}

#[derive(Debug, Clone)]
pub struct GeneralSettings {
    pub launch_at_login: bool,
    pub show_in_dock: bool,
    pub show_in_taskbar: bool,
}

#[derive(Debug, Clone)]
pub struct ActivationSettings {
    pub hotkey: String,
    pub show_tray_icon: bool,
}

#[derive(Debug, Clone)]
pub struct SearchSettings {
    /// How many results a query returns at most.
    pub max_results: usize,
    pub show_recently_used: bool,
    /// The configured fuzzy-match threshold, in thousandths.
    pub fuzzy_match_threshold: u32,
}

#[derive(Debug, Clone)]
pub struct ThemeSettings {
    pub mode: String,
    pub accent_color: String,
    pub custom: Option<CustomTheme>,
}

#[derive(Debug, Clone)]
pub struct CustomTheme {
    pub background: Option<String>,
    pub foreground: Option<String>,
    pub border: Option<String>,
    pub selected_background: Option<String>,
    pub input_background: Option<String>,
    pub font_family: Option<String>,
    pub font_size: Option<u32>,
    pub border_radius: Option<u32>,
}

/// A web-search shortcut: a keyword and a URL template holding `{query}` and,
/// for a shortcut that must be pointed at an instance, `{instance}`.
#[derive(Debug, Clone)]
pub struct WebSearch {
    pub name: String,
    pub keyword: String,
    pub url: String,
    pub icon: Option<String>,
    pub requires_setup: bool,
    pub instance: Option<String>,
}

/// The abstract value of a [`WebSearch`].
pub struct WebSearchView {
    pub name: Seq<char>,
    pub keyword: Seq<char>,
    pub url: Seq<char>,
    pub icon: Option<Seq<char>>,
    pub requires_setup: bool,
    pub instance: Option<Seq<char>>,
}

impl View for WebSearch {
    type V = WebSearchView;

    open spec fn view(&self) -> WebSearchView {
        WebSearchView {
            name: self.name@,
            keyword: self.keyword@,
            url: self.url@,
            icon: crate::search::opt_view(self.icon),
            requires_setup: self.requires_setup,
            instance: crate::search::opt_view(self.instance),
        }
    }
}

/// The views of a sequence of shortcuts.
pub open spec fn web_search_views(s: Seq<WebSearch>) -> Seq<WebSearchView> {
    s.map_values(|w: WebSearch| w@)
}

#[derive(Debug, Clone)]
pub struct FileSearchSettings {
    pub enabled: bool,
    pub indexed_paths: Vec<String>,
    pub excluded_patterns: Vec<String>,
    pub max_depth: usize,
}

pub fn default_true() -> (r: bool)
    ensures
        r,
{
    true
}

pub fn default_max_depth() -> (r: usize)
    ensures
        r == 5,
{
    5
}

pub fn default_max_results() -> (r: usize)
    ensures
        r == 8,
{
    8
}

/// The default fuzzy-match threshold, in thousandths.
pub fn default_threshold() -> (r: u32)
    ensures
        r == 600,
{
    600
}

pub fn default_hotkey() -> (r: String)
    ensures
        r@ == "Alt+Space"@,
{
    String::from_str("Alt+Space")
}

pub fn default_mode() -> (r: String)
    ensures
        r@ == "system"@,
{
    String::from_str("system")
}

pub fn default_accent() -> (r: String)
    ensures
        r@ == "system"@,
{
    String::from_str("system")
}

pub fn default_indexed_paths() -> (r: Vec<String>)
    ensures
        string_views(r@) == seq!["~/Documents"@, "~/Downloads"@, "~/Desktop"@],
{
    let r = to_strings(&["~/Documents", "~/Downloads", "~/Desktop"]);
    proof {
        assert(string_views(r@) =~= seq!["~/Documents"@, "~/Downloads"@, "~/Desktop"@]);
    }
    r
}

pub fn default_excluded_patterns() -> (r: Vec<String>)
    ensures
        string_views(r@) == seq!["node_modules"@, ".git"@, ".cache"@, "__pycache__"@, "target"@, ".DS_Store"@],
{
    let r = to_strings(&["node_modules", ".git", ".cache", "__pycache__", "target", ".DS_Store"]);
    proof {
        assert(string_views(r@) =~= seq!["node_modules"@, ".git"@, ".cache"@, "__pycache__"@, "target"@, ".DS_Store"@]);
    }
    r
}

impl Default for FileSearchSettings {
    fn default() -> (r: FileSearchSettings)
        ensures
            r.enabled,
            r.max_depth == 5,
            string_views(r.indexed_paths@) == seq!["~/Documents"@, "~/Downloads"@, "~/Desktop"@],
            string_views(r.excluded_patterns@)
                == seq!["node_modules"@, ".git"@, ".cache"@, "__pycache__"@, "target"@, ".DS_Store"@],
    {
        FileSearchSettings {
            enabled: true,
            indexed_paths: default_indexed_paths(),
            excluded_patterns: default_excluded_patterns(),
            max_depth: default_max_depth(),
        }
    }
}

pub open spec fn shortcut_view(name: &str, keyword: &str, url: &str, icon: &str, requires_setup: bool) -> WebSearchView {
    WebSearchView { name: name@, keyword: keyword@, url: url@, icon: Some(icon@), requires_setup, instance: None }
}

/// The shortcuts configured out of the box.
pub open spec fn default_shortcut_table() -> Seq<WebSearchView> {
    seq![
        shortcut_view("Google", "g", "https://www.google.com/search?q={query}", "google", false),
        shortcut_view("DuckDuckGo", "ddg", "https://duckduckgo.com/?q={query}", "duckduckgo", false),
        shortcut_view("YouTube", "yt", "https://www.youtube.com/results?search_query={query}", "youtube", false),
        shortcut_view("GitHub", "gh", "https://github.com/search?q={query}", "github", false),
        shortcut_view("Wikipedia", "wiki", "https://en.wikipedia.org/wiki/Special:Search?search={query}", "wikipedia", false),
        shortcut_view("Stack Overflow", "so", "https://stackoverflow.com/search?q={query}", "stackoverflow", false),
        shortcut_view("Jira", "jira", "https://{instance}.atlassian.net/browse/{query}", "jira", true),
    ]
}

fn shortcut(name: &str, keyword: &str, url: &str, icon: &str, requires_setup: bool) -> (r: WebSearch)
    ensures
        r@ == shortcut_view(name, keyword, url, icon, requires_setup),
{
    WebSearch {
        name: String::from_str(name),
        keyword: String::from_str(keyword),
        url: String::from_str(url),
        icon: Some(String::from_str(icon)),
        requires_setup,
        instance: None,
    }
}

/// The web-search shortcuts configured out of the box.
pub fn default_web_searches() -> (r: Vec<WebSearch>)
    ensures
        web_search_views(r@) == default_shortcut_table(),
{
    let w0 = shortcut("Google", "g", "https://www.google.com/search?q={query}", "google", false);
    let w1 = shortcut("DuckDuckGo", "ddg", "https://duckduckgo.com/?q={query}", "duckduckgo", false);
    let w2 = shortcut("YouTube", "yt", "https://www.youtube.com/results?search_query={query}", "youtube", false);
    let w3 = shortcut("GitHub", "gh", "https://github.com/search?q={query}", "github", false);
    let w4 = shortcut("Wikipedia", "wiki", "https://en.wikipedia.org/wiki/Special:Search?search={query}", "wikipedia", false);
    let w5 = shortcut("Stack Overflow", "so", "https://stackoverflow.com/search?q={query}", "stackoverflow", false);
    let w6 = shortcut("Jira", "jira", "https://{instance}.atlassian.net/browse/{query}", "jira", true);
    let mut v: Vec<WebSearch> = Vec::new();
    v.push(w0);
    v.push(w1);
    v.push(w2);
    v.push(w3);
    v.push(w4);
    v.push(w5);
    v.push(w6);
    proof {
        assert(web_search_views(v@) =~= default_shortcut_table());
    }
    v
}

/// No two of the default shortcuts share a keyword.
pub proof fn lemma_default_keywords_distinct()
    ensures
        forall|i: int, j: int| 0 <= i < j < default_shortcut_table().len() ==>
            default_shortcut_table()[i].keyword != default_shortcut_table()[j].keyword,
{
    reveal_strlit("g");
    reveal_strlit("ddg");
    reveal_strlit("yt");
    reveal_strlit("gh");
    reveal_strlit("wiki");
    reveal_strlit("so");
    reveal_strlit("jira");
    let t = default_shortcut_table();
    assert forall|i: int, j: int| 0 <= i < j < t.len() implies t[i].keyword != t[j].keyword by {
        let (a, b) = (t[i].keyword, t[j].keyword);
        if a.len() == b.len() {
            assert(a[0] != b[0] || a[a.len() - 1] != b[b.len() - 1]);
        }
    }
}

impl Default for Settings {
    fn default() -> (r: Settings)
        ensures
            r.general.launch_at_login,
            !r.general.show_in_dock,
            !r.general.show_in_taskbar,
            r.activation.hotkey@ == "Alt+Space"@,
            r.activation.show_tray_icon,
            r.search.max_results == 8,
            r.search.show_recently_used,
            r.search.fuzzy_match_threshold == 600,
            r.theme.mode@ == "system"@,
            r.theme.accent_color@ == "system"@,
            r.theme.custom.is_none(),
            web_search_views(r.web_searches@) == default_shortcut_table(),
            r.file_search.enabled,
            r.file_search.max_depth == 5,
            string_views(r.file_search.indexed_paths@) == seq!["~/Documents"@, "~/Downloads"@, "~/Desktop"@],
            string_views(r.file_search.excluded_patterns@)
                == seq!["node_modules"@, ".git"@, ".cache"@, "__pycache__"@, "target"@, ".DS_Store"@],
    {
        Settings {
            general: GeneralSettings { launch_at_login: true, show_in_dock: false, show_in_taskbar: false },
            activation: ActivationSettings { hotkey: default_hotkey(), show_tray_icon: true },
            search: SearchSettings {
                max_results: default_max_results(),
                show_recently_used: true,
                fuzzy_match_threshold: default_threshold(),
            },
            theme: ThemeSettings { mode: default_mode(), accent_color: default_accent(), custom: None },
            web_searches: default_web_searches(),
            file_search: FileSearchSettings::default(),
        }
    }
}

} // verus!
