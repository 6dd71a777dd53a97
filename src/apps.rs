//! Installed applications as the launcher knows them, and the indexer that lists them.

use vstd::prelude::*;
use vstd::string::*;
use crate::text::{is_infix, lower_of, lowercase, contains_text};

verus! {

/// An installed application.
#[derive(Debug, Clone)]
pub struct AppEntry {
    pub id: String,
    pub name: String,
    pub path: String,
    pub icon_cache_path: Option<String>,
    pub launch_count: i32,
    pub last_launched: Option<i64>,
    pub platform: String,
}

/// The abstract value of an [`AppEntry`].
pub struct AppView {
    pub id: Seq<char>,
    pub name: Seq<char>,
    pub path: Seq<char>,
    pub icon_cache_path: Option<Seq<char>>,
    pub launch_count: i32,
    pub last_launched: Option<i64>,
    pub platform: Seq<char>,
}

impl View for AppEntry {
    type V = AppView;

    open spec fn view(&self) -> AppView {
        AppView {
            id: self.id@,
            name: self.name@,
            path: self.path@,
            icon_cache_path: crate::search::opt_view(self.icon_cache_path),
            launch_count: self.launch_count,
            last_launched: self.last_launched,
            platform: self.platform@,
        }
    }
}

/// The views of a sequence of applications.
pub open spec fn app_views(s: Seq<AppEntry>) -> Seq<AppView> {
    s.map_values(|a: AppEntry| a@)
}

/// Lists the installed applications of a platform.
pub trait AppIndexer {
    fn index_apps(&self) -> Vec<AppEntry>;

    fn get_app_icon(&self, app: &AppEntry) -> Option<Vec<u8>>;
}

/// The indexer of a platform without an application catalogue: it finds nothing.
pub struct StubIndexer;

impl AppIndexer for StubIndexer {
    fn index_apps(&self) -> (r: Vec<AppEntry>)
        ensures
            r@.len() == 0,
    {
        Vec::new()
    }

    fn get_app_icon(&self, app: &AppEntry) -> (r: Option<Vec<u8>>)
        ensures
            r.is_none(),
    {
        None
    }
}

/// The entry for an application found at `path` under `name` on `platform`:
/// its id is `app:` followed by the path, and it has never been launched.
pub fn app_entry(path: &str, name: &str, platform: &str) -> (r: AppEntry)
    ensures
        r@ == (AppView {
            id: "app:"@ + path@,
            name: name@,
            path: path@,
            icon_cache_path: None,
            launch_count: 0,
            last_launched: None,
            platform: platform@,
        }),
{
    let mut id = String::from_str("app:");
    id.append(path);
    AppEntry {
        id,
        name: String::from_str(name),
        path: String::from_str(path),
        icon_cache_path: None,
        launch_count: 0,
        last_launched: None,
        platform: String::from_str(platform),
    }
}

/// The name is an uninstaller's: once lower-cased, it contains `uninstall`.
/// Indexers leave such entries out.
pub fn is_uninstaller(name: &str) -> (r: bool)
    ensures
        r == is_infix("uninstall"@, lower_of(name@)),
{
    let lower = lowercase(name);
    contains_text(lower.as_str(), "uninstall")
}

/// The portable indexer.
pub fn get_indexer() -> (r: StubIndexer) {
    StubIndexer
}

} // verus!
