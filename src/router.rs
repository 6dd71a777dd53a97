//! The query router: decides from the query's shape which sources answer it,
//! builds their candidates, and hands the mixed candidates to the ranker.
//!
//! - `cb <filter>` / `clip <filter>` and bare `cb` / `clip` list clipboard
//!   entries, newest first, unranked.
//! - Any other query mixes web-search shortcuts (`<keyword> <terms>`), system
//!   commands (all of them after a leading `>`, else those with a matching
//!   alias) and applications, and ranks them by fuzzy score.
//!
//! Shortcut and command candidates are built with fixed scores, and the ranker
//! then replaces every candidate's score with its fuzzy score, those included.
//! Only clipboard results keep a fixed score, since they are never ranked.

use vstd::prelude::*;
use vstd::string::*;
use vstd::arithmetic::div_mod::lemma_mod_multiples_vanish;
use crate::text::{has_prefix, is_infix, replaced, trimmed, url_encoded, digit_char, contains_folded,
    strip_prefix_text, trim_text, contains_text, replace_text, encode_url, contains_ignoring_case,
    digit_text};
use crate::search::{ResultType, SearchAction, SearchResult, ResultView, ActionView, SearchEngine,
    views, opt_view, is_ranking, ties_keep_input_order, name_scores, lemma_ranking_members};
use crate::clipboard::{ClipboardEntry, ClipboardManager, EntryView, entry_views, matching, first_n};
use crate::config::{Settings, WebSearch, WebSearchView, web_search_views};
use crate::actions::{CommandView, command_views, command_table, get_system_commands,
    string_views};
use crate::apps::{AppEntry, AppView, app_views};

verus! {

/// How many clipboard entries a clipboard query lists at most.
pub const CLIPBOARD_LIMIT: usize = 8;

/// The score of a clipboard or web-search result.
pub const FIXED_SCORE: i64 = 10000;

/// The score of a system command listed after a leading `>`.
pub const COMMAND_PREFIX_SCORE: i64 = 5000;

/// Milliseconds in a day.
pub const MILLIS_PER_DAY: u64 = 86_400_000;

/// Two decimal digits of `n < 100`.
pub open spec fn two_digits(n: int) -> Seq<char> {
    seq![digit_char((n / 10) as nat), digit_char((n % 10) as nat)]
}

/// The UTC time of day of a timestamp in milliseconds, as `HH:MM:SS`.
pub open spec fn clock_of(millis: i64) -> Seq<char> {
    let secs = ((millis as int) % (MILLIS_PER_DAY as int)) / 1000;
    two_digits(secs / 3600) + seq![':'] + two_digits((secs % 3600) / 60) + seq![':'] + two_digits(secs % 60)
}

fn two_digit_text(s: &mut String, n: u64)
    requires
        n < 100,
    ensures
        final(s)@ == old(s)@ + two_digits(n as int),
{
    s.append(digit_text(n / 10));
    s.append(digit_text(n % 10));
}

/// Writes the UTC time of day of a timestamp in milliseconds as `HH:MM:SS`.
pub fn clock_text(millis: i64) -> (r: String)
    ensures
        r@ == clock_of(millis),
{
    // A whole number of days that makes every timestamp non-negative.
    let shifted: i128 = (millis as i128) + 86_400_000i128 * 200_000_000_000i128;
    let day: u64 = ((shifted as u128) % (MILLIS_PER_DAY as u128)) as u64;
    proof {
        lemma_mod_multiples_vanish(200_000_000_000, millis as int, MILLIS_PER_DAY as int);
        assert(day as int == (millis as int) % (MILLIS_PER_DAY as int));
        reveal_strlit(":");
    }
    let secs: u64 = day / 1000;
    let mut s = String::new();
    two_digit_text(&mut s, secs / 3600);
    s.append(":");
    two_digit_text(&mut s, (secs % 3600) / 60);
    s.append(":");
    two_digit_text(&mut s, secs % 60);
    proof {
        assert(":"@ =~= seq![':']);
        assert(s@ =~= clock_of(millis));
    }
    s
}

/// What a clipboard query filters by: `Some` of the filter (empty for none)
/// when the query asks for the clipboard, `None` otherwise.
pub open spec fn clipboard_filter(q: Seq<char>) -> Option<Seq<char>> {
    if has_prefix(q, "cb "@) {
        Some(q.skip("cb "@.len() as int))
    } else if has_prefix(q, "clip "@) {
        Some(q.skip("clip "@.len() as int))
    } else if q == "cb"@ || q == "clip"@ {
        Some(Seq::empty())
    } else {
        None
    }
}

/// The result that lists a clipboard entry.
pub open spec fn clipboard_result(e: EntryView) -> ResultView {
    ResultView {
        id: e.id,
        name: e.preview,
        description: "Copied "@ + clock_of(e.timestamp),
        icon: Some("clipboard"@),
        result_type: ResultType::Clipboard,
        score: FIXED_SCORE,
        action: ActionView::CopyClipboard { content: e.content },
    }
}

/// The results of a clipboard query over `entries` with `filter`.
pub open spec fn clipboard_mode(entries: Seq<EntryView>, filter: Seq<char>) -> Seq<ResultView> {
    let listed = if filter.len() == 0 { entries } else { matching(entries, filter) };
    first_n(listed, CLIPBOARD_LIMIT as nat).map_values(|e: EntryView| clipboard_result(e))
}

/// The shortcut's URL template has an instance placeholder.
pub open spec fn needs_instance(w: WebSearchView) -> bool {
    is_infix("{instance}"@, w.url)
}

/// The shortcut has a non-empty instance configured.
pub open spec fn has_instance(w: WebSearchView) -> bool {
    w.instance is Some && w.instance->Some_0.len() > 0
}

/// The URL a shortcut opens for the search terms `terms`.
pub open spec fn shortcut_url(w: WebSearchView, terms: Seq<char>) -> Seq<char> {
    filled_template(w.url, w.instance, url_encoded(terms))
}

/// The terms that follow the shortcut's keyword and a space in `q`.
pub open spec fn shortcut_terms(w: WebSearchView, q: Seq<char>) -> Seq<char> {
    q.skip(w.keyword.len() + 1 as int)
}

/// The shortcut answers `q`: `q` is its keyword, a space and non-empty terms,
/// and the shortcut lacks no instance it needs.
pub open spec fn shortcut_applies(w: WebSearchView, q: Seq<char>) -> bool {
    &&& has_prefix(q, w.keyword + " "@)
    &&& q.len() > w.keyword.len() + 1
    &&& !(needs_instance(w) && !has_instance(w))
}

/// The result a shortcut gives for `q`.
pub open spec fn shortcut_result(w: WebSearchView, q: Seq<char>) -> ResultView {
    ResultView {
        id: "web:"@ + w.keyword,
        name: w.name + ": "@ + shortcut_terms(w, q),
        description: "Web Search"@,
        icon: w.icon,
        result_type: ResultType::WebSearch,
        score: FIXED_SCORE,
        action: ActionView::OpenUrl { url: shortcut_url(w, shortcut_terms(w, q)) },
    }
}

/// The results of the shortcuts that answer `q`, in configuration order.
pub open spec fn shortcut_results(ws: Seq<WebSearchView>, q: Seq<char>) -> Seq<ResultView>
    decreases ws.len(),
{
    if ws.len() == 0 {
        seq![]
    } else if shortcut_applies(ws.last(), q) {
        shortcut_results(ws.drop_last(), q).push(shortcut_result(ws.last(), q))
    } else {
        shortcut_results(ws.drop_last(), q)
    }
}

/// The query asks for system commands.
pub open spec fn is_command_query(q: Seq<char>) -> bool {
    has_prefix(q, ">"@)
}

/// What the mixed candidates are matched and ranked against: after a leading
/// `>`, the rest of the query trimmed; otherwise the query itself.
pub open spec fn ranking_key(q: Seq<char>) -> Seq<char> {
    if is_command_query(q) { trimmed(q.skip(1)) } else { q }
}

/// Some alias contains `key`, ignoring case.
pub open spec fn alias_matches(aliases: Seq<Seq<char>>, key: Seq<char>) -> bool {
    exists|i: int| 0 <= i < aliases.len() && contains_folded(#[trigger] aliases[i], key)
}

/// The result that offers a system command.
pub open spec fn command_result(c: CommandView, prefixed: bool) -> ResultView {
    ResultView {
        id: c.id,
        name: c.name,
        description: c.description,
        icon: Some("system"@),
        result_type: ResultType::SystemCommand,
        score: if prefixed { COMMAND_PREFIX_SCORE } else { 0 },
        action: ActionView::RunCommand { command: c.id },
    }
}

/// The commands offered for `q`, in table order.
pub open spec fn command_results(cs: Seq<CommandView>, q: Seq<char>) -> Seq<ResultView>
    decreases cs.len(),
{
    if cs.len() == 0 {
        seq![]
    } else if is_command_query(q) || alias_matches(cs.last().aliases, ranking_key(q)) {
        command_results(cs.drop_last(), q).push(command_result(cs.last(), is_command_query(q)))
    } else {
        command_results(cs.drop_last(), q)
    }
}

/// The result that offers an application.
pub open spec fn app_result(a: AppView) -> ResultView {
    ResultView {
        id: a.id,
        name: a.name,
        description: "Application"@,
        icon: a.icon_cache_path,
        result_type: ResultType::Application,
        score: 0,
        action: ActionView::LaunchApp { path: a.path },
    }
}

/// Applications are offered for a single-word query, or as a fallback when
/// nothing else matched a query that does not ask for commands.
pub open spec fn apps_included(q: Seq<char>, before: Seq<ResultView>) -> bool {
    !is_infix(" "@, q) || (!is_command_query(q) && before.len() == 0)
}

/// The candidates of a mixed query: shortcuts, then commands, then applications.
pub open spec fn candidates(q: Seq<char>, ws: Seq<WebSearchView>, apps: Seq<AppView>) -> Seq<ResultView> {
    let before = shortcut_results(ws, q) + command_results(command_table(), q);
    if apps_included(q, before) {
        before + apps.map_values(|a: AppView| app_result(a))
    } else {
        before
    }
}

fn clone_opt(o: &Option<String>) -> (r: Option<String>)
    ensures
        opt_view(r) == opt_view(*o),
{
    match o {
        Some(s) => Some(s.clone()),
        None => None,
    }
}

/// Lists clipboard entries as results, at most [`CLIPBOARD_LIMIT`] of them.
pub fn clipboard_items(entries: Vec<ClipboardEntry>) -> (r: Vec<SearchResult>)
    ensures
        views(r@) == first_n(entry_views(entries@), CLIPBOARD_LIMIT as nat).map_values(
            |e: EntryView| clipboard_result(e),
        ),
{
    let ghost es = entry_views(entries@);
    let mut out: Vec<SearchResult> = Vec::new();
    let mut i: usize = 0;
    while i < entries.len() && i < CLIPBOARD_LIMIT
        invariant
            i <= entries@.len(),
            i <= CLIPBOARD_LIMIT,
            es == entry_views(entries@),
            views(out@) == es.take(i as int).map_values(|e: EntryView| clipboard_result(e)),
        decreases entries@.len() - i,
    {
        let e = &entries[i];
        let mut description = String::from_str("Copied ");
        let clock = clock_text(e.timestamp);
        description.append(clock.as_str());
        let item = SearchResult {
            id: e.id.clone(),
            name: e.preview.clone(),
            description,
            icon: Some(String::from_str("clipboard")),
            result_type: ResultType::Clipboard,
            score: FIXED_SCORE,
            action: SearchAction::CopyClipboard { content: e.content.clone() },
        };
        let ghost before = views(out@);
        out.push(item);
        proof {
            assert(views(out@) =~= before.push(clipboard_result(es[i as int])));
            assert(es.take(i as int + 1).map_values(|e: EntryView| clipboard_result(e))
                =~= es.take(i as int).map_values(|e: EntryView| clipboard_result(e)).push(clipboard_result(es[i as int])));
        }
        i = i + 1;
    }
    proof {
        assert(first_n(es, CLIPBOARD_LIMIT as nat) =~= es.take(i as int));
    }
    out
}

/// The URL a template gives for already-encoded search terms: `{instance}`
/// replaced by the instance when the template has that placeholder, then
/// `{query}` replaced by the terms.
pub open spec fn filled_template(url: Seq<char>, instance: Option<Seq<char>>, encoded: Seq<char>) -> Seq<char> {
    if is_infix("{instance}"@, url) && instance is Some {
        replaced(replaced(url, "{instance}"@, instance->Some_0), "{query}"@, encoded)
    } else {
        replaced(url, "{query}"@, encoded)
    }
}

/// Fills a shortcut's URL template with an instance and encoded search terms.
pub fn fill_url_template(url: &str, instance: &Option<String>, encoded: &str) -> (r: String)
    ensures
        r@ == filled_template(url@, opt_view(*instance), encoded@),
{
    proof {
        reveal_strlit("{instance}");
        reveal_strlit("{query}");
    }
    if contains_text(url, "{instance}") {
        if let Some(inst) = instance {
            let with_instance = replace_text(url, "{instance}", inst.as_str());
            return replace_text(with_instance.as_str(), "{query}", encoded);
        }
    }
    replace_text(url, "{query}", encoded)
}

/// Appends the results of the shortcuts that answer `query`.
fn push_shortcuts(query: &str, shortcuts: &Vec<WebSearch>, items: &mut Vec<SearchResult>)
    ensures
        views(final(items)@) == views(old(items)@) + shortcut_results(web_search_views(shortcuts@), query@),
{
    let ghost ws = web_search_views(shortcuts@);
    let ghost start = views(items@);
    proof {
        reveal_strlit(" ");
        reveal_strlit("{instance}");
        reveal_strlit("{query}");
        assert(ws.take(0) =~= seq![]);
        assert(start + seq![] =~= start);
    }
    let mut i: usize = 0;
    while i < shortcuts.len()
        invariant
            i <= shortcuts@.len(),
            ws == web_search_views(shortcuts@),
            " "@ =~= seq![' '],
            "{instance}"@.len() > 0,
            "{query}"@.len() > 0,
            views(items@) == start + shortcut_results(ws.take(i as int), query@),
        decreases shortcuts@.len() - i,
    {
        let w = &shortcuts[i];
        let ghost wv = ws[i as int];
        proof {
            assert(ws.take(i as int + 1).drop_last() =~= ws.take(i as int));
            assert(ws.take(i as int + 1).last() == wv);
        }
        let mut prefix = w.keyword.clone();
        prefix.append(" ");
        if let Some(terms) = strip_prefix_text(query, prefix.as_str()) {
            let needs = contains_text(w.url.as_str(), "{instance}");
            let has = match &w.instance {
                Some(inst) => !inst.as_str().is_empty(),
                None => false,
            };
            if !terms.is_empty() && !(needs && !has) {
                let encoded = encode_url(terms);
                let url = fill_url_template(w.url.as_str(), &w.instance, encoded.as_str());
                let mut id = String::from_str("web:");
                id.append(w.keyword.as_str());
                let mut name = w.name.clone();
                name.append(": ");
                name.append(terms);
                let item = SearchResult {
                    id,
                    name,
                    description: String::from_str("Web Search"),
                    icon: clone_opt(&w.icon),
                    result_type: ResultType::WebSearch,
                    score: FIXED_SCORE,
                    action: SearchAction::OpenUrl { url },
                };
                let ghost before = views(items@);
                items.push(item);
                proof {
                    assert(shortcut_applies(wv, query@));
                    assert(item@ == shortcut_result(wv, query@));
                    assert(views(items@) =~= before.push(shortcut_result(wv, query@)));
                }
            } else {
                proof {
                    assert(!shortcut_applies(wv, query@));
                }
            }
        } else {
            proof {
                assert(!shortcut_applies(wv, query@));
            }
        }
        i = i + 1;
    }
    proof {
        assert(ws.take(i as int) =~= ws);
    }
}

fn any_alias_matches(aliases: &Vec<String>, key: &str) -> (r: bool)
    ensures
        r == alias_matches(string_views(aliases@), key@),
{
    let mut i: usize = 0;
    while i < aliases.len()
        invariant
            i <= aliases@.len(),
            forall|k: int| 0 <= k < i ==> !contains_folded(#[trigger] string_views(aliases@)[k], key@),
        decreases aliases@.len() - i,
    {
        if contains_ignoring_case(aliases[i].as_str(), key) {
            proof {
                assert(contains_folded(string_views(aliases@)[i as int], key@));
            }
            return true;
        }
        i = i + 1;
    }
    false
}

/// Appends the system commands offered for `query`; `key` is its ranking key.
fn push_commands(query: &str, key: &str, prefixed: bool, items: &mut Vec<SearchResult>)
    requires
        prefixed == is_command_query(query@),
        key@ == ranking_key(query@),
    ensures
        views(final(items)@) == views(old(items)@) + command_results(command_table(), query@),
{
    let commands = get_system_commands();
    let ghost cs = command_views(commands@);
    let ghost start = views(items@);
    proof {
        assert(cs.take(0) =~= seq![]);
        assert(start + seq![] =~= start);
    }
    let mut i: usize = 0;
    while i < commands.len()
        invariant
            i <= commands@.len(),
            cs == command_views(commands@),
            cs == command_table(),
            prefixed == is_command_query(query@),
            key@ == ranking_key(query@),
            views(items@) == start + command_results(cs.take(i as int), query@),
        decreases commands@.len() - i,
    {
        let c = &commands[i];
        let ghost cv = cs[i as int];
        proof {
            assert(cs.take(i as int + 1).drop_last() =~= cs.take(i as int));
            assert(cs.take(i as int + 1).last() == cv);
        }
        if any_alias_matches(&c.aliases, key) || prefixed {
            let item = SearchResult {
                id: c.id.clone(),
                name: c.name.clone(),
                description: c.description.clone(),
                icon: Some(String::from_str("system")),
                result_type: ResultType::SystemCommand,
                score: if prefixed { COMMAND_PREFIX_SCORE } else { 0 },
                action: SearchAction::RunCommand { command: c.id.clone() },
            };
            let ghost before = views(items@);
            items.push(item);
            proof {
                assert(views(items@) =~= before.push(command_result(cv, prefixed)));
            }
        }
        i = i + 1;
    }
    proof {
        assert(cs.take(i as int) =~= cs);
    }
}

/// Appends a result for each application, in order.
fn push_apps(apps: &Vec<AppEntry>, items: &mut Vec<SearchResult>)
    ensures
        views(final(items)@) == views(old(items)@) + app_views(apps@).map_values(|a: AppView| app_result(a)),
{
    let ghost avs = app_views(apps@);
    let ghost start = views(items@);
    let mut i: usize = 0;
    while i < apps.len()
        invariant
            i <= apps@.len(),
            avs == app_views(apps@),
            views(items@) == start + avs.take(i as int).map_values(|a: AppView| app_result(a)),
        decreases apps@.len() - i,
    {
        let a = &apps[i];
        let item = SearchResult {
            id: a.id.clone(),
            name: a.name.clone(),
            description: String::from_str("Application"),
            icon: clone_opt(&a.icon_cache_path),
            result_type: ResultType::Application,
            score: 0,
            action: SearchAction::LaunchApp { path: a.path.clone() },
        };
        let ghost before = views(items@);
        items.push(item);
        proof {
            assert(views(items@) =~= before.push(app_result(avs[i as int])));
            assert(avs.take(i as int + 1).map_values(|a: AppView| app_result(a))
                =~= avs.take(i as int).map_values(|a: AppView| app_result(a)).push(app_result(avs[i as int])));
        }
        i = i + 1;
    }
    proof {
        assert(avs.take(i as int) =~= avs);
    }
}

/// Every result's action agrees with its result type.
pub open spec fn all_consistent(s: Seq<ResultView>) -> bool {
    forall|k: int| 0 <= k < s.len() ==> (#[trigger] s[k]).is_consistent()
}

proof fn lemma_push_consistent(s: Seq<ResultView>, x: ResultView)
    requires
        all_consistent(s),
        x.is_consistent(),
    ensures
        all_consistent(s.push(x)),
{
    assert forall|k: int| 0 <= k < s.push(x).len() implies (#[trigger] s.push(x)[k]).is_consistent() by {
        if k < s.len() {
            assert(s.push(x)[k] == s[k]);
        }
    }
}

proof fn lemma_shortcuts_consistent(ws: Seq<WebSearchView>, q: Seq<char>)
    ensures
        all_consistent(shortcut_results(ws, q)),
    decreases ws.len(),
{
    if ws.len() > 0 {
        lemma_shortcuts_consistent(ws.drop_last(), q);
        if shortcut_applies(ws.last(), q) {
            lemma_push_consistent(shortcut_results(ws.drop_last(), q), shortcut_result(ws.last(), q));
        }
    }
}

proof fn lemma_commands_consistent(cs: Seq<CommandView>, q: Seq<char>)
    ensures
        all_consistent(command_results(cs, q)),
    decreases cs.len(),
{
    if cs.len() > 0 {
        lemma_commands_consistent(cs.drop_last(), q);
        if is_command_query(q) || alias_matches(cs.last().aliases, ranking_key(q)) {
            lemma_push_consistent(command_results(cs.drop_last(), q), command_result(cs.last(), is_command_query(q)));
        }
    }
}

/// Every candidate of a mixed query, and so every ranked result, has an action
/// that agrees with its result type.
pub proof fn lemma_mixed_results_consistent(q: Seq<char>, ws: Seq<WebSearchView>, apps: Seq<AppView>, full: Seq<ResultView>)
    requires
        is_ranking(full, candidates(q, ws, apps), name_scores(candidates(q, ws, apps), ranking_key(q))),
    ensures
        all_consistent(candidates(q, ws, apps)),
        all_consistent(full),
{
    let a = shortcut_results(ws, q);
    let b = command_results(command_table(), q);
    lemma_shortcuts_consistent(ws, q);
    lemma_commands_consistent(command_table(), q);
    let before = a + b;
    assert forall|k: int| 0 <= k < before.len() implies (#[trigger] before[k]).is_consistent() by {
        if k < a.len() {
            assert(before[k] == a[k]);
        } else {
            assert(before[k] == b[k - a.len()]);
        }
    }
    let c = candidates(q, ws, apps);
    if apps_included(q, before) {
        let m = apps.map_values(|x: AppView| app_result(x));
        assert forall|k: int| 0 <= k < c.len() implies (#[trigger] c[k]).is_consistent() by {
            if k < before.len() {
                assert(c[k] == before[k]);
            } else {
                assert(c[k] == m[k - before.len()]);
            }
        }
    }
    let scores = name_scores(c, ranking_key(q));
    lemma_ranking_members(full, c, scores);
    assert forall|k: int| 0 <= k < full.len() implies (#[trigger] full[k]).is_consistent() by {
        let i = choose|i: int| 0 <= i < c.len() && #[trigger] scores[i] == Some(full[k].score)
            && full[k] == (ResultView { score: full[k].score, ..c[i] });
        assert(c[i].is_consistent());
    }
}

/// Finds what the query `q` asks for in the clipboard store, if it asks for it.
fn clipboard_request(query: &str) -> (r: Option<&str>)
    ensures
        r is Some <==> clipboard_filter(query@) is Some,
        r is Some ==> r->Some_0@ == clipboard_filter(query@)->Some_0,
{
    if let Some(rest) = strip_prefix_text(query, "cb ") {
        return Some(rest);
    }
    if let Some(rest) = strip_prefix_text(query, "clip ") {
        return Some(rest);
    }
    if let Some(rest) = strip_prefix_text(query, "cb") {
        if rest.is_empty() {
            proof {
                assert(query@ =~= "cb"@);
            }
            return Some(rest);
        }
    }
    if let Some(rest) = strip_prefix_text(query, "clip") {
        if rest.is_empty() {
            proof {
                assert(query@ =~= "clip"@);
            }
            return Some(rest);
        }
    }
    proof {
        if query@ == "cb"@ {
            assert(query@.subrange(0, query@.len() as int) =~= query@);
            assert(has_prefix(query@, "cb"@));
            assert(query@.skip("cb"@.len() as int).len() == 0);
        }
        if query@ == "clip"@ {
            assert(query@.subrange(0, query@.len() as int) =~= query@);
            assert(has_prefix(query@, "clip"@));
            assert(query@.skip("clip"@.len() as int).len() == 0);
        }
    }
    None
}

/// Answers one query: the ordered results, at most `settings.search.max_results`
/// of them.
///
/// - An empty query has no results.
/// - A clipboard query lists the matching clipboard entries, newest first, at
///   most [`CLIPBOARD_LIMIT`] of them before the overall cap.
/// - Any other query ranks the shortcut, command and application candidates by
///   the fuzzy score of their names against its ranking key, and keeps the best.
pub fn search(
    query: &str,
    settings: &Settings,
    apps: &Vec<AppEntry>,
    clipboard: &ClipboardManager,
    engine: &SearchEngine,
) -> (r: Vec<SearchResult>)
    ensures
        query@.len() == 0 ==> r@.len() == 0,
        query@.len() > 0 && clipboard_filter(query@) is Some ==>
            views(r@) == first_n(clipboard_mode(clipboard@.entries, clipboard_filter(query@)->Some_0),
                settings.search.max_results as nat),
        query@.len() > 0 && clipboard_filter(query@) is None ==> {
            let cands = candidates(query@, web_search_views(settings.web_searches@), app_views(apps@));
            exists|full: Seq<ResultView>|
                is_ranking(full, cands, name_scores(cands, ranking_key(query@)))
                && ties_keep_input_order(full, cands, name_scores(cands, ranking_key(query@)))
                && views(r@) == first_n(full, settings.search.max_results as nat)
        },
        all_consistent(views(r@)),
{
    if query.is_empty() {
        let none: Vec<SearchResult> = Vec::new();
        proof {
            assert(views(none@) =~= seq![]);
        }
        return none;
    }
    if let Some(filter) = clipboard_request(query) {
        let entries = if filter.is_empty() {
            clipboard.get_history()
        } else {
            clipboard.search_history(filter)
        };
        let mut items = clipboard_items(entries);
        let ghost listed = views(items@);
        items.truncate(settings.search.max_results);
        proof {
            let v = views(items@);
            assert(v =~= first_n(listed, settings.search.max_results as nat));
            assert forall|k: int| 0 <= k < v.len() implies (#[trigger] v[k]).is_consistent() by {
                assert(v[k] == listed[k]);
            }
        }
        return items;
    }
    let stripped = strip_prefix_text(query, ">");
    proof {
        reveal_strlit(">");
    }
    let prefixed = stripped.is_some();
    let key: &str = match stripped {
        Some(rest) => trim_text(rest),
        None => query,
    };
    let mut items: Vec<SearchResult> = Vec::new();
    push_shortcuts(query, &settings.web_searches, &mut items);
    push_commands(query, key, prefixed, &mut items);
    proof {
        assert(views(items@) =~= shortcut_results(web_search_views(settings.web_searches@), query@)
            + command_results(command_table(), query@));
    }
    let single_word = !contains_text(query, " ");
    if single_word || (!prefixed && items.len() == 0) {
        push_apps(apps, &mut items);
    }
    let ghost cands = views(items@);
    let mut ranked = engine.search(key, items);
    let ghost full = views(ranked@);
    ranked.truncate(settings.search.max_results);
    proof {
        assert(views(ranked@) =~= first_n(full, settings.search.max_results as nat));
        lemma_mixed_results_consistent(query@, web_search_views(settings.web_searches@), app_views(apps@), full);
        let v = views(ranked@);
        assert forall|k: int| 0 <= k < v.len() implies (#[trigger] v[k]).is_consistent() by {
            assert(v[k] == full[k]);
        }
    }
    ranked
}

} // verus!
