//! Result records and the fuzzy ranker.
//!
//! A ranking keeps the candidates that the matcher scored, each carrying its
//! score, in non-increasing score order; candidates of equal score keep the
//! order in which they were given.

use vstd::prelude::*;
use fuzzy_matcher::FuzzyMatcher;
use fuzzy_matcher::skim::SkimMatcherV2;

verus! {

/// The source a result comes from.
#[derive(Debug, Clone, Copy, PartialEq, Eq, Structural)]
pub enum ResultType {
    Application,
    WebSearch,
    SystemCommand,
    Clipboard,
    Note,
    File,
}

/// What running a result does; executed outside the library.
#[derive(Debug, Clone)]
pub enum SearchAction {
    LaunchApp { path: String },
    OpenUrl { url: String },
    RunCommand { command: String },
    CopyClipboard { content: String },
    OpenNote { note_id: String },
    OpenFile { path: String },
}

/// The abstract value of a [`SearchAction`].
pub enum ActionView {
    LaunchApp { path: Seq<char> },
    OpenUrl { url: Seq<char> },
    RunCommand { command: Seq<char> },
    CopyClipboard { content: Seq<char> },
    OpenNote { note_id: Seq<char> },
    OpenFile { path: Seq<char> },
}

impl View for SearchAction {
    type V = ActionView;

    open spec fn view(&self) -> ActionView {
        match self {
            SearchAction::LaunchApp { path } => ActionView::LaunchApp { path: path@ },
            SearchAction::OpenUrl { url } => ActionView::OpenUrl { url: url@ },
            SearchAction::RunCommand { command } => ActionView::RunCommand { command: command@ },
            SearchAction::CopyClipboard { content } => ActionView::CopyClipboard { content: content@ },
            SearchAction::OpenNote { note_id } => ActionView::OpenNote { note_id: note_id@ },
            SearchAction::OpenFile { path } => ActionView::OpenFile { path: path@ },
        }
    }
}

/// The result type that each kind of action belongs to.
pub open spec fn action_type(a: ActionView) -> ResultType {
    match a {
        ActionView::LaunchApp { .. } => ResultType::Application,
        ActionView::OpenUrl { .. } => ResultType::WebSearch,
        ActionView::RunCommand { .. } => ResultType::SystemCommand,
        ActionView::CopyClipboard { .. } => ResultType::Clipboard,
        ActionView::OpenNote { .. } => ResultType::Note,
        ActionView::OpenFile { .. } => ResultType::File,
    }
}

/// One entry of the result list.
#[derive(Debug, Clone)]
pub struct SearchResult {
    pub id: String,
    pub name: String,
    pub description: String,
    pub icon: Option<String>,
    pub result_type: ResultType,
    pub score: i64,
    pub action: SearchAction,
}

/// The abstract value of a [`SearchResult`].
pub struct ResultView {
    pub id: Seq<char>,
    pub name: Seq<char>,
    pub description: Seq<char>,
    pub icon: Option<Seq<char>>,
    pub result_type: ResultType,
    pub score: i64,
    pub action: ActionView,
}

pub open spec fn opt_view(o: Option<String>) -> Option<Seq<char>> {
    match o {
        Some(s) => Some(s@),
        None => None,
    }
}

impl View for SearchResult {
    type V = ResultView;

    open spec fn view(&self) -> ResultView {
        ResultView {
            id: self.id@,
            name: self.name@,
            description: self.description@,
            icon: opt_view(self.icon),
            result_type: self.result_type,
            score: self.score,
            action: self.action@,
        }
    }
}

impl ResultView {
    /// The action's kind agrees with the result type.
    pub open spec fn is_consistent(self) -> bool {
        action_type(self.action) == self.result_type
    }
}

/// The views of a sequence of results.
pub open spec fn views(s: Seq<SearchResult>) -> Seq<ResultView> {
    s.map_values(|r: SearchResult| r@)
}

/// The candidates that received a score, in their given order, each carrying its score.
pub open spec fn scored(items: Seq<ResultView>, scores: Seq<Option<i64>>) -> Seq<ResultView>
    decreases items.len(),
{
    if items.len() == 0 || scores.len() == 0 {
        seq![]
    } else {
        let rest = scored(items.drop_last(), scores.drop_last());
        match scores.last() {
            Some(v) => rest.push(ResultView { score: v, ..items.last() }),
            None => rest,
        }
    }
}

/// The elements of `s` whose score is `v`, in order.
pub open spec fn with_score(s: Seq<ResultView>, v: i64) -> Seq<ResultView>
    decreases s.len(),
{
    if s.len() == 0 {
        seq![]
    } else if s.last().score == v {
        with_score(s.drop_last(), v).push(s.last())
    } else {
        with_score(s.drop_last(), v)
    }
}

/// Scores never increase along `s`.
pub open spec fn sorted_by_score(s: Seq<ResultView>) -> bool {
    forall|i: int, j: int| 0 <= i < j < s.len() ==> s[i].score >= s[j].score
}

/// `r` is the stable ranking of the scored candidates of `items`: sorted by
/// non-increasing score, and for each score the same results in the same order.
/// Together these fix `r` entirely.
pub open spec fn is_ranking(r: Seq<ResultView>, items: Seq<ResultView>, scores: Seq<Option<i64>>) -> bool {
    &&& sorted_by_score(r)
    &&& forall|v: i64| #[trigger] with_score(r, v) == with_score(scored(items, scores), v)
}

/// `idx` traces each element of `r` back to the position of the candidate it
/// came from: distinct positions, each scored with the element's score, and
/// results of equal score in increasing position.
pub open spec fn traced_by(r: Seq<ResultView>, items: Seq<ResultView>, scores: Seq<Option<i64>>, idx: Seq<int>) -> bool {
    &&& idx.len() == r.len()
    &&& forall|k: int| #![trigger idx[k]] 0 <= k < r.len() ==> {
        &&& 0 <= idx[k] < items.len()
        &&& scores[idx[k]] == Some(r[k].score)
        &&& r[k] == (ResultView { score: r[k].score, ..items[idx[k]] })
    }
    &&& forall|k: int, l: int| 0 <= k < l < r.len() ==> idx[k] != idx[l]
    &&& forall|k: int, l: int| 0 <= k < l < r.len() && r[k].score == r[l].score ==> idx[k] < idx[l]
}

/// Results of equal score come in the order of the candidates they came from.
pub open spec fn ties_keep_input_order(r: Seq<ResultView>, items: Seq<ResultView>, scores: Seq<Option<i64>>) -> bool {
    exists|idx: Seq<int>| traced_by(r, items, scores, idx)
}

/// `c` is an ASCII capital letter.
pub open spec fn is_ascii_upper(c: char) -> bool {
    65 <= (c as int) <= 90
}

/// Two characters match: equal, or the ASCII upper- and lower-case forms of
/// one letter.
pub open spec fn chars_match(c: char, p: char) -> bool {
    ||| c == p
    ||| is_ascii_upper(c) && (p as int) == (c as int) + 32
    ||| is_ascii_upper(p) && (c as int) == (p as int) + 32
}

/// The characters of `pattern` occur in `choice` in order, not necessarily
/// adjacent, ASCII case ignored.
pub open spec fn is_subsequence(pattern: Seq<char>, choice: Seq<char>) -> bool
    decreases choice.len(),
{
    if pattern.len() == 0 {
        true
    } else if choice.len() == 0 {
        false
    } else if chars_match(choice[0], pattern[0]) {
        is_subsequence(pattern.skip(1), choice.skip(1))
    } else {
        is_subsequence(pattern, choice.skip(1))
    }
}

/// The matcher accepts `choice` for `pattern`: the pattern is a subsequence of
/// the choice, ASCII case ignored.
pub open spec fn fuzzy_matches(choice: Seq<char>, pattern: Seq<char>) -> bool {
    is_subsequence(pattern, choice)
}

/// The score the matcher gives to `target` for `query`, `None` where the
/// query's characters do not occur in the target in order (ASCII case ignored).
pub uninterp spec fn skim_score(target: Seq<char>, query: Seq<char>) -> Option<i64>;

/// The matcher's score of each item's name.
pub open spec fn name_scores(items: Seq<ResultView>, query: Seq<char>) -> Seq<Option<i64>> {
    Seq::new(items.len(), |i: int| skim_score(items[i].name, query))
}

proof fn lemma_with_score_add(a: Seq<ResultView>, b: Seq<ResultView>, v: i64)
    ensures
        with_score(a + b, v) == with_score(a, v) + with_score(b, v),
    decreases b.len(),
{
    if b.len() == 0 {
        assert(a + b =~= a);
        assert(with_score(b, v) =~= seq![]);
        assert(with_score(a, v) + with_score(b, v) =~= with_score(a, v));
    } else {
        lemma_with_score_add(a, b.drop_last(), v);
        assert((a + b).drop_last() =~= a + b.drop_last());
        assert((a + b).last() == b.last());
    }
}

proof fn lemma_with_score_none(s: Seq<ResultView>, v: i64)
    requires
        forall|i: int| 0 <= i < s.len() ==> s[i].score != v,
    ensures
        with_score(s, v) =~= seq![],
    decreases s.len(),
{
    if s.len() > 0 {
        lemma_with_score_none(s.drop_last(), v);
    }
}

proof fn lemma_with_score_single(x: ResultView, v: i64)
    ensures
        with_score(seq![x], v) =~= (if x.score == v { seq![x] } else { seq![] }),
{
    assert(seq![x].drop_last() =~= seq![]);
    assert(with_score(seq![x].drop_last(), v) =~= seq![]);
}

proof fn lemma_insert_ranked(pre: Seq<ResultView>, pos: int, x: ResultView, tail: Seq<ResultView>)
    requires
        0 <= pos <= pre.len(),
        sorted_by_score(pre),
        forall|i: int| 0 <= i < pos ==> pre[i].score > x.score,
        pos < pre.len() ==> pre[pos].score <= x.score,
        forall|w: i64| #[trigger] with_score(pre, w) == with_score(tail, w),
    ensures
        sorted_by_score(pre.insert(pos, x)),
        forall|w: i64| #[trigger] with_score(pre.insert(pos, x), w) == with_score(seq![x] + tail, w),
{
    let a = pre.subrange(0, pos);
    let b = pre.subrange(pos, pre.len() as int);
    assert(pre =~= a + b);
    assert(pre.insert(pos, x) =~= a + seq![x] + b);
    assert forall|i: int| 0 <= i < b.len() implies b[i].score <= x.score by {
        assert(pre[pos].score <= x.score);
        assert(pre[pos].score >= pre[pos + i].score);
    }
    assert forall|w: i64| #[trigger] with_score(pre.insert(pos, x), w) == with_score(seq![x] + tail, w) by {
        lemma_with_score_add(a + seq![x], b, w);
        lemma_with_score_add(a, seq![x], w);
        lemma_with_score_add(a, b, w);
        lemma_with_score_add(seq![x], tail, w);
        lemma_with_score_single(x, w);
        assert(with_score(pre, w) == with_score(tail, w));
        if w == x.score {
            assert forall|i: int| 0 <= i < a.len() implies a[i].score != w by {}
            lemma_with_score_none(a, w);
        } else {
            assert(with_score(seq![x], w) =~= seq![]);
        }
    }
}

proof fn lemma_push_contains(d: Seq<ResultView>, y: ResultView, x: ResultView)
    ensures
        d.push(y).contains(x) <==> (d.contains(x) || y == x),
{
    if d.push(y).contains(x) {
        let k = choose|k: int| 0 <= k < d.push(y).len() && d.push(y)[k] == x;
        if k < d.len() {
            assert(d[k] == x);
        }
    }
    if d.contains(x) {
        let k = choose|k: int| 0 <= k < d.len() && d[k] == x;
        assert(d.push(y)[k] == x);
    }
    if y == x {
        assert(d.push(y)[d.len() as int] == x);
    }
}

proof fn lemma_with_score_members(s: Seq<ResultView>, v: i64, x: ResultView)
    ensures
        with_score(s, v).contains(x) <==> (s.contains(x) && x.score == v),
    decreases s.len(),
{
    if s.len() == 0 {
        assert(!with_score(s, v).contains(x));
    } else {
        let d = s.drop_last();
        lemma_with_score_members(d, v, x);
        assert(s =~= d.push(s.last()));
        lemma_push_contains(d, s.last(), x);
        if s.last().score == v {
            lemma_push_contains(with_score(d, v), s.last(), x);
        }
    }
}

proof fn lemma_scored_members(items: Seq<ResultView>, scores: Seq<Option<i64>>, x: ResultView)
    requires
        items.len() == scores.len(),
    ensures
        scored(items, scores).contains(x) <==> exists|i: int|
            0 <= i < items.len() && #[trigger] scores[i] == Some(x.score) && x == (ResultView { score: x.score, ..items[i] }),
    decreases items.len(),
{
    if items.len() > 0 {
        let (di, ds) = (items.drop_last(), scores.drop_last());
        lemma_scored_members(di, ds, x);
        let rest = scored(di, ds);
        let n = items.len() - 1;
        if scored(items, scores).contains(x) {
            let k = choose|k: int| 0 <= k < scored(items, scores).len() && scored(items, scores)[k] == x;
            if k < rest.len() {
                assert(rest[k] == x);
                assert(rest.contains(x));
                let i = choose|i: int| 0 <= i < di.len() && #[trigger] ds[i] == Some(x.score)
                    && x == (ResultView { score: x.score, ..di[i] });
                assert(scores[i] == ds[i] && items[i] == di[i]);
            } else {
                assert(scores[n] == Some(x.score));
                assert(x == (ResultView { score: x.score, ..items[n] }));
            }
        }
        if exists|i: int| 0 <= i < items.len() && #[trigger] scores[i] == Some(x.score)
            && x == (ResultView { score: x.score, ..items[i] }) {
            let i = choose|i: int| 0 <= i < items.len() && #[trigger] scores[i] == Some(x.score)
                && x == (ResultView { score: x.score, ..items[i] });
            if i < n {
                assert(ds[i] == scores[i] && di[i] == items[i]);
                assert(rest.contains(x));
                let k = choose|k: int| 0 <= k < rest.len() && rest[k] == x;
                assert(scored(items, scores)[k] == x);
            } else {
                assert(scored(items, scores) == rest.push(x));
                assert(scored(items, scores)[rest.len() as int] == x);
            }
        }
    }
}

/// A ranking holds exactly the scored candidates: each result is a candidate
/// whose score was defined, carrying that score, and each candidate whose score
/// was defined is among the results, carrying it. Scores never increase along it.
pub proof fn lemma_ranking_members(r: Seq<ResultView>, items: Seq<ResultView>, scores: Seq<Option<i64>>)
    requires
        items.len() == scores.len(),
        is_ranking(r, items, scores),
    ensures
        forall|k: int| #![trigger r[k]] 0 <= k < r.len() ==> exists|i: int|
            0 <= i < items.len() && #[trigger] scores[i] == Some(r[k].score)
                && r[k] == (ResultView { score: r[k].score, ..items[i] }),
        forall|i: int| 0 <= i < items.len() && (#[trigger] scores[i]) is Some ==>
            r.contains(ResultView { score: scores[i]->Some_0, ..items[i] }),
        forall|i: int, j: int| 0 <= i < j < r.len() ==> r[i].score >= r[j].score,
{
    let s = scored(items, scores);
    assert forall|k: int| #![trigger r[k]] 0 <= k < r.len() implies exists|i: int|
        0 <= i < items.len() && #[trigger] scores[i] == Some(r[k].score)
            && r[k] == (ResultView { score: r[k].score, ..items[i] }) by {
        let x = r[k];
        assert(r.contains(x));
        lemma_with_score_members(r, x.score, x);
        assert(with_score(r, x.score) == with_score(s, x.score));
        lemma_with_score_members(s, x.score, x);
        lemma_scored_members(items, scores, x);
    }
    assert forall|i: int| 0 <= i < items.len() && (#[trigger] scores[i]) is Some implies
        r.contains(ResultView { score: scores[i]->Some_0, ..items[i] }) by {
        let x = ResultView { score: scores[i]->Some_0, ..items[i] };
        lemma_scored_members(items, scores, x);
        assert(s.contains(x));
        lemma_with_score_members(s, x.score, x);
        assert(with_score(r, x.score) == with_score(s, x.score));
        lemma_with_score_members(r, x.score, x);
    }
}

proof fn lemma_insert_traced(
    pre: Seq<ResultView>,
    pos: int,
    x: ResultView,
    items: Seq<ResultView>,
    scores: Seq<Option<i64>>,
    idx: Seq<int>,
    m: int,
)
    requires
        0 <= pos <= pre.len(),
        traced_by(pre, items, scores, idx),
        forall|k: int| #![trigger idx[k]] 0 <= k < idx.len() ==> idx[k] > m,
        0 <= m < items.len(),
        scores[m] == Some(x.score),
        x == (ResultView { score: x.score, ..items[m] }),
        forall|i: int| 0 <= i < pos ==> pre[i].score > x.score,
    ensures
        traced_by(pre.insert(pos, x), items, scores, idx.insert(pos, m)),
{
    let r = pre.insert(pos, x);
    let j = idx.insert(pos, m);
    assert forall|k: int| #![trigger j[k]] 0 <= k < r.len() implies {
        &&& 0 <= j[k] < items.len()
        &&& scores[j[k]] == Some(r[k].score)
        &&& r[k] == (ResultView { score: r[k].score, ..items[j[k]] })
    } by {
        if k < pos {
            assert(j[k] == idx[k] && r[k] == pre[k]);
        } else if k > pos {
            assert(j[k] == idx[k - 1] && r[k] == pre[k - 1]);
        }
    }
    assert forall|k: int, l: int| 0 <= k < l < r.len() implies j[k] != j[l] by {
        if k < pos && l > pos {
            assert(j[k] == idx[k] && j[l] == idx[l - 1]);
        } else if k < pos && l == pos {
            assert(j[k] == idx[k]);
        } else if k == pos {
            assert(j[l] == idx[l - 1]);
        } else if l < pos {
            assert(j[k] == idx[k] && j[l] == idx[l]);
        } else {
            assert(j[k] == idx[k - 1] && j[l] == idx[l - 1]);
        }
    }
    assert forall|k: int, l: int| 0 <= k < l < r.len() && r[k].score == r[l].score implies j[k] < j[l] by {
        if k < pos && l > pos {
            assert(j[k] == idx[k] && j[l] == idx[l - 1] && r[k] == pre[k] && r[l] == pre[l - 1]);
        } else if k < pos && l == pos {
            assert(r[k] == pre[k]);
        } else if k == pos {
            assert(j[l] == idx[l - 1]);
        } else if l < pos {
            assert(j[k] == idx[k] && j[l] == idx[l] && r[k] == pre[k] && r[l] == pre[l]);
        } else {
            assert(j[k] == idx[k - 1] && j[l] == idx[l - 1] && r[k] == pre[k - 1] && r[l] == pre[l - 1]);
        }
    }
}

/// Ranks candidates by the scores given for them: those with no score are
/// dropped, the others carry their score and come in non-increasing score
/// order, ties in the order given.
pub fn rank(items: Vec<SearchResult>, scores: Vec<Option<i64>>) -> (r: Vec<SearchResult>)
    requires
        items@.len() == scores@.len(),
    ensures
        is_ranking(views(r@), views(items@), scores@),
        ties_keep_input_order(views(r@), views(items@), scores@),
{
    let ghost all_items = views(items@);
    let ghost all_scores = scores@;
    let mut items = items;
    let mut scores = scores;
    let mut out: Vec<SearchResult> = Vec::new();
    let ghost mut tail: Seq<ResultView> = seq![];
    let ghost mut idx: Seq<int> = seq![];
    proof {
        assert(all_items.take(items@.len() as int) =~= all_items);
        assert(all_scores.take(scores@.len() as int) =~= all_scores);
    }
    while items.len() > 0
        invariant
            items@.len() == scores@.len(),
            all_items.len() == all_scores.len(),
            items@.len() <= all_items.len(),
            views(items@) == all_items.take(items@.len() as int),
            scores@ == all_scores.take(items@.len() as int),
            traced_by(views(out@), all_items, all_scores, idx),
            forall|k: int| #![trigger idx[k]] 0 <= k < idx.len() ==> idx[k] >= items@.len(),
            scored(all_items, all_scores) == scored(views(items@), scores@) + tail,
            sorted_by_score(views(out@)),
            forall|v: i64| #[trigger] with_score(views(out@), v) == with_score(tail, v),
        decreases items@.len(),
    {
        let ghost pre_items = views(items@);
        let ghost pre_scores = scores@;
        let ghost pre_out = views(out@);
        let mut item = items.pop().unwrap();
        let s = scores.pop().unwrap();
        let ghost m = items@.len() as int;
        proof {
            assert(pre_items[m] == all_items[m]);
            assert(pre_scores[m] == all_scores[m]);
            assert(views(items@) =~= all_items.take(m));
            assert(scores@ =~= all_scores.take(m));
            assert(views(items@) =~= pre_items.drop_last());
            assert(scores@ =~= pre_scores.drop_last());
        }
        match s {
            None => {
                proof {
                    assert(scored(pre_items, pre_scores) == scored(views(items@), scores@));
                }
            },
            Some(v) => {
                item.score = v;
                let mut pos: usize = 0;
                while pos < out.len() && out[pos].score > v
                    invariant
                        pos <= out@.len(),
                        views(out@) == pre_out,
                        forall|i: int| 0 <= i < pos ==> out@[i].score > v,
                    decreases out@.len() - pos,
                {
                    pos = pos + 1;
                }
                let ghost x = item@;
                out.insert(pos, item);
                proof {
                    assert(views(out@) =~= pre_out.insert(pos as int, x));
                    if (pos as int) < pre_out.len() {
                        assert(pre_out[pos as int].score <= v);
                    }
                    lemma_insert_ranked(pre_out, pos as int, x, tail);
                    lemma_insert_traced(pre_out, pos as int, x, all_items, all_scores, idx, m);
                    idx = idx.insert(pos as int, m);
                    assert(scored(pre_items, pre_scores) == scored(views(items@), scores@).push(x));
                    assert(scored(views(items@), scores@).push(x) + tail
                        =~= scored(views(items@), scores@) + (seq![x] + tail));
                    tail = seq![x] + tail;
                }
            },
        }
    }
    proof {
        assert(views(items@) =~= seq![]);
        assert(tail =~= scored(all_items, all_scores));
        assert(traced_by(views(out@), all_items, all_scores, idx));
    }
    out
}

/// Scores candidates' names against a query and ranks them.
pub struct SearchEngine;

/// Relies on `FuzzyMatcher::fuzzy_match` of a `SkimMatcherV2` built fresh for
/// the call with the default scoring and `ignore_case`: with the matcher's
/// scratch cache starting empty, the score depends on the choice and the
/// pattern alone, and there is one exactly when the greedy subsequence scan
/// (`cheap_matches`, ASCII case ignored) succeeds, an empty pattern always
/// matching.
#[verifier::external_body]
fn skim_match(choice: &str, pattern: &str) -> (r: Option<i64>)
    ensures
        r == skim_score(choice@, pattern@),
        r is Some <==> fuzzy_matches(choice@, pattern@),
{
    SkimMatcherV2::default().ignore_case().fuzzy_match(choice, pattern)
}

impl SearchEngine {
    pub fn new() -> (r: SearchEngine) {
        SearchEngine
    }

    /// The fuzzy score of `target` for `query`, if the query matches it.
    pub fn score(&self, query: &str, target: &str) -> (r: Option<i64>)
        ensures
            r == skim_score(target@, query@),
            r is Some <==> fuzzy_matches(target@, query@),
    {
        skim_match(target, query)
    }

    /// Keeps the items whose name matches the query, sets each one's score, and
    /// orders them by non-increasing score, ties in the order given.
    pub fn search(&self, query: &str, items: Vec<SearchResult>) -> (r: Vec<SearchResult>)
        ensures
            is_ranking(views(r@), views(items@), name_scores(views(items@), query@)),
            ties_keep_input_order(views(r@), views(items@), name_scores(views(items@), query@)),
            forall|i: int| 0 <= i < items@.len() ==>
                (#[trigger] name_scores(views(items@), query@)[i] is Some <==> fuzzy_matches(items@[i].name@, query@)),
    {
        let mut scores: Vec<Option<i64>> = Vec::new();
        let mut i: usize = 0;
        while i < items.len()
            invariant
                i <= items@.len(),
                scores@.len() == i,
                forall|k: int| 0 <= k < i ==> scores@[k] == skim_score(items@[k].name@, query@),
                forall|k: int| 0 <= k < i ==> (#[trigger] scores@[k] is Some <==> fuzzy_matches(items@[k].name@, query@)),
            decreases items@.len() - i,
        {
            let s = self.score(query, items[i].name.as_str());
            scores.push(s);
            i = i + 1;
        }
        proof {
            assert(scores@ =~= name_scores(views(items@), query@));
        }
        rank(items, scores)
    }
}

impl Default for SearchEngine {
    fn default() -> (r: SearchEngine) {
        SearchEngine::new()
    }
}

} // verus!
