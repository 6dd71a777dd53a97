//! The clipboard history store: a bounded, deduplicated log of captured
//! clipboard text, most recent first.
//!
//! The store itself does no I/O. Whoever polls the system clipboard hands each
//! reading to [`ClipboardManager::capture`], and reports the outcome of each
//! programmatic write through [`ClipboardManager::copy_to_clipboard`].

use vstd::prelude::*;
use vstd::string::*;
use crate::text::{replaced, signed_decimal, signed_decimal_text, replace_text, contains_folded,
    lowercase, lower_of, contains_text};

verus! {

/// How many characters of the content a preview keeps.
pub const PREVIEW_CHARS: usize = 100;

/// How many entries a store keeps unless told otherwise.
pub const DEFAULT_MAX_ENTRIES: usize = 50;

/// One captured clipboard text.
#[derive(Debug, Clone)]
pub struct ClipboardEntry {
    pub id: String,
    pub content: String,
    pub preview: String,
    /// Capture time, in milliseconds since the Unix epoch (UTC).
    pub timestamp: i64,
}

/// The abstract value of a [`ClipboardEntry`].
pub struct EntryView {
    pub id: Seq<char>,
    pub content: Seq<char>,
    pub preview: Seq<char>,
    pub timestamp: i64,
}

impl View for ClipboardEntry {
    type V = EntryView;

    open spec fn view(&self) -> EntryView {
        EntryView { id: self.id@, content: self.content@, preview: self.preview@, timestamp: self.timestamp }
    }
}

/// The views of a sequence of entries.
pub open spec fn entry_views(s: Seq<ClipboardEntry>) -> Seq<EntryView> {
    s.map_values(|e: ClipboardEntry| e@)
}

/// The preview of a content: its first characters, line feeds turned into
/// spaces and carriage returns dropped.
pub open spec fn preview_of(content: Seq<char>) -> Seq<char> {
    let head = if content.len() <= PREVIEW_CHARS { content } else { content.take(PREVIEW_CHARS as int) };
    replaced(replaced(head, seq!['\n'], seq![' ']), seq!['\r'], seq![])
}

/// The id given to an entry captured at `timestamp`.
pub open spec fn entry_id(timestamp: i64) -> Seq<char> {
    seq!['c', 'l', 'i', 'p', ':'] + signed_decimal(timestamp as int)
}

/// The entry recorded for `content` captured at `timestamp`.
pub open spec fn new_entry(content: Seq<char>, timestamp: i64) -> EntryView {
    EntryView { id: entry_id(timestamp), content, preview: preview_of(content), timestamp }
}

/// The entries of `s` whose content differs from `c`, in order.
pub open spec fn without_content(s: Seq<EntryView>, c: Seq<char>) -> Seq<EntryView>
    decreases s.len(),
{
    if s.len() == 0 {
        seq![]
    } else if s.last().content == c {
        without_content(s.drop_last(), c)
    } else {
        without_content(s.drop_last(), c).push(s.last())
    }
}

/// The entries of `s` whose content contains `query`, ignoring case, in order.
pub open spec fn matching(s: Seq<EntryView>, query: Seq<char>) -> Seq<EntryView>
    decreases s.len(),
{
    if s.len() == 0 {
        seq![]
    } else if contains_folded(s.last().content, query) {
        matching(s.drop_last(), query).push(s.last())
    } else {
        matching(s.drop_last(), query)
    }
}

/// The first `n` elements of `s`, or all of them if there are fewer.
pub open spec fn first_n<T>(s: Seq<T>, n: nat) -> Seq<T> {
    if s.len() <= n { s } else { s.take(n as int) }
}

/// The abstract state of a store.
pub struct ClipboardView {
    pub entries: Seq<EntryView>,
    pub max_entries: nat,
    pub last_content: Seq<char>,
}

impl ClipboardView {
    /// No more entries than the bound, and no two with the same content.
    pub open spec fn wf(self) -> bool {
        &&& self.entries.len() <= self.max_entries
        &&& forall|i: int, j: int|
            0 <= i < j < self.entries.len() ==> self.entries[i].content != self.entries[j].content
    }

    /// The state after one poll read `text` at `timestamp`: a non-empty text that
    /// differs from the last one seen becomes the first entry, any older entry
    /// with that content is removed, and the oldest entries beyond the bound are
    /// dropped.
    pub open spec fn captured(self, text: Seq<char>, timestamp: i64) -> ClipboardView {
        if text.len() == 0 || text == self.last_content {
            self
        } else {
            ClipboardView {
                entries: first_n(seq![new_entry(text, timestamp)] + without_content(self.entries, text),
                    self.max_entries),
                max_entries: self.max_entries,
                last_content: text,
            }
        }
    }

    /// The state after `content` was written to the system clipboard by the program.
    pub open spec fn copied(self, content: Seq<char>) -> ClipboardView {
        ClipboardView { last_content: content, ..self }
    }

    /// The state after the history was cleared.
    pub open spec fn cleared(self) -> ClipboardView {
        ClipboardView { entries: seq![], ..self }
    }
}

/// The clipboard history store.
pub struct ClipboardManager {
    history: Vec<ClipboardEntry>,
    max_entries: usize,
    last_content: String,
}

impl View for ClipboardManager {
    type V = ClipboardView;

    closed spec fn view(&self) -> ClipboardView {
        ClipboardView {
            entries: entry_views(self.history@),
            max_entries: self.max_entries as nat,
            last_content: self.last_content@,
        }
    }
}

proof fn lemma_without_content_spec(s: Seq<EntryView>, c: Seq<char>)
    ensures
        forall|i: int| 0 <= i < without_content(s, c).len() ==> #[trigger] without_content(s, c)[i].content != c,
        without_content(s, c).len() <= s.len(),
        forall|i: int| 0 <= i < without_content(s, c).len() ==>
            exists|k: int| 0 <= k < s.len() && s[k] == #[trigger] without_content(s, c)[i],
    decreases s.len(),
{
    if s.len() > 0 {
        lemma_without_content_spec(s.drop_last(), c);
        let r = without_content(s.drop_last(), c);
        assert forall|i: int| 0 <= i < without_content(s, c).len() implies
            exists|k: int| 0 <= k < s.len() && s[k] == #[trigger] without_content(s, c)[i] by {
            if i < r.len() {
                let k = choose|k: int| 0 <= k < s.drop_last().len() && s.drop_last()[k] == r[i];
                assert(s[k] == without_content(s, c)[i]);
            } else {
                assert(s[s.len() - 1] == without_content(s, c)[i]);
            }
        }
    }
}

proof fn lemma_without_content_add(a: Seq<EntryView>, b: Seq<EntryView>, c: Seq<char>)
    ensures
        without_content(a + b, c) == without_content(a, c) + without_content(b, c),
    decreases b.len(),
{
    if b.len() == 0 {
        assert(a + b =~= a);
        assert(without_content(a, c) + without_content(b, c) =~= without_content(a, c));
    } else {
        lemma_without_content_add(a, b.drop_last(), c);
        assert((a + b).drop_last() =~= a + b.drop_last());
        assert((a + b).last() == b.last());
    }
}

proof fn lemma_without_content_unique(s: Seq<EntryView>, c: Seq<char>)
    requires
        forall|i: int, j: int| 0 <= i < j < s.len() ==> s[i].content != s[j].content,
    ensures
        forall|i: int, j: int| 0 <= i < j < without_content(s, c).len() ==>
            without_content(s, c)[i].content != without_content(s, c)[j].content,
    decreases s.len(),
{
    if s.len() > 0 {
        let d = s.drop_last();
        lemma_without_content_unique(d, c);
        lemma_without_content_spec(d, c);
        let r = without_content(d, c);
        if s.last().content != c {
            assert forall|i: int, j: int| 0 <= i < j < without_content(s, c).len() implies
                without_content(s, c)[i].content != without_content(s, c)[j].content by {
                if j == r.len() {
                    let k = choose|k: int| 0 <= k < d.len() && d[k] == #[trigger] r[i];
                    assert(s[k] == d[k]);
                }
            }
        }
    }
}

/// Capturing keeps the store well formed, puts the new content first, and
/// leaves no other entry with that content.
pub proof fn lemma_capture_dedups(m: ClipboardView, text: Seq<char>, timestamp: i64)
    requires
        m.wf(),
    ensures
        m.captured(text, timestamp).wf(),
        m.captured(text, timestamp).entries.len() <= m.max_entries,
        text.len() > 0 && text != m.last_content && m.max_entries > 0 ==> {
            let e = m.captured(text, timestamp).entries;
            &&& e.len() > 0
            &&& e[0] == new_entry(text, timestamp)
            &&& forall|i: int| 0 < i < e.len() ==> #[trigger] e[i].content != text
        },
{
    if text.len() > 0 && text != m.last_content {
        let w = without_content(m.entries, text);
        lemma_without_content_spec(m.entries, text);
        lemma_without_content_unique(m.entries, text);
        let all = seq![new_entry(text, timestamp)] + w;
        assert forall|i: int, j: int| 0 <= i < j < all.len() implies all[i].content != all[j].content by {
            if i > 0 {
                assert(all[i] == w[i - 1]);
                assert(all[j] == w[j - 1]);
            } else {
                assert(all[j] == w[j - 1]);
            }
        }
        assert forall|i: int| 0 < i < all.len() implies #[trigger] all[i].content != text by {
            assert(all[i] == w[i - 1]);
        }
    }
}

/// A text the program itself just copied is not recorded again by the next poll.
pub proof fn lemma_copy_not_recaptured(m: ClipboardView, content: Seq<char>, timestamp: i64)
    ensures
        m.copied(content).captured(content, timestamp) == m.copied(content),
{
}

/// Clearing empties the history, and clearing again changes nothing.
pub proof fn lemma_clear_idempotent(m: ClipboardView)
    ensures
        m.cleared().entries.len() == 0,
        m.cleared().cleared() == m.cleared(),
        m.wf() ==> m.cleared().wf(),
{
}

/// Builds the preview of a clipboard text.
pub fn make_preview(content: &str) -> (r: String)
    ensures
        r@ == preview_of(content@),
{
    let n = content.unicode_len();
    let head = if n <= PREVIEW_CHARS { content } else { content.substring_char(0, PREVIEW_CHARS) };
    proof {
        reveal_strlit("\n");
        reveal_strlit(" ");
        reveal_strlit("\r");
        reveal_strlit("");
        assert("\n"@ =~= seq!['\n']);
        assert(" "@ =~= seq![' ']);
        assert("\r"@ =~= seq!['\r']);
        assert(""@ =~= Seq::<char>::empty());
        if n > PREVIEW_CHARS {
            assert(head@ =~= content@.take(PREVIEW_CHARS as int));
        }
    }
    let spaced = replace_text(head, "\n", " ");
    replace_text(spaced.as_str(), "\r", "")
}

fn entry_id_text(timestamp: i64) -> (r: String)
    ensures
        r@ == entry_id(timestamp),
{
    let mut s = String::from_str("clip:");
    proof {
        reveal_strlit("clip:");
    }
    let digits = signed_decimal_text(timestamp);
    s.append(digits.as_str());
    s
}

/// `entry` first, then the entries of `history` with another content, cut to `max`.
fn push_front_dedup(history: &Vec<ClipboardEntry>, entry: ClipboardEntry, max: usize) -> (r: Vec<ClipboardEntry>)
    ensures
        entry_views(r@) == first_n(seq![entry@] + without_content(entry_views(history@), entry@.content), max as nat),
{
    let ghost x = entry@;
    let ghost old_entries = entry_views(history@);
    let mut kept: Vec<ClipboardEntry> = Vec::new();
    kept.push(entry);
    let mut i: usize = 0;
    proof {
    assert(entry_views(kept@) =~= seq![x] + without_content(old_entries.take(0), x.content));
    }
    while i < history.len() && kept.len() < max
        invariant
            i <= history@.len(),
            entry_views(history@) == old_entries,
            kept@.len() >= 1,
            kept@[0]@ == x,
            entry_views(kept@) == seq![x]
                + without_content(old_entries.take(i as int), x.content),
        decreases history@.len() - i,
    {
        proof {
            assert(old_entries.take(i as int + 1).drop_last() =~= old_entries.take(i as int));
            assert(old_entries.take(i as int + 1).last() == old_entries[i as int]);
        }
        let ghost before = entry_views(kept@);
        proof {
            assert(old_entries[i as int] == history@[i as int]@);
        }
        if !(history[i].content == kept[0].content) {
            kept.push(history[i].duplicate());
            proof {
                assert(old_entries[i as int].content != x.content);
                assert(without_content(old_entries.take(i as int + 1), x.content)
                    == without_content(old_entries.take(i as int), x.content).push(old_entries[i as int]));
                assert(entry_views(kept@) =~= before.push(old_entries[i as int]));
                assert(entry_views(kept@) =~= seq![x]
                    + without_content(old_entries.take(i as int + 1), x.content));
            }
        }
        else {
            proof {
                assert(old_entries[i as int].content == x.content);
                assert(without_content(old_entries.take(i as int + 1), x.content)
                    == without_content(old_entries.take(i as int), x.content));
            }
        }
        i = i + 1;
    }
    let ghost part = entry_views(kept@);
    kept.truncate(max);
    proof {
        let full = seq![x] + without_content(old_entries, x.content);
        let rest = old_entries.skip(i as int);
        assert(old_entries =~= old_entries.take(i as int) + rest);
        lemma_without_content_add(old_entries.take(i as int), rest, x.content);
        assert(full =~= part + without_content(rest, x.content));
        if i == old_entries.len() {
            assert(without_content(rest, x.content) =~= seq![]);
            assert(full =~= part);
        }
        assert(entry_views(kept@) =~= first_n(full, max as nat));
    }
    kept
}

impl ClipboardEntry {
    /// The entry for `content` captured at `timestamp`.
    pub fn new(content: &str, timestamp: i64) -> (r: ClipboardEntry)
        ensures
            r@ == new_entry(content@, timestamp),
    {
        ClipboardEntry {
            id: entry_id_text(timestamp),
            content: String::from_str(content),
            preview: make_preview(content),
            timestamp,
        }
    }

    /// A copy with the same fields.
    pub fn duplicate(&self) -> (r: ClipboardEntry)
        ensures
            r@ == self@,
    {
        ClipboardEntry {
            id: self.id.clone(),
            content: self.content.clone(),
            preview: self.preview.clone(),
            timestamp: self.timestamp,
        }
    }
}

impl ClipboardManager {
    pub open spec fn wf(&self) -> bool {
        self@.wf()
    }

    /// An empty store that keeps at most `max_entries` entries.
    pub fn new(max_entries: usize) -> (r: ClipboardManager)
        ensures
            r.wf(),
            r@.entries.len() == 0,
            r@.max_entries == max_entries,
            r@.last_content.len() == 0,
    {
        ClipboardManager { history: Vec::new(), max_entries, last_content: String::new() }
    }

    /// The bound on the number of entries.
    pub fn max_entries(&self) -> (r: usize)
        ensures
            r == self@.max_entries,
    {
        self.max_entries
    }

    /// Handles one poll of the system clipboard, which read `text` at
    /// `timestamp`; returns whether a new entry was recorded.
    pub fn capture(&mut self, text: &str, timestamp: i64) -> (r: bool)
        requires
            old(self).wf(),
        ensures
            final(self).wf(),
            final(self)@ == old(self)@.captured(text@, timestamp),
            r == (text@.len() > 0 && text@ != old(self)@.last_content),
    {
        proof {
            lemma_capture_dedups(self@, text@, timestamp);
        }
        let t = String::from_str(text);
        if text.is_empty() || self.last_content == t {
            return false;
        }
        self.last_content = t;
        let entry = ClipboardEntry::new(text, timestamp);
        let kept = push_front_dedup(&self.history, entry, self.max_entries);
        self.history = kept;
        true
    }

    /// All entries, most recent first.
    pub fn get_history(&self) -> (r: Vec<ClipboardEntry>)
        ensures
            entry_views(r@) == self@.entries,
    {
        let mut out: Vec<ClipboardEntry> = Vec::new();
        let mut i: usize = 0;
        while i < self.history.len()
            invariant
                i <= self.history@.len(),
                entry_views(out@) == entry_views(self.history@).take(i as int),
            decreases self.history@.len() - i,
        {
            let ghost before = entry_views(out@);
            out.push(self.history[i].duplicate());
            proof {
                assert(entry_views(out@) =~= before.push(self.history@[i as int]@));
                assert(entry_views(out@) =~= entry_views(self.history@).take(i as int + 1));
            }
            i = i + 1;
        }
        proof {
            assert(entry_views(self.history@).take(i as int) =~= entry_views(self.history@));
        }
        out
    }

    /// The entries whose content contains `query`, ignoring case, most recent first.
    pub fn search_history(&self, query: &str) -> (r: Vec<ClipboardEntry>)
        ensures
            entry_views(r@) == matching(self@.entries, query@),
            query@.len() == 0 ==> entry_views(r@) == self@.entries,
    {
        let folded = lowercase(query);
        let mut out: Vec<ClipboardEntry> = Vec::new();
        let mut i: usize = 0;
        while i < self.history.len()
            invariant
                i <= self.history@.len(),
                folded@ == lower_of(query@),
                query@.len() == 0 ==> folded@.len() == 0,
                entry_views(out@) == matching(entry_views(self.history@).take(i as int), query@),
                query@.len() == 0 ==> entry_views(out@) == entry_views(self.history@).take(i as int),
            decreases self.history@.len() - i,
        {
            let ghost es = entry_views(self.history@);
            proof {
                assert(es.take(i as int + 1).drop_last() =~= es.take(i as int));
                assert(es.take(i as int + 1).last() == es[i as int]);
            }
            let ghost before = entry_views(out@);
            let content = lowercase(self.history[i].content.as_str());
            if contains_text(content.as_str(), folded.as_str()) {
                out.push(self.history[i].duplicate());
                proof {
                    assert(entry_views(out@) =~= before.push(es[i as int]));
                    assert(entry_views(out@) =~= matching(es.take(i as int + 1), query@));
                    assert(es.take(i as int + 1) =~= es.take(i as int).push(es[i as int]));
                }
            } else {
                proof {
                    if query@.len() == 0 {
                        assert(content@.subrange(0, 0 + folded@.len() as int) =~= folded@);
                    }
                }
            }
            i = i + 1;
        }
        proof {
            assert(entry_views(self.history@).take(i as int) =~= entry_views(self.history@));
        }
        out
    }

    /// Removes every entry.
    pub fn clear_history(&mut self)
        requires
            old(self).wf(),
        ensures
            final(self).wf(),
            final(self)@ == old(self)@.cleared(),
    {
        self.history.clear();
        proof {
            assert(entry_views(self.history@) =~= seq![]);
        }
    }

    /// Completes a programmatic copy of `content`, given the outcome of writing it
    /// to the system clipboard. On success the content is remembered as the last
    /// one seen, so that the next poll does not record it again; a failure is
    /// handed back and the store is left as it was.
    pub fn copy_to_clipboard(&mut self, content: &str, written: Result<(), String>) -> (r: Result<(), String>)
        requires
            old(self).wf(),
        ensures
            final(self).wf(),
            r == written,
            written.is_ok() ==> final(self)@ == old(self)@.copied(content@),
            written.is_err() ==> final(self)@ == old(self)@,
    {
        if written.is_ok() {
            self.last_content = String::from_str(content);
        }
        written
    }
}

} // verus!
