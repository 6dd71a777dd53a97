//! Notes: their record, the hashtags found in their text, and the file name a
//! note is stored under.
//!
//! A tag is a whitespace-separated word that starts with `#` and has more
//! after it; the tag is the word without its leading `#`s and trailing
//! non-alphanumeric characters, lower-cased. A note's tags are listed once
//! each, in ascending order.

use vstd::prelude::*;
use vstd::string::*;
use crate::text::{lower_of, lowercase, replaced, replace_text, is_space, char_is_whitespace};
use crate::actions::string_views;

verus! {

/// A note, with the tags found in its content.
#[derive(Debug, Clone)]
pub struct Note {
    pub id: String,
    pub title: String,
    pub content: String,
    pub tags: Vec<String>,
    pub created_at: i64,
    pub modified_at: i64,
}

/// How many characters of a title a note's file name keeps.
pub const FILENAME_CHARS: usize = 50;

/// Unicode letters and numbers, as `char::is_alphanumeric` decides it.
pub uninterp spec fn is_alnum(c: char) -> bool;

/// Relies on `char::is_alphanumeric`: depends on the character alone.
#[verifier::external_body]
fn char_is_alphanumeric(c: char) -> (r: bool)
    ensures
        r == is_alnum(c),
{
    c.is_alphanumeric()
}

/// The finished words of `s` and the word still being read at its end.
pub open spec fn split(s: Seq<char>) -> (Seq<Seq<char>>, Seq<char>)
    decreases s.len(),
{
    if s.len() == 0 {
        (seq![], seq![])
    } else {
        let (ws, cur) = split(s.drop_last());
        let c = s.last();
        if is_space(c) {
            if cur.len() > 0 { (ws.push(cur), seq![]) } else { (ws, seq![]) }
        } else {
            (ws, cur.push(c))
        }
    }
}

/// The maximal runs of non-white-space characters of `s`, in order.
pub open spec fn words(s: Seq<char>) -> Seq<Seq<char>> {
    let (ws, cur) = split(s);
    if cur.len() > 0 { ws.push(cur) } else { ws }
}

/// `w` without its leading `#`s.
pub open spec fn trim_hashes(w: Seq<char>) -> Seq<char>
    decreases w.len(),
{
    if w.len() > 0 && w[0] == '#' { trim_hashes(w.skip(1)) } else { w }
}

/// `w` without its trailing non-alphanumeric characters.
pub open spec fn trim_tail(w: Seq<char>) -> Seq<char>
    decreases w.len(),
{
    if w.len() > 0 && !is_alnum(w.last()) { trim_tail(w.drop_last()) } else { w }
}

/// The tag a word carries, if any.
pub open spec fn tag_of(w: Seq<char>) -> Option<Seq<char>> {
    if w.len() > 1 && w[0] == '#' && trim_tail(trim_hashes(w)).len() > 0 {
        Some(lower_of(trim_tail(trim_hashes(w))))
    } else {
        None
    }
}

/// The tags of a sequence of words, in order, repeats included.
pub open spec fn word_tags(ws: Seq<Seq<char>>) -> Seq<Seq<char>>
    decreases ws.len(),
{
    if ws.len() == 0 {
        seq![]
    } else {
        match tag_of(ws.last()) {
            Some(t) => word_tags(ws.drop_last()).push(t),
            None => word_tags(ws.drop_last()),
        }
    }
}

/// `a` comes before `b` in lexicographic order of code points.
pub open spec fn lex_lt(a: Seq<char>, b: Seq<char>) -> bool
    decreases a.len(),
{
    if b.len() == 0 {
        false
    } else if a.len() == 0 {
        true
    } else if a[0] != b[0] {
        (a[0] as int) < (b[0] as int)
    } else {
        lex_lt(a.skip(1), b.skip(1))
    }
}

/// Each element comes strictly before the next.
pub open spec fn strictly_ascending(s: Seq<Seq<char>>) -> bool {
    forall|i: int, j: int| 0 <= i < j < s.len() ==> lex_lt(s[i], s[j])
}

proof fn lemma_lex_trans(a: Seq<char>, b: Seq<char>, c: Seq<char>)
    requires
        lex_lt(a, b),
        lex_lt(b, c),
    ensures
        lex_lt(a, c),
    decreases a.len(),
{
    if a.len() > 0 && a[0] == b[0] && b[0] == c[0] {
        lemma_lex_trans(a.skip(1), b.skip(1), c.skip(1));
    }
}

proof fn lemma_lex_total(a: Seq<char>, b: Seq<char>)
    ensures
        a == b || lex_lt(a, b) || lex_lt(b, a),
    decreases a.len(),
{
    if a.len() > 0 && b.len() > 0 && a[0] == b[0] {
        lemma_lex_total(a.skip(1), b.skip(1));
        if a.skip(1) == b.skip(1) {
            assert(a =~= seq![a[0]] + a.skip(1));
            assert(b =~= seq![b[0]] + b.skip(1));
        }
    } else if a.len() == 0 && b.len() == 0 {
        assert(a =~= b);
    } else if a.len() > 0 && b.len() > 0 {
        assert((a[0] as int) != (b[0] as int));
    }
}

proof fn lemma_lex_irreflexive(a: Seq<char>)
    ensures
        !lex_lt(a, a),
    decreases a.len(),
{
    if a.len() > 0 {
        lemma_lex_irreflexive(a.skip(1));
    }
}

proof fn lemma_seq_push_contains(d: Seq<Seq<char>>, y: Seq<char>, x: Seq<char>)
    ensures
        d.push(y).contains(x) <==> (d.contains(x) || y == x),
{
    if d.push(y).contains(x) {
        let k = choose|k: int| 0 <= k < d.push(y).len() && d.push(y)[k] == x;
        if k < d.len() {
            assert(d[k] == x);
        }
    }
    if d.contains(x) {
        let k = choose|k: int| 0 <= k < d.len() && d[k] == x;
        assert(d.push(y)[k] == x);
    }
    if y == x {
        assert(d.push(y)[d.len() as int] == x);
    }
}

/// Compares two strings in lexicographic order of code points.
fn lex_less(a: &str, b: &str) -> (r: bool)
    ensures
        r == lex_lt(a@, b@),
{
    let na = a.unicode_len();
    let nb = b.unicode_len();
    let mut i: usize = 0;
    proof {
        assert(a@.skip(0) =~= a@);
        assert(b@.skip(0) =~= b@);
    }
    while i < na && i < nb
        invariant
            na == a@.len(),
            nb == b@.len(),
            i <= na,
            i <= nb,
            lex_lt(a@, b@) == lex_lt(a@.skip(i as int), b@.skip(i as int)),
        decreases na - i,
    {
        let ca = a.get_char(i);
        let cb = b.get_char(i);
        if ca != cb {
            return ca < cb;
        }
        proof {
            assert(a@.skip(i as int).skip(1) =~= a@.skip(i as int + 1));
            assert(b@.skip(i as int).skip(1) =~= b@.skip(i as int + 1));
        }
        i = i + 1;
    }
    i < nb
}

/// Adds `t` to a strictly ascending list unless it is already there.
fn insert_sorted(out: &mut Vec<String>, t: String)
    requires
        strictly_ascending(string_views(old(out)@)),
    ensures
        strictly_ascending(string_views(final(out)@)),
        forall|x: Seq<char>| #[trigger] string_views(final(out)@).contains(x)
            <==> (string_views(old(out)@).contains(x) || x == t@),
{
    let ghost pre = string_views(out@);
    let mut pos: usize = 0;
    while pos < out.len() && lex_less(out[pos].as_str(), t.as_str())
        invariant
            pos <= out@.len(),
            string_views(out@) == pre,
            forall|k: int| 0 <= k < pos ==> lex_lt(#[trigger] pre[k], t@),
        decreases out@.len() - pos,
    {
        pos = pos + 1;
    }
    if pos < out.len() && out[pos] == t {
        proof {
            assert(pre[pos as int] == t@);
            assert forall|x: Seq<char>| #[trigger] pre.contains(x) <==> (pre.contains(x) || x == t@) by {
                if x == t@ {
                    assert(pre[pos as int] == x);
                }
            }
        }
        return;
    }
    proof {
        if pos < pre.len() {
            lemma_lex_total(pre[pos as int], t@);
            assert(lex_lt(t@, pre[pos as int]));
        }
    }
    out.insert(pos, t);
    proof {
        let post = string_views(out@);
        assert(post =~= pre.insert(pos as int, t@));
        assert forall|i: int, j: int| 0 <= i < j < post.len() implies lex_lt(post[i], post[j]) by {
            if j == pos {
                assert(post[i] == pre[i]);
            } else if i == pos {
                assert(post[j] == pre[j - 1]);
                if j - 1 > pos {
                    lemma_lex_trans(t@, pre[pos as int], pre[j - 1]);
                }
            } else if i < pos && j > pos {
                assert(lex_lt(pre[i], t@));
                if pos < pre.len() {
                    lemma_lex_trans(pre[i], t@, pre[pos as int]);
                    if j - 1 > pos {
                        lemma_lex_trans(pre[i], pre[pos as int], pre[j - 1]);
                    }
                }
            }
        }
        assert forall|x: Seq<char>| #[trigger] post.contains(x) <==> (pre.contains(x) || x == t@) by {
            if post.contains(x) {
                let k = choose|k: int| 0 <= k < post.len() && post[k] == x;
                if k < pos {
                    assert(pre[k] == x);
                } else if k > pos {
                    assert(pre[k - 1] == x);
                }
            }
            if pre.contains(x) {
                let k = choose|k: int| 0 <= k < pre.len() && pre[k] == x;
                if k < pos {
                    assert(post[k] == x);
                } else {
                    assert(post[k + 1] == x);
                }
            }
            if x == t@ {
                assert(post[pos as int] == x);
            }
        }
    }
}

/// Adds the tag of the word `content[start..end]`, if it carries one.
fn add_word_tag(content: &str, start: usize, end: usize, out: &mut Vec<String>)
    requires
        start < end <= content@.len(),
        strictly_ascending(string_views(old(out)@)),
    ensures
        strictly_ascending(string_views(final(out)@)),
        forall|x: Seq<char>| #[trigger] string_views(final(out)@).contains(x)
            <==> (string_views(old(out)@).contains(x) || tag_of(content@.subrange(start as int, end as int)) == Some(x)),
{
    let ghost w = content@.subrange(start as int, end as int);
    if content.get_char(start) != '#' || end - start <= 1 {
        return;
    }
    let mut a: usize = start;
    proof {
        assert(content@.subrange(a as int, end as int) == w);
    }
    while a < end && content.get_char(a) == '#'
        invariant
            start <= a <= end <= content@.len(),
            trim_hashes(w) == trim_hashes(content@.subrange(a as int, end as int)),
        decreases end - a,
    {
        proof {
            assert(content@.subrange(a as int, end as int).skip(1) =~= content@.subrange(a as int + 1, end as int));
        }
        a = a + 1;
    }
    let ghost h = content@.subrange(a as int, end as int);
    proof {
        assert(trim_hashes(h) == h);
    }
    let mut b: usize = end;
    while b > a && !char_is_alphanumeric(content.get_char(b - 1))
        invariant
            a <= b <= end <= content@.len(),
            trim_tail(h) == trim_tail(content@.subrange(a as int, b as int)),
        decreases b - a,
    {
        proof {
            assert(content@.subrange(a as int, b as int).drop_last() =~= content@.subrange(a as int, b as int - 1));
        }
        b = b - 1;
    }
    proof {
        assert(trim_tail(content@.subrange(a as int, b as int)) == content@.subrange(a as int, b as int));
        assert(w.len() > 1 && w[0] == '#');
    }
    if b > a {
        let piece = content.substring_char(a, b);
        let t = lowercase(piece);
        insert_sorted(out, t);
    } else {
        proof {
            assert(tag_of(w) is None);
        }
    }
}

/// The tags of a note's text, each once, in ascending order.
pub fn extract_tags(content: &str) -> (r: Vec<String>)
    ensures
        strictly_ascending(string_views(r@)),
        forall|x: Seq<char>| #[trigger] string_views(r@).contains(x) <==> word_tags(words(content@)).contains(x),
{
    let n = content.unicode_len();
    let mut out: Vec<String> = Vec::new();
    let mut in_word = false;
    let mut start: usize = 0;
    let mut i: usize = 0;
    let ghost mut ws: Seq<Seq<char>> = seq![];
    proof {
        assert(content@.take(0) =~= seq![]);
    }
    while i < n
        invariant
            n == content@.len(),
            i <= n,
            start <= i,
            split(content@.take(i as int)) == (ws, if in_word { content@.subrange(start as int, i as int) } else { seq![] }),
            in_word ==> start < i,
            strictly_ascending(string_views(out@)),
            forall|x: Seq<char>| #[trigger] string_views(out@).contains(x) <==> word_tags(ws).contains(x),
        decreases n - i,
    {
        let c = content.get_char(i);
        proof {
            assert(content@.take(i as int + 1).drop_last() =~= content@.take(i as int));
            assert(content@.take(i as int + 1).last() == c);
        }
        if char_is_whitespace(c) {
            if in_word {
                let ghost cur = content@.subrange(start as int, i as int);
                add_word_tag(content, start, i, &mut out);
                proof {
                    assert forall|x: Seq<char>| #[trigger] string_views(out@).contains(x)
                        <==> word_tags(ws.push(cur)).contains(x) by {
                        assert(ws.push(cur).drop_last() =~= ws);
                        match tag_of(cur) {
                            Some(t) => lemma_seq_push_contains(word_tags(ws), t, x),
                            None => {},
                        }
                    }
                    ws = ws.push(cur);
                }
                in_word = false;
            }
        } else {
            if !in_word {
                start = i;
                in_word = true;
                proof {
                    assert(content@.subrange(start as int, i as int + 1) =~= seq![c]);
                    assert(Seq::<char>::empty().push(c) =~= seq![c]);
                }
            } else {
                proof {
                    assert(content@.subrange(start as int, i as int + 1)
                        =~= content@.subrange(start as int, i as int).push(c));
                }
            }
        }
        i = i + 1;
    }
    proof {
        assert(content@.take(n as int) =~= content@);
    }
    if in_word {
        let ghost cur = content@.subrange(start as int, n as int);
        add_word_tag(content, start, n, &mut out);
        proof {
            assert forall|x: Seq<char>| #[trigger] string_views(out@).contains(x)
                <==> word_tags(ws.push(cur)).contains(x) by {
                assert(ws.push(cur).drop_last() =~= ws);
                match tag_of(cur) {
                    Some(t) => lemma_seq_push_contains(word_tags(ws), t, x),
                    None => {},
                }
            }
        }
    }
    out
}

/// The character a file name keeps for `c`: letters, digits, `-` and `_`
/// stay, anything else becomes `-`.
pub open spec fn safe_char(c: char) -> char {
    if is_alnum(c) || c == '-' || c == '_' { c } else { '-' }
}

/// A title made safe for a file name: each character made safe, at most
/// [`FILENAME_CHARS`] of them.
pub open spec fn sanitized(name: Seq<char>) -> Seq<char> {
    let n = if name.len() <= FILENAME_CHARS { name.len() as int } else { FILENAME_CHARS as int };
    Seq::new(n as nat, |i: int| safe_char(name[i]))
}

/// Makes a title safe to use in a file name.
pub fn sanitize_filename(name: &str) -> (r: String)
    ensures
        r@ == sanitized(name@),
{
    let len = name.unicode_len();
    let n = if len <= FILENAME_CHARS { len } else { FILENAME_CHARS };
    let mut out = String::new();
    proof {
        reveal_strlit("-");
    }
    let mut i: usize = 0;
    while i < n
        invariant
            n <= name@.len(),
            n == sanitized(name@).len(),
            i <= n,
            out@ == sanitized(name@).take(i as int),
        decreases n - i,
    {
        let c = name.get_char(i);
        let ghost before = out@;
        if char_is_alphanumeric(c) || c == '-' || c == '_' {
            out.append(name.substring_char(i, i + 1));
            proof {
                assert(name@.subrange(i as int, i as int + 1) =~= seq![c]);
            }
        } else {
            out.append("-");
            proof {
                reveal_strlit("-");
                assert("-"@ =~= seq!['-']);
            }
        }
        proof {
            assert(out@ =~= before.push(safe_char(c)));
            assert(sanitized(name@).take(i as int + 1) =~= sanitized(name@).take(i as int).push(safe_char(c)));
            assert(out@ =~= sanitized(name@).take(i as int + 1));
        }
        i = i + 1;
    }
    proof {
        assert(out@ =~= sanitized(name@));
    }
    out
}

/// The name of the file a note is stored in: its id without `note:`, a `-`,
/// its sanitised title, and `.md`.
pub open spec fn note_file_name_of(id: Seq<char>, title: Seq<char>) -> Seq<char> {
    replaced(id, "note:"@, Seq::empty()) + "-"@ + sanitized(title) + ".md"@
}

/// The text of a note's file: the title as a heading, a blank line, the content.
pub open spec fn note_file_text_of(title: Seq<char>, content: Seq<char>) -> Seq<char> {
    "# "@ + title + "\n\n"@ + content
}

/// The name of the file a note is stored in.
pub fn note_file_name(id: &str, title: &str) -> (r: String)
    ensures
        r@ == note_file_name_of(id@, title@),
{
    proof {
        reveal_strlit("note:");
        reveal_strlit("");
    }
    let mut name = replace_text(id, "note:", "");
    name.append("-");
    let safe = sanitize_filename(title);
    name.append(safe.as_str());
    name.append(".md");
    proof {
        assert(""@ =~= Seq::<char>::empty());
    }
    name
}

/// The text of a note's file.
pub fn note_file_text(title: &str, content: &str) -> (r: String)
    ensures
        r@ == note_file_text_of(title@, content@),
{
    let mut text = String::from_str("# ");
    text.append(title);
    text.append("\n\n");
    text.append(content);
    text
}

} // verus!
