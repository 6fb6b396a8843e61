use unicode_segmentation::UnicodeSegmentation;
use vstd::prelude::*;
use vstd::seq_lib::lemma_flatten_concat;
use vstd::string::*;

use crate::position::SearchDirection;

verus! {

broadcast use Seq::lemma_flatten_push;

/// The extended grapheme clusters of a text, in order.
pub uninterp spec fn grapheme_clusters(text: Seq<char>) -> Seq<Seq<char>>;

/// The contents of a list of strings.
pub open spec fn views(v: Seq<String>) -> Seq<Seq<char>> {
    v.map_values(|s: String| s@)
}

/// Relies on `UnicodeSegmentation::graphemes` (extended clusters), which hands
/// out consecutive, non-empty slices of the text that together cover it.
#[verifier::external_body]
fn graphemes(text: &str) -> (r: Vec<String>)
    ensures
        views(r@) == grapheme_clusters(text@),
        views(r@).flatten() == text@,
        forall|i: int| 0 <= i < r@.len() ==> (#[trigger] r@[i])@.len() > 0,
{
    text.graphemes(true).map(String::from).collect()
}

/// Relies on `String::push`: the character is added at the end.
#[verifier::external_body]
pub(crate) fn push_char(s: &mut String, c: char)
    ensures
        final(s)@ == old(s)@.push(c),
{
    s.push(c)
}

/// The grapheme clusters of a text are non-empty and, in order, make it up.
pub open spec fn clusters_cover(text: Seq<char>) -> bool {
    &&& grapheme_clusters(text).flatten() == text
    &&& forall|i: int|
        0 <= i < grapheme_clusters(text).len() ==> (#[trigger] grapheme_clusters(text)[i]).len()
            > 0
}

/// The number of grapheme clusters of a text.
pub open spec fn cluster_count(text: Seq<char>) -> nat {
    grapheme_clusters(text).len()
}

/// The first `k` grapheme clusters of a text, as characters.
pub open spec fn head(text: Seq<char>, k: int) -> Seq<char> {
    grapheme_clusters(text).take(k).flatten()
}

/// The grapheme clusters of a text from index `k` on, as characters.
pub open spec fn tail(text: Seq<char>, k: int) -> Seq<char> {
    grapheme_clusters(text).skip(k).flatten()
}

/// `at`, or `n` where `at` lies beyond it.
pub open spec fn clamp(at: int, n: int) -> int {
    if at < n {
        at
    } else {
        n
    }
}

/// The strings `parts[lo..hi]`, one after another.
fn join(parts: &Vec<String>, lo: usize, hi: usize) -> (r: String)
    requires
        lo <= hi <= parts@.len(),
    ensures
        r@ == views(parts@).subrange(lo as int, hi as int).flatten(),
{
    let mut r = String::new();
    let mut i = lo;
    while i < hi
        invariant
            lo <= i <= hi <= parts@.len(),
            r@ == views(parts@).subrange(lo as int, i as int).flatten(),
        decreases hi - i,
    {
        proof {
            assert(views(parts@).subrange(lo as int, i + 1) == views(parts@).subrange(
                lo as int,
                i as int,
            ).push(parts@[i as int]@));
        }
        r.append(parts[i].as_str());
        i += 1;
    }
    r
}

/// Whether `q` is exactly the clusters `gs[i..j]` for some `j` up to `end`:
/// a match starts and ends on cluster boundaries, within the clusters before
/// `end`.
pub open spec fn occurs_at(gs: Seq<Seq<char>>, q: Seq<char>, i: int, end: int) -> bool {
    exists|j: int| i <= j <= end && #[trigger] gs.subrange(i, j).flatten() == q
}

/// The first cluster index in `[i, end)` at which `q` occurs.
pub open spec fn first_match(gs: Seq<Seq<char>>, q: Seq<char>, i: int, end: int) -> Option<int>
    decreases end - i,
{
    if i >= end {
        None
    } else if occurs_at(gs, q, i, end) {
        Some(i)
    } else {
        first_match(gs, q, i + 1, end)
    }
}

/// The last cluster index in `[0, i)` at which `q` occurs.
pub open spec fn last_match(gs: Seq<Seq<char>>, q: Seq<char>, i: int, end: int) -> Option<int>
    decreases i,
{
    if i <= 0 {
        None
    } else if occurs_at(gs, q, i - 1, end) {
        Some(i - 1)
    } else {
        last_match(gs, q, i - 1, end)
    }
}

/// Where a search for `q` in a line with text `text` from cluster `from`
/// stops: the first match in `[from, count)` going forward, the last match in
/// `[0, from)` going backward, matches never running past the window.
pub open spec fn find_in(text: Seq<char>, q: Seq<char>, from: int, direction: SearchDirection) -> Option<int> {
    find_clusters(grapheme_clusters(text), q, from, direction)
}

/// Where a search for `q` from index `from` stops in the clusters `gs`.
pub open spec fn find_clusters(gs: Seq<Seq<char>>, q: Seq<char>, from: int, direction: SearchDirection) -> Option<int> {
    if from > gs.len() {
        None
    } else if direction == SearchDirection::Forward {
        first_match(gs, q, from, gs.len() as int)
    } else {
        last_match(gs, q, from, from)
    }
}

/// How a visible grapheme cluster is shown: a tab as one space.
pub open spec fn shown_as(g: Seq<char>) -> Seq<char> {
    if g == seq!['\t'] {
        seq![' ']
    } else {
        g
    }
}

/// The display of the styled clusters `gs[i..]`, where `in_escape` tells
/// whether an escape sequence (from an escape character to the next `m`) is
/// open, `skipped` visible clusters of the `start` to skip have been skipped,
/// and `shown` of the `width` to show have been shown. Escape sequences take no
/// room and are copied as met; the scan stops at the first visible cluster
/// past the window.
pub open spec fn render_from(
    gs: Seq<Seq<char>>,
    i: int,
    in_escape: bool,
    skipped: int,
    shown: int,
    start: int,
    width: int,
) -> Seq<char>
    decreases gs.len() - i,
{
    if i < 0 || i >= gs.len() {
        Seq::empty()
    } else {
        let g = gs[i];
        let escape = in_escape || g == seq!['\x1b'];
        if escape && g == seq!['m'] {
            g + render_from(gs, i + 1, false, skipped, shown, start, width)
        } else if escape {
            g + render_from(gs, i + 1, true, skipped, shown, start, width)
        } else if skipped < start {
            render_from(gs, i + 1, false, skipped + 1, shown, start, width)
        } else if shown < width {
            shown_as(g) + render_from(gs, i + 1, false, skipped, shown + 1, start, width)
        } else {
            Seq::empty()
        }
    }
}

/// The display of the visible clusters `[start, end)` of a line whose text has
/// `len` clusters and whose styled rendering is `styled`, the window clamped to
/// `[0, len]`.
pub open spec fn rendered(styled: Seq<char>, len: int, start: int, end: int) -> Seq<char> {
    render_window(grapheme_clusters(styled), len, start, end)
}

/// The display of the visible clusters `[start, end)` of the styled clusters
/// `gs` of a line with `len` clusters, the window clamped to `[0, len]`.
pub open spec fn render_window(gs: Seq<Seq<char>>, len: int, start: int, end: int) -> Seq<char> {
    let e = clamp(end, len);
    let s = clamp(start, e);
    render_from(gs, 0, false, 0, 0, s, e - s)
}

/// Whether `g` is the single character `c`.
fn is_single(g: &str, c: char) -> (r: bool)
    ensures
        r == (g@ == seq![c]),
{
    if g.unicode_len() == 1 {
        let d = g.get_char(0);
        if d == c {
            assert(g@ == seq![c]);
            true
        } else {
            false
        }
    } else {
        false
    }
}

/// An optional index as a mathematical integer.
pub open spec fn as_int(o: Option<usize>) -> Option<int> {
    match o {
        Some(i) => Some(i as int),
        None => None,
    }
}

/// The characters of `s`.
pub(crate) fn chars_of(s: &str) -> (r: Vec<char>)
    ensures
        r@ == s@,
{
    let n = s.unicode_len();
    let mut r: Vec<char> = Vec::new();
    let mut j: usize = 0;
    while j < n
        invariant
            n == s@.len(),
            j <= n,
            r@ == s@.take(j as int),
        decreases n - j,
    {
        r.push(s.get_char(j));
        j += 1;
    }
    r
}

/// The characters of the clusters `parts[start..end]`, with the offset of each
/// cluster's start in them (and their length last).
fn window(parts: &Vec<String>, start: usize, end: usize) -> (r: (Vec<char>, Vec<usize>))
    requires
        start <= end <= parts@.len(),
    ensures
        r.0@ == views(parts@).subrange(start as int, end as int).flatten(),
        r.1@.len() == end - start + 1,
        forall|k: int|
            0 <= k <= end - start ==> (#[trigger] r.1@[k]) as int == views(parts@).subrange(
                start as int,
                start + k,
            ).flatten().len(),
{
    let mut w: Vec<char> = Vec::new();
    let mut offsets: Vec<usize> = Vec::new();
    offsets.push(0);
    let mut i = start;
    while i < end
        invariant
            start <= i <= end <= parts@.len(),
            w@ == views(parts@).subrange(start as int, i as int).flatten(),
            offsets@.len() == i - start + 1,
            forall|k: int|
                0 <= k <= i - start ==> (#[trigger] offsets@[k]) as int == views(parts@).subrange(
                    start as int,
                    start + k,
                ).flatten().len(),
        decreases end - i,
    {
        let piece = parts[i].as_str();
        let n = piece.unicode_len();
        let ghost before = w@;
        let mut j: usize = 0;
        while j < n
            invariant
                n == piece@.len(),
                j <= n,
                w@ == before + piece@.take(j as int),
            decreases n - j,
        {
            w.push(piece.get_char(j));
            j += 1;
        }
        proof {
            assert(piece@.take(n as int) == piece@);
            assert(views(parts@).subrange(start as int, i + 1) == views(parts@).subrange(
                start as int,
                i as int,
            ).push(parts@[i as int]@));
        }
        offsets.push(w.len());
        i += 1;
    }
    (w, offsets)
}

/// Whether `q` is a prefix of `w[from..]`.
fn prefix_at(q: &Vec<char>, w: &Vec<char>, from: usize) -> (r: bool)
    requires
        from <= w@.len(),
    ensures
        r == q@.is_prefix_of(w@.skip(from as int)),
{
    let wl = w.len();
    if q.len() > wl - from {
        return false;
    }
    let mut j: usize = 0;
    while j < q.len()
        invariant
            wl == w@.len(),
            from <= w@.len(),
            q@.len() <= w@.len() - from,
            j <= q@.len(),
            forall|t: int| 0 <= t < j ==> q@[t] == w@[from + t],
        decreases q@.len() - j,
    {
        if q[j] != w[from + j] {
            assert(q@[j as int] != w@.skip(from as int).subrange(0, q@.len() as int)[j as int]);
            return false;
        }
        j += 1;
    }
    assert(q@ =~= w@.skip(from as int).subrange(0, q@.len() as int));
    true
}

/// Whether `target` is one of `offsets[k..]`.
fn is_offset_from(offsets: &Vec<usize>, k: usize, target: usize) -> (r: bool)
    ensures
        r == exists|m: int| k <= m < offsets@.len() && #[trigger] offsets@[m] == target,
{
    let mut m = k;
    while m < offsets.len()
        invariant
            k <= m,
            forall|t: int| k <= t < m ==> offsets@[t] != target,
        decreases offsets@.len() - m,
    {
        if offsets[m] == target {
            return true;
        }
        m += 1;
    }
    false
}

/// Whether `q` is exactly the window's characters from the `k`-th offset to
/// a later one.
fn matches_at(q: &Vec<char>, w: &Vec<char>, offsets: &Vec<usize>, k: usize) -> (r: bool)
    requires
        k < offsets@.len(),
        offsets@[k as int] <= w@.len(),
    ensures
        r == (q@.is_prefix_of(w@.skip(offsets@[k as int] as int)) && exists|m: int|
            k <= m < offsets@.len() && #[trigger] offsets@[m] == offsets@[k as int] + q@.len()),
{
    let from = offsets[k];
    let wl = w.len();
    if prefix_at(q, w, from) {
        assert(q@.len() <= wl - from);
        is_offset_from(offsets, k, from + q.len())
    } else {
        false
    }
}

/// The characters of the clusters `gs[i..j]` are the window's characters
/// between the offsets of `i` and `j`.
proof fn lemma_window_piece(gs: Seq<Seq<char>>, start: int, i: int, j: int, end: int)
    requires
        0 <= start <= i <= j <= end <= gs.len(),
    ensures
        gs.subrange(start, i).flatten().len() <= gs.subrange(start, j).flatten().len()
            <= gs.subrange(start, end).flatten().len(),
        gs.subrange(i, j).flatten() == gs.subrange(start, end).flatten().subrange(
            gs.subrange(start, i).flatten().len() as int,
            gs.subrange(start, j).flatten().len() as int,
        ),
{
    let a = gs.subrange(start, i);
    let b = gs.subrange(i, j);
    let c = gs.subrange(j, end);
    assert(a + b == gs.subrange(start, j));
    assert(a + b + c == gs.subrange(start, end));
    lemma_flatten_concat(a, b);
    lemma_flatten_concat(a + b, c);
    let fa = a.flatten();
    let fb = b.flatten();
    assert((fa + fb + c.flatten()).subrange(fa.len() as int, (fa.len() + fb.len()) as int) == fb);
}

/// A match at cluster `i` of a window is a match of `q` at the `i`-th offset
/// that ends on a later offset.
proof fn lemma_occurs_in_window(
    gs: Seq<Seq<char>>,
    q: Seq<char>,
    start: int,
    i: int,
    end: int,
    w: Seq<char>,
    offsets: Seq<usize>,
)
    requires
        0 <= start <= i <= end <= gs.len(),
        w == gs.subrange(start, end).flatten(),
        offsets.len() == end - start + 1,
        forall|k: int|
            0 <= k <= end - start ==> (#[trigger] offsets[k]) as int == gs.subrange(
                start,
                start + k,
            ).flatten().len(),
    ensures
        offsets[i - start] <= w.len(),
        occurs_at(gs, q, i, end) == (q.is_prefix_of(w.skip(offsets[i - start] as int))
            && exists|m: int|
            i - start <= m < offsets.len() && #[trigger] offsets[m] == offsets[i - start] + q.len()),
{
    let k = i - start;
    lemma_window_piece(gs, start, i, i, end);
    let oi = offsets[k] as int;
    assert(gs.subrange(start, start + k) == gs.subrange(start, i));
    if occurs_at(gs, q, i, end) {
        let j = choose|j: int| i <= j <= end && #[trigger] gs.subrange(i, j).flatten() == q;
        lemma_window_piece(gs, start, i, j, end);
        let m = j - start;
        assert(gs.subrange(start, start + m) == gs.subrange(start, j));
        assert(offsets[m] == offsets[k] + q.len());
        assert(w.skip(oi).subrange(0, q.len() as int) == w.subrange(oi, oi + q.len()));
    }
    if q.is_prefix_of(w.skip(oi)) && exists|m: int|
        k <= m < offsets.len() && #[trigger] offsets[m] == offsets[k] + q.len() {
        let m = choose|m: int| k <= m < offsets.len() && #[trigger] offsets[m] == offsets[k] + q.len();
        let j = start + m;
        lemma_window_piece(gs, start, i, j, end);
        assert(gs.subrange(start, start + m) == gs.subrange(start, j));
        assert(w.skip(oi).subrange(0, q.len() as int) == w.subrange(oi, oi + q.len()));
        assert(gs.subrange(i, j).flatten() == q);
    }
}

/// The display of the visible clusters `[start, end)` of a line with `len`
/// clusters whose styled rendering has the clusters `styled`, the window
/// clamped to `[0, len]`.
pub fn render_clusters(styled: &Vec<String>, len: usize, start: usize, end: usize) -> (r: String)
    ensures
        r@ == render_window(views(styled@), len as int, start as int, end as int),
{
    let hi = if end < len {
        end
    } else {
        len
    };
    let lo = if start < hi {
        start
    } else {
        hi
    };
    let width = hi - lo;
    let g = styled;
    let ghost gs = views(styled@);
    let mut out = String::new();
    let mut in_escape = false;
    let mut skipped: usize = 0;
    let mut shown: usize = 0;
    let mut i: usize = 0;
    while i < g.len()
        invariant
            views(g@) == gs,
            gs == views(styled@),
            render_from(gs, 0, false, 0, 0, lo as int, width as int) == render_window(
                gs,
                len as int,
                start as int,
                end as int,
            ),
            skipped <= lo,
            shown <= width,
            out@ + render_from(gs, i as int, in_escape, skipped as int, shown as int, lo as int, width as int)
                == render_from(gs, 0, false, 0, 0, lo as int, width as int),
        decreases g@.len() - i,
    {
        let piece = g[i].as_str();
        assert(gs[i as int] == piece@);
        let escape = in_escape || is_single(piece, '\x1b');
        if escape && is_single(piece, 'm') {
            out.append(piece);
            in_escape = false;
        } else if escape {
            out.append(piece);
            in_escape = true;
        } else if skipped < lo {
            skipped += 1;
        } else if shown < width {
            if is_single(piece, '\t') {
                push_char(&mut out, ' ');
            } else {
                out.append(piece);
            }
            shown += 1;
        } else {
            assert(out@ + Seq::<char>::empty() == out@);
            return out;
        }
        i += 1;
    }
    assert(out@ + Seq::<char>::empty() == out@);
    out
}


/// Searches the clusters `clusters` for `query` from index `at`: forward,
/// the first match in `[at, len)`; backward, the last match in `[0, at)`,
/// a match being a run of whole clusters inside the window.
pub fn find_in_clusters(clusters: &Vec<String>, query: &str, at: usize, direction: SearchDirection) -> (r: Option<usize>)
    ensures
        as_int(r) == find_clusters(views(clusters@), query@, at as int, direction),
{
    let g = clusters;
    if at > g.len() {
        return None;
    }
    let ghost gs = views(clusters@);
    let q = chars_of(query);
    let forward = direction == SearchDirection::Forward;
    let start: usize = if forward {
        at
    } else {
        0
    };
    let end: usize = if forward {
        g.len()
    } else {
        at
    };
    let (w, offsets) = window(&g, start, end);
    if forward {
        let mut i = start;
        while i < end
            invariant
                start <= i <= end == gs.len(),
                views(g@) == gs,
                gs == views(clusters@),
                q@ == query@,
                direction == SearchDirection::Forward,
                start == at,
                w@ == views(g@).subrange(start as int, end as int).flatten(),
                offsets@.len() == end - start + 1,
                forall|k: int|
                    0 <= k <= end - start ==> (#[trigger] offsets@[k]) as int == views(
                        g@,
                    ).subrange(start as int, start + k).flatten().len(),
                first_match(gs, q@, start as int, end as int) == first_match(
                    gs,
                    q@,
                    i as int,
                    end as int,
                ),
            decreases end - i,
        {
            proof {
                lemma_occurs_in_window(gs, q@, start as int, i as int, end as int, w@, offsets@);
            }
            if matches_at(&q, &w, &offsets, i - start) {
                return Some(i);
            }
            i += 1;
        }
        None
    } else {
        let mut i = end;
        while i > 0
            invariant
                start == 0,
                i <= end <= gs.len(),
                views(g@) == gs,
                gs == views(clusters@),
                q@ == query@,
                direction != SearchDirection::Forward,
                end == at,
                w@ == views(g@).subrange(start as int, end as int).flatten(),
                offsets@.len() == end - start + 1,
                forall|k: int|
                    0 <= k <= end - start ==> (#[trigger] offsets@[k]) as int == views(
                        g@,
                    ).subrange(start as int, start + k).flatten().len(),
                last_match(gs, q@, end as int, end as int) == last_match(
                    gs,
                    q@,
                    i as int,
                    end as int,
                ),
            decreases i,
        {
            proof {
                lemma_occurs_in_window(gs, q@, 0, i - 1, end as int, w@, offsets@);
            }
            if matches_at(&q, &w, &offsets, i - 1) {
                return Some(i - 1);
            }
            i -= 1;
        }
        None
    }
}


/// The text of the clusters `clusters` with `c` inserted before the one at
/// index `at`, or at the end where `at` is not below their count.
pub fn insert_into_clusters(clusters: &Vec<String>, at: usize, c: char) -> (r: String)
    ensures
        ({
            let gs = views(clusters@);
            let k = clamp(at as int, gs.len() as int);
            r@ == gs.take(k).flatten() + seq![c] + gs.skip(k).flatten()
        }),
{
    let k: usize = if at < clusters.len() {
        at
    } else {
        clusters.len()
    };
    let mut result = join(clusters, 0, k);
    push_char(&mut result, c);
    let rest = join(clusters, k, clusters.len());
    result.append(rest.as_str());
    result
}

/// The text of the clusters `clusters` without the one at index `at`.
pub fn remove_from_clusters(clusters: &Vec<String>, at: usize) -> (r: String)
    requires
        at < clusters@.len(),
    ensures
        r@ == views(clusters@).take(at as int).flatten() + views(clusters@).skip(at + 1).flatten(),
{
    let n = clusters.len();
    let mut result = join(clusters, 0, at);
    let rest = join(clusters, at + 1, n);
    result.append(rest.as_str());
    result
}

/// One line of text, with its styled rendering and its cached grapheme count.
pub struct Row {
    string: String,
    highlighted: String,
    len: usize,
}

impl Row {
    /// The characters of the line.
    pub closed spec fn text(&self) -> Seq<char> {
        self.string@
    }

    /// The styled rendering of the line.
    pub closed spec fn styled(&self) -> Seq<char> {
        self.highlighted@
    }

    /// The cached grapheme count.
    pub closed spec fn length(&self) -> nat {
        self.len as nat
    }

    /// The cached count is the text's grapheme count, and its clusters are
    /// non-empty and make up the text.
    pub open spec fn wf(&self) -> bool {
        &&& self.length() == cluster_count(self.text())
        &&& clusters_cover(self.text())
    }

    fn build(string: String, highlighted: String) -> (r: Row)
        ensures
            r.wf(),
            r.text() == string@,
            r.styled() == highlighted@,
    {
        let g = graphemes(string.as_str());
        proof {
            assert forall|i: int| 0 <= i < grapheme_clusters(string@).len() implies (
            #[trigger] grapheme_clusters(string@)[i]).len() > 0 by {
                assert(grapheme_clusters(string@)[i] == g@[i]@);
            }
        }
        Row { string, highlighted, len: g.len() }
    }

    fn set_text(&mut self, string: String)
        ensures
            final(self).wf(),
            final(self).text() == string@,
            final(self).styled() == old(self).styled(),
    {
        let g = graphemes(string.as_str());
        proof {
            assert forall|i: int| 0 <= i < grapheme_clusters(string@).len() implies (
            #[trigger] grapheme_clusters(string@)[i]).len() > 0 by {
                assert(grapheme_clusters(string@)[i] == g@[i]@);
            }
        }
        self.string = string;
        self.len = g.len();
    }

    /// An empty line.
    pub fn default() -> (r: Row)
        ensures
            r.wf(),
            r.text() == Seq::<char>::empty(),
            r.styled() == Seq::<char>::empty(),
            r.length() == 0,
    {
        let r = Row::build(String::new(), String::new());
        proof {
            lemma_no_clusters_in_empty(r.text());
        }
        r
    }

    /// A line holding `st`, rendered as `highlighted`.
    pub fn from(st: &str, highlighted: &str) -> (r: Row)
        ensures
            r.wf(),
            r.text() == st@,
            r.styled() == highlighted@,
    {
        Row::build(String::from_str(st), String::from_str(highlighted))
    }

    /// The number of grapheme clusters.
    pub fn len(&self) -> (r: usize)
        ensures
            r == self.length(),
    {
        self.len
    }

    /// Whether the line has no grapheme cluster.
    pub fn is_empty(&self) -> (r: bool)
        ensures
            r == (self.length() == 0),
    {
        self.len == 0
    }

    /// The text of the line.
    pub fn get_string(&self) -> (r: &str)
        ensures
            r@ == self.text(),
    {
        self.string.as_str()
    }

    /// The styled rendering of the line.
    pub fn get_highlighted(&self) -> (r: &str)
        ensures
            r@ == self.styled(),
    {
        self.highlighted.as_str()
    }

    /// Inserts `c` before the grapheme cluster at index `at`, or at the end
    /// where `at` is not below the count.
    pub fn insert(&mut self, at: usize, c: char)
        requires
            old(self).wf(),
        ensures
            final(self).wf(),
            final(self).text() == head(old(self).text(), clamp(at as int, old(self).length() as int))
                + seq![c] + tail(old(self).text(), clamp(at as int, old(self).length() as int)),
            final(self).styled() == old(self).styled(),
    {
        let g = graphemes(self.string.as_str());
        let result = insert_into_clusters(&g, at, c);
        self.set_text(result);
    }

    /// Removes the grapheme cluster at index `at`; nothing happens where there
    /// is none.
    pub fn delete(&mut self, at: usize)
        requires
            old(self).wf(),
        ensures
            final(self).wf(),
            at < old(self).length() ==> final(self).text() == head(old(self).text(), at as int)
                + tail(old(self).text(), at + 1),
            at >= old(self).length() ==> final(self).text() == old(self).text(),
            final(self).styled() == old(self).styled(),
    {
        if at >= self.len {
            return ;
        }
        let g = graphemes(self.string.as_str());
        let result = remove_from_clusters(&g, at);
        self.set_text(result);
    }

    /// Adds the text of `next_row` at the end.
    pub fn append(&mut self, next_row: &Row)
        requires
            old(self).wf(),
        ensures
            final(self).wf(),
            final(self).text() == old(self).text() + next_row.text(),
            final(self).styled() == old(self).styled(),
    {
        let mut result = self.string.clone();
        result.append(next_row.string.as_str());
        self.set_text(result);
    }

    /// Keeps the first `at` grapheme clusters and returns a line with the
    /// rest, which carries this line's styled rendering.
    pub fn split(&mut self, at: usize) -> (r: Row)
        requires
            old(self).wf(),
        ensures
            final(self).wf(),
            r.wf(),
            final(self).text() == head(old(self).text(), clamp(at as int, old(self).length() as int)),
            r.text() == tail(old(self).text(), clamp(at as int, old(self).length() as int)),
            final(self).styled() == old(self).styled(),
            r.styled() == old(self).styled(),
    {
        let g = graphemes(self.string.as_str());
        let k: usize = if at < g.len() {
            at
        } else {
            g.len()
        };
        let kept = join(&g, 0, k);
        let rest = join(&g, k, g.len());
        self.set_text(kept);
        Row::build(rest, self.highlighted.clone())
    }

    /// The styled rendering of the visible clusters `[start, end)`, clamped to
    /// the line: escape sequences are copied where met and take no room, and
    /// a tab shows as a space.
    pub fn render(&self, start: usize, end: usize) -> (r: String)
        requires
            self.wf(),
        ensures
            r@ == rendered(self.styled(), self.length() as int, start as int, end as int),
    {
        let g = graphemes(self.highlighted.as_str());
        render_clusters(&g, self.len, start, end)
    }

    /// Replaces the styled rendering.
    pub(crate) fn restyle(&mut self, highlighted: String)
        ensures
            final(self).text() == old(self).text(),
            final(self).length() == old(self).length(),
            final(self).styled() == highlighted@,
    {
        self.highlighted = highlighted;
    }

    /// Searches for `query` from cluster `at`: forward, the first match in
    /// `[at, len)`; backward, the last match in `[0, at)`. A match is a run of
    /// whole clusters lying inside the window. Gives the cluster index of the
    /// match start.
    pub fn find(&self, query: &str, at: usize, direction: SearchDirection) -> (r: Option<usize>)
        requires
            self.wf(),
        ensures
            as_int(r) == find_in(self.text(), query@, at as int, direction),
    {
        let g = graphemes(self.string.as_str());
        find_in_clusters(&g, query, at, direction)
    }

    /// The UTF-8 encoding of the text.
    pub fn as_bytes(&self) -> (r: &[u8])
        ensures
            r@ == vstd::utf8::encode_utf8(self.text()),
    {
        self.string.as_str().as_bytes()
    }
}

/// Splitting a line at a cluster index and appending the split-off part to
/// what was kept restores its text and grapheme count.
pub proof fn lemma_split_then_append(whole: Row, kept: Row, rest: Row, joined: Row, at: int)
    requires
        whole.wf(),
        0 <= at <= whole.length(),
        kept.text() == head(whole.text(), at),
        rest.text() == tail(whole.text(), at),
        joined.wf(),
        joined.text() == kept.text() + rest.text(),
    ensures
        joined.text() == whole.text(),
        joined.length() == whole.length(),
{
    let gs = grapheme_clusters(whole.text());
    assert(gs.take(at) + gs.skip(at) == gs);
    lemma_flatten_concat(gs.take(at), gs.skip(at));
}

/// A sequence of non-empty pieces has no more pieces than its concatenation
/// has elements.
proof fn lemma_pieces_le_flat_len(gs: Seq<Seq<char>>)
    requires
        forall|i: int| 0 <= i < gs.len() ==> (#[trigger] gs[i]).len() > 0,
    ensures
        gs.len() <= gs.flatten().len(),
    decreases gs.len(),
{
    if gs.len() > 0 {
        let rest = gs.drop_first();
        assert forall|i: int| 0 <= i < rest.len() implies (#[trigger] rest[i]).len() > 0 by {
            assert(rest[i] == gs[i + 1]);
        }
        lemma_pieces_le_flat_len(rest);
        assert(gs[0].len() > 0);
    }
}

/// A text without characters has no grapheme cluster.
proof fn lemma_no_clusters_in_empty(text: Seq<char>)
    requires
        text.len() == 0,
        clusters_cover(text),
    ensures
        cluster_count(text) == 0,
{
    lemma_pieces_le_flat_len(grapheme_clusters(text));
}

} // verus!
