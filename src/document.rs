use vstd::prelude::*;
use vstd::string::*;

use crate::position::{Position, SearchDirection};
use crate::row::{
    chars_of, clamp, cluster_count, find_in, head, push_char, tail, Row,
};

verus! {

broadcast use Seq::lemma_flatten_push;

/// The text of a list of lines, each followed by a line break.
pub open spec fn terminated(lines: Seq<Seq<char>>) -> Seq<char> {
    lines.map_values(|l: Seq<char>| l.push('\n')).flatten()
}

/// A text that ends in a line break, as it is where it already does or is empty.
pub open spec fn normalized(text: Seq<char>) -> Seq<char> {
    if text.len() == 0 || text.last() == '\n' {
        text
    } else {
        text.push('\n')
    }
}

/// Whether `lines` are the lines of `text`: none holds a line break, and each
/// followed by one they give the text (with a line break added at its end
/// where it has none).
pub open spec fn lines_of(text: Seq<char>, lines: Seq<Seq<char>>) -> bool {
    &&& terminated(lines) == normalized(text)
    &&& forall|i: int| 0 <= i < lines.len() ==> !(#[trigger] lines[i]).contains('\n')
}

/// Where a forward search from line `y`, cluster `x`, stops: the line's own
/// search from `x`, then each later line from its start.
pub open spec fn scan_forward(lines: Seq<Seq<char>>, q: Seq<char>, y: int, x: int) -> Option<
    (int, int),
>
    decreases lines.len() - y,
{
    if y < 0 || y >= lines.len() {
        None
    } else {
        match find_in(lines[y], q, x, SearchDirection::Forward) {
            Some(c) => Some((y, c)),
            None => scan_forward(lines, q, y + 1, 0),
        }
    }
}

/// Where a backward search from line `y`, cluster `x`, stops: the line's own
/// search before `x`, then each earlier line from its end.
pub open spec fn scan_backward(lines: Seq<Seq<char>>, q: Seq<char>, y: int, x: int) -> Option<
    (int, int),
>
    decreases y,
{
    if y < 0 || y >= lines.len() {
        None
    } else {
        match find_in(lines[y], q, x, SearchDirection::Backward) {
            Some(c) => Some((y, c)),
            None => if y == 0 {
                None
            } else {
                scan_backward(lines, q, y - 1, cluster_count(lines[y - 1]) as int)
            },
        }
    }
}

/// Where a search for `q` from `(x, y)` stops, as `(line, cluster)`.
pub open spec fn search(
    lines: Seq<Seq<char>>,
    q: Seq<char>,
    y: int,
    x: int,
    direction: SearchDirection,
) -> Option<(int, int)> {
    if direction == SearchDirection::Forward {
        scan_forward(lines, q, y, x)
    } else {
        scan_backward(lines, q, y, x)
    }
}

/// A line's text after inserting `c` at cluster `x` (at the end where `x` is
/// beyond it).
pub open spec fn inserted(line: Seq<char>, x: int, c: char) -> Seq<char> {
    let k = clamp(x, cluster_count(line) as int);
    head(line, k) + seq![c] + tail(line, k)
}

/// A line broken at cluster `x` (at the end where `x` is beyond it).
pub open spec fn broken(line: Seq<char>, x: int) -> Seq<Seq<char>> {
    let k = clamp(x, cluster_count(line) as int);
    seq![head(line, k), tail(line, k)]
}

/// The lines after a deletion at `(x, y)`: at the end of a line with a
/// successor the two are joined, else the cluster at `x` goes (if any).
pub open spec fn deleted(lines: Seq<Seq<char>>, y: int, x: int) -> Seq<Seq<char>> {
    let line = lines[y];
    if x == cluster_count(line) && y + 1 < lines.len() {
        lines.take(y) + seq![line + lines[y + 1]] + lines.skip(y + 2)
    } else if x < cluster_count(line) {
        lines.update(y, head(line, x) + tail(line, x + 1))
    } else {
        lines
    }
}

/// An optional position as `(line, cluster)`.
pub open spec fn as_pair(p: Option<Position>) -> Option<(int, int)> {
    match p {
        Some(p) => Some((p.y as int, p.x as int)),
        None => None,
    }
}

/// The styled renderings handed in do not match the lines one for one.
#[derive(PartialEq, Eq, Structural, Copy, Clone, Debug)]
pub struct IntegrationError {
    pub lines: usize,
    pub styled: usize,
}

/// A document: its lines in order, the file it belongs to, and whether it
/// differs from what was last loaded or saved.
pub struct Document {
    rows: Vec<Row>,
    file_name: Option<String>,
    dirty: bool,
}

impl Document {
    /// The lines.
    pub closed spec fn rows(&self) -> Seq<Row> {
        self.rows@
    }

    /// The texts of the lines.
    pub open spec fn lines(&self) -> Seq<Seq<char>> {
        self.rows().map_values(|r: Row| r.text())
    }

    /// Whether there are unsaved changes.
    pub closed spec fn dirty(&self) -> bool {
        self.dirty
    }

    /// The file name, if any.
    pub closed spec fn name(&self) -> Option<Seq<char>> {
        match self.file_name {
            Some(s) => Some(s@),
            None => None,
        }
    }

    /// Every line keeps its grapheme count.
    pub open spec fn wf(&self) -> bool {
        forall|i: int| 0 <= i < self.rows().len() ==> (#[trigger] self.rows()[i]).wf()
    }

    /// An empty, untitled document.
    pub fn default() -> (r: Document)
        ensures
            r.wf(),
            r.lines().len() == 0,
            !r.dirty(),
            r.name() is None,
    {
        Document { rows: Vec::new(), file_name: None, dirty: false }
    }

    /// The document read from the file `file_name` whose text is `contents`:
    /// one line per line break, with no line after a final line break.
    pub fn from_contents(file_name: &str, contents: &str) -> (r: Document)
        ensures
            r.wf(),
            lines_of(contents@, r.lines()),
            !r.dirty(),
            r.name() == Some(file_name@),
    {
        let chars = chars_of(contents);
        let mut rows: Vec<Row> = Vec::new();
        let mut cur = String::new();
        let mut i: usize = 0;
        while i < chars.len()
            invariant
                i <= chars@.len(),
                terminated(rows@.map_values(|r: Row| r.text())) + cur@ == chars@.take(i as int),
                !cur@.contains('\n'),
                forall|j: int|
                    0 <= j < rows@.len() ==> (#[trigger] rows@[j]).wf() && !rows@[j].text().contains(
                        '\n',
                    ),
            decreases chars@.len() - i,
        {
            let c = chars[i];
            let ghost before = rows@.map_values(|r: Row| r.text());
            if c == '\n' {
                rows.push(Row::from(cur.as_str(), ""));
                proof {
                    lemma_terminated_push(before, cur@);
                    assert(rows@.map_values(|r: Row| r.text()) == before.push(cur@));
                }
                cur = String::new();
            } else {
                push_char(&mut cur, c);
                proof {
                    assert forall|k: int| 0 <= k < cur@.len() implies cur@[k] != '\n' by {
                        if k < cur@.len() - 1 {
                            assert(cur@[k] == cur@.drop_last()[k]);
                        }
                    }
                }
            }
            assert(chars@.take(i + 1) == chars@.take(i as int).push(c));
            i += 1;
        }
        let ghost lines = rows@.map_values(|r: Row| r.text());
        assert(chars@.take(i as int) == chars@);
        if cur.as_str().unicode_len() > 0 {
            rows.push(Row::from(cur.as_str(), ""));
            proof {
                lemma_terminated_push(lines, cur@);
                assert(rows@.map_values(|r: Row| r.text()) == lines.push(cur@));
                assert(chars@.last() == cur@.last());
            }
        } else {
            proof {
                if lines.len() > 0 {
                    lemma_terminated_push(lines.drop_last(), lines.last());
                    assert(lines.drop_last().push(lines.last()) == lines);
                }
            }
        }
        Document { rows, file_name: Some(String::from_str(file_name)), dirty: false }
    }

    /// The file name, if any.
    pub fn get_file_name(&self) -> (r: Option<String>)
        ensures
            match r {
                Some(s) => self.name() == Some(s@),
                None => self.name() is None,
            },
    {
        match &self.file_name {
            Some(name) => Some(name.clone()),
            None => None,
        }
    }

    /// Names the file that the document belongs to.
    pub fn set_file_name(&mut self, file_name: String)
        ensures
            final(self).name() == Some(file_name@),
            final(self).rows() == old(self).rows(),
            final(self).dirty() == old(self).dirty(),
    {
        self.file_name = Some(file_name);
    }

    /// The line at `index`, if there is one.
    pub fn row(&self, index: usize) -> (r: Option<&Row>)
        ensures
            index < self.rows().len() ==> r == Some(&self.rows()[index as int]),
            index >= self.rows().len() ==> r is None,
    {
        if index < self.rows.len() {
            Some(&self.rows[index])
        } else {
            None
        }
    }

    /// Whether the document has no line.
    pub fn is_empty(&self) -> (r: bool)
        ensures
            r == (self.rows().len() == 0),
    {
        self.rows.len() == 0
    }

    /// The number of lines.
    pub fn len(&self) -> (r: usize)
        ensures
            r == self.rows().len(),
    {
        self.rows.len()
    }

    /// Whether there are unsaved changes.
    pub fn is_dirty(&self) -> (r: bool)
        ensures
            r == self.dirty(),
    {
        self.dirty
    }

    /// Records that the lines were written out: the document is clean.
    pub fn saved(&mut self)
        ensures
            !final(self).dirty(),
            final(self).rows() == old(self).rows(),
            final(self).name() == old(self).name(),
    {
        self.dirty = false;
    }

    /// Inserts `c` at `at`. On the line after the last, a new line holding
    /// just `c` is added; beyond it nothing happens.
    pub fn insert(&mut self, at: &Position, c: char)
        requires
            old(self).wf(),
        ensures
            final(self).wf(),
            at.y > old(self).lines().len() ==> *final(self) == *old(self),
            at.y == old(self).lines().len() ==> final(self).lines() == old(self).lines().push(
                seq![c],
            ),
            at.y < old(self).lines().len() ==> final(self).lines() == old(self).lines().update(
                at.y as int,
                inserted(old(self).lines()[at.y as int], at.x as int, c),
            ),
            at.y <= old(self).lines().len() ==> final(self).dirty(),
            final(self).name() == old(self).name(),
    {
        proof {
            lemma_rows_wf(self);
        }
        if at.y > self.rows.len() {
            return ;
        }
        self.dirty = true;
        let ghost before = self.rows@;
        if at.y == self.rows.len() {
            let mut row = Row::default();
            row.insert(0, c);
            self.rows.push(row);
            proof {
                assert(self.rows@ == before.push(row));
                assert(self.lines() == before.map_values(|r: Row| r.text()).push(row.text()));
                lemma_wf_push(before, row);
            }
        } else {
            assert(self.rows@[at.y as int].wf());
            self.rows[at.y].insert(at.x, c);
            proof {
                assert(self.lines() == before.map_values(|r: Row| r.text()).update(
                    at.y as int,
                    self.rows@[at.y as int].text(),
                ));
                lemma_wf_update(before, at.y as int, self.rows@[at.y as int]);
            }
        }
    }

    /// Breaks the line at `at`, moving what follows the cursor onto a new line
    /// right after it. On the line after the last, an empty line is added;
    /// beyond it nothing happens.
    pub fn insert_newline(&mut self, at: &Position)
        requires
            old(self).wf(),
        ensures
            final(self).wf(),
            at.y > old(self).lines().len() ==> *final(self) == *old(self),
            at.y == old(self).lines().len() ==> final(self).lines() == old(self).lines().push(
                Seq::<char>::empty(),
            ),
            at.y < old(self).lines().len() ==> final(self).lines() == old(self).lines().take(
                at.y as int,
            ) + broken(old(self).lines()[at.y as int], at.x as int) + old(self).lines().skip(
                at.y + 1,
            ),
            at.y <= old(self).lines().len() ==> final(self).dirty(),
            final(self).name() == old(self).name(),
    {
        proof {
            lemma_rows_wf(self);
        }
        if at.y > self.rows.len() {
            return ;
        }
        self.dirty = true;
        let ghost before = self.rows@;
        if at.y == self.rows.len() {
            let row = Row::default();
            self.rows.push(row);
            proof {
                assert(self.rows@ == before.push(row));
                assert(self.lines() == before.map_values(|r: Row| r.text()).push(row.text()));
                lemma_wf_push(before, row);
            }
            return ;
        }
        assert(self.rows@[at.y as int].wf());
        let new_row = self.rows[at.y].split(at.x);
        let ghost mid = self.rows@;
        self.rows.insert(at.y + 1, new_row);
        proof {
            let l = before.map_values(|r: Row| r.text());
            let y = at.y as int;
            assert(self.rows@ == mid.take(y + 1).push(new_row) + mid.skip(y + 1));
            assert(self.lines() == l.take(y) + broken(l[y], at.x as int) + l.skip(y + 1));
            lemma_wf_update(before, y, mid[y]);
            assert(forall|j: int| 0 <= j < mid.len() ==> (#[trigger] mid[j]).wf());
            assert forall|j: int| 0 <= j < self.rows@.len() implies (#[trigger] self.rows@[j]).wf() by {
                if j <= y {
                    assert(self.rows@[j] == mid[j]);
                } else if j > y + 1 {
                    assert(self.rows@[j] == mid[j - 1]);
                }
            }
        }
    }

    /// Deletes at `at`: at the end of a line that has a successor, the two
    /// lines are joined; otherwise the grapheme cluster at the cursor goes
    /// (nothing where there is none). On a line that does not exist nothing
    /// happens.
    pub fn delete(&mut self, at: &Position)
        requires
            old(self).wf(),
        ensures
            final(self).wf(),
            at.y >= old(self).lines().len() ==> *final(self) == *old(self),
            at.y < old(self).lines().len() ==> final(self).lines() == deleted(
                old(self).lines(),
                at.y as int,
                at.x as int,
            ),
            at.y < old(self).lines().len() ==> final(self).dirty(),
            final(self).name() == old(self).name(),
    {
        proof {
            lemma_rows_wf(self);
        }
        let len = self.rows.len();
        if at.y >= len {
            return ;
        }
        self.dirty = true;
        let ghost before = self.rows@;
        let ghost l = before.map_values(|r: Row| r.text());
        let y = at.y;
        assert(self.rows@[y as int].wf());
        if at.x == self.rows[y].len() && y < len - 1 {
            let next_row = self.rows.remove(y + 1);
            let ghost mid = self.rows@;
            self.rows[y].append(&next_row);
            proof {
                assert(mid == before.take(y + 1) + before.skip(y + 2));
                assert(self.rows@ == mid.update(y as int, self.rows@[y as int]));
                assert(self.lines() == l.take(y as int) + seq![l[y as int] + l[y + 1]] + l.skip(
                    y + 2,
                ));
                assert forall|j: int| 0 <= j < mid.len() implies (#[trigger] mid[j]).wf() by {
                    if j <= y {
                        assert(mid[j] == before[j]);
                    } else {
                        assert(mid[j] == before[j + 1]);
                    }
                }
                lemma_wf_update(mid, y as int, self.rows@[y as int]);
            }
        } else {
            self.rows[y].delete(at.x);
            proof {
                assert(self.lines() == l.update(y as int, self.rows@[y as int].text()));
                lemma_wf_update(before, y as int, self.rows@[y as int]);
            }
        }
    }

    /// Takes the highlighter's rendering of each line, in order. A count that
    /// differs from the number of lines is refused, leaving the document as it
    /// was.
    pub fn highlight(&mut self, styled: Vec<String>) -> (r: Result<(), IntegrationError>)
        requires
            old(self).wf(),
        ensures
            final(self).wf(),
            r is Ok <==> styled@.len() == old(self).rows().len(),
            r is Err ==> *final(self) == *old(self),
            final(self).lines() == old(self).lines(),
            final(self).dirty() == old(self).dirty(),
            final(self).name() == old(self).name(),
            r is Ok ==> forall|i: int|
                0 <= i < styled@.len() ==> (#[trigger] final(self).rows()[i]).styled()
                    == styled@[i]@,
    {
        proof {
            lemma_rows_wf(self);
        }
        if styled.len() != self.rows.len() {
            return Err(IntegrationError { lines: self.rows.len(), styled: styled.len() });
        }
        let ghost before = self.rows@;
        let ghost styled_in = styled@;
        let ghost name = self.file_name;
        let ghost dirty = self.dirty;
        let mut styled = styled;
        let n = self.rows.len();
        let mut i: usize = n;
        while i > 0
            invariant
                i <= n == self.rows@.len() == before.len(),
                styled@ == styled_in.take(i as int),
                styled_in.len() == n,
                self.file_name == name,
                self.dirty == dirty,
                forall|j: int| 0 <= j < n ==> (#[trigger] self.rows@[j]).wf(),
                forall|j: int|
                    0 <= j < n ==> (#[trigger] self.rows@[j]).text() == before[j].text(),
                forall|j: int|
                    0 <= j < i ==> (#[trigger] self.rows@[j]).styled() == before[j].styled(),
                forall|j: int|
                    i <= j < n ==> (#[trigger] self.rows@[j]).styled() == styled_in[j]@,
            decreases i,
        {
            proof {
                assert(styled@.last() == styled_in[i - 1]);
            }
            let s = styled.pop().unwrap();
            i -= 1;
            proof {
                assert(styled@ == styled_in.take(i as int));
            }
            self.rows[i].restyle(s);
        }
        proof {
            assert(self.lines() == before.map_values(|r: Row| r.text()));
        }
        Ok(())
    }

    /// Searches for `query` from `at`. Forward: the rest of the cursor's
    /// line, then each later line from its start. Backward: the cursor's line
    /// before the cursor, then each earlier line from its end. Gives the first
    /// match met; none from a line that does not exist.
    pub fn find(&self, query: &str, at: &Position, direction: SearchDirection) -> (r: Option<
        Position,
    >)
        requires
            self.wf(),
        ensures
            as_pair(r) == search(self.lines(), query@, at.y as int, at.x as int, direction),
    {
        let n = self.rows.len();
        if at.y >= n {
            return None;
        }
        let ghost lines = self.lines();
        let mut y = at.y;
        let mut x = at.x;
        if direction == SearchDirection::Forward {
            while y < n
                invariant
                    n == self.rows@.len() == lines.len(),
                    lines == self.lines(),
                    self.wf(),
                    direction == SearchDirection::Forward,
                    at.y <= y,
                    scan_forward(lines, query@, at.y as int, at.x as int) == scan_forward(
                        lines,
                        query@,
                        y as int,
                        x as int,
                    ),
                decreases n - y,
            {
                assert(self.rows@[y as int].wf());
                if let Some(c) = self.rows[y].find(query, x, direction) {
                    return Some(Position { x: c, y });
                }
                y += 1;
                x = 0;
            }
            None
        } else {
            loop
                invariant
                    n == self.rows@.len() == lines.len(),
                    lines == self.lines(),
                    self.wf(),
                    direction == SearchDirection::Backward,
                    y < n,
                    scan_backward(lines, query@, at.y as int, at.x as int) == scan_backward(
                        lines,
                        query@,
                        y as int,
                        x as int,
                    ),
                decreases y,
            {
                assert(self.rows@[y as int].wf());
                if let Some(c) = self.rows[y].find(query, x, direction) {
                    return Some(Position { x: c, y });
                }
                if y == 0 {
                    return None;
                }
                y -= 1;
                assert(self.rows@[y as int].wf());
                x = self.rows[y].len();
            }
        }
    }

    /// The whole text: every line followed by a line break. This is both what
    /// is written to the file and what the highlighter reads.
    pub fn contents(&self) -> (r: String)
        ensures
            r@ == terminated(self.lines()),
    {
        let mut r = String::new();
        let mut i: usize = 0;
        while i < self.rows.len()
            invariant
                i <= self.rows().len(),
                r@ == terminated(self.lines().take(i as int)),
            decreases self.rows().len() - i,
        {
            proof {
                lemma_terminated_push(self.lines().take(i as int), self.lines()[i as int]);
                assert(self.lines().take(i + 1) == self.lines().take(i as int).push(
                    self.lines()[i as int],
                ));
            }
            r.append(self.rows[i].get_string());
            push_char(&mut r, '\n');
            i += 1;
        }
        proof {
            assert(self.lines().take(i as int) == self.lines());
        }
        r
    }
}

/// A text that ends in a line break, read into lines and written back out,
/// is the same text, and so the same bytes.
pub proof fn lemma_round_trip(text: Seq<char>, lines: Seq<Seq<char>>)
    requires
        text.len() > 0,
        text.last() == '\n',
        lines_of(text, lines),
    ensures
        terminated(lines) == text,
        vstd::utf8::encode_utf8(terminated(lines)) == vstd::utf8::encode_utf8(text),
{
}

/// The lines of a well-formed document are well-formed.
proof fn lemma_rows_wf(d: &Document)
    requires
        d.wf(),
    ensures
        forall|i: int| 0 <= i < d.rows@.len() ==> (#[trigger] d.rows@[i]).wf(),
{
    assert forall|i: int| 0 <= i < d.rows@.len() implies (#[trigger] d.rows@[i]).wf() by {
        assert(d.rows()[i].wf());
    }
}

/// Adding a well-formed line to well-formed lines keeps them well-formed.
proof fn lemma_wf_push(rows: Seq<Row>, row: Row)
    requires
        forall|j: int| 0 <= j < rows.len() ==> (#[trigger] rows[j]).wf(),
        row.wf(),
    ensures
        forall|j: int| 0 <= j < rows.push(row).len() ==> (#[trigger] rows.push(row)[j]).wf(),
{
    assert forall|j: int| 0 <= j < rows.push(row).len() implies (#[trigger] rows.push(row)[j]).wf() by {
        if j < rows.len() {
            assert(rows.push(row)[j] == rows[j]);
        }
    }
}

/// Replacing a line of well-formed lines by a well-formed one keeps them
/// well-formed.
proof fn lemma_wf_update(rows: Seq<Row>, y: int, row: Row)
    requires
        forall|j: int| 0 <= j < rows.len() ==> (#[trigger] rows[j]).wf(),
        row.wf(),
        0 <= y < rows.len(),
    ensures
        forall|j: int| 0 <= j < rows.len() ==> (#[trigger] rows.update(y, row)[j]).wf(),
{
    assert forall|j: int| 0 <= j < rows.len() implies (#[trigger] rows.update(y, row)[j]).wf() by {
        if j != y {
            assert(rows.update(y, row)[j] == rows[j]);
        }
    }
}

/// Adding a line adds its text and a line break.
proof fn lemma_terminated_push(lines: Seq<Seq<char>>, l: Seq<char>)
    ensures
        terminated(lines.push(l)) == terminated(lines) + l.push('\n'),
{
    assert(lines.push(l).map_values(|l: Seq<char>| l.push('\n')) == lines.map_values(
        |l: Seq<char>| l.push('\n'),
    ).push(l.push('\n')));
}

} // verus!
