use vstd::prelude::*;

use crate::text::{Tag, TagModel, TextModel, TextWithTags, kind_of, tags_view};

verus! {

/// Mathematical model of a [`TextBuffer`]: its characters, the names of the
/// tags registered on it, and for each tag which characters carry it.
pub struct BufferModel {
    pub text: Seq<char>,
    pub names: Seq<Seq<char>>,
    pub marks: Seq<Seq<bool>>,
}

/// An editable text whose tags are stored per character, as a text widget
/// stores them. Offsets count Unicode scalar values.
pub struct TextBuffer {
    text: String,
    names: Vec<String>,
    marks: Vec<Vec<bool>>,
}

/// The largest offset that a [`Tag`] can hold.
pub const MAX_OFFSET: usize = 0x7fff_ffff;

pub open spec fn buffer_wf(b: BufferModel) -> bool {
    &&& b.names.len() == b.marks.len()
    &&& b.text.len() <= MAX_OFFSET
    &&& forall|t: int| 0 <= t < b.marks.len() ==> #[trigger] b.marks[t].len() == b.text.len()
}

/// The marks `m` with `lo..hi` added.
pub open spec fn applied(m: Seq<bool>, lo: int, hi: int) -> Seq<bool> {
    Seq::new(m.len(), |q: int| m[q] || (lo <= q < hi))
}

/// The buffer `b` with every tag named `name` added to `lo..hi`.
pub open spec fn with_tag(b: BufferModel, name: Seq<char>, lo: int, hi: int) -> BufferModel {
    BufferModel {
        text: b.text,
        names: b.names,
        marks: Seq::new(
            b.marks.len(),
            |t: int|
                if b.names[t] == name {
                    applied(b.marks[t], lo, hi)
                } else {
                    b.marks[t]
                },
        ),
    }
}

/// Whether a tag is switched on at `q`: it covers `q` but not the character before.
pub open spec fn starts_at(m: Seq<bool>, q: int) -> bool {
    0 <= q < m.len() && m[q] && (q == 0 || !m[q - 1])
}

/// The first position from `q` on that the tag no longer covers, or `end`.
pub open spec fn run_end(m: Seq<bool>, q: int, end: int) -> int
    decreases end - q,
{
    if q >= end || !m[q] {
        q
    } else {
        run_end(m, q + 1, end)
    }
}

proof fn lemma_run_end_bounds(m: Seq<bool>, q: int, end: int)
    requires
        q <= end,
    ensures
        q <= run_end(m, q, end) <= end,
    decreases end - q,
{
    if q < end && m[q] {
        lemma_run_end_bounds(m, q + 1, end);
    }
}

/// The range that tag `t` forms from `p`, when it starts there, with offsets
/// taken relative to `start`.
pub open spec fn found_at(b: BufferModel, t: int, p: int, start: int, end: int) -> Seq<TagModel> {
    if starts_at(b.marks[t], p) {
        seq![TagModel { start: p - start, end: run_end(b.marks[t], p, end) - start, name: b.names[t] }]
    } else {
        Seq::empty()
    }
}

/// The ranges that the first `n` tags start at `p`, in tag order.
pub open spec fn found_upto(b: BufferModel, p: int, start: int, end: int, n: nat) -> Seq<TagModel>
    decreases n,
{
    if n == 0 {
        Seq::empty()
    } else {
        found_upto(b, p, start, end, (n - 1) as nat) + found_at(b, n - 1, p, start, end)
    }
}

/// The ranges that start within the first `k` positions from `start`.
pub open spec fn extracted(b: BufferModel, start: int, end: int, k: nat) -> Seq<TagModel>
    decreases k,
{
    if k == 0 {
        Seq::empty()
    } else {
        extracted(b, start, end, (k - 1) as nat) + found_upto(
            b,
            start + k - 1,
            start,
            end,
            b.names.len(),
        )
    }
}

/// The tagged text read from `start..end`; empty when the range is inverted
/// or leaves the buffer.
pub open spec fn extract(b: BufferModel, start: int, end: int) -> TextModel {
    if 0 <= start <= end <= b.text.len() {
        TextModel {
            text: b.text.subrange(start, end),
            tags: extracted(b, start, end, (end - start) as nat),
        }
    } else {
        TextModel { text: Seq::empty(), tags: Seq::empty() }
    }
}

/// Where a text widget puts an offset: as it is when it lies within the
/// text, else at the end.
pub open spec fn clamp_offset(o: int, len: int) -> int {
    if 0 <= o <= len {
        o
    } else {
        len
    }
}

/// The lower end of the characters that a tag covers once projected.
pub open spec fn range_lo(t: TagModel, len: int) -> int {
    let a = clamp_offset(t.start, len);
    let b = clamp_offset(t.end, len);
    if a <= b {
        a
    } else {
        b
    }
}

/// The upper end of the characters that a tag covers once projected.
pub open spec fn range_hi(t: TagModel, len: int) -> int {
    let a = clamp_offset(t.start, len);
    let b = clamp_offset(t.end, len);
    if a <= b {
        b
    } else {
        a
    }
}

/// The marks that the tags named `name` leave on a text of `len` characters.
pub open spec fn project_marks(name: Seq<char>, tags: Seq<TagModel>, len: nat) -> Seq<bool>
    decreases tags.len(),
{
    if tags.len() == 0 {
        Seq::new(len, |q: int| false)
    } else {
        let prev = project_marks(name, tags.drop_last(), len);
        let t = tags.last();
        if t.name == name {
            applied(prev, range_lo(t, len as int), range_hi(t, len as int))
        } else {
            prev
        }
    }
}

/// The buffer that a tagged text is shown in: its text, the highlight and
/// bold tags registered in that order, and each tag range applied.
pub open spec fn project(m: TextModel) -> BufferModel {
    BufferModel {
        text: m.text,
        names: seq!["highlight"@, "bold"@],
        marks: seq![
            project_marks("highlight"@, m.tags, m.text.len()),
            project_marks("bold"@, m.tags, m.text.len()),
        ],
    }
}

impl TextBuffer {
    pub closed spec fn view(&self) -> BufferModel {
        BufferModel {
            text: self.text@,
            names: self.names@.map_values(|s: String| s@),
            marks: self.marks@.map_values(|v: Vec<bool>| v@),
        }
    }

    pub open spec fn wf(&self) -> bool {
        buffer_wf(self.view())
    }

    /// An empty buffer with no tags registered.
    pub fn new() -> (r: TextBuffer)
        ensures
            r.wf(),
            r.view().text.len() == 0,
            r.view().names.len() == 0,
    {
        let r = TextBuffer { text: String::new(), names: Vec::new(), marks: Vec::new() };
        assert(r.view().marks =~= Seq::<Seq<bool>>::empty());
        r
    }

    /// The number of characters.
    pub fn char_count(&self) -> (r: usize)
        ensures
            r == self.view().text.len(),
    {
        self.text.as_str().unicode_len()
    }

    /// The number of registered tags.
    pub fn tag_count(&self) -> (r: usize)
        requires
            self.wf(),
        ensures
            r == self.view().names.len(),
    {
        self.names.len()
    }

    /// The name of tag `t`.
    pub fn tag_name(&self, t: usize) -> (r: String)
        requires
            self.wf(),
            t < self.view().names.len(),
        ensures
            r@ == self.view().names[t as int],
    {
        self.names[t].clone()
    }

    /// The index of the tag registered under `name`, if any.
    pub fn tag_index(&self, name: &str) -> (r: Option<usize>)
        requires
            self.wf(),
        ensures
            r matches Some(t) ==> t < self.view().names.len() && self.view().names[t as int]
                == name@,
            r is None ==> forall|t: int|
                0 <= t < self.view().names.len() ==> self.view().names[t] != name@,
    {
        let wanted = String::from_str(name);
        let mut t: usize = 0;
        while t < self.names.len()
            invariant
                t <= self.names@.len(),
                wanted@ == name@,
                forall|u: int| 0 <= u < t ==> self.view().names[u] != name@,
            decreases self.names@.len() - t,
        {
            if self.names[t] == wanted {
                return Some(t);
            }
            t = t + 1;
        }
        None
    }

    /// Registers a tag under `name`; a name already registered is left as it is.
    pub fn create_tag(&mut self, name: &str)
        requires
            old(self).wf(),
        ensures
            final(self).wf(),
            final(self).view().text == old(self).view().text,
            (exists|t: int| 0 <= t < old(self).view().names.len() && old(self).view().names[t] == name@)
                ==> final(self).view() == old(self).view(),
            (forall|t: int| 0 <= t < old(self).view().names.len() ==> old(self).view().names[t] != name@)
                ==> final(self).view().names == old(self).view().names.push(name@)
                && final(self).view().marks == old(self).view().marks.push(
                Seq::new(old(self).view().text.len(), |q: int| false),
            ),
    {
        if self.tag_index(name).is_some() {
            return;
        }
        let n = self.char_count();
        let mut row: Vec<bool> = Vec::new();
        let mut q: usize = 0;
        while q < n
            invariant
                q <= n,
                row@ =~= Seq::new(q as nat, |i: int| false),
            decreases n - q,
        {
            row.push(false);
            q = q + 1;
        }
        self.names.push(String::from_str(name));
        self.marks.push(row);
        proof {
            assert(self.view().names =~= old(self).view().names.push(name@));
            assert(self.view().marks =~= old(self).view().marks.push(
                Seq::new(old(self).view().text.len(), |q: int| false),
            ));
            assert forall|t: int| 0 <= t < self.view().marks.len() implies #[trigger] self.view().marks[t].len()
                == self.view().text.len() by {
                if t < old(self).view().marks.len() {
                    assert(self.view().marks[t] == old(self).view().marks[t]);
                }
            }
        }
    }
    /// Replaces the text; every tag then covers nothing.
    pub fn set_text(&mut self, text: &str)
        requires
            old(self).wf(),
            text@.len() <= MAX_OFFSET,
        ensures
            final(self).wf(),
            final(self).view().text == text@,
            final(self).view().names == old(self).view().names,
            forall|t: int|
                0 <= t < final(self).view().marks.len() ==> #[trigger] final(self).view().marks[t]
                    == Seq::new(text@.len(), |q: int| false),
    {
        let n = text.unicode_len();
        let mut marks: Vec<Vec<bool>> = Vec::new();
        let mut t: usize = 0;
        while t < self.names.len()
            invariant
                t <= self.names@.len(),
                n == text@.len(),
                marks@.len() == t,
                forall|u: int| 0 <= u < t ==> #[trigger] marks@[u]@ == Seq::new(n as nat, |q: int| false),
            decreases self.names@.len() - t,
        {
            let mut row: Vec<bool> = Vec::new();
            let mut q: usize = 0;
            while q < n
                invariant
                    q <= n,
                    row@ =~= Seq::new(q as nat, |i: int| false),
                decreases n - q,
            {
                row.push(false);
                q = q + 1;
            }
            marks.push(row);
            t = t + 1;
        }
        self.text = String::from_str(text);
        self.marks = marks;
        proof {
            assert(self.view().names =~= old(self).view().names);
            assert forall|t: int| 0 <= t < self.view().marks.len() implies #[trigger] self.view().marks[t]
                == Seq::new(text@.len(), |q: int| false) by {
                assert(self.view().marks[t] == marks@[t]@);
            }
        }
    }

    /// Adds tag `name` to the characters `start..end`; an unregistered name
    /// changes nothing.
    pub fn apply_tag_by_name(&mut self, name: &str, start: usize, end: usize)
        requires
            old(self).wf(),
            start <= end <= old(self).view().text.len(),
        ensures
            final(self).wf(),
            final(self).view() == with_tag(old(self).view(), name@, start as int, end as int),
    {
        let wanted = String::from_str(name);
        let mut t: usize = 0;
        while t < self.names.len()
            invariant
                self.wf(),
                wanted@ == name@,
                t <= self.names@.len(),
                start <= end <= self.view().text.len(),
                self.view().text == old(self).view().text,
                self.view().names == old(self).view().names,
                self.view().marks.len() == old(self).view().marks.len(),
                forall|u: int|
                    0 <= u < old(self).view().marks.len() ==> #[trigger] self.view().marks[u]
                        == if u < t && old(self).view().names[u] == name@ {
                        applied(old(self).view().marks[u], start as int, end as int)
                    } else {
                        old(self).view().marks[u]
                    },
            decreases self.names@.len() - t,
        {
            if self.names[t] == wanted {
                let ghost prev = self.view();
                let ghost row0 = prev.marks[t as int];
                assert(row0 == self.marks@[t as int]@);
                let len = self.marks[t].len();
                let mut row: Vec<bool> = Vec::new();
                let mut q: usize = 0;
                while q < len
                    invariant
                        self.view() == prev,
                        t < self.marks@.len(),
                        row0 == self.marks@[t as int]@,
                        len == row0.len(),
                        q <= len,
                        row@ =~= Seq::new(q as nat, |i: int| row0[i] || (start <= i < end)),
                    decreases len - q,
                {
                    let covered = self.marks[t][q] || (start <= q && q < end);
                    row.push(covered);
                    q = q + 1;
                }
                self.marks.set(t, row);
                proof {
                    assert(row@ =~= applied(row0, start as int, end as int));
                    assert(self.view().names =~= prev.names);
                    assert forall|u: int| 0 <= u < self.view().marks.len() implies #[trigger] self.view().marks[u]
                        == if u == t { applied(row0, start as int, end as int) } else { prev.marks[u] } by {}
                }
            }
            t = t + 1;
        }
        assert(self.view().marks =~= with_tag(old(self).view(), name@, start as int, end as int).marks);
    }

    /// Whether tag `t` covers the character at `q`; nothing is covered at the end.
    pub fn has_tag(&self, t: usize, q: usize) -> (r: bool)
        requires
            self.wf(),
            t < self.view().names.len(),
            q <= self.view().text.len(),
        ensures
            r == (q < self.view().text.len() && self.view().marks[t as int][q as int]),
    {
        proof {
            assert(self.view().marks[t as int] == self.marks@[t as int]@);
        }
        q < self.marks[t].len() && self.marks[t][q]
    }

    /// Whether tag `t` is switched on exactly at `q`.
    pub fn starts_tag(&self, t: usize, q: usize) -> (r: bool)
        requires
            self.wf(),
            t < self.view().names.len(),
            q <= self.view().text.len(),
        ensures
            r == starts_at(self.view().marks[t as int], q as int),
    {
        self.has_tag(t, q) && (q == 0 || !self.has_tag(t, q - 1))
    }

    /// The characters `start..end`.
    pub fn text_range(&self, start: usize, end: usize) -> (r: String)
        requires
            start <= end <= self.view().text.len(),
        ensures
            r@ == self.view().text.subrange(start as int, end as int),
    {
        String::from_str(self.text.as_str().substring_char(start, end))
    }
}


/// Reading an empty range gives an empty text with no tags, whatever the
/// buffer holds.
pub proof fn extract_empty_range(b: BufferModel, p: int)
    ensures
        extract(b, p, p) == (TextModel { text: Seq::empty(), tags: Seq::empty() }),
{
    if 0 <= p <= b.text.len() {
        assert(b.text.subrange(p, p) =~= Seq::<char>::empty());
    }
}


/// Tags that come back unchanged from a buffer: each covers at least one
/// character of the text and has a known kind, each lies wholly after the
/// ones before it, and one of the same kind as an earlier one leaves a gap
/// after it, since touching ranges of one kind come back as one.
pub open spec fn separated_tags(m: TextModel) -> bool {
    &&& forall|i: int|
        0 <= i < m.tags.len() ==> 0 <= #[trigger] m.tags[i].start < m.tags[i].end <= m.text.len()
            && kind_of(m.tags[i].name) is Some
    &&& forall|i: int, j: int|
        0 <= i < j < m.tags.len() ==> #[trigger] m.tags[i].end <= #[trigger] m.tags[j].start && (
        m.tags[i].name == m.tags[j].name ==> m.tags[i].end < m.tags[j].start)
}

/// Whether some tag named `name` covers `q`.
pub open spec fn covered(name: Seq<char>, tags: Seq<TagModel>, q: int) -> bool {
    exists|i: int| 0 <= i < tags.len() && #[trigger] tags[i].name == name && tags[i].start <= q < tags[i].end
}

proof fn lemma_marks_cover(name: Seq<char>, tags: Seq<TagModel>, len: nat, q: int)
    requires
        0 <= q < len,
        forall|i: int| 0 <= i < tags.len() ==> 0 <= #[trigger] tags[i].start <= tags[i].end <= len,
    ensures
        project_marks(name, tags, len)[q] == covered(name, tags, q),
    decreases tags.len(),
{
    if tags.len() > 0 {
        let prev = tags.drop_last();
        let t = tags.last();
        assert forall|i: int| 0 <= i < prev.len() implies 0 <= #[trigger] prev[i].start <= prev[i].end <= len by {
            assert(prev[i] == tags[i]);
        }
        lemma_marks_cover(name, prev, len, q);
        lemma_project_marks_len(name, prev, len);
        assert(range_lo(t, len as int) == t.start);
        assert(range_hi(t, len as int) == t.end);
        if covered(name, prev, q) {
            let i = choose|i: int| 0 <= i < prev.len() && #[trigger] prev[i].name == name && prev[i].start <= q < prev[i].end;
            assert(tags[i] == prev[i]);
        }
        if covered(name, tags, q) {
            let i = choose|i: int| 0 <= i < tags.len() && #[trigger] tags[i].name == name && tags[i].start <= q < tags[i].end;
            if i < prev.len() {
                assert(tags[i] == prev[i]);
            }
        }
        if t.name == name && t.start <= q < t.end {
            assert(tags[tags.len() - 1] == t);
        }
    } else {
        assert(!covered(name, tags, q));
    }
}

proof fn lemma_run_end_reaches(m: Seq<bool>, q: int, e: int, end: int)
    requires
        q <= e <= end <= m.len(),
        forall|x: int| q <= x < e ==> #[trigger] m[x],
        e < end ==> !m[e],
    ensures
        run_end(m, q, end) == e,
    decreases e - q,
{
    if q < e {
        lemma_run_end_reaches(m, q + 1, e, end);
    }
}

/// In the buffer of separated tags, a tag named `name` is switched on at `p`
/// exactly when one of the tags of that name starts at `p`, and it then runs
/// to that tag's end.
proof fn lemma_start_and_run(m: TextModel, name: Seq<char>, p: int)
    requires
        separated_tags(m),
        0 <= p < m.text.len(),
    ensures
        ({
            let marks = project_marks(name, m.tags, m.text.len());
            &&& starts_at(marks, p) == exists|i: int|
                0 <= i < m.tags.len() && #[trigger] m.tags[i].start == p && m.tags[i].name == name
            &&& forall|i: int|
                0 <= i < m.tags.len() && #[trigger] m.tags[i].start == p && m.tags[i].name == name
                    ==> run_end(marks, p, m.text.len() as int) == m.tags[i].end
        }),
{
    let len = m.text.len();
    let tags = m.tags;
    let marks = project_marks(name, tags, len);
    lemma_project_marks_len(name, tags, len);
    assert forall|i: int| 0 <= i < tags.len() implies 0 <= #[trigger] tags[i].start <= tags[i].end <= len by {}
    lemma_marks_cover(name, tags, len, p);
    if p > 0 {
        lemma_marks_cover(name, tags, len, p - 1);
    }
    if starts_at(marks, p) {
        let j = choose|j: int| 0 <= j < tags.len() && #[trigger] tags[j].name == name && tags[j].start <= p < tags[j].end;
        if tags[j].start < p {
            assert(tags[j].name == name && tags[j].start <= p - 1 < tags[j].end);
            assert(covered(name, tags, p - 1));
        }
        assert(tags[j].start == p);
    }
    assert forall|i: int|
        0 <= i < tags.len() && #[trigger] tags[i].start == p && tags[i].name == name
            implies starts_at(marks, p) && run_end(marks, p, len as int) == tags[i].end by {
        assert(tags[i].name == name && tags[i].start <= p < tags[i].end);
        if p > 0 && covered(name, tags, p - 1) {
            let j = choose|j: int| 0 <= j < tags.len() && #[trigger] tags[j].name == name && tags[j].start <= p - 1 < tags[j].end;
            if j < i {
                assert(tags[j].end < tags[i].start);
            } else if j > i {
                assert(tags[i].end <= tags[j].start);
            }
        }
        let e = tags[i].end;
        assert forall|x: int| p <= x < e implies #[trigger] marks[x] by {
            lemma_marks_cover(name, tags, len, x);
            assert(tags[i].name == name && tags[i].start <= x < tags[i].end);
        }
        if e < len {
            lemma_marks_cover(name, tags, len, e);
            if covered(name, tags, e) {
                let j = choose|j: int| 0 <= j < tags.len() && #[trigger] tags[j].name == name && tags[j].start <= e < tags[j].end;
                if j < i {
                    assert(tags[j].end < tags[i].start);
                } else if j > i {
                    assert(tags[i].end < tags[j].start);
                }
            }
        }
        lemma_run_end_reaches(marks, p, e, len as int);
    }
}

/// At a position of the text, the buffer of separated tags gives back the
/// tag that starts there, if any.
proof fn lemma_found_at_position(m: TextModel, p: int, c: int)
    requires
        separated_tags(m),
        0 <= p < m.text.len(),
        0 <= c <= m.tags.len(),
        forall|i: int| 0 <= i < c ==> #[trigger] m.tags[i].start <= p,
        forall|i: int| c <= i < m.tags.len() ==> #[trigger] m.tags[i].start > p,
    ensures
        found_upto(project(m), p, 0, m.text.len() as int, 2) == if c > 0 && m.tags[c - 1].start
            == p {
            seq![m.tags[c - 1]]
        } else {
            Seq::empty()
        },
{
    let b = project(m);
    let len = m.text.len() as int;
    let h = "highlight"@;
    let bo = "bold"@;
    reveal_strlit("highlight");
    reveal_strlit("bold");
    assert(h.len() != bo.len());
    lemma_start_and_run(m, h, p);
    lemma_start_and_run(m, bo, p);
    assert(b.marks[0] == project_marks(h, m.tags, m.text.len()));
    assert(b.marks[1] == project_marks(bo, m.tags, m.text.len()));
    assert(found_upto(b, p, 0, len, 2) == found_upto(b, p, 0, len, 1) + found_at(b, 1, p, 0, len));
    assert(found_upto(b, p, 0, len, 1) == found_upto(b, p, 0, len, 0) + found_at(b, 0, p, 0, len));
    // Only tag c - 1 can start at p: the starts rise strictly.
    assert forall|i: int| 0 <= i < m.tags.len() && #[trigger] m.tags[i].start == p implies i == c - 1 by {
        if i < c - 1 {
            assert(m.tags[i].end <= m.tags[c - 1].start);
        }
    }
    if c > 0 && m.tags[c - 1].start == p {
        let t = m.tags[c - 1];
        assert(kind_of(t.name) is Some);
        if t.name == h {
            assert(found_at(b, 0, p, 0, len) =~= seq![t]);
            assert(!starts_at(b.marks[1], p));
            assert(found_upto(b, p, 0, len, 2) =~= seq![t]);
        } else {
            assert(t.name == bo);
            assert(!starts_at(b.marks[0], p));
            assert(found_at(b, 1, p, 0, len) =~= seq![t]);
            assert(found_upto(b, p, 0, len, 2) =~= seq![t]);
        }
    } else {
        assert(!starts_at(b.marks[0], p));
        assert(!starts_at(b.marks[1], p));
        assert(found_upto(b, p, 0, len, 2) =~= Seq::<TagModel>::empty());
    }
}

proof fn lemma_extracted_prefix(m: TextModel, k: int, c: int)
    requires
        separated_tags(m),
        0 <= k <= m.text.len(),
        0 <= c <= m.tags.len(),
        forall|i: int| 0 <= i < c ==> #[trigger] m.tags[i].start < k,
        forall|i: int| c <= i < m.tags.len() ==> #[trigger] m.tags[i].start >= k,
    ensures
        extracted(project(m), 0, m.text.len() as int, k as nat) == m.tags.subrange(0, c),
    decreases k,
{
    let b = project(m);
    let len = m.text.len() as int;
    if k == 0 {
        if c > 0 {
            assert(m.tags[0].start < 0);
        }
        assert(m.tags.subrange(0, c) =~= Seq::<TagModel>::empty());
    } else {
        let p = k - 1;
        let c2 = if c > 0 && m.tags[c - 1].start == p { c - 1 } else { c };
        assert forall|i: int| 0 <= i < c2 implies #[trigger] m.tags[i].start < p by {
            if i < c - 1 {
                assert(m.tags[i].end <= m.tags[c - 1].start);
            }
        }
        lemma_extracted_prefix(m, p, c2);
        lemma_found_at_position(m, p, c);
        assert(b.names.len() == 2);
        assert(extracted(b, 0, len, k as nat) == extracted(b, 0, len, p as nat) + found_upto(b, p, 0, len, 2));
        assert(m.tags.subrange(0, c) =~= m.tags.subrange(0, c2) + if c2 < c {
            seq![m.tags[c - 1]]
        } else {
            Seq::empty()
        });
    }
}

/// Showing separated tags in a buffer and reading the whole buffer back
/// gives the same text and the same tags, in the same order.
pub proof fn project_then_extract(m: TextModel)
    requires
        separated_tags(m),
    ensures
        extract(project(m), 0, m.text.len() as int) == m,
{
    let len = m.text.len() as int;
    assert forall|i: int| 0 <= i < m.tags.len() implies #[trigger] m.tags[i].start < len by {}
    lemma_extracted_prefix(m, len, m.tags.len() as int);
    assert(m.tags.subrange(0, m.tags.len() as int) =~= m.tags);
    assert(m.text.subrange(0, len) =~= m.text);
}


/// Two ranges of one kind that touch are shown as one: reading the buffer
/// back gives a single range from the start of the first to the end of the
/// second.
pub proof fn touching_ranges_merge(text: Seq<char>, first: TagModel, second: TagModel)
    requires
        first.name == second.name,
        kind_of(first.name) is Some,
        0 <= first.start < first.end == second.start < second.end <= text.len(),
    ensures
        extract(project(TextModel { text, tags: seq![first, second] }), 0, text.len() as int)
            == (TextModel {
            text,
            tags: seq![TagModel { start: first.start, end: second.end, name: first.name }],
        }),
{
    let len = text.len();
    let m = TextModel { text, tags: seq![first, second] };
    let merged = TagModel { start: first.start, end: second.end, name: first.name };
    let one = TextModel { text, tags: seq![merged] };
    assert forall|name: Seq<char>| #[trigger] project_marks(name, m.tags, len) == project_marks(
        name,
        one.tags,
        len,
    ) by {
        assert(m.tags.drop_last() =~= seq![first]);
        assert(m.tags.drop_last().drop_last() =~= Seq::<TagModel>::empty());
        assert(one.tags.drop_last() =~= Seq::<TagModel>::empty());
        let f = Seq::new(len, |q: int| false);
        assert(project_marks(name, Seq::<TagModel>::empty(), len) == f);
        assert(project_marks(name, seq![first], len) == if first.name == name {
            applied(f, first.start, first.end)
        } else {
            f
        });
        assert(project_marks(name, m.tags, len) == if first.name == name {
            applied(applied(f, first.start, first.end), second.start, second.end)
        } else {
            f
        });
        assert(project_marks(name, one.tags, len) == if first.name == name {
            applied(f, first.start, second.end)
        } else {
            f
        });
        assert(project_marks(name, m.tags, len) =~= project_marks(name, one.tags, len));
    }
    assert(project(m) == project(one));
    assert(separated_tags(one));
    project_then_extract(one);
}


proof fn lemma_project_marks_len(name: Seq<char>, tags: Seq<TagModel>, len: nat)
    ensures
        project_marks(name, tags, len).len() == len,
    decreases tags.len(),
{
    if tags.len() > 0 {
        lemma_project_marks_len(name, tags.drop_last(), len);
    }
}

proof fn lemma_tags_view_push(v: Seq<Tag>, x: Tag)
    ensures
        tags_view(v.push(x)) == tags_view(v).push(x@),
{
    assert(tags_view(v.push(x)) =~= tags_view(v).push(x@));
}

/// Converts an offset of a buffer, which never exceeds [`MAX_OFFSET`], to a tag offset.
fn to_offset(q: usize) -> (r: i32)
    requires
        q <= MAX_OFFSET,
    ensures
        r as int == q as int,
{
    q as i32
}

impl TextWithTags {
    /// The range that tag `tag` forms when it is switched on at `iter`: from
    /// there to the first character it does not cover, or to `end`. `None`
    /// when the tag is not switched on at `iter`.
    pub fn find_tag(buffer: &TextBuffer, tag: usize, iter: usize, end: usize) -> (r: Option<Tag>)
        requires
            buffer.wf(),
            tag < buffer.view().names.len(),
            iter <= end <= buffer.view().text.len(),
        ensures
            r is Some == starts_at(buffer.view().marks[tag as int], iter as int),
            r matches Some(x) ==> x@ == (TagModel {
                start: iter as int,
                end: run_end(buffer.view().marks[tag as int], iter as int, end as int),
                name: buffer.view().names[tag as int],
            }),
    {
        if !buffer.starts_tag(tag, iter) {
            return None;
        }
        let ghost m = buffer.view().marks[tag as int];
        let mut q: usize = iter;
        while q < end && buffer.has_tag(tag, q)
            invariant
                buffer.wf(),
                tag < buffer.view().names.len(),
                m == buffer.view().marks[tag as int],
                iter <= q <= end <= buffer.view().text.len(),
                run_end(m, iter as int, end as int) == run_end(m, q as int, end as int),
            decreases end - q,
        {
            q = q + 1;
        }
        Some(Tag { start: to_offset(iter), end: to_offset(q), name: buffer.tag_name(tag) })
    }

    /// The tagged text of the characters `start..end` of `buffer`: walking
    /// the range, each tag switched on at a position gives one range, up to
    /// the first character it does not cover or to `end`, with offsets
    /// relative to `start`. An inverted range, or one that leaves the
    /// buffer, gives an empty text.
    pub fn from(buffer: &TextBuffer, start: usize, end: usize) -> (r: TextWithTags)
        requires
            buffer.wf(),
        ensures
            r@ == extract(buffer.view(), start as int, end as int),
    {
        if !(start <= end && end <= buffer.char_count()) {
            let r = TextWithTags::default();
            assert(r@.text =~= Seq::<char>::empty());
            assert(r@.tags =~= Seq::<TagModel>::empty());
            return r;
        }
        let ghost b = buffer.view();
        let text = buffer.text_range(start, end);
        let mut tags: Vec<Tag> = Vec::new();
        let n = buffer.tag_count();
        let mut p: usize = start;
        assert(tags_view(tags@) =~= Seq::<TagModel>::empty());
        while p < end
            invariant
                buffer.wf(),
                b == buffer.view(),
                n == b.names.len(),
                start <= p <= end <= b.text.len(),
                tags_view(tags@) == extracted(b, start as int, end as int, (p - start) as nat),
            decreases end - p,
        {
            let mut t: usize = 0;
            assert(found_upto(b, p as int, start as int, end as int, 0) =~= Seq::<TagModel>::empty());
            assert(tags_view(tags@) =~= extracted(b, start as int, end as int, (p - start) as nat)
                + found_upto(b, p as int, start as int, end as int, 0));
            while t < n
                invariant
                    buffer.wf(),
                    b == buffer.view(),
                    n == b.names.len(),
                    start <= p < end <= b.text.len(),
                    t <= n,
                    tags_view(tags@) == extracted(b, start as int, end as int, (p - start) as nat)
                        + found_upto(b, p as int, start as int, end as int, t as nat),
                decreases n - t,
            {
                let ghost before = tags@;
                match Self::find_tag(buffer, t, p, end) {
                    Some(found) => {
                        proof {
                            let e = run_end(b.marks[t as int], p as int, end as int);
                            lemma_run_end_bounds(b.marks[t as int], p as int, end as int);
                            assert(p <= e <= end);
                        }
                        let rel = Tag {
                            start: found.start - to_offset(start),
                            end: found.end - to_offset(start),
                            name: found.name,
                        };
                        tags.push(rel);
                        proof {
                            lemma_tags_view_push(before, rel);
                        }
                    },
                    None => {},
                }
                proof {
                    let pre = extracted(b, start as int, end as int, (p - start) as nat);
                    let f = found_upto(b, p as int, start as int, end as int, t as nat);
                    let g = found_at(b, t as int, p as int, start as int, end as int);
                    assert(found_upto(b, p as int, start as int, end as int, (t + 1) as nat) == f
                        + g);
                    assert(tags_view(tags@) =~= pre + (f + g));
                }
                t = t + 1;
            }
            proof {
                assert(extracted(b, start as int, end as int, (p + 1 - start) as nat)
                    == extracted(b, start as int, end as int, (p - start) as nat) + found_upto(
                    b,
                    p as int,
                    start as int,
                    end as int,
                    n as nat,
                ));
            }
            p = p + 1;
        }
        TextWithTags { text, tags }
    }

    /// A buffer showing this text: the highlight and bold tags registered,
    /// the text set, and each tag applied over its range, an offset outside
    /// the text standing for its end.
    pub fn as_text_buffer(&self) -> (r: TextBuffer)
        requires
            self.text@.len() <= MAX_OFFSET,
        ensures
            r.wf(),
            r.view() == project(self@),
    {
        let mut b = TextBuffer::new();
        proof {
            reveal_strlit("highlight");
            reveal_strlit("bold");
        }
        b.create_tag("highlight");
        assert(b.view().names =~= seq!["highlight"@]);
        assert("highlight"@.len() != "bold"@.len());
        assert(b.view().names[0] != "bold"@);
        b.create_tag("bold");
        assert(b.view().names =~= seq!["highlight"@, "bold"@]);
        b.set_text(self.text.as_str());
        let len = b.char_count();
        let ghost tv = self@.tags;
        let mut i: usize = 0;
        while i < self.tags.len()
            invariant
                b.wf(),
                len == self.text@.len(),
                tv == self@.tags,
                i <= self.tags@.len(),
                b.view().text == self.text@,
                b.view().names == seq!["highlight"@, "bold"@],
                b.view().marks[0] == project_marks("highlight"@, tv.subrange(0, i as int), len as nat),
                b.view().marks[1] == project_marks("bold"@, tv.subrange(0, i as int), len as nat),
            decreases self.tags@.len() - i,
        {
            let tag = &self.tags[i];
            let a = if tag.start >= 0 && tag.start as usize <= len { tag.start as usize } else { len };
            let c = if tag.end >= 0 && tag.end as usize <= len { tag.end as usize } else { len };
            let (lo, hi) = if a <= c { (a, c) } else { (c, a) };
            let ghost prev = b.view();
            b.apply_tag_by_name(tag.name.as_str(), lo, hi);
            proof {
                let pre = tv.subrange(0, i + 1);
                assert(pre.drop_last() =~= tv.subrange(0, i as int));
                assert(pre.last() == tag@);
                assert(lo == range_lo(tag@, len as int));
                assert(hi == range_hi(tag@, len as int));
                assert(b.view() == with_tag(prev, tag.name@, lo as int, hi as int));
                assert(b.view().marks[0] == if prev.names[0] == tag.name@ {
                    applied(prev.marks[0], lo as int, hi as int)
                } else {
                    prev.marks[0]
                });
                assert(b.view().marks[1] == if prev.names[1] == tag.name@ {
                    applied(prev.marks[1], lo as int, hi as int)
                } else {
                    prev.marks[1]
                });
            }
            i = i + 1;
        }
        proof {
            assert(tv.subrange(0, i as int) =~= tv);
            assert(b.view().marks =~= project(self@).marks);
            assert(b.view().names =~= project(self@).names);
        }
        b
    }
}

} // verus!
