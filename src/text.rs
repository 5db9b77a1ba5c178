use vstd::prelude::*;

verus! {

/// The two style kinds that the editor knows.
#[derive(Clone, Copy, Debug, PartialEq, Eq, Structural)]
pub enum TagKind {
    Bold,
    Highlight,
}

/// A named style applied over the character offsets `start..end` of a text.
/// Offsets count Unicode scalar values, not bytes.
#[derive(Clone, Debug)]
pub struct Tag {
    pub start: i32,
    pub end: i32,
    pub name: String,
}

/// A plain text together with the style ranges laid over it.
#[derive(Clone, Debug)]
pub struct TextWithTags {
    pub text: String,
    pub tags: Vec<Tag>,
}

/// Mathematical model of a [`Tag`].
pub struct TagModel {
    pub start: int,
    pub end: int,
    pub name: Seq<char>,
}

/// Mathematical model of a [`TextWithTags`].
pub struct TextModel {
    pub text: Seq<char>,
    pub tags: Seq<TagModel>,
}

impl View for Tag {
    type V = TagModel;

    open spec fn view(&self) -> TagModel {
        TagModel { start: self.start as int, end: self.end as int, name: self.name@ }
    }
}

pub open spec fn tags_view(tags: Seq<Tag>) -> Seq<TagModel> {
    tags.map_values(|t: Tag| t@)
}

impl View for TextWithTags {
    type V = TextModel;

    open spec fn view(&self) -> TextModel {
        TextModel { text: self.text@, tags: tags_view(self.tags@) }
    }
}

/// The kind that a serialized tag name stands for, if any.
pub open spec fn kind_of(name: Seq<char>) -> Option<TagKind> {
    if name == "bold"@ {
        Some(TagKind::Bold)
    } else if name == "highlight"@ {
        Some(TagKind::Highlight)
    } else {
        None
    }
}

/// The inline marker that the export writes for a kind.
pub open spec fn marker_of(kind: TagKind) -> Seq<char> {
    match kind {
        TagKind::Bold => "**"@,
        TagKind::Highlight => "=="@,
    }
}

/// What one tag contributes at position `p`: its marker when it starts or ends
/// there and its kind is known, else nothing.
pub open spec fn marker_at(t: TagModel, p: int) -> Seq<char> {
    if (t.start == p || t.end == p) && kind_of(t.name).is_some() {
        marker_of(kind_of(t.name).unwrap())
    } else {
        Seq::empty()
    }
}

/// All markers written at position `p`, in the order of the tags.
pub open spec fn markers_at(tags: Seq<TagModel>, p: int) -> Seq<char>
    decreases tags.len(),
{
    if tags.len() == 0 {
        Seq::empty()
    } else {
        markers_at(tags.drop_last(), p) + marker_at(tags.last(), p)
    }
}

/// The export of the first `n` characters: before each character, the
/// markers of its position.
pub open spec fn export_prefix(text: Seq<char>, tags: Seq<TagModel>, n: nat) -> Seq<char>
    decreases n,
{
    if n == 0 {
        Seq::empty()
    } else {
        export_prefix(text, tags, (n - 1) as nat) + markers_at(tags, n - 1) + seq![text[n - 1]]
    }
}

/// The clipboard export of a whole tagged text: every character preceded by
/// the markers of its position, and the markers of the end position last.
pub open spec fn export(m: TextModel) -> Seq<char> {
    export_prefix(m.text, m.tags, m.text.len()) + markers_at(m.tags, m.text.len() as int)
}

/// The export is a function of the text and its tags alone: two tagged texts
/// with the same model export to the same string.
pub proof fn clipboard_text_is_deterministic(a: TextModel, b: TextModel)
    requires
        a == b,
    ensures
        export(a) == export(b),
{
}

proof fn lemma_markers_at_insert(tags: Seq<TagModel>, i: int, t: TagModel, p: int)
    requires
        0 <= i <= tags.len(),
        kind_of(t.name) is None,
    ensures
        markers_at(tags.insert(i, t), p) == markers_at(tags, p),
    decreases tags.len(),
{
    let ins = tags.insert(i, t);
    if i == tags.len() {
        assert(ins.drop_last() =~= tags);
        assert(ins.last() == t);
        assert(markers_at(tags, p) + marker_at(t, p) =~= markers_at(tags, p));
    } else {
        assert(ins.drop_last() =~= tags.drop_last().insert(i, t));
        assert(ins.last() == tags.last());
        lemma_markers_at_insert(tags.drop_last(), i, t, p);
    }
}

proof fn lemma_export_prefix_insert(text: Seq<char>, tags: Seq<TagModel>, i: int, t: TagModel, n: nat)
    requires
        0 <= i <= tags.len(),
        kind_of(t.name) is None,
    ensures
        export_prefix(text, tags.insert(i, t), n) == export_prefix(text, tags, n),
    decreases n,
{
    if n > 0 {
        lemma_export_prefix_insert(text, tags, i, t, (n - 1) as nat);
        lemma_markers_at_insert(tags, i, t, n - 1);
    }
}

/// A tag whose name is neither bold nor highlight writes no marker: adding
/// it anywhere among the tags leaves the export as it was.
pub proof fn unknown_tag_leaves_export_unchanged(m: TextModel, i: int, t: TagModel)
    requires
        0 <= i <= m.tags.len(),
        kind_of(t.name) is None,
    ensures
        export(TextModel { text: m.text, tags: m.tags.insert(i, t) }) == export(m),
{
    lemma_export_prefix_insert(m.text, m.tags, i, t, m.text.len());
    lemma_markers_at_insert(m.tags, i, t, m.text.len() as int);
}

impl TagKind {
    /// The kind that a serialized tag name stands for; `None` for any other name.
    pub fn from_name(name: &String) -> (r: Option<TagKind>)
        ensures
            r == kind_of(name@),
    {
        if *name == String::from_str("bold") {
            Some(TagKind::Bold)
        } else if *name == String::from_str("highlight") {
            Some(TagKind::Highlight)
        } else {
            None
        }
    }

    /// The inline marker written around text of this kind.
    pub fn marker(&self) -> (r: &'static str)
        ensures
            r@ == marker_of(*self),
    {
        match self {
            TagKind::Bold => "**",
            TagKind::Highlight => "==",
        }
    }
}

impl Default for TextWithTags {
    fn default() -> (r: Self)
        ensures
            r@ == TextWithTags::from_str_spec(Seq::empty()),
    {
        let r = TextWithTags { text: String::new(), tags: Vec::new() };
        assert(r@.tags =~= Seq::<TagModel>::empty());
        assert(r@.text =~= Seq::<char>::empty());
        r
    }
}

impl TextWithTags {
    /// The model of a text with no tags.
    pub open spec fn from_str_spec(text: Seq<char>) -> TextModel {
        TextModel { text, tags: Seq::empty() }
    }

    /// A text with no tags.
    pub fn from_str(text: &str) -> (r: Self)
        ensures
            r@ == Self::from_str_spec(text@),
    {
        let r = TextWithTags { text: String::from_str(text), tags: Vec::new() };
        assert(r@.tags =~= Seq::<TagModel>::empty());
        r
    }

    /// The markers of every exportable tag that starts or ends at `p`, in tag order.
    fn markers_for(&self, p: usize) -> (r: String)
        ensures
            r@ == markers_at(self@.tags, p as int),
    {
        let mut r = String::new();
        let mut i: usize = 0;
        while i < self.tags.len()
            invariant
                i <= self.tags@.len(),
                r@ == markers_at(self@.tags.subrange(0, i as int), p as int),
            decreases self.tags@.len() - i,
        {
            let tag = &self.tags[i];
            let touches = (tag.start >= 0 && tag.start as usize == p) || (tag.end >= 0
                && tag.end as usize == p);
            if touches {
                match TagKind::from_name(&tag.name) {
                    Some(kind) => r.append(kind.marker()),
                    None => {},
                }
            }
            proof {
                let pre = self@.tags.subrange(0, i + 1);
                assert(pre.drop_last() =~= self@.tags.subrange(0, i as int));
                assert(pre.last() == tag@);
            }
            i = i + 1;
        }
        assert(self@.tags.subrange(0, i as int) =~= self@.tags);
        r
    }

    /// Writes the pending text and the markers of position `offset`, when
    /// there are any; returns where the pending text now begins.
    fn emit_at(&self, text: &str, out: &mut String, last: usize, offset: usize) -> (next: usize)
        requires
            text@ == self.text@,
            last <= offset <= text@.len(),
            old(out)@ + text@.subrange(last as int, offset as int) == export_prefix(
                self@.text,
                self@.tags,
                offset as nat,
            ),
        ensures
            next <= offset,
            final(out)@ + text@.subrange(next as int, offset as int) == export_prefix(
                self@.text,
                self@.tags,
                offset as nat,
            ) + markers_at(self@.tags, offset as int),
    {
        let markers = self.markers_for(offset);
        if markers.as_str().unicode_len() > 0 {
            out.append(text.substring_char(last, offset));
            out.append(markers.as_str());
            assert(text@.subrange(offset as int, offset as int) =~= Seq::<char>::empty());
            offset
        } else {
            assert(markers@ =~= Seq::<char>::empty());
            assert(export_prefix(self@.text, self@.tags, offset as nat) + markers@ =~= export_prefix(
                self@.text,
                self@.tags,
                offset as nat,
            ));
            last
        }
    }

    /// The text with `**` written at each start and end of a bold tag and
    /// `==` at each of a highlight tag, the markers of one position in tag
    /// order; tags of any other name write nothing.
    pub fn clipboard_text(&self) -> (r: String)
        ensures
            r@ == export(self@),
    {
        let text = self.text.as_str();
        let n = text.unicode_len();
        let mut out = String::new();
        let mut last: usize = 0;
        let mut offset: usize = 0;
        assert(text@.subrange(0, 0) =~= Seq::<char>::empty());
        while offset < n
            invariant
                text@ == self.text@,
                n == text@.len(),
                last <= offset <= n,
                out@ + text@.subrange(last as int, offset as int) == export_prefix(
                    self@.text,
                    self@.tags,
                    offset as nat,
                ),
            decreases n - offset,
        {
            let next = self.emit_at(text, &mut out, last, offset);
            proof {
                let p = export_prefix(self@.text, self@.tags, offset as nat);
                let m = markers_at(self@.tags, offset as int);
                assert(text@.subrange(next as int, offset + 1) =~= text@.subrange(
                    next as int,
                    offset as int,
                ).push(text@[offset as int]));
                assert(export_prefix(self@.text, self@.tags, (offset + 1) as nat) == p + m + seq![
                    text@[offset as int],
                ]);
                assert(out@ + text@.subrange(next as int, offset + 1) =~= (out@ + text@.subrange(
                    next as int,
                    offset as int,
                )).push(text@[offset as int]));
                assert(p + m + seq![text@[offset as int]] =~= (p + m).push(text@[offset as int]));
            }
            last = next;
            offset = offset + 1;
        }
        let last = self.emit_at(text, &mut out, last, offset);
        out.append(text.substring_char(last, n));
        out
    }
}

} // verus!
