//! A plain-text error report: a header, then source lines with their
//! highlights drawn underneath.
use vstd::prelude::*;

use std::ops::Range;

use crate::text::{
    byte_boundary, char_index, decimal, decimal_chars, extend_chars, extend_vec,
    lemma_char_utf8_len, lemma_decimal_len_mono, lemma_usize_digits, lemma_utf8_len_concat, lemma_utf8_len_spaces,
    seq_join, str_to_chars, string_from_chars, utf8_len, utf8_len_of, walk_bytes,
};

verus! {

/// What can be drawn under a source line: a highlight of the columns
/// `range` with the character given, with an optional label. Columns are
/// byte offsets into the line's UTF-8 text, as `str` indexes it, and the
/// highlight's marks and label are written into the rows under the line
/// by byte too; on ASCII text a column is a character.
#[derive(Debug)]
pub enum LineAttachment {
    Highlight(char, Range<usize>, Option<String>),
}

/// The mathematical form of a highlight.
pub struct SpecHighlight {
    pub chr: char,
    pub start: nat,
    pub end: nat,
    pub reason: Option<Seq<char>>,
}

pub open spec fn opt_view(o: Option<String>) -> Option<Seq<char>> {
    match o {
        Some(s) => Some(s@),
        None => None,
    }
}

impl View for LineAttachment {
    type V = SpecHighlight;

    open spec fn view(&self) -> SpecHighlight {
        match self {
            LineAttachment::Highlight(c, r, l) => SpecHighlight {
                chr: *c,
                start: r.start as nat,
                end: r.end as nat,
                reason: opt_view(*l),
            },
        }
    }
}

impl LineAttachment {
    /// A copy of the attachment.
    pub fn copy(&self) -> (r: Self)
        ensures
            r@ == self@,
    {
        match self {
            LineAttachment::Highlight(c, range, label) => {
                let l = match label {
                    Some(s) => Some(s.clone()),
                    None => None,
                };
                LineAttachment::Highlight(*c, range.start..range.end, l)
            },
        }
    }
}

/// A source line: its text, its number, and the groups of attachments
/// drawn under it (their columns are byte offsets into the text).
#[derive(Debug)]
pub struct SourceLine(pub String, pub usize, pub Vec<Vec<LineAttachment>>);

pub struct SpecSourceLine {
    pub raw: Seq<char>,
    pub number: nat,
    pub groups: Seq<Seq<SpecHighlight>>,
}

pub open spec fn attachments_view(v: Seq<LineAttachment>) -> Seq<SpecHighlight> {
    Seq::new(v.len(), |i: int| v[i]@)
}

pub open spec fn groups_view(v: Seq<Vec<LineAttachment>>) -> Seq<Seq<SpecHighlight>> {
    Seq::new(v.len(), |i: int| attachments_view(v[i]@))
}

impl View for SourceLine {
    type V = SpecSourceLine;

    open spec fn view(&self) -> SpecSourceLine {
        SpecSourceLine { raw: self.0@, number: self.1 as nat, groups: groups_view(self.2@) }
    }
}

/// The first group that holds a highlight, if any.
pub open spec fn first_highlight_group(groups: Seq<Seq<SpecHighlight>>) -> Option<int> {
    if exists|g: int| 0 <= g < groups.len() && groups[g].len() > 0 {
        Some(
            choose|g: int|
                0 <= g < groups.len() && groups[g].len() > 0 && forall|h: int|
                    0 <= h < g ==> #[trigger] groups[h].len() == 0,
        )
    } else {
        None
    }
}

/// The groups after adding the highlight `a`: it joins the first group
/// that holds a highlight, or forms a group of its own if there is none.
pub open spec fn add_to_groups(groups: Seq<Seq<SpecHighlight>>, a: SpecHighlight) -> Seq<Seq<SpecHighlight>> {
    match first_highlight_group(groups) {
        Some(g) => groups.update(g, groups[g].push(a)),
        None => groups.push(seq![a]),
    }
}

/// `n` spaces.
pub open spec fn spaces(n: nat) -> Seq<char> {
    Seq::new(n, |i: int| ' ')
}

/// `c`, `n` times.
pub open spec fn repeated(c: char, n: nat) -> Seq<char> {
    Seq::new(n, |i: int| c)
}

/// A new output line: the line number (if any) right-aligned in
/// `max_digits` columns between a space and ` | `.
pub open spec fn line_start(number: Option<nat>, max_digits: nat) -> Seq<char> {
    let ns = match number {
        Some(x) => decimal(x),
        None => seq![],
    };
    seq![' '] + spaces((max_digits - ns.len()) as nat) + ns + seq![' ', '|', ' ']
}

/// The line `data` padded with spaces until it takes at least `upper`
/// bytes.
pub open spec fn padded_line(data: Seq<char>, upper: nat) -> Seq<char> {
    if utf8_len(data) < upper {
        data + spaces((upper - utf8_len(data)) as nat)
    } else {
        data
    }
}

/// `s` written over `data` from the byte column `i` after the prefix: the
/// line is padded with spaces until it reaches the end of `s`, then the
/// bytes from `i` that `s` takes are replaced by `s`. Columns and lengths
/// are counted in bytes of UTF-8, as `str` indexes a line.
pub open spec fn line_insert(data: Seq<char>, prefix: nat, i: nat, s: Seq<char>) -> Seq<char> {
    let upper = i + utf8_len(s) + prefix;
    let padded = padded_line(data, upper);
    padded.take(char_index(padded, i + prefix)) + s + padded.skip(char_index(padded, upper))
}

/// Both ends of the bytes that [`line_insert`] replaces fall between two
/// characters of the padded line (a range of bytes that splits a
/// character cannot be replaced).
pub open spec fn insert_on_boundaries(data: Seq<char>, prefix: nat, i: nat, s: Seq<char>) -> bool {
    let upper = i + utf8_len(s) + prefix;
    let padded = padded_line(data, upper);
    byte_boundary(padded, i + prefix) && byte_boundary(padded, upper)
}

/// An output line being drawn.
struct Line {
    data: Vec<char>,
    prefix_len: usize,
}

impl Line {
    /// A line that starts with `number` (if any) in `max_digits` columns.
    fn new(number: Option<usize>, max_digits: usize) -> (r: Self)
        requires
            max_digits + 4 <= usize::MAX,
            number matches Some(x) ==> decimal(x as nat).len() <= max_digits,
        ensures
            r.data@ == line_start(
                match number {
                    Some(x) => Some(x as nat),
                    None => None,
                },
                max_digits as nat,
            ),
            r.prefix_len == max_digits + 4,
    {
        let number_str = match number {
            Some(x) => decimal_chars(x),
            None => Vec::new(),
        };
        let mut data: Vec<char> = Vec::new();
        data.push(' ');
        let mut k: usize = 0;
        let pad = max_digits - number_str.len();
        while k < pad
            invariant
                k <= pad,
                data@ == seq![' '] + spaces(k as nat),
            decreases pad - k,
        {
            data.push(' ');
            k = k + 1;
            assert(data@ =~= seq![' '] + spaces(k as nat));
        }
        extend_vec(&mut data, &number_str);
        data.push(' ');
        data.push('|');
        data.push(' ');
        let r = Line { data, prefix_len: max_digits + 4 };
        assert(r.data@ =~= line_start(
            match number {
                Some(x) => Some(x as nat),
                None => None,
            },
            max_digits as nat,
        ));
        r
    }

    /// Appends `s`.
    fn add_raw(&mut self, s: &Vec<char>)
        ensures
            final(self).data@ == old(self).data@ + s@,
            final(self).prefix_len == old(self).prefix_len,
    {
        extend_vec(&mut self.data, s);
    }

    /// Appends `offset` spaces.
    fn add_offset(&mut self, offset: usize)
        ensures
            final(self).data@ == old(self).data@ + spaces(offset as nat),
            final(self).prefix_len == old(self).prefix_len,
    {
        let mut k: usize = 0;
        while k < offset
            invariant
                k <= offset,
                self.data@ == old(self).data@ + spaces(k as nat),
                self.prefix_len == old(self).prefix_len,
            decreases offset - k,
        {
            self.data.push(' ');
            k = k + 1;
            assert(self.data@ =~= old(self).data@ + spaces(k as nat));
        }
    }

    /// Writes `s` from the byte column `i` after the prefix.
    fn insert(&mut self, i: usize, s: &Vec<char>)
        requires
            i + utf8_len(s@) + old(self).prefix_len <= usize::MAX,
            insert_on_boundaries(old(self).data@, old(self).prefix_len as nat, i as nat, s@),
        ensures
            final(self).data@ == line_insert(old(self).data@, old(self).prefix_len as nat, i as nat, s@),
            final(self).prefix_len == old(self).prefix_len,
    {
        proof {
            assert(s@.subrange(0, s@.len() as int) =~= s@);
        }
        let width = utf8_len_of(s, 0, s.len());
        let upper_bound = i + width + self.prefix_len;
        let start = i + self.prefix_len;
        let (n, len) = walk_bytes(&self.data, upper_bound);
        if n == self.data.len() && len < upper_bound {
            proof {
                assert(self.data@.take(n as int) =~= self.data@);
            }
            self.add_offset(upper_bound - len);
            proof {
                lemma_utf8_len_concat(old(self).data@, spaces((upper_bound - len) as nat));
                lemma_utf8_len_spaces((upper_bound - len) as nat);
            }
        } else {
            proof {
                if n < self.data@.len() {
                    assert(self.data@ =~= self.data@.take(n + 1) + self.data@.skip(n + 1));
                    lemma_utf8_len_concat(self.data@.take(n + 1), self.data@.skip(n + 1));
                } else {
                    assert(self.data@.take(n as int) =~= self.data@);
                }
            }
        }
        let ghost padded = self.data@;
        assert(padded == padded_line(old(self).data@, upper_bound as nat));
        let (a, _) = walk_bytes(&self.data, start);
        let (b, _) = walk_bytes(&self.data, upper_bound);
        let mut out: Vec<char> = Vec::new();
        let mut k: usize = 0;
        while k < a
            invariant
                k <= a <= padded.len(),
                self.data@ == padded,
                out@ == padded.take(k as int),
            decreases a - k,
        {
            out.push(self.data[k]);
            k = k + 1;
            assert(out@ =~= padded.take(k as int));
        }
        extend_vec(&mut out, s);
        let mut k: usize = b;
        while k < self.data.len()
            invariant
                b <= k <= padded.len(),
                self.data@ == padded,
                out@ == padded.take(a as int) + s@ + padded.subrange(b as int, k as int),
            decreases self.data.len() - k,
        {
            out.push(self.data[k]);
            k = k + 1;
            assert(out@ =~= padded.take(a as int) + s@ + padded.subrange(b as int, k as int));
        }
        assert(padded.subrange(b as int, k as int) =~= padded.skip(b as int));
        self.data = out;
    }
}

impl SourceLine {
    /// The line `s`, numbered `n`, with nothing drawn under it.
    pub fn new(s: String, n: usize) -> (r: Self)
        ensures
            r@ == (SpecSourceLine { raw: s@, number: n as nat, groups: seq![] }),
    {
        let r = SourceLine(s, n, Vec::new());
        assert(groups_view(r.2@) =~= Seq::<Seq<SpecHighlight>>::empty());
        r
    }

    /// Adds `attachment` to the first group of highlights, or as a group
    /// of its own if there is none.
    pub fn add_attachment(&mut self, attachment: LineAttachment)
        ensures
            final(self)@.raw == old(self)@.raw,
            final(self)@.number == old(self)@.number,
            final(self)@.groups == add_to_groups(old(self)@.groups, attachment@),
    {
        let ghost gv = old(self)@.groups;
        let mut g: usize = 0;
        while g < self.2.len()
            invariant
                g <= self.2@.len(),
                *self == *old(self),
                gv == groups_view(self.2@),
                forall|h: int| 0 <= h < g ==> #[trigger] gv[h].len() == 0,
            decreases self.2.len() - g,
        {
            if self.2[g].len() > 0 {
                proof {
                    assert(gv[g as int].len() > 0);
                    let f = first_highlight_group(gv);
                    assert(f is Some);
                    let c = f->0;
                    if c < g {
                        assert(gv[c].len() == 0);
                    }
                    if c > g {
                        assert(gv[g as int].len() == 0);
                    }
                }
                self.2[g].push(attachment);
                proof {
                    assert(attachments_view(self.2@[g as int]@) =~= gv[g as int].push(attachment@));
                    assert(groups_view(self.2@) =~= gv.update(g as int, gv[g as int].push(attachment@)));
                }
                return;
            }
            g = g + 1;
        }
        proof {
            assert(first_highlight_group(gv) is None);
        }
        let mut group: Vec<LineAttachment> = Vec::new();
        group.push(attachment);
        self.2.push(group);
        proof {
            assert(attachments_view(group@) =~= seq![attachment@]);
            assert(groups_view(self.2@) =~= gv.push(seq![attachment@]));
        }
    }
}

/// `h` placed after the last item of `s` that starts no later than it
/// (searching from the end).
pub open spec fn insert_by_start(s: Seq<SpecHighlight>, h: SpecHighlight) -> Seq<SpecHighlight>
    decreases s.len(),
{
    if s.len() == 0 {
        seq![h]
    } else if s.last().start <= h.start {
        s.push(h)
    } else {
        insert_by_start(s.drop_last(), h).push(s.last())
    }
}

/// The highlights ordered by start column, highlights with the same start
/// kept in their order (a stable sort).
pub open spec fn sort_by_start(s: Seq<SpecHighlight>) -> Seq<SpecHighlight>
    decreases s.len(),
{
    if s.len() == 0 {
        s
    } else {
        insert_by_start(sort_by_start(s.drop_last()), s.last())
    }
}

proof fn lemma_insert_by_start(s: Seq<SpecHighlight>, h: SpecHighlight, k: int)
    requires
        0 <= k <= s.len(),
        k == 0 || s[k - 1].start <= h.start,
        forall|j: int| k <= j < s.len() ==> #[trigger] s[j].start > h.start,
    ensures
        insert_by_start(s, h) == s.take(k).push(h) + s.skip(k),
    decreases s.len(),
{
    if s.len() == 0 {
        assert(s.take(k).push(h) + s.skip(k) =~= seq![h]);
    } else if s.last().start <= h.start {
        assert(k == s.len());
        assert(s.take(k).push(h) + s.skip(k) =~= s.push(h));
    } else {
        let t = s.drop_last();
        assert(k < s.len());
        assert forall|j: int| k <= j < t.len() implies #[trigger] t[j].start > h.start by {
            assert(t[j] == s[j]);
        }
        lemma_insert_by_start(t, h, k);
        assert(t.take(k).push(h) + t.skip(k) + seq![s.last()] =~= s.take(k).push(h) + s.skip(k));
    }
}

/// The first column an attachment covers.
fn start_of(a: &LineAttachment) -> (r: usize)
    ensures
        r == a@.start,
{
    match a {
        LineAttachment::Highlight(_, range, _) => range.start,
    }
}

/// The attachments ordered by start column, stably.
fn sort_attachments(v: Vec<LineAttachment>) -> (r: Vec<LineAttachment>)
    ensures
        attachments_view(r@) == sort_by_start(attachments_view(v@)),
{
    let ghost av = attachments_view(v@);
    let mut out: Vec<LineAttachment> = Vec::new();
    let mut i: usize = 0;
    proof {
        assert(av.take(0) =~= Seq::<SpecHighlight>::empty());
        assert(attachments_view(out@) =~= Seq::<SpecHighlight>::empty());
    }
    while i < v.len()
        invariant
            i <= v@.len(),
            av == attachments_view(v@),
            attachments_view(out@) == sort_by_start(av.take(i as int)),
        decreases v.len() - i,
    {
        let h = v[i].copy();
        let hs = start_of(&h);
        let ghost ov = attachments_view(out@);
        let mut k: usize = out.len();
        while k > 0 && start_of(&out[k - 1]) > hs
            invariant
                k <= out@.len(),
                ov == attachments_view(out@),
                hs == h@.start,
                forall|j: int| k <= j < ov.len() ==> #[trigger] ov[j].start > h@.start,
            decreases k,
        {
            k = k - 1;
        }
        proof {
            if k > 0 {
                assert(ov[k - 1].start <= h@.start);
            }
            lemma_insert_by_start(ov, h@, k as int);
            assert(av.take(i + 1).drop_last() =~= av.take(i as int));
            assert(av.take(i + 1).last() == h@);
        }
        out.insert(k, h);
        proof {
            assert(attachments_view(out@) =~= ov.take(k as int).push(h@) + ov.skip(k as int));
        }
        i = i + 1;
    }
    proof {
        assert(av.take(i as int) =~= av);
    }
    out
}

/// The text of a highlight's label, or nothing.
pub open spec fn label_text(h: SpecHighlight) -> Seq<char> {
    match h.reason {
        Some(r) => r,
        None => seq![],
    }
}

/// Row `x` of the rows under a line after the label lines of highlight
/// `i` (of `depth`) are drawn: a label is drawn on the row `depth - 1 - i`
/// as `⌊ ` and its text, with `|` above it on the rows between.
pub open spec fn label_row(row: Seq<char>, prefix: nat, depth: nat, i: nat, x: int, h: SpecHighlight) -> Seq<char> {
    if 1 <= x && x + i + 1 < depth {
        line_insert(row, prefix, h.start, seq!['|'])
    } else if x + i + 1 == depth {
        line_insert(row, prefix, h.start, seq!['⌊', ' '] + label_text(h))
    } else {
        row
    }
}

/// The rows under a line after highlight `i` (of `depth`, in order of
/// start) is drawn: its marks on the first row; its label below it if it
/// has one and is not the last, otherwise after its marks.
pub open spec fn hl_apply(buf: Seq<Seq<char>>, prefix: nat, depth: nat, i: nat, h: SpecHighlight) -> Seq<
    Seq<char>,
> {
    let b0 = buf.update(0, line_insert(buf[0], prefix, h.start, repeated(h.chr, (h.end - h.start) as nat)));
    if h.reason is Some && i + 1 < depth {
        Seq::new(b0.len(), |x: int| label_row(b0[x], prefix, depth, i, x, h))
    } else {
        b0.update(0, line_insert(b0[0], prefix, h.end + 1, label_text(h)))
    }
}

/// The rows after drawing the highlights `hs` from the `i`-th on.
pub open spec fn hl_fold(buf: Seq<Seq<char>>, prefix: nat, hs: Seq<SpecHighlight>, i: nat) -> Seq<Seq<char>>
    decreases hs.len() - i,
{
    if i >= hs.len() {
        buf
    } else {
        hl_fold(hl_apply(buf, prefix, hs.len(), i, hs[i as int]), prefix, hs, i + 1)
    }
}

/// The rows drawn under a line for a group of highlights: one per
/// highlight, each starting blank.
pub open spec fn draw_highlights(hs: Seq<SpecHighlight>, max_digits: nat) -> Seq<Seq<char>> {
    let o = sort_by_start(hs);
    hl_fold(Seq::new(o.len(), |x: int| line_start(None, max_digits)), max_digits + 4, o, 0)
}

/// Each of the writes that [`label_row`] makes falls between characters.
pub open spec fn label_row_fits(row: Seq<char>, prefix: nat, depth: nat, i: nat, x: int, h: SpecHighlight) -> bool {
    if 1 <= x && x + i + 1 < depth {
        insert_on_boundaries(row, prefix, h.start, seq!['|'])
    } else if x + i + 1 == depth {
        insert_on_boundaries(row, prefix, h.start, seq!['⌊', ' '] + label_text(h))
    } else {
        true
    }
}

/// Each of the writes that [`hl_apply`] makes falls between characters.
pub open spec fn hl_apply_fits(buf: Seq<Seq<char>>, prefix: nat, depth: nat, i: nat, h: SpecHighlight) -> bool {
    let marks = repeated(h.chr, (h.end - h.start) as nat);
    let b0 = buf.update(0, line_insert(buf[0], prefix, h.start, marks));
    &&& insert_on_boundaries(buf[0], prefix, h.start, marks)
    &&& if h.reason is Some && i + 1 < depth {
        forall|x: int| 0 <= x < b0.len() ==> #[trigger] label_row_fits(b0[x], prefix, depth, i, x, h)
    } else {
        insert_on_boundaries(b0[0], prefix, h.end + 1, label_text(h))
    }
}

/// Each of the writes that [`hl_fold`] makes falls between characters.
pub open spec fn hl_fold_fits(buf: Seq<Seq<char>>, prefix: nat, hs: Seq<SpecHighlight>, i: nat) -> bool
    decreases hs.len() - i,
{
    if i >= hs.len() {
        true
    } else {
        hl_apply_fits(buf, prefix, hs.len(), i, hs[i as int]) && hl_fold_fits(
            hl_apply(buf, prefix, hs.len(), i, hs[i as int]),
            prefix,
            hs,
            i + 1,
        )
    }
}

/// No column of a highlight overflows a machine number.
pub open spec fn highlight_in_range(h: SpecHighlight, max_digits: nat) -> bool {
    &&& h.start <= h.end
    &&& h.start + utf8_len(repeated(h.chr, (h.end - h.start) as nat)) + max_digits + 4 <= usize::MAX
    &&& h.start + utf8_len(seq!['⌊', ' '] + label_text(h)) + max_digits + 4 <= usize::MAX
    &&& h.start + 1 + max_digits + 4 <= usize::MAX
    &&& h.end + 1 + utf8_len(label_text(h)) + max_digits + 4 <= usize::MAX
}

/// The highlights can be drawn: no column overflows, and every write
/// falls between characters.
pub open spec fn highlights_fit(hs: Seq<SpecHighlight>, max_digits: nat) -> bool {
    &&& forall|k: int| 0 <= k < hs.len() ==> highlight_in_range(#[trigger] hs[k], max_digits)
    &&& hl_fold_fits(
        Seq::new(sort_by_start(hs).len(), |x: int| line_start(None, max_digits)),
        max_digits + 4,
        sort_by_start(hs),
        0,
    )
}

spec fn lines_view(v: Seq<Line>) -> Seq<Seq<char>> {
    Seq::new(v.len(), |k: int| v[k].data@)
}

/// `c`, `n` times.
fn repeat_char(c: char, n: usize) -> (r: Vec<char>)
    ensures
        r@ == repeated(c, n as nat),
{
    let mut r: Vec<char> = Vec::new();
    let mut k: usize = 0;
    while k < n
        invariant
            k <= n,
            r@ == repeated(c, k as nat),
        decreases n - k,
    {
        r.push(c);
        k = k + 1;
        assert(r@ =~= repeated(c, k as nat));
    }
    r
}

proof fn lemma_sorted_perm(s: Seq<SpecHighlight>)
    ensures
        sort_by_start(s).len() == s.len(),
        forall|k: int| 0 <= k < s.len() ==> exists|m: int| 0 <= m < s.len() && #[trigger] sort_by_start(s)[k] == s[m],
    decreases s.len(),
{
    if s.len() > 0 {
        let t = s.drop_last();
        lemma_sorted_perm(t);
        lemma_insert_perm(sort_by_start(t), s.last());
        let o = sort_by_start(s);
        assert forall|k: int| 0 <= k < s.len() implies exists|m: int| 0 <= m < s.len() && #[trigger] o[k] == s[m] by {
            if o[k] == s.last() {
                assert(s[s.len() - 1] == s.last());
            } else {
                let k2 = choose|k2: int| 0 <= k2 < t.len() && sort_by_start(t)[k2] == o[k];
                let m = choose|m: int| 0 <= m < t.len() && #[trigger] sort_by_start(t)[k2] == t[m];
                assert(s[m] == t[m]);
            }
        }
    }
}

proof fn lemma_insert_perm(s: Seq<SpecHighlight>, h: SpecHighlight)
    ensures
        insert_by_start(s, h).len() == s.len() + 1,
        forall|k: int| 0 <= k < s.len() + 1 ==> #[trigger] insert_by_start(s, h)[k] == h || exists|m: int| 0 <= m < s.len() && insert_by_start(s, h)[k] == s[m],
    decreases s.len(),
{
    if s.len() > 0 && s.last().start > h.start {
        let t = s.drop_last();
        lemma_insert_perm(t, h);
        let o = insert_by_start(s, h);
        assert forall|k: int| 0 <= k < s.len() + 1 implies #[trigger] o[k] == h || exists|m: int| 0 <= m < s.len() && o[k] == s[m] by {
            if k == s.len() {
                assert(o[k] == s[s.len() - 1]);
            } else if insert_by_start(t, h)[k] != h {
                let m = choose|m: int| 0 <= m < t.len() && insert_by_start(t, h)[k] == t[m];
                assert(s[m] == t[m]);
            }
        }
    } else if s.len() > 0 {
        let o = insert_by_start(s, h);
        assert forall|k: int| 0 <= k < s.len() + 1 implies #[trigger] o[k] == h || exists|m: int| 0 <= m < s.len() && o[k] == s[m] by {
            if k < s.len() {
                assert(o[k] == s[k]);
            }
        }
    }
}

/// A plain-text error report under construction: its kind and summary
/// (defaults are used where they are not given) and its source lines,
/// kept in order of line number, one per number.
#[derive(Debug)]
pub struct ErrorBuilder {
    pub error_type: Option<String>,
    pub summary: Option<String>,
    pub lines: Vec<SourceLine>,
}

impl ErrorBuilder {
    /// Draws a group of highlights under `lines[0]`: the rows are inserted
    /// right after it.
    fn parse_highlights(lines: &mut Vec<Line>, attachments: Vec<LineAttachment>, max: usize)
        requires
            old(lines)@.len() >= 1,
            forall|k: int| 0 <= k < old(lines)@.len() ==> (#[trigger] old(lines)@[k]).prefix_len == max + 4,
            max + 4 <= usize::MAX,
            highlights_fit(attachments_view(attachments@), max as nat),
        ensures
            lines_view(final(lines)@) == lines_view(old(lines)@).take(1) + draw_highlights(
                attachments_view(attachments@),
                max as nat,
            ) + lines_view(old(lines)@).skip(1),
            forall|k: int| 0 <= k < final(lines)@.len() ==> (#[trigger] final(lines)@[k]).prefix_len == max + 4,
    {
        let ghost hs = attachments_view(attachments@);
        let ordered = sort_attachments(attachments);
        let ghost o = attachments_view(ordered@);
        proof {
            lemma_sorted_perm(hs);
            assert forall|k: int| 0 <= k < o.len() implies highlight_in_range(#[trigger] o[k], max as nat) by {
                let m = choose|m: int| 0 <= m < hs.len() && #[trigger] sort_by_start(hs)[k] == hs[m];
                assert(hs[m] == o[k]);
            }
        }
        let depth = ordered.len();
        let prefix = max + 4;
        let mut buffer: Vec<Line> = Vec::new();
        while buffer.len() < depth
            invariant
                buffer@.len() <= depth,
                max + 4 <= usize::MAX,
                forall|k: int| 0 <= k < buffer@.len() ==> (#[trigger] buffer@[k]).prefix_len == max + 4,
                lines_view(buffer@) == Seq::new(buffer@.len(), |x: int| line_start(None, max as nat)),
            decreases depth - buffer.len(),
        {
            let ghost pre = lines_view(buffer@);
            let l = Line::new(None, max);
            assert(l.data@ == line_start(None, max as nat));
            buffer.push(l);
            assert(lines_view(buffer@) =~= pre.push(l.data@));
            assert(lines_view(buffer@) =~= Seq::new(buffer@.len(), |x: int| line_start(None, max as nat)));
        }
        let ghost init = lines_view(buffer@);
        assert(init =~= Seq::new(o.len(), |x: int| line_start(None, max as nat)));
        let mut i: usize = 0;
        while i < depth
            invariant
                i <= depth,
                depth == ordered@.len(),
                o == attachments_view(ordered@),
                prefix == max + 4,
                buffer@.len() == depth,
                forall|k: int| 0 <= k < buffer@.len() ==> (#[trigger] buffer@[k]).prefix_len == prefix,
                forall|k: int| 0 <= k < o.len() ==> highlight_in_range(#[trigger] o[k], max as nat),
                hl_fold(init, prefix as nat, o, 0) == hl_fold(lines_view(buffer@), prefix as nat, o, i as nat),
                hl_fold_fits(lines_view(buffer@), prefix as nat, o, i as nat),
            decreases depth - i,
        {
            let ghost h = o[i as int];
            let ghost bv = lines_view(buffer@);
            let (chr, start, end, reason) = match &ordered[i] {
                LineAttachment::Highlight(c, r, l) => (*c, r.start, r.end, l),
            };
            assert(h == o[i as int]);
            assert(highlight_in_range(h, max as nat));
            assert(hl_apply_fits(bv, prefix as nat, depth as nat, i as nat, h));
            assert(hl_fold_fits(hl_apply(bv, prefix as nat, depth as nat, i as nat, h), prefix as nat, o, (i + 1) as nat));
            let marks = repeat_char(chr, end - start);
            buffer[0].insert(start, &marks);
            let ghost b0 = lines_view(buffer@);
            assert(b0 =~= bv.update(0, line_insert(bv[0], prefix as nat, h.start, repeated(h.chr, (h.end - h.start) as nat))));
            match reason {
                Some(r) => {
                    if i < depth - 1 {
                        assert(label_text(h) == r@);
                        let mut label: Vec<char> = Vec::new();
                        label.push('⌊');
                        label.push(' ');
                        let text = str_to_chars(r.as_str());
                        extend_vec(&mut label, &text);
                        let mut bar: Vec<char> = Vec::new();
                        bar.push('|');
                        let mut j: usize = 1;
                        while j < depth - i
                            invariant
                                1 <= j <= depth - i,
                                i < depth,
                                buffer@.len() == depth,
                                b0.len() == depth,
                                prefix == max + 4,
                                h.start == start,
                                start <= h.end,
                                highlight_in_range(h, max as nat),
                                hl_apply_fits(bv, prefix as nat, depth as nat, i as nat, h),
                                h.reason is Some,
                                b0 == bv.update(0, line_insert(bv[0], prefix as nat, h.start, repeated(h.chr, (h.end - h.start) as nat))),
                                label@ == seq!['⌊', ' '] + label_text(h),
                                bar@ == seq!['|'],
                                forall|k: int| 0 <= k < buffer@.len() ==> (#[trigger] buffer@[k]).prefix_len == prefix,
                                forall|x: int|
                                    0 <= x < depth ==> #[trigger] lines_view(buffer@)[x] == if x < j {
                                        label_row(b0[x], prefix as nat, depth as nat, i as nat, x, h)
                                    } else {
                                        b0[x]
                                    },
                            decreases depth - i - j,
                        {
                            let ghost pre = lines_view(buffer@);
                            assert(pre[j as int] == b0[j as int]);
                            assert(label_row_fits(b0[j as int], prefix as nat, depth as nat, i as nat, j as int, h));
                            proof {
                                lemma_char_utf8_len('|');
                            }
                            if j < depth - i - 1 {
                                buffer[j].insert(start, &bar);
                            } else {
                                buffer[j].insert(start, &label);
                            }
                            proof {
                                assert forall|x: int|
                                    0 <= x < depth implies #[trigger] lines_view(buffer@)[x] == if x < j + 1 {
                                        label_row(b0[x], prefix as nat, depth as nat, i as nat, x, h)
                                    } else {
                                        b0[x]
                                    } by {
                                    if x != j {
                                        assert(pre[x] == lines_view(buffer@)[x]);
                                    }
                                }
                            }
                            j = j + 1;
                        }
                        proof {
                            assert(lines_view(buffer@) =~= hl_apply(bv, prefix as nat, depth as nat, i as nat, h));
                        }
                    } else {
                        let label = str_to_chars(r.as_str());
                        buffer[0].insert(end + 1, &label);
                        proof {
                            assert(lines_view(buffer@) =~= hl_apply(bv, prefix as nat, depth as nat, i as nat, h));
                        }
                    }
                },
                None => {
                    let label: Vec<char> = Vec::new();
                    buffer[0].insert(end + 1, &label);
                    proof {
                        assert(lines_view(buffer@) =~= hl_apply(bv, prefix as nat, depth as nat, i as nat, h));
                    }
                },
            }
            i = i + 1;
        }
        proof {
            assert(init =~= Seq::new(o.len(), |x: int| line_start(None, max as nat)));
        }
        let ghost drawn = lines_view(buffer@);
        let ghost before = lines_view(old(lines)@);
        let mut b = buffer;
        while b.len() > 0
            invariant
                b@.len() <= drawn.len(),
                lines_view(b@) == drawn.take(b@.len() as int),
                lines@.len() >= 1,
                before.len() >= 1,
                lines_view(lines@) == before.take(1) + drawn.skip(b@.len() as int) + before.skip(1),
                forall|k: int| 0 <= k < b@.len() ==> (#[trigger] b@[k]).prefix_len == max + 4,
                forall|k: int| 0 <= k < lines@.len() ==> (#[trigger] lines@[k]).prefix_len == max + 4,
            decreases b.len(),
        {
            let ghost pb = b@;
            let a = b.pop().unwrap();
            proof {
                assert(b@ =~= pb.drop_last());
                assert(a == pb[pb.len() - 1]);
                assert(lines_view(pb)[pb.len() - 1] == a.data@);
                assert(lines_view(b@) =~= drawn.take(b@.len() as int));
            }
            let ghost pre = lines_view(lines@);
            assert(a.data@ == drawn[b@.len() as int]);
            assert(drawn.skip(b@.len() as int) =~= seq![a.data@] + drawn.skip(b@.len() as int + 1));
            lines.insert(1, a);
            proof {
                assert(lines_view(lines@) =~= pre.insert(1, a.data@));
                assert(lines_view(lines@) =~= before.take(1) + drawn.skip(b@.len() as int) + before.skip(1));
            }
        }
        proof {
            assert(drawn.skip(0) =~= drawn);
        }
    }
}

/// The rows for a line after its groups of highlights are drawn, each
/// group's rows right under the line, before those of earlier groups.
pub open spec fn groups_fold(rows: Seq<Seq<char>>, groups: Seq<Seq<SpecHighlight>>, max_digits: nat) -> Seq<
    Seq<char>,
>
    decreases groups.len(),
{
    if groups.len() == 0 {
        rows
    } else {
        groups_fold(
            rows.take(1) + draw_highlights(groups[0], max_digits) + rows.skip(1),
            groups.drop_first(),
            max_digits,
        )
    }
}

/// The rows drawn for a source line: the numbered line, the rows of its
/// highlights, and a blank row.
pub open spec fn source_rows(sl: SpecSourceLine, max_digits: nat) -> Seq<Seq<char>> {
    groups_fold(seq![line_start(Some(sl.number), max_digits) + sl.raw], sl.groups, max_digits).push(
        line_start(None, max_digits),
    )
}

/// The text drawn for a source line: its rows, one per text line.
#[verifier::opaque]
pub open spec fn render_source_line(sl: SpecSourceLine, max_digits: nat) -> Seq<char> {
    seq_join(source_rows(sl, max_digits), seq!['\n'])
}

/// Every group of the line holds a highlight, and they can be drawn.
pub open spec fn source_fits(sl: SpecSourceLine, max_digits: nat) -> bool {
    forall|g: int|
        0 <= g < sl.groups.len() ==> (#[trigger] sl.groups[g]).len() > 0 && highlights_fit(
            sl.groups[g],
            max_digits,
        )
}

pub open spec fn lines_seq_view(v: Seq<SourceLine>) -> Seq<SpecSourceLine> {
    Seq::new(v.len(), |i: int| v[i]@)
}

/// The mathematical form of an [`ErrorBuilder`].
pub struct SpecBuilder {
    pub error_type: Option<Seq<char>>,
    pub summary: Option<Seq<char>>,
    pub lines: Seq<SpecSourceLine>,
}

impl View for ErrorBuilder {
    type V = SpecBuilder;

    open spec fn view(&self) -> SpecBuilder {
        SpecBuilder {
            error_type: opt_view(self.error_type),
            summary: opt_view(self.summary),
            lines: lines_seq_view(self.lines@),
        }
    }
}

/// The lines are in increasing order of number (so one per number).
pub open spec fn lines_sorted(ls: Seq<SpecSourceLine>) -> bool {
    forall|i: int, j: int| 0 <= i < j < ls.len() ==> (#[trigger] ls[i]).number < (#[trigger] ls[j]).number
}

/// The largest line number (`0` for no lines).
pub open spec fn max_number(ls: Seq<SpecSourceLine>) -> nat
    decreases ls.len(),
{
    if ls.len() == 0 {
        0
    } else {
        let m = max_number(ls.drop_last());
        if ls.last().number > m {
            ls.last().number
        } else {
            m
        }
    }
}

/// The width of the line-number column: the digits of the largest line
/// number (none without lines).
pub open spec fn max_digits(ls: Seq<SpecSourceLine>) -> nat {
    if ls.len() == 0 {
        0
    } else {
        decimal(max_number(ls)).len()
    }
}

/// The header: `[kind] summary`.
pub open spec fn header(b: SpecBuilder) -> Seq<char> {
    seq!['['] + match b.error_type {
        Some(t) => t,
        None => "Compile Error"@,
    } + seq![']', ' '] + match b.summary {
        Some(t) => t,
        None => "Error in compilation"@,
    } + seq!['\n']
}

/// The source lines drawn one after the other, `...` marking lines left
/// out between two of them; `prev` is the number of the line drawn last.
pub open spec fn render_lines(ls: Seq<SpecSourceLine>, max_digits: nat, prev: Option<nat>) -> Seq<char>
    decreases ls.len(),
{
    if ls.len() == 0 {
        seq![]
    } else {
        let gap = match prev {
            Some(p) => p < ls[0].number - 1,
            None => false,
        };
        (if gap {
            seq!['.', '.', '.', '\n']
        } else {
            seq![]
        }) + render_source_line(ls[0], max_digits) + seq!['\n'] + render_lines(
            ls.drop_first(),
            max_digits,
            Some(ls[0].number),
        )
    }
}

/// The whole report.
pub open spec fn render(b: SpecBuilder) -> Seq<char> {
    header(b) + render_lines(b.lines, max_digits(b.lines), None)
}

/// A machine number as a natural number.
pub open spec fn opt_nat(o: Option<usize>) -> Option<nat> {
    match o {
        Some(x) => Some(x as nat),
        None => None,
    }
}

/// `...` when a line was drawn before and the next one is not its
/// neighbour.
pub open spec fn gap_text(prev: Option<nat>, number: nat) -> Seq<char> {
    match prev {
        Some(p) => if p < number - 1 {
            seq!['.', '.', '.', '\n']
        } else {
            seq![]
        },
        None => seq![],
    }
}

proof fn lemma_render_step(ls: Seq<SpecSourceLine>, i: int, md: nat, prev: Option<nat>)
    requires
        0 <= i < ls.len(),
    ensures
        render_lines(ls.skip(i), md, prev) == gap_text(prev, ls[i].number) + render_source_line(ls[i], md)
            + seq!['\n'] + render_lines(ls.skip(i + 1), md, Some(ls[i].number)),
{
    assert(ls.skip(i)[0] == ls[i]);
    assert(ls.skip(i).drop_first() =~= ls.skip(i + 1));
}

proof fn lemma_max_number(ls: Seq<SpecSourceLine>)
    ensures
        forall|k: int| 0 <= k < ls.len() ==> (#[trigger] ls[k]).number <= max_number(ls),
        ls.len() > 0 ==> exists|k: int| 0 <= k < ls.len() && (#[trigger] ls[k]).number == max_number(ls),
    decreases ls.len(),
{
    if ls.len() > 0 {
        let t = ls.drop_last();
        lemma_max_number(t);
        assert forall|k: int| 0 <= k < ls.len() implies (#[trigger] ls[k]).number <= max_number(ls) by {
            if k < t.len() {
                assert(t[k] == ls[k]);
            }
        }
        if t.len() > 0 && ls.last().number <= max_number(t) {
            let k = choose|k: int| 0 <= k < t.len() && (#[trigger] t[k]).number == max_number(t);
            assert(ls[k] == t[k]);
        } else {
            assert(ls[ls.len() - 1] == ls.last());
        }
    }
}

fn copy_group(v: &Vec<LineAttachment>) -> (r: Vec<LineAttachment>)
    ensures
        attachments_view(r@) == attachments_view(v@),
{
    let mut r: Vec<LineAttachment> = Vec::new();
    let mut k: usize = 0;
    while k < v.len()
        invariant
            k <= v@.len(),
            r@.len() == k,
            forall|j: int| 0 <= j < k ==> (#[trigger] r@[j])@ == v@[j]@,
        decreases v.len() - k,
    {
        r.push(v[k].copy());
        k = k + 1;
    }
    assert(attachments_view(r@) =~= attachments_view(v@));
    r
}

impl ErrorBuilder {
    /// Draws a source line with the attachments under it.
    fn parse_source_line(source: &SourceLine, max: usize) -> (r: Vec<char>)
        requires
            max + 4 <= usize::MAX,
            decimal(source@.number).len() <= max,
            source_fits(source@, max as nat),
        ensures
            r@ == render_source_line(source@, max as nat),
    {
        let ghost sl = source@;
        let mut lines: Vec<Line> = Vec::new();
        let first = Line::new(Some(source.1), max);
        lines.push(first);
        let raw = str_to_chars(source.0.as_str());
        lines[0].add_raw(&raw);
        let ghost rows0 = seq![line_start(Some(sl.number), max as nat) + sl.raw];
        proof {
            assert(lines_view(lines@) =~= rows0);
            assert(sl.groups.skip(0) =~= sl.groups);
        }
        let mut g: usize = 0;
        while g < source.2.len()
            invariant
                g <= source.2@.len(),
                sl == source@,
                max + 4 <= usize::MAX,
                source_fits(sl, max as nat),
                lines@.len() >= 1,
                forall|k: int| 0 <= k < lines@.len() ==> (#[trigger] lines@[k]).prefix_len == max + 4,
                groups_fold(rows0, sl.groups, max as nat) == groups_fold(
                    lines_view(lines@),
                    sl.groups.skip(g as int),
                    max as nat,
                ),
            decreases source.2.len() - g,
        {
            let group = copy_group(&source.2[g]);
            proof {
                assert(sl.groups[g as int] == attachments_view(source.2@[g as int]@));
                assert(sl.groups.skip(g as int)[0] == sl.groups[g as int]);
                assert(sl.groups.skip(g as int).drop_first() =~= sl.groups.skip(g + 1));
            }
            let ghost before = lines_view(lines@);
            Self::parse_highlights(&mut lines, group, max);
            proof {
                assert(lines_view(lines@).len() == lines@.len());
                assert(before.take(1).len() == 1);
            }
            g = g + 1;
        }
        proof {
            assert(sl.groups.skip(g as int) =~= Seq::<Seq<SpecHighlight>>::empty());
        }
        let last = Line::new(None, max);
        let ghost pre = lines_view(lines@);
        lines.push(last);
        let ghost rows = lines_view(lines@);
        proof {
            assert(rows =~= pre.push(line_start(None, max as nat)));
            assert(rows == source_rows(sl, max as nat));
        }
        let mut out: Vec<char> = Vec::new();
        let mut k: usize = 0;
        while k < lines.len()
            invariant
                k <= lines@.len(),
                rows == lines_view(lines@),
                out@ == seq_join(rows.take(k as int), seq!['\n']),
            decreases lines.len() - k,
        {
            if k > 0 {
                out.push('\n');
            }
            extend_vec(&mut out, &lines[k].data);
            assert(rows.take(k + 1).drop_last() =~= rows.take(k as int));
            k = k + 1;
        }
        assert(rows.take(k as int) =~= rows);
        proof {
            reveal(render_source_line);
        }
        out
    }
}

impl ErrorBuilder {
    /// The lines are kept in increasing order of number.
    pub open spec fn wf(&self) -> bool {
        lines_sorted(self@.lines)
    }

    /// An empty report: default kind and summary, no lines.
    pub fn new() -> (r: Self)
        ensures
            r.wf(),
            r@ == (SpecBuilder { error_type: None, summary: None, lines: seq![] }),
    {
        let r = ErrorBuilder { error_type: None, summary: None, lines: Vec::new() };
        assert(r@.lines =~= Seq::<SpecSourceLine>::empty());
        r
    }

    /// Sets the summary.
    pub fn with_summary(&mut self, s: String) -> (r: &mut Self)
        ensures
            *r == (ErrorBuilder { summary: Some(s), ..*old(self) }),
            *final(self) == *final(r),
    {
        self.summary = Some(s);
        self
    }

    /// Sets the kind of error.
    pub fn with_type(&mut self, s: String) -> (r: &mut Self)
        ensures
            *r == (ErrorBuilder { error_type: Some(s), ..*old(self) }),
            *final(self) == *final(r),
    {
        self.error_type = Some(s);
        self
    }

    /// Adds a source line in its place by number; a line whose number is
    /// already there is dropped.
    pub fn with_source_line(&mut self, s: SourceLine) -> (r: &mut Self)
        requires
            old(self).wf(),
        ensures
            r.wf(),
            r.error_type == old(self).error_type,
            r.summary == old(self).summary,
            line_added(old(self)@.lines, r@.lines, s@),
            *final(self) == *final(r),
    {
        let ghost ls = self@.lines;
        let n = s.1;
        let mut lo: usize = 0;
        let mut hi: usize = self.lines.len();
        while lo < hi
            invariant
                lo <= hi <= self.lines@.len(),
                *self == *old(self),
                ls == self@.lines,
                lines_sorted(ls),
                n == s@.number,
                forall|k: int| 0 <= k < lo ==> (#[trigger] ls[k]).number < n,
                forall|k: int| hi <= k < ls.len() ==> (#[trigger] ls[k]).number > n,
            decreases hi - lo,
        {
            let mid = lo + (hi - lo) / 2;
            let m = self.lines[mid].1;
            assert(ls[mid as int].number == m);
            if m < n {
                lo = mid + 1;
                assert forall|k: int| 0 <= k < lo implies (#[trigger] ls[k]).number < n by {
                    if k < mid {
                        assert(ls[k].number < ls[mid as int].number);
                    }
                }
            } else if m == n {
                return self;
            } else {
                hi = mid;
                assert forall|k: int| hi <= k < ls.len() implies (#[trigger] ls[k]).number > n by {
                    if k > mid {
                        assert(ls[mid as int].number < ls[k].number);
                    }
                }
            }
        }
        proof {
            assert(!(exists|k: int| 0 <= k < ls.len() && (#[trigger] ls[k]).number == s@.number));
        }
        self.lines.insert(lo, s);
        proof {
            assert(self@.lines =~= ls.insert(lo as int, s@));
            assert forall|i: int, j: int|
                0 <= i < j < self@.lines.len() implies (#[trigger] self@.lines[i]).number < (
                #[trigger] self@.lines[j]).number by {
                let nl = self@.lines;
                if j < lo {
                    assert(nl[i] == ls[i] && nl[j] == ls[j]);
                } else if j == lo {
                    assert(nl[i] == ls[i]);
                } else if i < lo {
                    assert(nl[i] == ls[i] && nl[j] == ls[j - 1]);
                } else if i == lo {
                    assert(nl[j] == ls[j - 1]);
                } else {
                    assert(nl[i] == ls[i - 1] && nl[j] == ls[j - 1]);
                }
            }
        }
        self
    }

    /// The report as text: the header, then each source line (in order of
    /// number) with its highlights drawn under it, `...` between lines
    /// that are not neighbours.
    #[verifier::spinoff_prover]
    #[verifier::rlimit(40)]
    pub fn result(self) -> (r: String)
        requires
            self.wf(),
            forall|k: int|
                0 <= k < self@.lines.len() ==> source_fits(
                    #[trigger] self@.lines[k],
                    max_digits(self@.lines),
                ),
        ensures
            r@ == render(self@),
    {
        let ghost ls = self@.lines;
        proof {
            lemma_max_number(ls);
        }
        let mut max_num: usize = 0;
        let mut k: usize = 0;
        while k < self.lines.len()
            invariant
                k <= self.lines@.len(),
                ls == self@.lines,
                max_num == max_number(ls.take(k as int)),
            decreases self.lines.len() - k,
        {
            assert(ls.take(k + 1).drop_last() =~= ls.take(k as int));
            if self.lines[k].1 > max_num {
                max_num = self.lines[k].1;
            }
            k = k + 1;
        }
        assert(ls.take(k as int) =~= ls);
        let max_line_digits = if self.lines.len() == 0 {
            0
        } else {
            decimal_chars(max_num).len()
        };
        proof {
            lemma_usize_digits(max_num);
        }
        let mut out: Vec<char> = Vec::new();
        out.push('[');
        match &self.error_type {
            Some(t) => {
                let tc = str_to_chars(t.as_str());
                extend_vec(&mut out, &tc);
            },
            None => extend_chars(&mut out, "Compile Error"),
        }
        out.push(']');
        out.push(' ');
        match &self.summary {
            Some(t) => {
                let tc = str_to_chars(t.as_str());
                extend_vec(&mut out, &tc);
            },
            None => extend_chars(&mut out, "Error in compilation"),
        }
        out.push('\n');
        let ghost md = max_digits(ls);
        proof {
            assert(out@ =~= header(self@));
            assert(ls.skip(0) =~= ls);
        }
        let mut prev: Option<usize> = None;
        let mut i: usize = 0;
        while i < self.lines.len()
            invariant
                i <= self.lines@.len(),
                ls == self@.lines,
                lines_sorted(ls),
                md == max_line_digits,
                md <= 20,
                ls.len() > 0 ==> md == decimal(max_number(ls)).len(),
                forall|k: int| 0 <= k < ls.len() ==> (#[trigger] ls[k]).number <= max_number(ls),
                forall|k: int| 0 <= k < ls.len() ==> source_fits(#[trigger] ls[k], md),
                prev is None <==> i == 0,
                prev matches Some(p) ==> i > 0 && p == ls[i - 1].number,
                render(self@) == out@ + render_lines(ls.skip(i as int), md, opt_nat(prev)),
            decreases self.lines.len() - i,
        {
            let line = &self.lines[i];
            let line_number = line.1;
            assert(ls[i as int] == line@);
            let gap = match prev {
                Some(p) => {
                    assert(ls[i - 1].number < ls[i as int].number);
                    p < line_number - 1
                },
                None => false,
            };
            if gap {
                out.push('.');
                out.push('.');
                out.push('.');
                out.push('\n');
            }
            proof {
                lemma_decimal_len_mono(ls[i as int].number, max_number(ls));
                lemma_render_step(ls, i as int, md, opt_nat(prev));
            }
            let text = Self::parse_source_line(line, max_line_digits);
            extend_vec(&mut out, &text);
            out.push('\n');
            prev = Some(line_number);
            i = i + 1;
        }
        proof {
            assert(ls.skip(i as int) =~= Seq::<SpecSourceLine>::empty());
            assert(out@ + Seq::<char>::empty() =~= out@);
        }
        string_from_chars(out.as_slice())
    }
}

/// Some line of `ls` has the number `n`.
pub open spec fn has_number(ls: Seq<SpecSourceLine>, n: nat) -> bool {
    exists|k: int| 0 <= k < ls.len() && (#[trigger] ls[k]).number == n
}

/// `after` is `before` with the line `s` added in its place by number;
/// when a line with its number is there already, `after` is `before`.
pub open spec fn line_added(before: Seq<SpecSourceLine>, after: Seq<SpecSourceLine>, s: SpecSourceLine) -> bool {
    &&& has_number(before, s.number) ==> after == before
    &&& !has_number(before, s.number) ==> exists|p: int|
        0 <= p <= before.len() && after == before.insert(p, s) && (forall|k: int|
            0 <= k < p ==> (#[trigger] before[k]).number < s.number) && (forall|k: int|
            p <= k < before.len() ==> (#[trigger] before[k]).number > s.number)
}

/// Law: the lines of a report stay one per number, in order, and adding a
/// line adds its number. When `after` is what `with_source_line(s)` leaves
/// of `before`, its lines are in increasing order of number, and they hold
/// exactly the numbers of `before` and that of `s`.
pub proof fn law_lines_ordered(before: SpecBuilder, after: SpecBuilder, s: SpecSourceLine)
    requires
        lines_sorted(before.lines),
        line_added(before.lines, after.lines, s),
    ensures
        lines_sorted(after.lines),
        forall|n: nat|
            #[trigger] has_number(after.lines, n) <==> (has_number(before.lines, n) || n == s.number),
{
    if !has_number(before.lines, s.number) {
        let p = choose|p: int|
            0 <= p <= before.lines.len() && after.lines == before.lines.insert(p, s) && (forall|k: int|
                0 <= k < p ==> (#[trigger] before.lines[k]).number < s.number) && (forall|k: int|
                p <= k < before.lines.len() ==> (#[trigger] before.lines[k]).number > s.number);
        let ls = before.lines;
        let nl = after.lines;
        assert forall|i: int, j: int| 0 <= i < j < nl.len() implies (#[trigger] nl[i]).number < (
        #[trigger] nl[j]).number by {
            if j < p {
                assert(nl[i] == ls[i] && nl[j] == ls[j]);
            } else if j == p {
                assert(nl[i] == ls[i]);
            } else if i < p {
                assert(nl[i] == ls[i] && nl[j] == ls[j - 1]);
            } else if i == p {
                assert(nl[j] == ls[j - 1]);
            } else {
                assert(nl[i] == ls[i - 1] && nl[j] == ls[j - 1]);
            }
        }
        assert forall|n: nat| #[trigger] has_number(after.lines, n) <==> (has_number(before.lines, n) || n == s.number) by {
            if has_number(after.lines, n) {
                let k = choose|k: int| 0 <= k < after.lines.len() && (#[trigger] after.lines[k]).number == n;
                if k < p {
                    assert(before.lines[k] == after.lines[k]);
                } else if k > p {
                    assert(before.lines[k - 1] == after.lines[k]);
                }
            }
            if has_number(before.lines, n) {
                let k = choose|k: int| 0 <= k < before.lines.len() && (#[trigger] before.lines[k]).number == n;
                if k < p {
                    assert(after.lines[k] == before.lines[k]);
                } else {
                    assert(after.lines[k + 1] == before.lines[k]);
                }
            }
            if n == s.number {
                assert(after.lines[p] == s);
            }
        }
    }
}

/// Law: highlights added one after the other to a line that had none all
/// share one group, in the order they were added. When `states[0]` has no
/// group and each `states[i + 1]` is `states[i]` after
/// `add_attachment(atts[i])`, the last state is the one group `atts`.
pub proof fn law_attachments_share_one_group(states: Seq<Seq<Seq<SpecHighlight>>>, atts: Seq<SpecHighlight>)
    requires
        atts.len() >= 1,
        states.len() == atts.len() + 1,
        states[0] == Seq::<Seq<SpecHighlight>>::empty(),
        forall|i: int| 0 <= i < atts.len() ==> states[i + 1] == add_to_groups(states[i], #[trigger] atts[i]),
    ensures
        states[atts.len() as int] == seq![atts],
{
    lemma_groups_after(states, atts, atts.len() as int);
    assert(atts.take(atts.len() as int) =~= atts);
}

proof fn lemma_groups_after(states: Seq<Seq<Seq<SpecHighlight>>>, atts: Seq<SpecHighlight>, k: int)
    requires
        1 <= k <= atts.len(),
        states.len() == atts.len() + 1,
        states[0] == Seq::<Seq<SpecHighlight>>::empty(),
        forall|i: int| 0 <= i < atts.len() ==> states[i + 1] == add_to_groups(states[i], #[trigger] atts[i]),
    ensures
        states[k] == seq![atts.take(k)],
    decreases k,
{
    assert(states[k] == add_to_groups(states[k - 1], atts[k - 1]));
    if k == 1 {
        assert(first_highlight_group(states[0]) is None);
        assert(atts.take(1) =~= seq![atts[0]]);
        assert(states[1] =~= seq![atts.take(1)]);
    } else {
        lemma_groups_after(states, atts, k - 1);
        let gs = states[k - 1];
        assert(gs[0].len() > 0);
        let f = first_highlight_group(gs);
        assert(f is Some);
        assert(f->0 == 0);
        assert(atts.take(k - 1).push(atts[k - 1]) =~= atts.take(k));
        assert(states[k] =~= seq![atts.take(k)]);
    }
}

proof fn lemma_added_contains(before: Seq<SpecSourceLine>, after: Seq<SpecSourceLine>, s: SpecSourceLine)
    requires
        line_added(before, after, s),
    ensures
        forall|x: SpecSourceLine|
            #[trigger] after.contains(x) <==> (before.contains(x) || (x == s && !has_number(before, s.number))),
{
    if !has_number(before, s.number) {
        let p = choose|p: int|
            0 <= p <= before.len() && after == before.insert(p, s) && (forall|k: int|
                0 <= k < p ==> (#[trigger] before[k]).number < s.number) && (forall|k: int|
                p <= k < before.len() ==> (#[trigger] before[k]).number > s.number);
        assert forall|x: SpecSourceLine|
            #[trigger] after.contains(x) <==> (before.contains(x) || (x == s && !has_number(before, s.number))) by {
            if after.contains(x) {
                let k = choose|k: int| 0 <= k < after.len() && after[k] == x;
                if k < p {
                    assert(before[k] == x);
                } else if k > p {
                    assert(before[k - 1] == x);
                }
            }
            if before.contains(x) {
                let k = choose|k: int| 0 <= k < before.len() && before[k] == x;
                if k < p {
                    assert(after[k] == x);
                } else {
                    assert(after[k + 1] == x);
                }
            }
            if x == s {
                assert(after[p] == x);
            }
        }
    } else {
        assert forall|x: SpecSourceLine|
            #[trigger] after.contains(x) <==> (before.contains(x) || (x == s && !has_number(before, s.number))) by {
        }
    }
}

proof fn lemma_sorted_same_lines(xs: Seq<SpecSourceLine>, ys: Seq<SpecSourceLine>)
    requires
        lines_sorted(xs),
        lines_sorted(ys),
        forall|x: SpecSourceLine| #[trigger] xs.contains(x) <==> ys.contains(x),
    ensures
        xs == ys,
    decreases xs.len(),
{
    if xs.len() == 0 {
        if ys.len() > 0 {
            assert(ys.contains(ys[0]));
            assert(!xs.contains(ys[0]));
        }
        assert(xs =~= ys);
    } else {
        assert(xs.contains(xs[0]));
        let j = choose|j: int| 0 <= j < ys.len() && ys[j] == xs[0];
        assert(ys.contains(ys[0]));
        assert(xs.contains(ys[0]));
        let i = choose|i: int| 0 <= i < xs.len() && xs[i] == ys[0];
        if i > 0 {
            assert(xs[0].number < xs[i].number);
        }
        if j > 0 {
            assert(ys[0].number < ys[j].number);
        }
        assert(xs[0] == ys[0]);
        let xr = xs.drop_first();
        let yr = ys.drop_first();
        assert forall|a: int, b: int| 0 <= a < b < xr.len() implies (#[trigger] xr[a]).number < (#[trigger] xr[b]).number by {
            assert(xs[a + 1].number < xs[b + 1].number);
        }
        assert forall|a: int, b: int| 0 <= a < b < yr.len() implies (#[trigger] yr[a]).number < (#[trigger] yr[b]).number by {
            assert(ys[a + 1].number < ys[b + 1].number);
        }
        assert forall|x: SpecSourceLine| #[trigger] xr.contains(x) <==> yr.contains(x) by {
            if xr.contains(x) {
                let k = choose|k: int| 0 <= k < xr.len() && xr[k] == x;
                assert(xs[k + 1] == x);
                assert(xs.contains(x));
                let m = choose|m: int| 0 <= m < ys.len() && ys[m] == x;
                assert(xs[0].number < xs[k + 1].number);
                if m == 0 {
                    assert(false);
                }
                assert(yr[m - 1] == x);
            }
            if yr.contains(x) {
                let k = choose|k: int| 0 <= k < yr.len() && yr[k] == x;
                assert(ys[k + 1] == x);
                assert(ys.contains(x));
                assert(xs.contains(x));
                let m = choose|m: int| 0 <= m < xs.len() && xs[m] == x;
                assert(ys[0].number < ys[k + 1].number);
                if m == 0 {
                    assert(false);
                }
                assert(xr[m - 1] == x);
            }
        }
        lemma_sorted_same_lines(xr, yr);
        assert(xs =~= ys) by {
            assert forall|k: int| 0 <= k < xs.len() implies xs[k] == ys[k] by {
                if k > 0 {
                    assert(xs[k] == xr[k - 1]);
                    assert(ys[k] == yr[k - 1]);
                }
            }
        }
    }
}

/// Law: the order in which lines with different numbers are added does not
/// matter. Adding `a` then `b` to sorted lines `ls` (giving `x1` then `x`)
/// and adding `b` then `a` (giving `y1` then `y`) leave the same lines, so
/// a builder with either has the same `result`.
pub proof fn law_line_order_irrelevant(
    ls: Seq<SpecSourceLine>,
    a: SpecSourceLine,
    b: SpecSourceLine,
    x1: Seq<SpecSourceLine>,
    x: Seq<SpecSourceLine>,
    y1: Seq<SpecSourceLine>,
    y: Seq<SpecSourceLine>,
    error_type: Option<Seq<char>>,
    summary: Option<Seq<char>>,
)
    requires
        lines_sorted(ls),
        a.number != b.number,
        line_added(ls, x1, a),
        line_added(x1, x, b),
        line_added(ls, y1, b),
        line_added(y1, y, a),
    ensures
        x == y,
        render(SpecBuilder { error_type, summary, lines: x }) == render(
            SpecBuilder { error_type, summary, lines: y },
        ),
{
    let t = error_type;
    let m = summary;
    law_lines_ordered(SpecBuilder { error_type: t, summary: m, lines: ls }, SpecBuilder { error_type: t, summary: m, lines: x1 }, a);
    law_lines_ordered(SpecBuilder { error_type: t, summary: m, lines: x1 }, SpecBuilder { error_type: t, summary: m, lines: x }, b);
    law_lines_ordered(SpecBuilder { error_type: t, summary: m, lines: ls }, SpecBuilder { error_type: t, summary: m, lines: y1 }, b);
    law_lines_ordered(SpecBuilder { error_type: t, summary: m, lines: y1 }, SpecBuilder { error_type: t, summary: m, lines: y }, a);
    lemma_added_contains(ls, x1, a);
    lemma_added_contains(x1, x, b);
    lemma_added_contains(ls, y1, b);
    lemma_added_contains(y1, y, a);
    assert(has_number(x1, b.number) == has_number(ls, b.number));
    assert(has_number(y1, a.number) == has_number(ls, a.number));
    assert forall|z: SpecSourceLine| #[trigger] x.contains(z) <==> y.contains(z) by {
        assert(x1.contains(z) <==> (ls.contains(z) || (z == a && !has_number(ls, a.number))));
        assert(y1.contains(z) <==> (ls.contains(z) || (z == b && !has_number(ls, b.number))));
    }
    lemma_sorted_same_lines(x, y);
}

/// The line drawn just before the `j`-th one, if any.
pub open spec fn drawn_before(ls: Seq<SpecSourceLine>, j: int) -> Option<nat> {
    if j == 0 {
        None
    } else {
        Some(ls[j - 1].number)
    }
}

#[verifier::spinoff_prover]
proof fn lemma_render_prefix(ls: Seq<SpecSourceLine>, md: nat, j: int)
    requires
        0 <= j <= ls.len(),
    ensures
        exists|pre: Seq<char>|
            render_lines(ls, md, None) == #[trigger] (pre + render_lines(ls.skip(j), md, drawn_before(ls, j))),
    decreases j,
{
    if j == 0 {
        assert(ls.skip(0) =~= ls);
        assert(render_lines(ls, md, None) == Seq::<char>::empty() + render_lines(ls.skip(0), md, drawn_before(ls, 0)));
    } else {
        lemma_render_prefix(ls, md, j - 1);
        let pre = choose|pre: Seq<char>|
            render_lines(ls, md, None) == #[trigger] (pre + render_lines(ls.skip(j - 1), md, drawn_before(ls, j - 1)));
        lemma_render_step(ls, j - 1, md, drawn_before(ls, j - 1));
        let mid = gap_text(drawn_before(ls, j - 1), ls[j - 1].number) + render_source_line(ls[j - 1], md)
            + seq!['\n'];
        assert(render_lines(ls, md, None) == (pre + mid) + render_lines(ls.skip(j), md, drawn_before(ls, j)));
    }
}

/// Law: `...` marks exactly the lines left out. In the report of any
/// builder, between the drawings of two lines drawn one after the other
/// stands `...` and a line break when their numbers are more than one
/// apart (some line between them is not drawn), and nothing when they are
/// neighbours.
#[verifier::spinoff_prover]
pub proof fn law_gap_marks(b: SpecBuilder, i: int)
    requires
        0 < i < b.lines.len(),
    ensures
        b.lines[i - 1].number + 1 < b.lines[i].number ==> exists|before: Seq<char>, after: Seq<char>|
            #![trigger before.len(), after.len()]
            render(b) == before + render_source_line(b.lines[i - 1], max_digits(b.lines)) + seq!['\n']
                + seq!['.', '.', '.', '\n'] + render_source_line(b.lines[i], max_digits(b.lines))
                + seq!['\n'] + after,
        b.lines[i - 1].number + 1 >= b.lines[i].number ==> exists|before: Seq<char>, after: Seq<char>|
            #![trigger before.len(), after.len()]
            render(b) == before + render_source_line(b.lines[i - 1], max_digits(b.lines)) + seq!['\n']
                + render_source_line(b.lines[i], max_digits(b.lines)) + seq!['\n'] + after,
{
    let ls = b.lines;
    let md = max_digits(ls);
    lemma_render_prefix(ls, md, i - 1);
    let pre = choose|pre: Seq<char>|
        render_lines(ls, md, None) == #[trigger] (pre + render_lines(ls.skip(i - 1), md, drawn_before(ls, i - 1)));
    lemma_render_step(ls, i - 1, md, drawn_before(ls, i - 1));
    lemma_render_step(ls, i, md, Some(ls[i - 1].number));
    let nl = seq!['\n'];
    let a = render_source_line(ls[i - 1], md);
    let c = render_source_line(ls[i], md);
    let g = gap_text(Some(ls[i - 1].number), ls[i].number);
    let l1 = render_lines(ls.skip(i - 1), md, drawn_before(ls, i - 1));
    let l2 = render_lines(ls.skip(i), md, Some(ls[i - 1].number));
    let before = header(b) + pre + gap_text(drawn_before(ls, i - 1), ls[i - 1].number);
    let after = render_lines(ls.skip(i + 1), md, Some(ls[i].number));
    assert(render(b) == header(b) + render_lines(ls, md, None));
    assert(l1 == gap_text(drawn_before(ls, i - 1), ls[i - 1].number) + a + nl + l2);
    assert(l2 == g + c + nl + after);
    lemma_concat_six(header(b), pre, gap_text(drawn_before(ls, i - 1), ls[i - 1].number), a + nl, g, c + nl, after);
    assert(render(b) == before + a + nl + g + c + nl + after);
    assert(before.len() == before.len() && after.len() == after.len());
    if ls[i - 1].number + 1 < ls[i].number {
        assert(g == seq!['.', '.', '.', '\n']);
    } else {
        assert(g == Seq::<char>::empty());
        assert(render(b) == before + a + nl + c + nl + after);
    }
}

proof fn lemma_concat_six(
    h: Seq<char>,
    pre: Seq<char>,
    g0: Seq<char>,
    a: Seq<char>,
    g: Seq<char>,
    c: Seq<char>,
    after: Seq<char>,
)
    ensures
        h + (pre + (g0 + a + (g + c + after))) =~= (h + pre + g0) + a + g + c + after,
{
}

/// Law: the report starts with its header, then the drawing of the first
/// line, with no `...` before it.
#[verifier::spinoff_prover]
pub proof fn law_first_line_unmarked(b: SpecBuilder)
    requires
        b.lines.len() > 0,
    ensures
        exists|after: Seq<char>|
            #![trigger after.len()]
            render(b) == header(b) + render_source_line(b.lines[0], max_digits(b.lines)) + seq!['\n'] + after,
{
    let ls = b.lines;
    let md = max_digits(ls);
    lemma_render_step(ls, 0, md, None);
    assert(ls.skip(0) =~= ls);
    let a = render_source_line(ls[0], md);
    let after = render_lines(ls.skip(1), md, Some(ls[0].number));
    assert(gap_text(None, ls[0].number) == Seq::<char>::empty());
    assert(render_lines(ls, md, None) == Seq::<char>::empty() + a + seq!['\n'] + after);
    assert(render(b) == header(b) + a + seq!['\n'] + after);
    assert(after.len() == after.len());
}

} // verus!
