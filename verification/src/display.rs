//! Fixed-width text layout: a printer that assembles lines from positioned
//! text pieces, and list widgets that write titled, prefixed and wrapped
//! items into it.

use vstd::prelude::*;

verus! {

use vstd::string::StringExecFns;
use crate::resolve::lemma_take_push;
use crate::text::{chars_to_string, str_chars};
use crate::wrap::{
    collect_lines,
    pieces_view,
    split_at_separators,
    split_tokens_model,
    token_lines,
    tokenize_lines,
    tokenize_model,
    wrap_from,
    wrap_lines_tokens,
};

/// A buffer of output lines. Each line holds positioned text pieces, kept in
/// order of their offsets; rendering pads or truncates so that each piece
/// starts exactly at its offset and the line is exactly the printer's width.
pub struct Printer {
    width: u8,
    lines: Vec<Vec<(usize, Vec<char>)>>,
}

/// The view of one printer line: its pieces as (offset, text) pairs.
pub open spec fn printer_line_view(l: Vec<(usize, Vec<char>)>) -> Seq<(usize, Seq<char>)> {
    l@.map_values(|p: (usize, Vec<char>)| (p.0, p.1@))
}

impl View for Printer {
    type V = Seq<Seq<(usize, Seq<char>)>>;

    closed spec fn view(&self) -> Seq<Seq<(usize, Seq<char>)>> {
        self.lines@.map_values(|l: Vec<(usize, Vec<char>)>| printer_line_view(l))
    }
}

/// The line buffer extended with empty lines so that the given index exists.
pub open spec fn pad_lines(ls: Seq<Seq<(usize, Seq<char>)>>, idx: int) -> Seq<
    Seq<(usize, Seq<char>)>,
> {
    if ls.len() > idx {
        ls
    } else {
        ls + Seq::new((idx + 1 - ls.len()) as nat, |j: int| Seq::<(usize, Seq<char>)>::empty())
    }
}

/// Where a piece with the given offset is inserted: after every piece whose
/// offset is not greater, so that pieces with equal offsets keep their
/// insertion order.
pub open spec fn insert_pos(lv: Seq<(usize, Seq<char>)>, offset: usize) -> int
    decreases lv.len(),
{
    if lv.len() == 0 {
        0
    } else if lv[0].0 > offset {
        0
    } else {
        1 + insert_pos(lv.skip(1), offset)
    }
}

/// A line with one more piece, placed by its offset.
pub open spec fn line_insert(
    lv: Seq<(usize, Seq<char>)>,
    offset: usize,
    content: Seq<char>,
) -> Seq<(usize, Seq<char>)> {
    lv.insert(insert_pos(lv, offset), (offset, content))
}

/// The insertion position is pinned by the offsets around it.
proof fn lemma_insert_pos(lv: Seq<(usize, Seq<char>)>, offset: usize, k: int)
    requires
        0 <= k <= lv.len(),
        forall|j: int| 0 <= j < k ==> (#[trigger] lv[j]).0 <= offset,
        k < lv.len() ==> lv[k].0 > offset,
    ensures
        insert_pos(lv, offset) == k,
    decreases k,
{
    if k == 0 {
    } else {
        assert(lv[0].0 <= offset);
        assert(forall|j: int| 0 <= j < k - 1 ==> (#[trigger] lv.skip(1)[j]).0 <= offset);
        lemma_insert_pos(lv.skip(1), offset, k - 1);
    }
}

/// A text padded with spaces, or truncated, to exactly the given length.
pub open spec fn spec_pad_trunc(s: Seq<char>, n: int) -> Seq<char> {
    if s.len() >= n {
        s.take(n)
    } else {
        s + Seq::new((n - s.len()) as nat, |j: int| ' ')
    }
}

/// The rendering of a line's pieces, in order: each piece whose offset lies
/// inside the width is written so that exactly `offset` characters precede
/// it, padding with spaces or discarding what stands beyond.
pub open spec fn render_steps(entries: Seq<(usize, Seq<char>)>, width: int) -> Seq<char>
    decreases entries.len(),
{
    if entries.len() == 0 {
        Seq::new(width as nat, |j: int| ' ')
    } else {
        let prev = render_steps(entries.drop_last(), width);
        if (entries.last().0 as int) < width {
            spec_pad_trunc(prev, entries.last().0 as int) + entries.last().1
        } else {
            prev
        }
    }
}

/// The rendered form of one line: its pieces written in order, then padded or
/// truncated to exactly the printer's width.
pub open spec fn render_line_model(entries: Seq<(usize, Seq<char>)>, width: int) -> Seq<char> {
    spec_pad_trunc(render_steps(entries, width), width)
}

/// The line buffer after one insertion: padded so the line exists, with the
/// piece placed on that line by its offset.
pub open spec fn spec_insert_state(
    pv: Seq<Seq<(usize, Seq<char>)>>,
    idx: int,
    off: int,
    content: Seq<char>,
) -> Seq<Seq<(usize, Seq<char>)>> {
    let padded = pad_lines(pv, idx);
    padded.update(idx, line_insert(padded[idx], off as usize, content))
}

/// The line buffer after a sequence of (line, offset, text) insertions,
/// applied in order.
pub open spec fn spec_apply_inserts(
    pv: Seq<Seq<(usize, Seq<char>)>>,
    ins: Seq<(int, int, Seq<char>)>,
) -> Seq<Seq<(usize, Seq<char>)>>
    decreases ins.len(),
{
    if ins.len() == 0 {
        pv
    } else {
        spec_insert_state(
            spec_apply_inserts(pv, ins.drop_last()),
            ins.last().0,
            ins.last().1,
            ins.last().2,
        )
    }
}

/// One more insertion applies on top of the ones before it.
pub proof fn lemma_apply_push(
    pv: Seq<Seq<(usize, Seq<char>)>>,
    ins: Seq<(int, int, Seq<char>)>,
    t: (int, int, Seq<char>),
)
    ensures
        spec_apply_inserts(pv, ins.push(t)) == spec_insert_state(
            spec_apply_inserts(pv, ins),
            t.0,
            t.1,
            t.2,
        ),
{
    assert(ins.push(t).drop_last() =~= ins);
    assert(ins.push(t).last() == t);
}

/// Insertions apply one list after the other.
pub proof fn lemma_apply_add(
    pv: Seq<Seq<(usize, Seq<char>)>>,
    a: Seq<(int, int, Seq<char>)>,
    b: Seq<(int, int, Seq<char>)>,
)
    ensures
        spec_apply_inserts(pv, a + b) == spec_apply_inserts(spec_apply_inserts(pv, a), b),
    decreases b.len(),
{
    if b.len() == 0 {
        assert(a + b =~= a);
    } else {
        lemma_apply_add(pv, a, b.drop_last());
        assert((a + b).drop_last() =~= a + b.drop_last());
        assert((a + b).last() == b.last());
    }
}

/// A sum of line counts saturates the same stepwise or at once.
pub proof fn lemma_sat_shift(y: int, a: int, b: int)
    requires
        0 <= y,
        0 <= a,
        0 <= b,
    ensures
        sat(sat(y + a) + b) == sat(y + sat(a + b)),
{
}

/// Make a text exactly `offset` characters long — padding with spaces or
/// discarding the excess — then append the given content.
fn insert_with_filled_offset(buf: &mut Vec<char>, offset: usize, content: &Vec<char>)
    ensures
        final(buf)@ == spec_pad_trunc(old(buf)@, offset as int) + content@,
{
    if buf.len() > offset {
        buf.truncate(offset);
        proof {
            assert(buf@ =~= spec_pad_trunc(old(buf)@, offset as int));
        }
    } else {
        while buf.len() < offset
            invariant
                old(buf)@.len() <= buf@.len() <= offset,
                buf@ == old(buf)@ + Seq::new((buf@.len() - old(buf)@.len()) as nat, |j: int| ' '),
            decreases offset - buf.len(),
        {
            buf.push(' ');
            proof {
                assert(buf@ =~= old(buf)@ + Seq::new(
                    (buf@.len() - old(buf)@.len()) as nat,
                    |j: int| ' ',
                ));
            }
        }
        proof {
            assert(buf@ =~= spec_pad_trunc(old(buf)@, offset as int));
        }
    }
    let ghost mid = buf@;
    let mut k: usize = 0;
    while k < content.len()
        invariant
            k <= content.len(),
            buf@ == mid + content@.take(k as int),
        decreases content.len() - k,
    {
        buf.push(content[k]);
        proof {
            assert(buf@ =~= mid + content@.take(k as int + 1));
        }
        k += 1;
    }
    proof {
        assert(content@.take(content@.len() as int) =~= content@);
        assert(buf@ =~= mid + content@);
    }
}

impl Printer {
    /// The width every rendered line has.
    pub closed spec fn spec_width(&self) -> u8 {
        self.width
    }

    pub fn new(width: u8) -> (r: Printer)
        ensures
            r.spec_width() == width,
            r@ == Seq::<Seq<(usize, Seq<char>)>>::empty(),
    {
        let r = Printer { width, lines: Vec::new() };
        proof {
            assert(r@ =~= Seq::<Seq<(usize, Seq<char>)>>::empty());
        }
        r
    }

    /// How many lines the printer holds.
    pub fn line_count(&self) -> (r: usize)
        ensures
            r == self@.len(),
    {
        self.lines.len()
    }

    /// Put a piece of text on the given line at the given offset, extending
    /// the buffer with empty lines as needed; within a line, pieces stay
    /// ordered by offset, insertion order breaking ties.
    pub fn insert_on_line(&mut self, idx: usize, offset: usize, content: Vec<char>)
        ensures
            final(self).spec_width() == old(self).spec_width(),
            final(self)@ == spec_insert_state(old(self)@, idx as int, offset as int, content@),
            final(self)@.len() == (if old(self)@.len() > idx {
                old(self)@.len() as int
            } else {
                idx + 1
            }),
    {
        let ghost orig = self@;
        while self.lines.len() <= idx
            invariant
                self.width == old(self).width,
                orig.len() <= self@.len(),
                self@.len() <= idx + 1 || self@.len() == orig.len(),
                forall|j: int| 0 <= j < orig.len() ==> self@[j] == orig[j],
                forall|j: int|
                    orig.len() <= j < self@.len() ==> self@[j] =~= Seq::<
                        (usize, Seq<char>),
                    >::empty(),
            decreases idx + 1 - self.lines.len(),
        {
            let ghost before = self@;
            self.lines.push(Vec::new());
            proof {
                assert(self@ =~~= before.push(Seq::<(usize, Seq<char>)>::empty()));
            }
        }
        proof {
            assert(self@ =~= pad_lines(orig, idx as int));
        }
        let ghost padded = self@;
        let mut line = self.lines.remove(idx);
        let ghost lv = printer_line_view(line);
        let mut k: usize = 0;
        while k < line.len() && line[k].0 <= offset
            invariant
                k <= line@.len(),
                printer_line_view(line) == lv,
                forall|j: int| 0 <= j < k ==> (#[trigger] lv[j]).0 <= offset,
            decreases line.len() - k,
        {
            k += 1;
        }
        proof {
            lemma_insert_pos(lv, offset, k as int);
        }
        line.insert(k, (offset, content));
        proof {
            assert(printer_line_view(line) =~= line_insert(lv, offset, content@));
        }
        self.lines.insert(idx, line);
        proof {
            assert(lv == padded[idx as int]);
            assert(self@ =~= padded.update(idx as int, line_insert(lv, offset, content@)));
        }
    }

    /// Render the line at the given index: each piece whose offset lies
    /// inside the width starts exactly at its offset, later pieces painting
    /// over earlier ones, and the result is exactly the printer's width.
    pub fn transform_line_for_print(&self, idx: usize) -> (r: String)
        requires
            idx < self@.len(),
        ensures
            r@ == render_line_model(self@[idx as int], self.spec_width() as int),
    {
        let line = &self.lines[idx];
        let width = self.width as usize;
        let mut out: Vec<char> = Vec::new();
        let mut j: usize = 0;
        while j < width
            invariant
                j <= width,
                out@ =~= Seq::new(j as nat, |q: int| ' '),
            decreases width - j,
        {
            out.push(' ');
            proof {
                assert(out@ =~= Seq::new((j + 1) as nat, |q: int| ' '));
            }
            j += 1;
        }
        let ghost lv = printer_line_view(*line);
        proof {
            assert(lv == self@[idx as int]);
            assert(out@ =~= render_steps(lv.take(0), width as int));
        }
        let mut k: usize = 0;
        while k < line.len()
            invariant
                k <= line@.len(),
                width == self.width as usize,
                lv == printer_line_view(*line),
                out@ == render_steps(lv.take(k as int), width as int),
            decreases line.len() - k,
        {
            proof {
                lemma_take_push(lv, k as int);
                assert(lv.take(k as int).push(lv[k as int]).drop_last() =~= lv.take(k as int));
                assert(lv[k as int] == (line@[k as int].0, line@[k as int].1@));
            }
            let (off, piece) = &line[k];
            if *off < width {
                insert_with_filled_offset(&mut out, *off, piece);
            }
            proof {
                assert(out@ =~= render_steps(lv.take(k as int + 1), width as int));
            }
            k += 1;
        }
        proof {
            assert(lv.take(lv.len() as int) =~= lv);
        }
        let mut empty: Vec<char> = Vec::new();
        insert_with_filled_offset(&mut out, width, &empty);
        proof {
            assert(out@ =~= render_line_model(lv, self.spec_width() as int));
        }
        chars_to_string(&out)
    }

    /// Render every line. Rendering reads the buffer and leaves its lines in
    /// place; `clear` empties it for a fresh page.
    pub fn render(&self) -> (r: Vec<String>)
        ensures
            r@.len() == self@.len(),
            forall|j: int|
                0 <= j < r@.len() ==> (#[trigger] r@[j])@ == render_line_model(
                    self@[j],
                    self.spec_width() as int,
                ),
    {
        let mut out: Vec<String> = Vec::new();
        let mut i: usize = 0;
        while i < self.lines.len()
            invariant
                i <= self@.len(),
                out@.len() == i,
                forall|j: int|
                    0 <= j < i ==> (#[trigger] out@[j])@ == render_line_model(
                        self@[j],
                        self.spec_width() as int,
                    ),
            decreases self.lines.len() - i,
        {
            let s = self.transform_line_for_print(i);
            out.push(s);
            i += 1;
        }
        out
    }

    /// Empty the line buffer, keeping the width: what printing a page leaves
    /// behind, so the printer holds only one page's output at a time.
    pub fn clear(&mut self)
        ensures
            final(self).spec_width() == old(self).spec_width(),
            final(self)@ == Seq::<Seq<(usize, Seq<char>)>>::empty(),
    {
        self.lines.clear();
        proof {
            assert(self@ =~= Seq::<Seq<(usize, Seq<char>)>>::empty());
        }
    }
}

/// The views of a list of strings.
pub open spec fn strs_view(v: Seq<String>) -> Seq<Seq<char>> {
    v.map_values(|s: String| s@)
}

/// A width clamped to one more than the largest offset a line can show.
pub open spec fn spec_clamp_width(n: int) -> int {
    if n > 256 {
        256
    } else {
        n
    }
}

/// The width left for content beside a prefix.
pub open spec fn spec_avail(dx: u8, prefix: Seq<char>) -> int {
    let pw = spec_clamp_width(prefix.len() as int);
    if dx > pw {
        dx - pw
    } else {
        0
    }
}

/// The display lines of one item: its text tokenized, split after the
/// separators and wrapped to the available width.
pub open spec fn item_lines_model(content: Seq<char>, seps: Seq<char>, avail: int) -> Seq<
    Seq<char>,
> {
    token_lines(wrap_from(split_tokens_model(tokenize_model(content), seps), avail, 0))
}

/// A sum that stops at the machine's largest index.
pub open spec fn sat(a: int) -> int {
    if a > usize::MAX {
        usize::MAX as int
    } else {
        a
    }
}

/// Clamp a character count for width comparisons.
fn clamp_width(n: usize) -> (r: usize)
    ensures
        r as int == spec_clamp_width(n as int),
{
    if n > 256 {
        256
    } else {
        n
    }
}

/// A vertical list of items, written into a printer at position (x, y) in a
/// column `dx` wide. Each item gets a prefix by its position — first, middle,
/// last, or sole — and content too wide for the column is wrapped and marked
/// with an overfill symbol.
pub struct ItemList {
    pub x: u8,
    pub y: u8,
    pub dx: u8,
    pub items: Vec<String>,
    pub prefix_first: String,
    pub prefix_middle: String,
    pub prefix_last: String,
    pub prefix_sole: String,
    pub overfill_symbol: String,
    pub separators: Vec<char>,
    pub wrap_lines: bool,
}

/// The style of an item list at the specification level: its prefixes by
/// position, its separator characters, its column width and its overfill
/// symbol.
pub struct ListStyle {
    pub first: Seq<char>,
    pub middle: Seq<char>,
    pub last: Seq<char>,
    pub sole: Seq<char>,
    pub separators: Seq<char>,
    pub dx: u8,
    pub overfill: Seq<char>,
}

/// The style of an item list value.
pub open spec fn spec_style(l: ItemList) -> ListStyle {
    ListStyle {
        first: l.prefix_first@,
        middle: l.prefix_middle@,
        last: l.prefix_last@,
        sole: l.prefix_sole@,
        separators: l.separators@,
        dx: l.dx,
        overfill: l.overfill_symbol@,
    }
}

/// The prefix an item gets by its position among `n` items.
pub open spec fn spec_item_prefix(st: ListStyle, i: int, n: int) -> Seq<char> {
    if n == 1 {
        st.sole
    } else if i == 0 {
        st.first
    } else if i == n - 1 {
        st.last
    } else {
        st.middle
    }
}

/// The number of display lines the first `upto` items produce, stopping at
/// the machine's largest index.
pub open spec fn spec_items_dy(st: ListStyle, items: Seq<Seq<char>>, upto: int) -> int
    decreases upto,
{
    if upto <= 0 {
        0
    } else {
        sat(
            spec_items_dy(st, items, upto - 1) + item_lines_model(
                items[upto - 1],
                st.separators,
                spec_avail(st.dx, spec_item_prefix(st, upto - 1, items.len() as int)),
            ).len(),
        )
    }
}

/// The insertions one item's display lines cause from its second line on:
/// each line at the indent, with an overfill mark in the column's last cell
/// where the prefix and the line together overrun the column.
pub open spec fn spec_item_rest_inserts(
    st: ListStyle,
    lines: Seq<Seq<char>>,
    pw: int,
    indent: int,
    at: int,
    k: int,
) -> Seq<(int, int, Seq<char>)>
    decreases lines.len() - k,
{
    if k >= lines.len() {
        Seq::empty()
    } else {
        seq![(sat(at + k), indent, lines[k])] + (if pw + spec_clamp_width(lines[k].len() as int)
            > st.dx && st.dx > 0 {
            seq![(sat(at + k), indent + st.dx - 1, st.overfill)]
        } else {
            Seq::<(int, int, Seq<char>)>::empty()
        }) + spec_item_rest_inserts(st, lines, pw, indent, at, k + 1)
    }
}

/// The insertions one item causes, starting at line `at`: its prefix at the
/// indent, its first wrapped line beside the prefix — with an overfill mark
/// where prefix and content overrun the column — and its following lines at
/// the indent.
pub open spec fn spec_item_inserts(
    st: ListStyle,
    prefix: Seq<char>,
    content: Seq<char>,
    indent: int,
    at: int,
) -> Seq<(int, int, Seq<char>)> {
    let lines = item_lines_model(content, st.separators, spec_avail(st.dx, prefix));
    let pw = spec_clamp_width(prefix.len() as int);
    let cw = spec_clamp_width(content.len() as int);
    seq![(at, indent, prefix), (at, indent + pw, lines[0])] + (if pw + cw > st.dx && st.dx > 0 {
        seq![(at, indent + st.dx - 1, st.overfill)]
    } else {
        Seq::<(int, int, Seq<char>)>::empty()
    }) + spec_item_rest_inserts(st, lines, pw, indent, at, 1)
}

/// The insertions a whole item list causes, item after item, each starting
/// on the line after the previous item's last.
pub open spec fn spec_list_inserts(
    st: ListStyle,
    items: Seq<Seq<char>>,
    x: int,
    y: int,
    upto: int,
) -> Seq<(int, int, Seq<char>)>
    decreases upto,
{
    if upto <= 0 {
        Seq::empty()
    } else {
        spec_list_inserts(st, items, x, y, upto - 1) + spec_item_inserts(
            st,
            spec_item_prefix(st, upto - 1, items.len() as int),
            items[upto - 1],
            x,
            sat(y + spec_items_dy(st, items, upto - 1)),
        )
    }
}

impl ItemList {
    pub fn new(x: u8, y: u8, dx: u8) -> (r: ItemList)
        ensures
            r.x == x,
            r.y == y,
            r.dx == dx,
            r.items@ == Seq::<String>::empty(),
            r.prefix_first@ == Seq::<char>::empty(),
            r.prefix_middle@ == Seq::<char>::empty(),
            r.prefix_last@ == Seq::<char>::empty(),
            r.prefix_sole@ == Seq::<char>::empty(),
            r.overfill_symbol@ == "\u{2592}"@,
            r.separators@ == seq![' ', '/', '\\', ',', '.'],
            r.wrap_lines == false,
    {
        let r = ItemList {
            x,
            y,
            dx,
            items: Vec::new(),
            prefix_first: String::new(),
            prefix_middle: String::new(),
            prefix_last: String::new(),
            prefix_sole: String::new(),
            overfill_symbol: String::from_str("\u{2592}"),
            separators: vec![' ', '/', '\\', ',', '.'],
            wrap_lines: false,
        };
        proof {
            assert(r.separators@ =~= seq![' ', '/', '\\', ',', '.']);
        }
        r
    }

    /// Use one prefix for every position.
    pub fn prefix(self, pre: &str) -> (r: ItemList)
        ensures
            r.prefix_first@ == pre@,
            r.prefix_middle@ == pre@,
            r.prefix_last@ == pre@,
            r.prefix_sole@ == pre@,
            r.x == self.x,
            r.y == self.y,
            r.dx == self.dx,
            r.items == self.items,
            r.overfill_symbol == self.overfill_symbol,
            r.separators == self.separators,
            r.wrap_lines == self.wrap_lines,
    {
        ItemList {
            prefix_first: pre.to_owned(),
            prefix_middle: pre.to_owned(),
            prefix_last: pre.to_owned(),
            prefix_sole: pre.to_owned(),
            ..self
        }
    }

    /// Set the prefixes for the first, middle, last and sole positions.
    pub fn prefixes(self, first: &str, middle: &str, last: &str, sole: &str) -> (r: ItemList)
        ensures
            r.prefix_first@ == first@,
            r.prefix_middle@ == middle@,
            r.prefix_last@ == last@,
            r.prefix_sole@ == sole@,
            r.x == self.x,
            r.y == self.y,
            r.dx == self.dx,
            r.items == self.items,
            r.overfill_symbol == self.overfill_symbol,
            r.separators == self.separators,
            r.wrap_lines == self.wrap_lines,
    {
        ItemList {
            prefix_first: first.to_owned(),
            prefix_middle: middle.to_owned(),
            prefix_last: last.to_owned(),
            prefix_sole: sole.to_owned(),
            ..self
        }
    }

    /// Append one item.
    pub fn add_item(&mut self, child: &str)
        ensures
            strs_view(final(self).items@) == strs_view(old(self).items@).push(child@),
            final(self).x == old(self).x,
            final(self).y == old(self).y,
            final(self).dx == old(self).dx,
            final(self).prefix_first == old(self).prefix_first,
            final(self).prefix_middle == old(self).prefix_middle,
            final(self).prefix_last == old(self).prefix_last,
            final(self).prefix_sole == old(self).prefix_sole,
            final(self).overfill_symbol == old(self).overfill_symbol,
            final(self).separators == old(self).separators,
            final(self).wrap_lines == old(self).wrap_lines,
    {
        self.items.push(child.to_owned());
        proof {
            assert(strs_view(self.items@) =~= strs_view(old(self).items@).push(child@));
        }
    }

    /// Wrap item content instead of letting it overflow.
    pub fn wrap_lines(self) -> (r: ItemList)
        ensures
            r.wrap_lines == true,
            r.x == self.x,
            r.y == self.y,
            r.dx == self.dx,
            r.items == self.items,
            r.prefix_first == self.prefix_first,
            r.prefix_middle == self.prefix_middle,
            r.prefix_last == self.prefix_last,
            r.prefix_sole == self.prefix_sole,
            r.overfill_symbol == self.overfill_symbol,
            r.separators == self.separators,
    {
        ItemList { wrap_lines: true, ..self }
    }

    /// Set the symbol that marks an overfull line.
    pub fn overfill_symbol(self, symbol: &str) -> (r: ItemList)
        ensures
            r.overfill_symbol@ == symbol@,
            r.x == self.x,
            r.y == self.y,
            r.dx == self.dx,
            r.items == self.items,
            r.prefix_first == self.prefix_first,
            r.prefix_middle == self.prefix_middle,
            r.prefix_last == self.prefix_last,
            r.prefix_sole == self.prefix_sole,
            r.separators == self.separators,
            r.wrap_lines == self.wrap_lines,
    {
        ItemList { overfill_symbol: symbol.to_owned(), ..self }
    }

    /// Write one item's prefix and wrapped content lines into the printer at
    /// the given indent, starting at the given line. Returns how many display
    /// lines the item produced.
    fn send_item(
        &self,
        printer: &mut Printer,
        prefix: &String,
        content: &String,
        indent: usize,
        line_offset: &mut usize,
    ) -> (item_dy: usize)
        requires
            indent <= 255,
        ensures
            final(printer).spec_width() == old(printer).spec_width(),
            final(printer)@.len() >= old(printer)@.len(),
            final(printer)@ == spec_apply_inserts(
                old(printer)@,
                spec_item_inserts(
                    spec_style(*self),
                    prefix@,
                    content@,
                    indent as int,
                    *old(line_offset) as int,
                ),
            ),
            item_dy as int == item_lines_model(
                content@,
                self.separators@,
                spec_avail(self.dx, prefix@),
            ).len(),
            *final(line_offset) as int == sat(*old(line_offset) + item_dy),
    {
        let ghost st = spec_style(*self);
        let ghost at = *old(line_offset) as int;
        let ghost pv0 = old(printer)@;
        let prefix_chars = str_chars(prefix.as_str());
        let content_chars = str_chars(content.as_str());
        let pw = clamp_width(prefix_chars.len());
        let cw = clamp_width(content_chars.len());
        let dxu = self.dx as usize;
        let avail = if dxu > pw {
            dxu - pw
        } else {
            0
        };
        let tokens = tokenize_lines(&content_chars);
        let split = split_at_separators(&tokens, &self.separators);
        let wrapped = wrap_lines_tokens(&split, avail);
        let lines = collect_lines(&wrapped);
        let ghost lines_v = pieces_view(lines@);
        proof {
            assert(lines_v == item_lines_model(content@, self.separators@, spec_avail(
                self.dx,
                prefix@,
            )));
        }
        let ghost full_ins = spec_item_inserts(st, prefix@, content@, indent as int, at);
        let ghost mut done: Seq<(int, int, Seq<char>)> = Seq::empty();
        let overfill_chars = str_chars(self.overfill_symbol.as_str());
        printer.insert_on_line(*line_offset, indent, prefix_chars);
        proof {
            lemma_apply_push(pv0, done, (at, indent as int, prefix@));
            done = done.push((at, indent as int, prefix@));
        }
        let first_line = lines[0].clone();
        proof {
            assert(first_line@ =~= lines_v[0]);
        }
        printer.insert_on_line(*line_offset, indent + pw, first_line);
        proof {
            lemma_apply_push(pv0, done, (at, indent + pw as int, lines_v[0]));
            done = done.push((at, indent + pw as int, lines_v[0]));
        }
        if pw + cw > dxu && dxu > 0 {
            printer.insert_on_line(*line_offset, indent + dxu - 1, overfill_chars.clone());
            proof {
                lemma_apply_push(pv0, done, (at, indent + st.dx - 1, st.overfill));
                done = done.push((at, indent + st.dx - 1, st.overfill));
            }
        }
        proof {
            assert(full_ins =~= done + spec_item_rest_inserts(
                st,
                lines_v,
                pw as int,
                indent as int,
                at,
                1,
            ));
        }
        *line_offset = line_offset.saturating_add(1);
        let mut k: usize = 1;
        while k < lines.len()
            invariant
                1 <= k <= lines@.len(),
                pieces_view(lines@) == lines_v,
                indent <= 255,
                dxu == self.dx as usize,
                st == spec_style(*self),
                pw as int == spec_clamp_width(prefix@.len() as int),
                overfill_chars@ == st.overfill,
                printer.spec_width() == old(printer).spec_width(),
                printer@.len() >= pv0.len(),
                pv0 == old(printer)@,
                printer@ == spec_apply_inserts(pv0, done),
                full_ins == done + spec_item_rest_inserts(
                    st,
                    lines_v,
                    pw as int,
                    indent as int,
                    at,
                    k as int,
                ),
                *line_offset as int == sat(at + k),
            decreases lines.len() - k,
        {
            let line = lines[k].clone();
            proof {
                assert(line@ =~= lines_v[k as int]);
            }
            let lw = clamp_width(line.len());
            let ghost here = sat(at + k);
            printer.insert_on_line(*line_offset, indent, line);
            proof {
                lemma_apply_push(pv0, done, (here, indent as int, lines_v[k as int]));
                done = done.push((here, indent as int, lines_v[k as int]));
            }
            if pw + lw > dxu && dxu > 0 {
                printer.insert_on_line(*line_offset, indent + dxu - 1, overfill_chars.clone());
                proof {
                    lemma_apply_push(pv0, done, (here, indent + st.dx - 1, st.overfill));
                    done = done.push((here, indent + st.dx - 1, st.overfill));
                }
            }
            proof {
                assert(full_ins =~= done + spec_item_rest_inserts(
                    st,
                    lines_v,
                    pw as int,
                    indent as int,
                    at,
                    k as int + 1,
                ));
            }
            *line_offset = line_offset.saturating_add(1);
            k += 1;
        }
        proof {
            assert(full_ins =~= done);
        }
        lines.len()
    }

    /// Write every item into the printer, each with the prefix its position
    /// owes, wrapping content to the column width: the insertions of the
    /// items, in order, starting at (x, y). An empty list leaves the printer
    /// unchanged. Returns the number of display lines written.
    pub fn write_to_printer(&self, printer: &mut Printer) -> (dy: usize)
        ensures
            final(printer).spec_width() == old(printer).spec_width(),
            final(printer)@.len() >= old(printer)@.len(),
            final(printer)@ == spec_apply_inserts(
                old(printer)@,
                spec_list_inserts(
                    spec_style(*self),
                    strs_view(self.items@),
                    self.x as int,
                    self.y as int,
                    self.items@.len() as int,
                ),
            ),
            self.items@.len() == 0 ==> final(printer)@ == old(printer)@,
            dy as int == spec_items_dy(
                spec_style(*self),
                strs_view(self.items@),
                self.items@.len() as int,
            ),
    {
        let ghost st = spec_style(*self);
        let ghost itemsv = strs_view(self.items@);
        let ghost pv0 = old(printer)@;
        let indent = self.x as usize;
        let mut line_offset = self.y as usize;
        let n = self.items.len();
        let mut dy: usize = 0;
        let mut i: usize = 0;
        while i < n
            invariant
                i <= n,
                n == self.items@.len(),
                st == spec_style(*self),
                itemsv == strs_view(self.items@),
                pv0 == old(printer)@,
                indent == self.x as usize,
                printer.spec_width() == old(printer).spec_width(),
                printer@.len() >= pv0.len(),
                printer@ == spec_apply_inserts(
                    pv0,
                    spec_list_inserts(st, itemsv, self.x as int, self.y as int, i as int),
                ),
                dy as int == spec_items_dy(st, itemsv, i as int),
                line_offset as int == sat(self.y + spec_items_dy(st, itemsv, i as int)),
            decreases n - i,
        {
            let prefix = if n == 1 {
                &self.prefix_sole
            } else if i == 0 {
                &self.prefix_first
            } else if i == n - 1 {
                &self.prefix_last
            } else {
                &self.prefix_middle
            };
            proof {
                assert(prefix@ == spec_item_prefix(st, i as int, itemsv.len() as int));
                assert(itemsv[i as int] == self.items@[i as int]@);
            }
            let ghost pv_before = printer@;
            let ghost start = line_offset as int;
            let item_dy = self.send_item(printer, prefix, &self.items[i], indent, &mut line_offset);
            proof {
                lemma_apply_add(
                    pv0,
                    spec_list_inserts(st, itemsv, self.x as int, self.y as int, i as int),
                    spec_item_inserts(
                        st,
                        spec_item_prefix(st, i as int, itemsv.len() as int),
                        itemsv[i as int],
                        self.x as int,
                        start,
                    ),
                );
                lemma_sat_shift(
                    self.y as int,
                    spec_items_dy(st, itemsv, i as int),
                    item_lines_model(
                        itemsv[i as int],
                        st.separators,
                        spec_avail(st.dx, spec_item_prefix(st, i as int, itemsv.len() as int)),
                    ).len() as int,
                );
            }
            dy = dy.saturating_add(item_dy);
            i += 1;
        }
        dy
    }
}

/// The lines of a text, split at each line feed; a trailing line feed yields
/// a trailing empty line.
pub open spec fn split_lines(s: Seq<char>) -> Seq<Seq<char>>
    decreases s.len(),
{
    if s.len() == 0 {
        seq![Seq::<char>::empty()]
    } else {
        let prev = split_lines(s.drop_last());
        if s.last() == '\n' {
            prev + seq![Seq::<char>::empty()]
        } else {
            prev.update(prev.len() - 1, prev.last().push(s.last()))
        }
    }
}

/// A text always has at least one line.
proof fn lemma_split_lines_len(s: Seq<char>)
    ensures
        split_lines(s).len() >= 1,
    decreases s.len(),
{
    if s.len() > 0 {
        lemma_split_lines_len(s.drop_last());
    }
}

/// Split a text into its lines at each line feed.
fn split_lines_chars(s: &Vec<char>) -> (r: Vec<Vec<char>>)
    ensures
        pieces_view(r@) == split_lines(s@),
        r@.len() >= 1,
{
    let mut out: Vec<Vec<char>> = Vec::new();
    out.push(Vec::new());
    proof {
        assert(pieces_view(out@) =~= split_lines(s@.take(0)));
    }
    let mut i: usize = 0;
    while i < s.len()
        invariant
            i <= s.len(),
            out@.len() >= 1,
            pieces_view(out@) == split_lines(s@.take(i as int)),
        decreases s.len() - i,
    {
        proof {
            lemma_take_push(s@, i as int);
            assert(s@.take(i as int).push(s@[i as int]).drop_last() =~= s@.take(i as int));
        }
        let ghost out0 = out@;
        let c = s[i];
        if c == '\n' {
            out.push(Vec::new());
            proof {
                assert(pieces_view(out@) =~= pieces_view(out0).push(Seq::<char>::empty()));
                assert(pieces_view(out@) =~= split_lines(s@.take(i as int + 1)));
            }
        } else {
            let last_idx = out.len() - 1;
            let mut last = out.remove(last_idx);
            last.push(c);
            out.push(last);
            proof {
                assert(pieces_view(out@) =~= pieces_view(out0).update(
                    out0.len() - 1,
                    pieces_view(out0).last().push(c),
                ));
                assert(pieces_view(out@) =~= split_lines(s@.take(i as int + 1)));
            }
        }
        i += 1;
    }
    proof {
        assert(s@.take(s@.len() as int) =~= s@);
    }
    out
}

/// The insertions one unwrapped text's lines cause from its second line on:
/// each at the indent past the prefix, with an overfill mark where the line
/// alone overruns the column.
pub open spec fn spec_plain_rest_inserts(
    dx: u8,
    overfill: Seq<char>,
    lines: Seq<Seq<char>>,
    indent2: int,
    at: int,
    k: int,
) -> Seq<(int, int, Seq<char>)>
    decreases lines.len() - k,
{
    if k >= lines.len() {
        Seq::empty()
    } else {
        seq![(sat(at + k), indent2, lines[k])] + (if spec_clamp_width(lines[k].len() as int) > dx
            && dx > 0 {
            seq![(sat(at + k), indent2 + dx - 1, overfill)]
        } else {
            Seq::<(int, int, Seq<char>)>::empty()
        }) + spec_plain_rest_inserts(dx, overfill, lines, indent2, at, k + 1)
    }
}

/// The insertions one prefixed, unwrapped text causes, starting at line
/// `at`: its first line at the indent — with an overfill mark where prefix
/// and content together overrun the column — and its following lines
/// indented past the prefix.
pub open spec fn spec_plain_inserts(
    dx: u8,
    overfill: Seq<char>,
    prefix: Seq<char>,
    content: Seq<char>,
    indent: int,
    at: int,
) -> Seq<(int, int, Seq<char>)> {
    let lines = split_lines(prefix + content);
    let pw = spec_clamp_width(prefix.len() as int);
    let cw = spec_clamp_width(content.len() as int);
    seq![(at, indent, lines[0])] + (if pw + cw > dx && dx > 0 {
        seq![(at, indent + dx - 1, overfill)]
    } else {
        Seq::<(int, int, Seq<char>)>::empty()
    }) + spec_plain_rest_inserts(dx, overfill, lines, indent + pw, at, 1)
}

/// A titled list of items written without wrapping: the title line first,
/// then each child under it, indented and prefixed by its position; lines
/// wider than the column are marked with an overfill symbol.
pub struct TitledItemList {
    pub x: u8,
    pub y: u8,
    pub dx: u8,
    pub title: String,
    pub title_prefix: String,
    pub children: Vec<String>,
    pub child_indent: u8,
    pub child_prefix_first: String,
    pub child_prefix_middle: String,
    pub child_prefix_last: String,
    pub child_prefix_sole: String,
    pub overfill_symbol: String,
}

/// The prefix a child gets by its position among the children.
pub open spec fn spec_titled_child_prefix(l: TitledItemList, i: int) -> Seq<char> {
    let n = l.children@.len();
    if n == 1 {
        l.child_prefix_sole@
    } else if i == 0 {
        l.child_prefix_first@
    } else if i == n - 1 {
        l.child_prefix_last@
    } else {
        l.child_prefix_middle@
    }
}

/// The number of display lines of the title and the first `upto` children,
/// stopping at the machine's largest index.
pub open spec fn spec_titled_dy(l: TitledItemList, upto: int) -> int
    decreases upto,
{
    if upto <= 0 {
        split_lines(l.title_prefix@ + l.title@).len() as int
    } else {
        sat(
            spec_titled_dy(l, upto - 1) + split_lines(
                spec_titled_child_prefix(l, upto - 1) + l.children@[upto - 1]@,
            ).len(),
        )
    }
}

/// The insertions the title and the first `upto` children cause: the title
/// at (x, y), each child under the lines before it, indented by the child
/// indent and prefixed by its position.
pub open spec fn spec_titled_inserts(l: TitledItemList, upto: int) -> Seq<(int, int, Seq<char>)>
    decreases upto,
{
    if upto <= 0 {
        spec_plain_inserts(
            l.dx,
            l.overfill_symbol@,
            l.title_prefix@,
            l.title@,
            l.x as int,
            l.y as int,
        )
    } else {
        spec_titled_inserts(l, upto - 1) + spec_plain_inserts(
            l.dx,
            l.overfill_symbol@,
            spec_titled_child_prefix(l, upto - 1),
            l.children@[upto - 1]@,
            l.x + l.child_indent,
            sat(l.y + spec_titled_dy(l, upto - 1)),
        )
    }
}

impl TitledItemList {
    pub fn new(x: u8, y: u8, dx: u8) -> (r: TitledItemList)
        ensures
            r.x == x,
            r.y == y,
            r.dx == dx,
            r.title@ == Seq::<char>::empty(),
            r.title_prefix@ == Seq::<char>::empty(),
            r.children@ == Seq::<String>::empty(),
            r.child_indent == 0,
            r.child_prefix_first@ == Seq::<char>::empty(),
            r.child_prefix_middle@ == Seq::<char>::empty(),
            r.child_prefix_last@ == Seq::<char>::empty(),
            r.child_prefix_sole@ == Seq::<char>::empty(),
            r.overfill_symbol@ == "\u{2591}"@,
    {
        TitledItemList {
            x,
            y,
            dx,
            title: String::new(),
            title_prefix: String::new(),
            children: Vec::new(),
            child_indent: 0,
            child_prefix_first: String::new(),
            child_prefix_middle: String::new(),
            child_prefix_last: String::new(),
            child_prefix_sole: String::new(),
            overfill_symbol: String::from_str("\u{2591}"),
        }
    }

    /// Set the title.
    pub fn title(self, title: &str) -> (r: TitledItemList)
        ensures
            r.title@ == title@,
            r == (TitledItemList { title: r.title, ..self }),
    {
        TitledItemList { title: title.to_owned(), ..self }
    }

    /// Set the prefix written before the title.
    pub fn title_prefix(self, prefix: &str) -> (r: TitledItemList)
        ensures
            r.title_prefix@ == prefix@,
            r == (TitledItemList { title_prefix: r.title_prefix, ..self }),
    {
        TitledItemList { title_prefix: prefix.to_owned(), ..self }
    }

    /// Set the prefixes for the first, middle, last and sole child.
    pub fn child_prefixes(self, first: &str, middle: &str, last: &str, sole: &str) -> (r:
        TitledItemList)
        ensures
            r.child_prefix_first@ == first@,
            r.child_prefix_middle@ == middle@,
            r.child_prefix_last@ == last@,
            r.child_prefix_sole@ == sole@,
            r == (TitledItemList {
                child_prefix_first: r.child_prefix_first,
                child_prefix_middle: r.child_prefix_middle,
                child_prefix_last: r.child_prefix_last,
                child_prefix_sole: r.child_prefix_sole,
                ..self
            }),
    {
        TitledItemList {
            child_prefix_first: first.to_owned(),
            child_prefix_middle: middle.to_owned(),
            child_prefix_last: last.to_owned(),
            child_prefix_sole: sole.to_owned(),
            ..self
        }
    }

    /// Set how far children are indented under the title.
    pub fn child_indent(self, indent: u8) -> (r: TitledItemList)
        ensures
            r.child_indent == indent,
            r == (TitledItemList { child_indent: indent, ..self }),
    {
        TitledItemList { child_indent: indent, ..self }
    }

    /// Append one child.
    pub fn add_child(&mut self, child: &str)
        ensures
            strs_view(final(self).children@) == strs_view(old(self).children@).push(child@),
            *final(self) == (TitledItemList { children: final(self).children, ..*old(self) }),
    {
        self.children.push(child.to_owned());
        proof {
            assert(strs_view(self.children@) =~= strs_view(old(self).children@).push(child@));
        }
    }

    /// Write one prefixed text into the printer without wrapping: the first
    /// line at the given indent, following lines indented past the prefix,
    /// each overfull line marked.
    fn send_plain(
        &self,
        printer: &mut Printer,
        prefix: &String,
        content: &String,
        indent: usize,
        line_offset: &mut usize,
    )
        requires
            indent <= 1024,
        ensures
            final(printer).spec_width() == old(printer).spec_width(),
            final(printer)@.len() >= old(printer)@.len(),
            final(printer)@ == spec_apply_inserts(
                old(printer)@,
                spec_plain_inserts(
                    self.dx,
                    self.overfill_symbol@,
                    prefix@,
                    content@,
                    indent as int,
                    *old(line_offset) as int,
                ),
            ),
            *final(line_offset) as int == sat(
                *old(line_offset) + split_lines(prefix@ + content@).len(),
            ),
    {
        let ghost at = *old(line_offset) as int;
        let ghost pv0 = old(printer)@;
        let prefix_chars = str_chars(prefix.as_str());
        let content_chars = str_chars(content.as_str());
        let pw = clamp_width(prefix_chars.len());
        let cw = clamp_width(content_chars.len());
        let dxu = self.dx as usize;
        let mut full: Vec<char> = Vec::new();
        let mut q: usize = 0;
        while q < prefix_chars.len()
            invariant
                q <= prefix_chars@.len(),
                full@ == prefix_chars@.take(q as int),
            decreases prefix_chars.len() - q,
        {
            full.push(prefix_chars[q]);
            proof {
                assert(full@ =~= prefix_chars@.take(q as int + 1));
            }
            q += 1;
        }
        proof {
            assert(prefix_chars@.take(prefix_chars@.len() as int) =~= prefix_chars@);
        }
        let mut q2: usize = 0;
        while q2 < content_chars.len()
            invariant
                q2 <= content_chars@.len(),
                full@ == prefix_chars@ + content_chars@.take(q2 as int),
            decreases content_chars.len() - q2,
        {
            full.push(content_chars[q2]);
            proof {
                assert(full@ =~= prefix_chars@ + content_chars@.take(q2 as int + 1));
            }
            q2 += 1;
        }
        proof {
            assert(content_chars@.take(content_chars@.len() as int) =~= content_chars@);
            assert(full@ =~= prefix@ + content@);
        }
        let lines = split_lines_chars(&full);
        let ghost lines_v = pieces_view(lines@);
        proof {
            assert(lines_v == split_lines(prefix@ + content@));
        }
        let ghost full_ins = spec_plain_inserts(
            self.dx,
            self.overfill_symbol@,
            prefix@,
            content@,
            indent as int,
            at,
        );
        let ghost mut done: Seq<(int, int, Seq<char>)> = Seq::empty();
        let overfill_chars = str_chars(self.overfill_symbol.as_str());
        let first_line = lines[0].clone();
        proof {
            assert(first_line@ =~= lines_v[0]);
        }
        printer.insert_on_line(*line_offset, indent, first_line);
        proof {
            lemma_apply_push(pv0, done, (at, indent as int, lines_v[0]));
            done = done.push((at, indent as int, lines_v[0]));
        }
        if pw + cw > dxu && dxu > 0 {
            printer.insert_on_line(*line_offset, indent + dxu - 1, overfill_chars.clone());
            proof {
                lemma_apply_push(pv0, done, (at, indent + self.dx - 1, self.overfill_symbol@));
                done = done.push((at, indent + self.dx - 1, self.overfill_symbol@));
            }
        }
        *line_offset = line_offset.saturating_add(1);
        let indent2 = indent + pw;
        proof {
            assert(full_ins =~= done + spec_plain_rest_inserts(
                self.dx,
                self.overfill_symbol@,
                lines_v,
                indent2 as int,
                at,
                1,
            ));
        }
        let mut k: usize = 1;
        while k < lines.len()
            invariant
                1 <= k <= lines@.len(),
                pieces_view(lines@) == lines_v,
                indent2 == indent + pw,
                indent2 <= 1280,
                dxu == self.dx as usize,
                overfill_chars@ == self.overfill_symbol@,
                printer.spec_width() == old(printer).spec_width(),
                printer@.len() >= pv0.len(),
                pv0 == old(printer)@,
                printer@ == spec_apply_inserts(pv0, done),
                full_ins == done + spec_plain_rest_inserts(
                    self.dx,
                    self.overfill_symbol@,
                    lines_v,
                    indent2 as int,
                    at,
                    k as int,
                ),
                *line_offset as int == sat(at + k),
            decreases lines.len() - k,
        {
            let line = lines[k].clone();
            proof {
                assert(line@ =~= lines_v[k as int]);
            }
            let lw = clamp_width(line.len());
            let ghost here = sat(at + k);
            printer.insert_on_line(*line_offset, indent2, line);
            proof {
                lemma_apply_push(pv0, done, (here, indent2 as int, lines_v[k as int]));
                done = done.push((here, indent2 as int, lines_v[k as int]));
            }
            if lw > dxu && dxu > 0 {
                printer.insert_on_line(*line_offset, indent2 + dxu - 1, overfill_chars.clone());
                proof {
                    lemma_apply_push(
                        pv0,
                        done,
                        (here, indent2 + self.dx - 1, self.overfill_symbol@),
                    );
                    done = done.push((here, indent2 + self.dx - 1, self.overfill_symbol@));
                }
            }
            proof {
                assert(full_ins =~= done + spec_plain_rest_inserts(
                    self.dx,
                    self.overfill_symbol@,
                    lines_v,
                    indent2 as int,
                    at,
                    k as int + 1,
                ));
            }
            *line_offset = line_offset.saturating_add(1);
            k += 1;
        }
        proof {
            assert(full_ins =~= done);
        }
    }

    /// Write the title line at (x, y) and every child under it, indented by
    /// the child indent and prefixed by its position: the title's and
    /// children's insertions, in order.
    pub fn write_to_printer(&self, printer: &mut Printer)
        ensures
            final(printer).spec_width() == old(printer).spec_width(),
            final(printer)@.len() >= old(printer)@.len(),
            final(printer)@ == spec_apply_inserts(
                old(printer)@,
                spec_titled_inserts(*self, self.children@.len() as int),
            ),
    {
        let ghost pv0 = old(printer)@;
        let x = self.x as usize;
        let mut line_offset = self.y as usize;
        self.send_plain(printer, &self.title_prefix, &self.title, x, &mut line_offset);
        let cx = x + self.child_indent as usize;
        let n = self.children.len();
        proof {
            assert(printer@ == spec_apply_inserts(pv0, spec_titled_inserts(*self, 0)));
            assert(line_offset as int == sat(self.y + spec_titled_dy(*self, 0)));
        }
        if n == 1 {
            proof {
                lemma_apply_add(
                    pv0,
                    spec_titled_inserts(*self, 0),
                    spec_plain_inserts(
                        self.dx,
                        self.overfill_symbol@,
                        spec_titled_child_prefix(*self, 0),
                        self.children@[0]@,
                        self.x + self.child_indent,
                        sat(self.y + spec_titled_dy(*self, 0)),
                    ),
                );
            }
            self.send_plain(printer, &self.child_prefix_sole, &self.children[0], cx, &mut line_offset);
        } else if n > 1 {
            proof {
                lemma_apply_add(
                    pv0,
                    spec_titled_inserts(*self, 0),
                    spec_plain_inserts(
                        self.dx,
                        self.overfill_symbol@,
                        spec_titled_child_prefix(*self, 0),
                        self.children@[0]@,
                        self.x + self.child_indent,
                        sat(self.y + spec_titled_dy(*self, 0)),
                    ),
                );
                lemma_sat_shift(
                    self.y as int,
                    spec_titled_dy(*self, 0),
                    split_lines(spec_titled_child_prefix(*self, 0) + self.children@[0]@).len() as int,
                );
            }
            self.send_plain(
                printer,
                &self.child_prefix_first,
                &self.children[0],
                cx,
                &mut line_offset,
            );
            let mut i: usize = 1;
            while i < n - 1
                invariant
                    1 <= i <= n - 1,
                    n == self.children@.len(),
                    cx == self.x + self.child_indent,
                    cx <= 1024,
                    pv0 == old(printer)@,
                    printer.spec_width() == old(printer).spec_width(),
                    printer@.len() >= pv0.len(),
                    printer@ == spec_apply_inserts(pv0, spec_titled_inserts(*self, i as int)),
                    spec_titled_dy(*self, i as int) >= 0,
                    line_offset as int == sat(self.y + spec_titled_dy(*self, i as int)),
                decreases n - 1 - i,
            {
                proof {
                    assert(spec_titled_child_prefix(*self, i as int)
                        == self.child_prefix_middle@);
                    lemma_apply_add(
                        pv0,
                        spec_titled_inserts(*self, i as int),
                        spec_plain_inserts(
                            self.dx,
                            self.overfill_symbol@,
                            spec_titled_child_prefix(*self, i as int),
                            self.children@[i as int]@,
                            self.x + self.child_indent,
                            sat(self.y + spec_titled_dy(*self, i as int)),
                        ),
                    );
                    lemma_sat_shift(
                        self.y as int,
                        spec_titled_dy(*self, i as int),
                        split_lines(
                            spec_titled_child_prefix(*self, i as int) + self.children@[i as int]@,
                        ).len() as int,
                    );
                }
                self.send_plain(
                    printer,
                    &self.child_prefix_middle,
                    &self.children[i],
                    cx,
                    &mut line_offset,
                );
                i += 1;
            }
            proof {
                assert(spec_titled_child_prefix(*self, n - 1) == self.child_prefix_last@);
                lemma_apply_add(
                    pv0,
                    spec_titled_inserts(*self, n as int - 1),
                    spec_plain_inserts(
                        self.dx,
                        self.overfill_symbol@,
                        spec_titled_child_prefix(*self, n as int - 1),
                        self.children@[n - 1]@,
                        self.x + self.child_indent,
                        sat(self.y + spec_titled_dy(*self, n as int - 1)),
                    ),
                );
            }
            self.send_plain(
                printer,
                &self.child_prefix_last,
                &self.children[n - 1],
                cx,
                &mut line_offset,
            );
        }
    }
}

/// The break characters a fresh item list wraps at.
pub open spec fn spec_default_separators() -> Seq<char> {
    seq![' ', '/', '\\', ',', '.']
}

/// A position sum that stops at the largest single-byte value.
pub open spec fn sat8(a: int) -> int {
    if a > 255 {
        255
    } else {
        a
    }
}

/// A titled list whose children are wrapped to the column: the title as one
/// item list, the children as a second, indented one.
pub struct TitledList {
    pub x: u8,
    pub y: u8,
    pub dx: u8,
    pub title: String,
    pub title_prefix: String,
    pub children: Vec<String>,
    pub child_indent: u8,
    pub child_prefix_first: String,
    pub child_prefix_middle: String,
    pub child_prefix_last: String,
    pub child_prefix_sole: String,
    pub separators: Vec<char>,
    pub wrap_title: bool,
    pub wrap_children: bool,
    pub overfill_symbol: String,
}

/// The style of the one-item list that writes a titled list's title.
pub open spec fn spec_title_style(l: TitledList) -> ListStyle {
    ListStyle {
        first: l.title_prefix@,
        middle: l.title_prefix@,
        last: l.title_prefix@,
        sole: l.title_prefix@,
        separators: spec_default_separators(),
        dx: l.dx,
        overfill: l.overfill_symbol@,
    }
}

/// The style of the indented, wrapped list that writes a titled list's
/// children.
pub open spec fn spec_children_style(l: TitledList) -> ListStyle {
    ListStyle {
        first: l.child_prefix_first@,
        middle: l.child_prefix_middle@,
        last: l.child_prefix_last@,
        sole: l.child_prefix_sole@,
        separators: spec_default_separators(),
        dx: (if l.dx >= l.child_indent {
            (l.dx - l.child_indent) as u8
        } else {
            0u8
        }),
        overfill: l.overfill_symbol@,
    }
}

impl TitledList {
    pub fn new(x: u8, y: u8, dx: u8) -> (r: TitledList)
        ensures
            r.x == x,
            r.y == y,
            r.dx == dx,
            r.title@ == Seq::<char>::empty(),
            r.title_prefix@ == Seq::<char>::empty(),
            r.children@ == Seq::<String>::empty(),
            r.child_indent == 0,
            r.child_prefix_first@ == Seq::<char>::empty(),
            r.child_prefix_middle@ == Seq::<char>::empty(),
            r.child_prefix_last@ == Seq::<char>::empty(),
            r.child_prefix_sole@ == Seq::<char>::empty(),
            r.separators@ == Seq::<char>::empty(),
            r.wrap_title == false,
            r.wrap_children == false,
            r.overfill_symbol@ == "\u{2592}"@,
    {
        TitledList {
            x,
            y,
            dx,
            title: String::new(),
            title_prefix: String::new(),
            children: Vec::new(),
            child_indent: 0,
            child_prefix_first: String::new(),
            child_prefix_middle: String::new(),
            child_prefix_last: String::new(),
            child_prefix_sole: String::new(),
            separators: Vec::new(),
            wrap_title: false,
            wrap_children: false,
            overfill_symbol: String::from_str("\u{2592}"),
        }
    }

    /// Set the title.
    pub fn title(self, title: &str) -> (r: TitledList)
        ensures
            r.title@ == title@,
            r == (TitledList { title: r.title, ..self }),
    {
        TitledList { title: title.to_owned(), ..self }
    }

    /// Set the prefix written before the title.
    pub fn title_prefix(self, title_prefix: &str) -> (r: TitledList)
        ensures
            r.title_prefix@ == title_prefix@,
            r == (TitledList { title_prefix: r.title_prefix, ..self }),
    {
        TitledList { title_prefix: title_prefix.to_owned(), ..self }
    }

    /// Set the prefixes for the first, middle, last and sole child.
    pub fn child_prefixes(self, first: &str, middle: &str, last: &str, sole: &str) -> (r:
        TitledList)
        ensures
            r.child_prefix_first@ == first@,
            r.child_prefix_middle@ == middle@,
            r.child_prefix_last@ == last@,
            r.child_prefix_sole@ == sole@,
            r == (TitledList {
                child_prefix_first: r.child_prefix_first,
                child_prefix_middle: r.child_prefix_middle,
                child_prefix_last: r.child_prefix_last,
                child_prefix_sole: r.child_prefix_sole,
                ..self
            }),
    {
        TitledList {
            child_prefix_first: first.to_owned(),
            child_prefix_middle: middle.to_owned(),
            child_prefix_last: last.to_owned(),
            child_prefix_sole: sole.to_owned(),
            ..self
        }
    }

    /// Wrap child content to the column width.
    pub fn wrap_children(self) -> (r: TitledList)
        ensures
            r.wrap_children == true,
            r == (TitledList { wrap_children: true, ..self }),
    {
        TitledList { wrap_children: true, ..self }
    }

    /// Append one child.
    pub fn add_child(&mut self, child: &str)
        ensures
            strs_view(final(self).children@) == strs_view(old(self).children@).push(child@),
            *final(self) == (TitledList { children: final(self).children, ..*old(self) }),
    {
        self.children.push(child.to_owned());
        proof {
            assert(strs_view(self.children@) =~= strs_view(old(self).children@).push(child@));
        }
    }

    /// Set the characters after which child content may be broken.
    pub fn separators(self, separators: Vec<char>) -> (r: TitledList)
        ensures
            r.separators == separators,
            r == (TitledList { separators: r.separators, ..self }),
    {
        TitledList { separators, ..self }
    }

    /// Set how far children are indented under the title.
    pub fn child_indent(self, indent: u8) -> (r: TitledList)
        ensures
            r.child_indent == indent,
            r == (TitledList { child_indent: indent, ..self }),
    {
        TitledList { child_indent: indent, ..self }
    }

    /// Write the title and the children into the printer: exactly the
    /// insertions of a one-item list holding the title at (x, y), followed by
    /// those of a wrapped list holding the children, indented under it.
    pub fn write_to_printer(&self, printer: &mut Printer)
        ensures
            final(printer).spec_width() == old(printer).spec_width(),
            final(printer)@.len() >= old(printer)@.len(),
            final(printer)@ == spec_apply_inserts(
                spec_apply_inserts(
                    old(printer)@,
                    spec_list_inserts(
                        spec_title_style(*self),
                        seq![self.title@],
                        self.x as int,
                        self.y as int,
                        1,
                    ),
                ),
                spec_list_inserts(
                    spec_children_style(*self),
                    strs_view(self.children@),
                    sat8(self.x + self.child_indent),
                    sat8(self.y + 1),
                    self.children@.len() as int,
                ),
            ),
    {
        let ghost pv0 = old(printer)@;
        let mut itemlist_title = ItemList::new(self.x, self.y, self.dx).prefixes(
            self.title_prefix.as_str(),
            self.title_prefix.as_str(),
            self.title_prefix.as_str(),
            self.title_prefix.as_str(),
        ).overfill_symbol(self.overfill_symbol.as_str());
        itemlist_title.add_item(self.title.as_str());
        proof {
            assert(spec_style(itemlist_title) == spec_title_style(*self));
            assert(strs_view(itemlist_title.items@) =~= seq![self.title@]);
        }

        let mut itemlist_children = ItemList::new(
            self.x.saturating_add(self.child_indent),
            self.y.saturating_add(1),
            self.dx.saturating_sub(self.child_indent),
        ).overfill_symbol(self.overfill_symbol.as_str()).wrap_lines().prefixes(
            self.child_prefix_first.as_str(),
            self.child_prefix_middle.as_str(),
            self.child_prefix_last.as_str(),
            self.child_prefix_sole.as_str(),
        );
        proof {
            assert(spec_style(itemlist_children) == spec_children_style(*self));
            assert(strs_view(itemlist_children.items@) =~= strs_view(self.children@).take(0));
        }
        let mut i: usize = 0;
        while i < self.children.len()
            invariant
                i <= self.children@.len(),
                spec_style(itemlist_children) == spec_children_style(*self),
                itemlist_children.x as int == sat8(self.x + self.child_indent),
                itemlist_children.y as int == sat8(self.y + 1),
                strs_view(itemlist_children.items@) == strs_view(self.children@).take(i as int),
            decreases self.children.len() - i,
        {
            itemlist_children.add_item(self.children[i].as_str());
            proof {
                assert(strs_view(itemlist_children.items@) =~= strs_view(
                    self.children@,
                ).take(i as int + 1));
            }
            i += 1;
        }
        proof {
            assert(strs_view(self.children@).take(self.children@.len() as int) =~= strs_view(
                self.children@,
            ));
        }

        itemlist_title.write_to_printer(printer);
        itemlist_children.write_to_printer(printer);
    }
}

} // verus!
