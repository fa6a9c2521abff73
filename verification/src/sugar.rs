//! Render primitives: one styled cell (a "sugar"), a run-length compressed
//! line of them, and the small data carriers the renderer consumes.

use vstd::prelude::*;

use crate::objects::Position;
use crate::objects::Rect;
use crate::objects::Rgba;

verus! {

/// A handle to an inline graphic attached to a cell.
#[derive(Clone, Copy, Debug, PartialEq, Eq, Structural)]
pub struct SugarGraphic {
    pub id: usize,
    pub width: u16,
    pub height: u16,
}

/// How a cursor is drawn over a cell, with its color.
#[derive(Clone, Copy, Debug, Default, PartialEq, Eq, Structural)]
pub enum SugarCursor {
    Block(Rgba),
    Caret(Rgba),
    Underline(Rgba),
    #[default]
    Disabled,
}

/// A line decoration drawn through or under a cell.
#[derive(Clone, Copy, Debug, Default, PartialEq, Eq, Structural)]
pub enum SugarDecoration {
    Underline,
    Strikethrough,
    #[default]
    Disabled,
}

/// The typeface variant of a cell.
#[derive(Clone, Copy, Debug, Default, PartialEq, Eq, Structural)]
pub struct SugarStyle {
    pub is_italic: bool,
    pub is_bold: bool,
    pub is_bold_italic: bool,
}

/// One styled character cell. `repeated` counts how many further identical
/// cells this one stands for (run-length compression).
#[derive(Clone, Copy, Debug)]
pub struct Sugar {
    pub content: char,
    pub repeated: usize,
    pub foreground_color: Rgba,
    pub background_color: Rgba,
    pub style: SugarStyle,
    pub decoration: SugarDecoration,
    pub cursor: SugarCursor,
    pub media: Option<SugarGraphic>,
}

/// Two cells are equal when everything the renderer draws matches; the
/// attached graphic is deliberately left out of the comparison.
pub open spec fn sugar_eq_full(a: Sugar, b: Sugar) -> bool {
    &&& a.content == b.content
    &&& a.repeated == b.repeated
    &&& a.foreground_color == b.foreground_color
    &&& a.background_color == b.background_color
    &&& a.style == b.style
    &&& a.decoration == b.decoration
    &&& a.cursor == b.cursor
}

/// Equality that also disregards the repetition count: whether a fresh cell
/// can be folded into an existing run.
pub open spec fn sugar_eq_norep(a: Sugar, b: Sugar) -> bool {
    &&& a.content == b.content
    &&& a.foreground_color == b.foreground_color
    &&& a.background_color == b.background_color
    &&& a.style == b.style
    &&& a.decoration == b.decoration
    &&& a.cursor == b.cursor
}

/// The blank cell: a space with zeroed colors and nothing drawn over it.
pub open spec fn blank_sugar() -> Sugar {
    Sugar {
        content: ' ',
        repeated: 0usize,
        foreground_color: Rgba { r: 0u8, g: 0u8, b: 0u8, a: 0u8 },
        background_color: Rgba { r: 0u8, g: 0u8, b: 0u8, a: 0u8 },
        style: SugarStyle { is_italic: false, is_bold: false, is_bold_italic: false },
        decoration: SugarDecoration::Disabled,
        cursor: SugarCursor::Disabled,
        media: Option::<SugarGraphic>::None,
    }
}

impl Default for Sugar {
    /// A blank cell: a space with zeroed colors and nothing drawn over it.
    fn default() -> (r: Self)
        ensures
            r == blank_sugar(),
    {
        Self {
            content: ' ',
            repeated: 0,
            foreground_color: Rgba { r: 0, g: 0, b: 0, a: 0 },
            background_color: Rgba { r: 0, g: 0, b: 0, a: 0 },
            style: SugarStyle { is_italic: false, is_bold: false, is_bold_italic: false },
            decoration: SugarDecoration::Disabled,
            cursor: SugarCursor::Disabled,
            media: None,
        }
    }
}

impl PartialEq for Sugar {
    fn eq(&self, other: &Self) -> bool {
        self.content == other.content && self.repeated == other.repeated
            && self.foreground_color == other.foreground_color && self.background_color
            == other.background_color && self.style == other.style && self.decoration
            == other.decoration && self.cursor == other.cursor
    }
}

impl vstd::std_specs::cmp::PartialEqSpecImpl for Sugar {
    open spec fn obeys_eq_spec() -> bool {
        true
    }

    open spec fn eq_spec(&self, other: &Self) -> bool {
        sugar_eq_full(*self, *other)
    }
}

/// Whether a fresh cell continues the run of `sugar_a`.
fn equal_without_consider_repeat(sugar_a: &Sugar, sugar_b: &Sugar) -> (r: bool)
    ensures
        r == sugar_eq_norep(*sugar_a, *sugar_b),
{
    sugar_a.content == sugar_b.content && sugar_a.foreground_color == sugar_b.foreground_color
        && sugar_a.background_color == sugar_b.background_color && sugar_a.style == sugar_b.style
        && sugar_a.decoration == sugar_b.decoration && sugar_a.cursor == sugar_b.cursor
}

/// Where text is placed on screen and how it is scaled.
#[derive(Clone, Copy, Debug, Default, PartialEq)]
pub struct SugarloafStyle {
    pub screen_position: Position,
    pub line_height: i64,
    pub text_scale: i64,
}

/// An image to place on screen, by path and pixel box.
#[derive(Clone, Debug, Default, PartialEq)]
pub struct ImageProperties {
    pub path: String,
    pub width: i64,
    pub height: i64,
    pub x: i64,
    pub y: i64,
}

/// A free-standing run of text with its placement, font and color.
#[derive(Clone, Debug, Default, PartialEq)]
pub struct SugarText {
    pub position: Position,
    pub content: String,
    pub font_id: usize,
    pub font_size: i64,
    pub color: Rgba,
    pub single_line: bool,
}

/// A block of plain rectangles with an optional text run.
#[derive(Clone, Debug, Default, PartialEq)]
pub struct SugarBlock {
    pub rects: Vec<Rect>,
    pub text: Option<SugarText>,
}

/// A sum saturated at the largest `usize`.
pub open spec fn sat_add_usize(a: int, b: int) -> int {
    if a + b > usize::MAX {
        usize::MAX as int
    } else {
        a + b
    }
}

/// The bookkeeping a line carries besides its cells, as one spec value:
/// how many runs were started, where the non-blank cells start and end, and
/// how many there are.
pub struct LineModel {
    pub inner: Seq<Sugar>,
    pub acc: int,
    pub first_non_default: int,
    pub last_non_default: int,
    pub non_default_count: int,
}

/// The model after one cell is inserted: a cell continuing the last run
/// only bumps that run's repetition count; otherwise the cell starts a new
/// run, and a non-blank cell widens the non-blank span.
pub open spec fn insert_model(m: LineModel, s: Sugar, blank: Sugar) -> LineModel {
    if m.inner.len() > 0 && sugar_eq_norep(m.inner.last(), s) {
        LineModel {
            inner: m.inner.update(
                m.inner.len() - 1,
                Sugar {
                    repeated: sat_add_usize(m.inner.last().repeated as int, 1) as usize,
                    ..m.inner.last()
                },
            ),
            ..m
        }
    } else {
        let bumped = LineModel { inner: m.inner.push(s), acc: sat_add_usize(m.acc, 1), ..m };
        if !sugar_eq_full(s, blank) {
            if m.first_non_default == 0 {
                LineModel {
                    first_non_default: m.acc,
                    last_non_default: m.acc,
                    non_default_count: sat_add_usize(m.non_default_count, 1),
                    ..bumped
                }
            } else {
                LineModel {
                    last_non_default: m.acc,
                    non_default_count: sat_add_usize(m.non_default_count, 1),
                    ..bumped
                }
            }
        } else {
            bumped
        }
    }
}

/// The model after a whole slice of cells is inserted, left to right.
pub open spec fn inserts_model(m: LineModel, cells: Seq<Sugar>, blank: Sugar) -> LineModel
    decreases cells.len(),
{
    if cells.len() == 0 {
        m
    } else {
        inserts_model(insert_model(m, cells.first(), blank), cells.drop_first(), blank)
    }
}

/// A run-length compressed line of cells. Equal consecutive cells are
/// folded into one cell with a repetition count; the line also tracks where
/// its non-blank cells lie so that emptiness and equality are cheap.
#[derive(Clone, Debug)]
pub struct SugarLine {
    pub acc: usize,
    pub inner: Vec<Sugar>,
    pub first_non_default: usize,
    pub last_non_default: usize,
    pub non_default_count: usize,
    pub default_sugar: Sugar,
}

impl SugarLine {
    /// The line's bookkeeping as one spec value.
    pub open spec fn model(self) -> LineModel {
        LineModel {
            inner: self.inner@,
            acc: self.acc as int,
            first_non_default: self.first_non_default as int,
            last_non_default: self.last_non_default as int,
            non_default_count: self.non_default_count as int,
        }
    }

    /// The blank cell used as the emptiness reference.
    pub open spec fn blank(self) -> Sugar {
        self.default_sugar
    }

    /// Appends one cell, folding it into the last run when it matches.
    pub fn insert(&mut self, sugar: &Sugar)
        ensures
            final(self).model() == insert_model(old(self).model(), *sugar, old(self).blank()),
            final(self).default_sugar == old(self).default_sugar,
    {
        let len = self.inner.len();
        if len > 0 && equal_without_consider_repeat(&self.inner[len - 1], sugar) {
            let mut last = self.inner[len - 1];
            last.repeated = match last.repeated.checked_add(1) {
                Some(v) => v,
                None => usize::MAX,
            };
            self.inner[len - 1] = last;
            return;
        }

        self.inner.push(*sugar);

        if !(sugar == &self.default_sugar) {
            if self.first_non_default == 0 {
                self.first_non_default = self.acc;
                self.last_non_default = self.acc;
            } else {
                self.last_non_default = self.acc;
            }
            self.non_default_count = match self.non_default_count.checked_add(1) {
                Some(v) => v,
                None => usize::MAX,
            };
        }

        self.acc = match self.acc.checked_add(1) {
            Some(v) => v,
            None => usize::MAX,
        };
    }

    /// Appends one blank cell, starting a new run.
    pub fn insert_empty(&mut self)
        ensures
            final(self).model() == (LineModel {
                inner: old(self).model().inner.push(old(self).blank()),
                acc: sat_add_usize(old(self).model().acc, 1),
                ..old(self).model()
            }),
            final(self).default_sugar == old(self).default_sugar,
    {
        let blank = self.default_sugar;
        self.inner.push(blank);
        self.acc = match self.acc.checked_add(1) {
            Some(v) => v,
            None => usize::MAX,
        };
    }

    /// How many runs the line holds.
    pub fn len(&self) -> (r: usize)
        ensures
            r == self.inner@.len(),
    {
        self.inner.len()
    }

    /// A line is empty when it holds no non-blank cell, regardless of how
    /// many blank runs it carries.
    pub fn is_empty(&self) -> (r: bool)
        ensures
            r == (self.non_default_count == 0),
    {
        self.non_default_count == 0
    }

    /// Appends every cell of `vector`, left to right.
    pub fn from_vec(&mut self, vector: &[Sugar])
        ensures
            final(self).model() == inserts_model(old(self).model(), vector@, old(self).blank()),
            final(self).default_sugar == old(self).default_sugar,
    {
        let mut i: usize = 0;
        while i < vector.len()
            invariant
                i <= vector@.len(),
                self.model() == inserts_model(
                    old(self).model(),
                    vector@.take(i as int),
                    old(self).blank(),
                ),
                self.default_sugar == old(self).default_sugar,
            decreases vector@.len() - i,
        {
            proof {
                lemma_inserts_model_step(old(self).model(), vector@, i as int, old(self).blank());
            }
            self.insert(&vector[i]);
            i += 1;
        }
        proof {
            assert(vector@.take(vector@.len() as int) == vector@);
        }
    }

    /// The run at position `index`.
    pub fn index(&self, index: usize) -> (r: &Sugar)
        requires
            index < self.inner@.len(),
        ensures
            *r == self.inner@[index as int],
    {
        &self.inner[index]
    }
}

/// Folding one more cell into a left fold of inserts.
proof fn lemma_inserts_model_step(m: LineModel, cells: Seq<Sugar>, i: int, blank: Sugar)
    requires
        0 <= i < cells.len(),
    ensures
        inserts_model(m, cells.take(i + 1), blank) == insert_model(
            inserts_model(m, cells.take(i), blank),
            cells[i],
            blank,
        ),
    decreases i,
{
    let pre = cells.take(i);
    let post = cells.take(i + 1);
    if i == 0 {
        assert(pre.len() == 0);
        assert(post.len() == 1);
        assert(post.first() == cells[0]);
        assert(pre =~= Seq::<Sugar>::empty());
        assert(post.drop_first() =~= Seq::<Sugar>::empty());
        let m2 = insert_model(m, cells[0], blank);
        assert(inserts_model(m, pre, blank) == m);
        assert(inserts_model(m, post, blank) == inserts_model(
            m2,
            Seq::<Sugar>::empty(),
            blank,
        ));
        assert(inserts_model(m2, Seq::<Sugar>::empty(), blank) == m2);
    } else {
        let m2 = insert_model(m, cells[0], blank);
        let cdf = cells.drop_first();
        assert(post.len() == i + 1);
        assert(pre.len() == i);
        assert(post.first() == cells[0]);
        assert(pre.first() == cells[0]);
        assert(post.drop_first() =~= cdf.take(i));
        assert(pre.drop_first() =~= cdf.take(i - 1));
        assert(cdf[i - 1] == cells[i]);
        lemma_inserts_model_step(m2, cdf, i - 1, blank);
        assert(inserts_model(m, post, blank) == inserts_model(m2, cdf.take(i), blank));
        assert(inserts_model(m, pre, blank) == inserts_model(m2, cdf.take(i - 1), blank));
        assert(inserts_model(m2, cdf.take(i), blank) == insert_model(
            inserts_model(m2, cdf.take(i - 1), blank),
            cdf[i - 1],
            blank,
        ));
    }
}

impl Default for SugarLine {
    /// An empty line with the blank cell as its emptiness reference.
    fn default() -> (r: Self)
        ensures
            r.model() == (LineModel {
                inner: Seq::<Sugar>::empty(),
                acc: 0,
                first_non_default: 0,
                last_non_default: 0,
                non_default_count: 0,
            }),
            r.default_sugar == blank_sugar(),
    {
        Self {
            last_non_default: 0,
            first_non_default: 0,
            non_default_count: 0,
            inner: Vec::new(),
            default_sugar: Sugar::default(),
            acc: 0,
        }
    }
}

/// What line equality means: two lines with no non-blank cell are equal
/// outright; otherwise every run and every piece of bookkeeping must match.
pub open spec fn line_eq_spec(a: SugarLine, b: SugarLine) -> bool {
    ||| (a.non_default_count == 0 && b.non_default_count == 0)
    ||| {
        &&& a.inner@.len() == b.inner@.len()
        &&& a.first_non_default == b.first_non_default
        &&& a.last_non_default == b.last_non_default
        &&& a.non_default_count == b.non_default_count
        &&& forall|i: int|
            0 <= i < a.inner@.len() ==> sugar_eq_full(#[trigger] a.inner@[i], b.inner@[i])
    }
}

impl PartialEq for SugarLine {
    fn eq(&self, other: &Self) -> bool {
        if self.is_empty() && other.is_empty() {
            return true;
        }

        let len = self.inner.len();
        if len != other.inner.len() || self.first_non_default != other.first_non_default
            || self.last_non_default != other.last_non_default || self.non_default_count
            != other.non_default_count {
            return false;
        }

        let mut i: usize = 0;
        while i < len
            invariant
                i <= len,
                len == self.inner@.len(),
                len == other.inner@.len(),
                self.first_non_default == other.first_non_default,
                self.last_non_default == other.last_non_default,
                self.non_default_count == other.non_default_count,
                self.non_default_count != 0,
                forall|m: int| 0 <= m < i ==> sugar_eq_full(#[trigger] self.inner@[m], other.inner@[m]),
            decreases len - i,
        {
            if !(self.inner[i] == other.inner[i]) {
                return false;
            }
            i += 1;
        }

        true
    }
}

impl vstd::std_specs::cmp::PartialEqSpecImpl for SugarLine {
    open spec fn obeys_eq_spec() -> bool {
        true
    }

    open spec fn eq_spec(&self, other: &Self) -> bool {
        line_eq_spec(*self, *other)
    }
}

} // verus!
