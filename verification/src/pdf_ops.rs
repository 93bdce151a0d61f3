//! A PDF content stream under construction, with a cache of the current
//! stroke colour and line width so that a style is only written when it
//! changes. The drawing operations themselves (lines, text, links) are of a
//! type `T` that the caller chooses; this module orders them.
use vstd::prelude::*;
use crate::style::{Color, Width};

verus! {

/// One operation of the content stream: a style change, or a drawing
/// operation that carries its own geometry.
pub enum PdfOp<T> {
    SetOutlineColor(Color),
    SetFillColor(Color),
    SetOutlineThickness(Width),
    Draw(T),
}

/// The abstract state of a stream: the operations written so far, and the
/// colour and width that the cache remembers as last set.
pub struct PdfState<T> {
    pub ops: Seq<PdfOp<T>>,
    pub color: Option<Color>,
    pub width: Option<Width>,
}

/// The outline colour that the stream sets last, if any.
pub open spec fn last_outline_color<T>(ops: Seq<PdfOp<T>>) -> Option<Color>
    decreases ops.len(),
{
    if ops.len() == 0 {
        None
    } else {
        match ops.last() {
            PdfOp::SetOutlineColor(c) => Some(c),
            _ => last_outline_color(ops.drop_last()),
        }
    }
}

/// The fill colour that the stream sets last, if any.
pub open spec fn last_fill_color<T>(ops: Seq<PdfOp<T>>) -> Option<Color>
    decreases ops.len(),
{
    if ops.len() == 0 {
        None
    } else {
        match ops.last() {
            PdfOp::SetFillColor(c) => Some(c),
            _ => last_fill_color(ops.drop_last()),
        }
    }
}

/// The line thickness that the stream sets last, if any.
pub open spec fn last_thickness<T>(ops: Seq<PdfOp<T>>) -> Option<Width>
    decreases ops.len(),
{
    if ops.len() == 0 {
        None
    } else {
        match ops.last() {
            PdfOp::SetOutlineThickness(w) => Some(w),
            _ => last_thickness(ops.drop_last()),
        }
    }
}

pub open spec fn draw_ops<T>(items: Seq<T>) -> Seq<PdfOp<T>> {
    items.map_values(|t: T| PdfOp::Draw(t))
}

impl<T> PdfState<T> {
    pub open spec fn push(self, op: PdfOp<T>) -> PdfState<T> {
        PdfState { ops: self.ops.push(op), color: self.color, width: self.width }
    }

    pub open spec fn set_color(self, color: Color) -> PdfState<T> {
        if self.color == Some(color) {
            self
        } else {
            PdfState {
                ops: self.ops.push(PdfOp::SetOutlineColor(color)).push(PdfOp::SetFillColor(color)),
                color: Some(color),
                width: self.width,
            }
        }
    }

    pub open spec fn set_width(self, width: Width) -> PdfState<T> {
        if self.width == Some(width) {
            self
        } else {
            PdfState {
                ops: self.ops.push(PdfOp::SetOutlineThickness(width)),
                color: self.color,
                width: Some(width),
            }
        }
    }

    pub open spec fn draw_all(self, items: Seq<T>) -> PdfState<T> {
        PdfState { ops: self.ops + draw_ops(items), color: self.color, width: self.width }
    }

    /// The cache tells the truth: the colour and width it remembers are the
    /// ones that the stream itself sets last.
    pub open spec fn is_consistent(self) -> bool {
        &&& self.color == last_outline_color(self.ops)
        &&& self.color == last_fill_color(self.ops)
        &&& self.width == last_thickness(self.ops)
    }
}

/// A content stream being written, with its style cache.
pub struct PdfOps<T> {
    ops: Vec<PdfOp<T>>,
    color: Option<Color>,
    width: Option<Width>,
}

impl<T> View for PdfOps<T> {
    type V = PdfState<T>;

    closed spec fn view(&self) -> PdfState<T> {
        PdfState { ops: self.ops@, color: self.color, width: self.width }
    }
}

impl<T> PdfOps<T> {
    /// An empty stream with nothing cached.
    pub fn new() -> (r: PdfOps<T>)
        ensures
            r@ == (PdfState::<T> { ops: Seq::empty(), color: None, width: None }),
    {
        PdfOps { ops: Vec::new(), color: None, width: None }
    }

    /// The operations written so far.
    pub fn ops(&self) -> (r: &Vec<PdfOp<T>>)
        ensures
            r@ == self@.ops,
    {
        &self.ops
    }

    /// The stream's operations, in the order written.
    pub fn into_ops(self) -> (r: Vec<PdfOp<T>>)
        ensures
            r@ == self@.ops,
    {
        self.ops
    }

    /// The colour that the cache remembers.
    pub fn color(&self) -> (r: Option<Color>)
        ensures
            r == self@.color,
    {
        self.color
    }

    /// The width that the cache remembers.
    pub fn width(&self) -> (r: Option<Width>)
        ensures
            r == self@.width,
    {
        self.width
    }

    /// Appends one operation.
    pub fn push(&mut self, op: PdfOp<T>)
        ensures
            final(self)@ == old(self)@.push(op),
    {
        self.ops.push(op);
    }

    /// Sets outline and fill colour, unless the cache says that they are
    /// already this colour.
    pub fn set_color(&mut self, color: Color)
        ensures
            final(self)@ == old(self)@.set_color(color),
    {
        let same = match self.color {
            Some(c) => c == color,
            None => false,
        };
        if same {
            return;
        }
        self.push(PdfOp::SetOutlineColor(color));
        self.push(PdfOp::SetFillColor(color));
        self.color = Some(color);
    }

    /// Sets the outline thickness, unless the cache says that it is already
    /// this width.
    pub fn set_width(&mut self, width: Width)
        ensures
            final(self)@ == old(self)@.set_width(width),
    {
        let same = match self.width {
            Some(w) => w == width,
            None => false,
        };
        if same {
            return;
        }
        self.push(PdfOp::SetOutlineThickness(width));
        self.width = Some(width);
    }

    /// A line: colour, then width, then the line itself.
    pub fn draw_line(&mut self, width: Width, color: Color, line: T)
        ensures
            final(self)@ == old(self)@.set_color(color).set_width(width).push(PdfOp::Draw(line)),
    {
        self.set_color(color);
        self.set_width(width);
        self.push(PdfOp::Draw(line));
    }

    /// A text section: colour, then the operations of the section in order.
    pub fn draw_text(&mut self, color: Color, section: Vec<T>)
        ensures
            final(self)@ == old(self)@.set_color(color).draw_all(section@),
    {
        self.set_color(color);
        let ghost start = self@;
        let ghost items = section@;
        let mut rest = section;
        let ghost mut i: int = 0;
        while rest.len() > 0
            invariant
                0 <= i <= items.len(),
                rest@ == items.skip(i),
                self@ == start.draw_all(items.take(i)),
            decreases rest.len(),
        {
            let item = rest.remove(0);
            proof {
                assert(items.take(i + 1) =~= items.take(i).push(item));
                assert(draw_ops(items.take(i + 1)) =~= draw_ops(items.take(i)).push(PdfOp::Draw(item)));
            }
            self.push(PdfOp::Draw(item));
            proof {
                i = i + 1;
                assert(rest@ =~= items.skip(i));
            }
        }
        proof {
            assert(items.take(i) =~= items);
        }
    }
}

proof fn lemma_last_after_push<T>(ops: Seq<PdfOp<T>>, op: PdfOp<T>)
    ensures
        last_outline_color(ops.push(op)) == (match op {
            PdfOp::SetOutlineColor(c) => Some(c),
            _ => last_outline_color(ops),
        }),
        last_fill_color(ops.push(op)) == (match op {
            PdfOp::SetFillColor(c) => Some(c),
            _ => last_fill_color(ops),
        }),
        last_thickness(ops.push(op)) == (match op {
            PdfOp::SetOutlineThickness(w) => Some(w),
            _ => last_thickness(ops),
        }),
{
    assert(ops.push(op).drop_last() =~= ops);
}

/// A new stream's cache is consistent with it.
pub proof fn lemma_new_consistent<T>()
    ensures
        (PdfState::<T> { ops: Seq::empty(), color: None, width: None }).is_consistent(),
{
}

/// Setting a colour keeps the cache consistent, and afterwards the stream's
/// outline and fill colour is that colour, whether or not an operation was
/// written: skipping a repeated colour never changes what is drawn.
pub proof fn lemma_set_color_consistent<T>(s: PdfState<T>, color: Color)
    requires
        s.is_consistent(),
    ensures
        s.set_color(color).is_consistent(),
        last_outline_color(s.set_color(color).ops) == Some(color),
        last_fill_color(s.set_color(color).ops) == Some(color),
        last_thickness(s.set_color(color).ops) == last_thickness(s.ops),
{
    if s.color != Some(color) {
        lemma_last_after_push(s.ops, PdfOp::SetOutlineColor(color));
        lemma_last_after_push(s.ops.push(PdfOp::SetOutlineColor(color)), PdfOp::SetFillColor(color));
    }
}

/// Setting a width keeps the cache consistent, and afterwards the stream's
/// line thickness is that width, whether or not an operation was written.
pub proof fn lemma_set_width_consistent<T>(s: PdfState<T>, width: Width)
    requires
        s.is_consistent(),
    ensures
        s.set_width(width).is_consistent(),
        last_thickness(s.set_width(width).ops) == Some(width),
        last_outline_color(s.set_width(width).ops) == last_outline_color(s.ops),
        last_fill_color(s.set_width(width).ops) == last_fill_color(s.ops),
{
    if s.width != Some(width) {
        lemma_last_after_push(s.ops, PdfOp::SetOutlineThickness(width));
    }
}

/// Drawing operations keep the cache consistent.
pub proof fn lemma_draw_consistent<T>(s: PdfState<T>, items: Seq<T>)
    requires
        s.is_consistent(),
    ensures
        s.draw_all(items).is_consistent(),
    decreases items.len(),
{
    if items.len() > 0 {
        let init = items.drop_last();
        lemma_draw_consistent(s, init);
        assert(draw_ops(items) =~= draw_ops(init).push(PdfOp::Draw(items.last())));
        assert(s.ops + draw_ops(items) =~= (s.ops + draw_ops(init)).push(PdfOp::Draw(items.last())));
        lemma_last_after_push(s.ops + draw_ops(init), PdfOp::Draw(items.last()));
    } else {
        assert(s.ops + draw_ops(items) =~= s.ops);
    }
}

/// Setting the same colour, or the same width, a second time writes nothing.
pub proof fn lemma_style_idempotent<T>(s: PdfState<T>, color: Color, width: Width)
    ensures
        s.set_color(color).set_color(color) == s.set_color(color),
        s.set_width(width).set_width(width) == s.set_width(width),
{
}

/// Style changes only append: what was written stays, in its place.
pub proof fn lemma_style_appends<T>(s: PdfState<T>, color: Color, width: Width)
    ensures
        s.ops.len() <= s.set_color(color).ops.len() <= s.ops.len() + 2,
        s.set_color(color).ops.subrange(0, s.ops.len() as int) == s.ops,
        s.ops.len() <= s.set_width(width).ops.len() <= s.ops.len() + 1,
        s.set_width(width).ops.subrange(0, s.ops.len() as int) == s.ops,
{
    assert(s.set_color(color).ops.subrange(0, s.ops.len() as int) =~= s.ops);
    assert(s.set_width(width).ops.subrange(0, s.ops.len() as int) =~= s.ops);
}

} // verus!
