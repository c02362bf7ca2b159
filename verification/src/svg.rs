//! The vector document builder: path data, path and rectangle elements,
//! and the enclosing document, each rendered to its markup text by a
//! verified formatter. Coordinates arrive in milli-pixels and are written
//! with one decimal place.

use vstd::prelude::*;
use vstd::string::StringExecFns;
use crate::fixed::{lemma_round_div_bound, round_div, round_div_i64};

verus! {

/// The single-character text of a decimal digit.
pub open spec fn spec_digit_seq(d: int) -> Seq<char> {
    if d == 0 {
        "0"@
    } else if d == 1 {
        "1"@
    } else if d == 2 {
        "2"@
    } else if d == 3 {
        "3"@
    } else if d == 4 {
        "4"@
    } else if d == 5 {
        "5"@
    } else if d == 6 {
        "6"@
    } else if d == 7 {
        "7"@
    } else if d == 8 {
        "8"@
    } else {
        "9"@
    }
}

/// The decimal text of a non-negative integer.
pub open spec fn spec_digits(n: int) -> Seq<char>
    decreases n,
{
    if n < 10 {
        spec_digit_seq(n)
    } else {
        spec_digits(n / 10) + spec_digit_seq(n % 10)
    }
}

/// A milli-pixel value written with one decimal place: rounded to tenths
/// of a pixel, a leading minus for negative values.
pub open spec fn spec_fmt_deci(v: int) -> Seq<char> {
    let t = round_div(v, 100);
    if t < 0 {
        "-"@ + spec_digits((-t) / 10) + "."@ + spec_digit_seq((-t) % 10)
    } else {
        spec_digits(t / 10) + "."@ + spec_digit_seq(t % 10)
    }
}

/// Appends one decimal digit to `s`.
fn append_digit(s: &mut String, d: u64)
    requires
        d < 10,
    ensures
        final(s)@ == old(s)@ + spec_digit_seq(d as int),
{
    if d == 0 {
        s.append("0");
    } else if d == 1 {
        s.append("1");
    } else if d == 2 {
        s.append("2");
    } else if d == 3 {
        s.append("3");
    } else if d == 4 {
        s.append("4");
    } else if d == 5 {
        s.append("5");
    } else if d == 6 {
        s.append("6");
    } else if d == 7 {
        s.append("7");
    } else if d == 8 {
        s.append("8");
    } else {
        s.append("9");
    }
}

/// Appends the decimal text of `n` to `s`.
fn append_digits(s: &mut String, n: u64)
    ensures
        final(s)@ == old(s)@ + spec_digits(n as int),
    decreases n,
{
    if n < 10 {
        append_digit(s, n);
    } else {
        append_digits(s, n / 10);
        append_digit(s, n % 10);
        proof {
            assert((*s)@ =~= old(s)@ + spec_digits(n as int));
        }
    }
}

/// Writes a milli-pixel value with one decimal place.
pub fn format_deci(v: i64) -> (r: String)
    requires
        -1_000_000_000_000_000 <= v <= 1_000_000_000_000_000,
    ensures
        r@ == spec_fmt_deci(v as int),
{
    proof {
        lemma_round_div_bound(v as int, 100, 10_000_000_000_000);
    }
    let t: i64 = round_div_i64(v, 100);
    let mut s = String::new();
    if t < 0 {
        s.append("-");
    }
    let m: u64 = if t < 0 {
        (-t) as u64
    } else {
        t as u64
    };
    append_digits(&mut s, m / 10);
    s.append(".");
    append_digit(&mut s, m % 10);
    proof {
        assert(s@ =~= spec_fmt_deci(v as int));
    }
    s
}

/// The `d` attribute of a path: a sequence of drawing commands.
pub struct PathData {
    pub d: String,
}

/// The text a `move_to` or `line_to` command appends: the command letter,
/// then the two coordinates with one decimal place, blank-separated.
pub open spec fn spec_cmd(cmd: Seq<char>, x: int, y: int) -> Seq<char> {
    cmd + spec_fmt_deci(x) + " "@ + spec_fmt_deci(y) + " "@
}

impl PathData {
    pub fn new() -> (r: PathData)
        ensures
            r.d@ == Seq::<char>::empty(),
    {
        PathData { d: String::new() }
    }

    fn push_point(&mut self, command: &str, x: i64, y: i64)
        requires
            -1_000_000_000_000_000 <= x <= 1_000_000_000_000_000,
            -1_000_000_000_000_000 <= y <= 1_000_000_000_000_000,
        ensures
            final(self).d@ == old(self).d@ + spec_cmd(command@, x as int, y as int),
    {
        let fx = format_deci(x);
        let fy = format_deci(y);
        self.d.append(command);
        self.d.append(fx.as_str());
        self.d.append(" ");
        self.d.append(fy.as_str());
        self.d.append(" ");
        proof {
            assert(self.d@ =~= old(self).d@ + spec_cmd(command@, x as int, y as int));
        }
    }

    /// Appends an absolute move command, coordinates in milli-pixels.
    pub fn move_to(&mut self, x: i64, y: i64)
        requires
            -1_000_000_000_000_000 <= x <= 1_000_000_000_000_000,
            -1_000_000_000_000_000 <= y <= 1_000_000_000_000_000,
        ensures
            final(self).d@ == old(self).d@ + spec_cmd("M"@, x as int, y as int),
    {
        self.push_point("M", x, y)
    }

    /// Appends an absolute line command, coordinates in milli-pixels.
    pub fn line_to(&mut self, x: i64, y: i64)
        requires
            -1_000_000_000_000_000 <= x <= 1_000_000_000_000_000,
            -1_000_000_000_000_000 <= y <= 1_000_000_000_000_000,
        ensures
            final(self).d@ == old(self).d@ + spec_cmd("L"@, x as int, y as int),
    {
        self.push_point("L", x, y)
    }

    /// Appends the close-path command.
    pub fn close(&mut self)
        ensures
            final(self).d@ == old(self).d@ + "Z"@,
    {
        self.d.append("Z");
    }
}

/// A path element: its drawing data and its fill color.
pub struct Path {
    pub d: PathData,
    pub fill: String,
}

/// The markup of a path element.
pub open spec fn spec_path_str(p: Path) -> Seq<char> {
    "<path fill=\""@ + p.fill@ + "\" d=\""@ + p.d.d@ + "\" />"@
}

impl Path {
    pub fn new() -> (r: Path)
        ensures
            r.d.d@ == Seq::<char>::empty(),
            r.fill@ == Seq::<char>::empty(),
    {
        Path { d: PathData::new(), fill: String::new() }
    }

    pub fn set_fill(self, fill: &str) -> (r: Path)
        ensures
            r.fill@ == fill@,
            r.d == self.d,
    {
        Path { fill: fill.to_owned(), ..self }
    }

    /// Writes the element's markup.
    pub fn to_svg_string(&self) -> (r: String)
        ensures
            r@ == spec_path_str(*self),
    {
        let mut s = String::new();
        s.append("<path fill=\"");
        s.append(self.fill.as_str());
        s.append("\" d=\"");
        s.append(self.d.d.as_str());
        s.append("\" />");
        proof {
            assert(s@ =~= spec_path_str(*self));
        }
        s
    }
}

/// A background rectangle element with an optional fill color.
pub struct Rect {
    pub width: u32,
    pub height: u32,
    pub fill: Option<String>,
}

/// The markup of a rectangle element; without a fill the attribute is
/// simply left out.
pub open spec fn spec_rect_str(r: Rect) -> Seq<char> {
    "<rect width=\""@ + spec_digits(r.width as int) + "\" height=\""@ + spec_digits(
        r.height as int,
    ) + "\" "@ + (match r.fill {
        Some(f) => "fill=\""@ + f@ + "\""@,
        None => Seq::<char>::empty(),
    }) + " />"@
}

impl Rect {
    pub fn new(width: u32, height: u32) -> (r: Rect)
        ensures
            r.width == width,
            r.height == height,
            r.fill is None,
    {
        Rect { width, height, fill: None }
    }

    pub fn set_fill(self, fill: Option<String>) -> (r: Rect)
        ensures
            r.fill == fill,
            r.width == self.width,
            r.height == self.height,
    {
        Rect { fill, ..self }
    }

    /// Writes the element's markup.
    pub fn to_svg_string(&self) -> (r: String)
        ensures
            r@ == spec_rect_str(*self),
    {
        let mut s = String::new();
        s.append("<rect width=\"");
        append_digits(&mut s, self.width as u64);
        s.append("\" height=\"");
        append_digits(&mut s, self.height as u64);
        s.append("\" ");
        match &self.fill {
            Some(f) => {
                s.append("fill=\"");
                s.append(f.as_str());
                s.append("\"");
            },
            None => {},
        }
        s.append(" />");
        proof {
            assert(s@ =~= spec_rect_str(*self));
        }
        s
    }
}

/// One child of the document: a tagged variant rather than dynamic
/// dispatch.
pub enum SvgNode {
    Path(Path),
    Rect(Rect),
}

/// The markup of one document child.
pub open spec fn spec_node_str(n: SvgNode) -> Seq<char> {
    match n {
        SvgNode::Path(p) => spec_path_str(p),
        SvgNode::Rect(r) => spec_rect_str(r),
    }
}

/// The markup of the first `i` document children, concatenated in order.
pub open spec fn spec_children_prefix(s: Seq<SvgNode>, i: int) -> Seq<char>
    decreases i,
{
    if i <= 0 {
        Seq::empty()
    } else {
        spec_children_prefix(s, i - 1) + spec_node_str(s[i - 1])
    }
}

/// The document element: canvas size and children.
pub struct Svg {
    pub width: u32,
    pub height: u32,
    pub children: Vec<SvgNode>,
}

/// The markup of the document's opening tag.
pub open spec fn spec_svg_header(w: int, h: int) -> Seq<char> {
    "<svg xmlns=\"http://www.w3.org/2000/svg\" viewBox=\"0 0 "@ + spec_digits(w) + " "@
        + spec_digits(h) + "\" width=\""@ + spec_digits(w) + "\" height=\""@ + spec_digits(h)
        + "\">"@
}

/// The markup of the whole document.
pub open spec fn spec_svg_str(s: Svg) -> Seq<char> {
    spec_svg_header(s.width as int, s.height as int) + spec_children_prefix(
        s.children@,
        s.children@.len() as int,
    ) + "</svg>"@
}

impl Svg {
    pub fn new(width: u32, height: u32) -> (r: Svg)
        ensures
            r.width == width,
            r.height == height,
            r.children@ == Seq::<SvgNode>::empty(),
    {
        Svg { width, height, children: Vec::new() }
    }

    /// Appends a child to the document.
    pub fn add_child(&mut self, child: SvgNode)
        ensures
            final(self).children@ == old(self).children@.push(child),
            final(self).width == old(self).width,
            final(self).height == old(self).height,
    {
        self.children.push(child);
    }

    /// Writes the document's markup: the opening tag, each child in
    /// order, and the closing tag.
    pub fn to_svg_string(&self) -> (r: String)
        ensures
            r@ == spec_svg_str(*self),
    {
        let mut s = String::new();
        s.append("<svg xmlns=\"http://www.w3.org/2000/svg\" viewBox=\"0 0 ");
        append_digits(&mut s, self.width as u64);
        s.append(" ");
        append_digits(&mut s, self.height as u64);
        s.append("\" width=\"");
        append_digits(&mut s, self.width as u64);
        s.append("\" height=\"");
        append_digits(&mut s, self.height as u64);
        s.append("\">");
        proof {
            assert(s@ =~= spec_svg_header(self.width as int, self.height as int));
        }
        let mut i: usize = 0;
        while i < self.children.len()
            invariant
                0 <= i <= self.children@.len(),
                s@ == spec_svg_header(self.width as int, self.height as int)
                    + spec_children_prefix(self.children@, i as int),
            decreases self.children@.len() - i,
        {
            let piece = match &self.children[i] {
                SvgNode::Path(p) => p.to_svg_string(),
                SvgNode::Rect(r) => r.to_svg_string(),
            };
            s.append(piece.as_str());
            i = i + 1;
            proof {
                assert(s@ =~= spec_svg_header(self.width as int, self.height as int)
                    + spec_children_prefix(self.children@, i as int));
            }
        }
        s.append("</svg>");
        proof {
            assert(s@ =~= spec_svg_str(*self));
        }
        s
    }
}

} // verus!
