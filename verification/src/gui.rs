//! Display styles and the tables that the service prints: which text attribute and
//! foreground colour each style uses, and which cells a table holds.
use vstd::prelude::*;

verus! {

/// A display style.
#[derive(Clone, Copy, Debug, PartialEq, Eq, Structural)]
pub enum Colour {
    /// Errors.
    Error,
    /// Output.
    Output,
    /// Commands.
    Order,
    /// Monitoring.
    Monitoring,
    /// Functions.
    Function,
    /// Debugging.
    Debug,
}

/// A text attribute of a table cell.
#[derive(Clone, Copy, Debug, PartialEq, Eq, Structural)]
pub enum TextAttribute {
    Italic,
    Bold,
    RapidBlink,
    Underlined,
    Reverse,
}

/// A foreground colour of a table cell.
#[derive(Clone, Copy, Debug, PartialEq, Eq, Structural)]
pub enum ForeColour {
    DarkRed,
    DarkGreen,
    DarkYellow,
    DarkCyan,
    DarkGrey,
    Black,
}

/// The look of the cells of a style: text attribute and foreground colour.
#[derive(Clone, Copy, Debug, PartialEq, Eq, Structural)]
pub struct Frames {
    /// Text attribute.
    pub text: TextAttribute,
    /// Foreground colour.
    pub frames: ForeColour,
}

/// The level at which a style's messages are logged.
#[derive(Clone, Copy, Debug, PartialEq, Eq, Structural)]
pub enum LogLevel {
    Error,
    Info,
    Debug,
}

/// The look of each style.
pub open spec fn style_of(c: Colour) -> Frames {
    match c {
        Colour::Error => Frames { text: TextAttribute::Italic, frames: ForeColour::DarkRed },
        Colour::Output => Frames { text: TextAttribute::Bold, frames: ForeColour::DarkGreen },
        Colour::Order => Frames { text: TextAttribute::RapidBlink, frames: ForeColour::DarkYellow },
        Colour::Monitoring => Frames { text: TextAttribute::Underlined, frames: ForeColour::DarkCyan },
        Colour::Function => Frames { text: TextAttribute::Reverse, frames: ForeColour::DarkGrey },
        Colour::Debug => Frames { text: TextAttribute::Reverse, frames: ForeColour::Black },
    }
}

/// A table cell: its text and its look.
#[derive(Debug)]
pub struct StyledCell {
    pub text: String,
    pub attribute: TextAttribute,
    pub colour: ForeColour,
}

/// A table to print: a header row and data rows of styled cells.
#[derive(Debug)]
pub struct StyledTable {
    pub header: Vec<StyledCell>,
    pub rows: Vec<Vec<StyledCell>>,
}

/// A cell shows the text `t` in the look `f`.
pub open spec fn cell_is(c: StyledCell, t: Seq<char>, f: Frames) -> bool {
    &&& c.text@ == t
    &&& c.attribute == f.text
    &&& c.colour == f.frames
}

/// The row `r` shows the texts `ts` in the look `f`.
pub open spec fn row_is(r: Seq<StyledCell>, ts: Seq<Seq<char>>, f: Frames) -> bool {
    &&& r.len() == ts.len()
    &&& forall|i: int| 0 <= i < r.len() ==> cell_is(#[trigger] r[i], ts[i], f)
}

/// Table contents with a fixed number of columns `GC` and rows `FG`.
pub struct Information<'a, const GC: usize, const FG: usize> {
    /// Header.
    pub list: [&'a str; GC],
    /// Rows.
    pub data: [[&'a str; GC]; FG],
}

/// Table contents of any size.
pub struct Information2<'a> {
    /// Header.
    pub list: Vec<&'a str>,
    /// Rows.
    pub data: Vec<Vec<String>>,
}

fn styled(t: &str, f: Frames) -> (c: StyledCell)
    ensures
        cell_is(c, t@, f),
{
    StyledCell { text: t.to_owned(), attribute: f.text, colour: f.frames }
}

/// Styles a row of string slices.
fn styled_row<const GC: usize>(texts: [&str; GC], f: Frames) -> (r: Vec<StyledCell>)
    ensures
        row_is(r@, texts@.map_values(|t: &str| t@), f),
{
    let mut r: Vec<StyledCell> = Vec::new();
    let mut i: usize = 0;
    while i < GC
        invariant
            i <= GC,
            texts@.len() == GC,
            r@.len() == i,
            forall|j: int| 0 <= j < i ==> cell_is(#[trigger] r@[j], texts@[j]@, f),
        decreases GC - i,
    {
        r.push(styled(texts[i], f));
        i = i + 1;
    }
    r
}

impl Colour {
    /// The look of this style.
    pub fn view(&self) -> (r: Frames)
        ensures
            r == style_of(*self),
    {
        match self {
            Colour::Error => Frames { text: TextAttribute::Italic, frames: ForeColour::DarkRed },
            Colour::Output => Frames { text: TextAttribute::Bold, frames: ForeColour::DarkGreen },
            Colour::Order => Frames { text: TextAttribute::RapidBlink, frames: ForeColour::DarkYellow },
            Colour::Monitoring => Frames { text: TextAttribute::Underlined, frames: ForeColour::DarkCyan },
            Colour::Function => Frames { text: TextAttribute::Reverse, frames: ForeColour::DarkGrey },
            Colour::Debug => Frames { text: TextAttribute::Reverse, frames: ForeColour::Black },
        }
    }

    /// The level at which messages in this style are logged, if they are.
    pub fn log_level(&self) -> (r: Option<LogLevel>)
        ensures
            r == match *self {
                Colour::Error => Some(LogLevel::Error),
                Colour::Monitoring => Some(LogLevel::Info),
                Colour::Debug => Some(LogLevel::Debug),
                _ => None,
            },
    {
        match self {
            Colour::Error => Some(LogLevel::Error),
            Colour::Monitoring => Some(LogLevel::Info),
            Colour::Debug => Some(LogLevel::Debug),
            _ => None,
        }
    }

    /// A table in this style with the header and rows of `e`.
    pub fn table<const GC: usize, const FG: usize>(&self, e: Information<GC, FG>) -> (t: StyledTable)
        ensures
            row_is(t.header@, e.list@.map_values(|s: &str| s@), style_of(*self)),
            t.rows@.len() == FG,
            forall|k: int| 0 <= k < FG ==> row_is(
                (#[trigger] t.rows@[k])@,
                e.data@[k]@.map_values(|s: &str| s@),
                style_of(*self),
            ),
    {
        let i = self.view();
        let header = styled_row(e.list, i);
        let mut rows: Vec<Vec<StyledCell>> = Vec::new();
        let mut k: usize = 0;
        while k < FG
            invariant
                k <= FG,
                i == style_of(*self),
                e.data@.len() == FG,
                rows@.len() == k,
                forall|j: int| 0 <= j < k ==> row_is(
                    (#[trigger] rows@[j])@,
                    e.data@[j]@.map_values(|s: &str| s@),
                    i,
                ),
            decreases FG - k,
        {
            rows.push(styled_row(e.data[k], i));
            k = k + 1;
        }
        StyledTable { header, rows }
    }

    /// A table in this style with the header and rows of `e`.
    pub fn table2(&self, e: Information2) -> (t: StyledTable)
        ensures
            row_is(t.header@, e.list@.map_values(|s: &str| s@), style_of(*self)),
            t.rows@.len() == e.data@.len(),
            forall|k: int| 0 <= k < e.data@.len() ==> row_is(
                (#[trigger] t.rows@[k])@,
                e.data@[k]@.map_values(|s: String| s@),
                style_of(*self),
            ),
    {
        let i = self.view();
        let mut header: Vec<StyledCell> = Vec::new();
        let mut j: usize = 0;
        while j < e.list.len()
            invariant
                j <= e.list@.len(),
                header@.len() == j,
                forall|q: int| 0 <= q < j ==> cell_is(#[trigger] header@[q], e.list@[q]@, i),
            decreases e.list@.len() - j,
        {
            header.push(styled(e.list[j], i));
            j = j + 1;
        }
        let mut rows: Vec<Vec<StyledCell>> = Vec::new();
        let mut k: usize = 0;
        while k < e.data.len()
            invariant
                k <= e.data@.len(),
                i == style_of(*self),
                rows@.len() == k,
                forall|q: int| 0 <= q < k ==> row_is(
                    (#[trigger] rows@[q])@,
                    e.data@[q]@.map_values(|s: String| s@),
                    i,
                ),
            decreases e.data@.len() - k,
        {
            let src = &e.data[k];
            let mut row: Vec<StyledCell> = Vec::new();
            let mut c: usize = 0;
            while c < src.len()
                invariant
                    c <= src@.len(),
                    row@.len() == c,
                    forall|q: int| 0 <= q < c ==> cell_is(#[trigger] row@[q], src@[q]@, i),
                decreases src@.len() - c,
            {
                row.push(styled(src[c].as_str(), i));
                c = c + 1;
            }
            rows.push(row);
            k = k + 1;
        }
        StyledTable { header, rows }
    }
}

} // verus!
