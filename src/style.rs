//! The style record of a node and the value types it holds.
//!
//! Lengths are fixed-point numbers in thousandths of a pixel, and percentages
//! in thousandths of a percent, so `Points(12_500)` is 12.5 px and
//! `Percent(50_000)` is 50 %.
use vstd::prelude::*;
use crate::text::{
    str_eq, decimal_millis, parse_decimal_millis, millis_text, millis_to_text, MAX_MILLIS,
    lemma_millis_text_round_trip,
};
use crate::color::COColor;
use vstd::string::*;

verus! {

/// Cross-axis alignment of a container's children.
#[derive(Clone, Copy, PartialEq, Eq, Debug, Structural)]
pub enum COAlignItems {
    FlexStart,
    FlexEnd,
    Center,
    Baseline,
    Stretch,
}

/// Main-axis distribution of a container's children.
#[derive(Clone, Copy, PartialEq, Eq, Debug, Structural)]
pub enum COJustifyContent {
    FlexStart,
    FlexEnd,
    Center,
    SpaceBetween,
    SpaceAround,
    SpaceEvenly,
}

/// The direction in which a container places its children.
#[derive(Clone, Copy, PartialEq, Eq, Debug, Structural)]
pub enum COFlexDirection {
    Row,
    Column,
    RowReverse,
    ColumnReverse,
}

impl COAlignItems {
    /// The value that a script's name denotes.
    pub open spec fn named(s: Seq<char>) -> Option<COAlignItems> {
        if s == "flex_start"@ {
            Some(COAlignItems::FlexStart)
        } else if s == "flex_end"@ {
            Some(COAlignItems::FlexEnd)
        } else if s == "center"@ {
            Some(COAlignItems::Center)
        } else if s == "baseline"@ {
            Some(COAlignItems::Baseline)
        } else if s == "stretch"@ {
            Some(COAlignItems::Stretch)
        } else {
            None
        }
    }

    /// The value that a markup attribute denotes.
    pub open spec fn marked(s: Seq<char>) -> Option<COAlignItems> {
        if s == "flexstart"@ {
            Some(COAlignItems::FlexStart)
        } else if s == "flexend"@ {
            Some(COAlignItems::FlexEnd)
        } else if s == "center"@ {
            Some(COAlignItems::Center)
        } else if s == "baseline"@ {
            Some(COAlignItems::Baseline)
        } else if s == "stretch"@ {
            Some(COAlignItems::Stretch)
        } else {
            None
        }
    }

    /// The name that scripts read and write.
    pub open spec fn spec_name(self) -> Seq<char> {
        match self {
            COAlignItems::FlexStart => "flex_start"@,
            COAlignItems::FlexEnd => "flex_end"@,
            COAlignItems::Center => "center"@,
            COAlignItems::Baseline => "baseline"@,
            COAlignItems::Stretch => "stretch"@,
        }
    }

    /// The spelling used in document markup.
    pub open spec fn spec_markup(self) -> Seq<char> {
        match self {
            COAlignItems::FlexStart => "flexstart"@,
            COAlignItems::FlexEnd => "flexend"@,
            COAlignItems::Center => "center"@,
            COAlignItems::Baseline => "baseline"@,
            COAlignItems::Stretch => "stretch"@,
        }
    }

    pub fn as_str(&self) -> (r: &'static str)
        ensures
            r@ == self.spec_name(),
    {
        match self {
            COAlignItems::FlexStart => "flex_start",
            COAlignItems::FlexEnd => "flex_end",
            COAlignItems::Center => "center",
            COAlignItems::Baseline => "baseline",
            COAlignItems::Stretch => "stretch",
        }
    }

    pub fn from_name(s: &str) -> (r: Option<Self>)
        ensures
            r == Self::named(s@),
    {
        if str_eq(s, "flex_start") {
            Some(COAlignItems::FlexStart)
        } else if str_eq(s, "flex_end") {
            Some(COAlignItems::FlexEnd)
        } else if str_eq(s, "center") {
            Some(COAlignItems::Center)
        } else if str_eq(s, "baseline") {
            Some(COAlignItems::Baseline)
        } else if str_eq(s, "stretch") {
            Some(COAlignItems::Stretch)
        } else {
            None
        }
    }

    pub fn from_markup(s: &str) -> (r: Option<Self>)
        ensures
            r == Self::marked(s@),
    {
        if str_eq(s, "flexstart") {
            Some(COAlignItems::FlexStart)
        } else if str_eq(s, "flexend") {
            Some(COAlignItems::FlexEnd)
        } else if str_eq(s, "center") {
            Some(COAlignItems::Center)
        } else if str_eq(s, "baseline") {
            Some(COAlignItems::Baseline)
        } else if str_eq(s, "stretch") {
            Some(COAlignItems::Stretch)
        } else {
            None
        }
    }
}

impl Default for COAlignItems {
    fn default() -> (r: Self)
        ensures
            r == COAlignItems::Stretch,
    {
        COAlignItems::Stretch
    }
}

impl COJustifyContent {
    /// The value that a script's name denotes.
    pub open spec fn named(s: Seq<char>) -> Option<COJustifyContent> {
        if s == "flex_start"@ {
            Some(COJustifyContent::FlexStart)
        } else if s == "flex_end"@ {
            Some(COJustifyContent::FlexEnd)
        } else if s == "center"@ {
            Some(COJustifyContent::Center)
        } else if s == "space_between"@ {
            Some(COJustifyContent::SpaceBetween)
        } else if s == "space_around"@ {
            Some(COJustifyContent::SpaceAround)
        } else if s == "space_evenly"@ {
            Some(COJustifyContent::SpaceEvenly)
        } else {
            None
        }
    }

    /// The value that a markup attribute denotes.
    pub open spec fn marked(s: Seq<char>) -> Option<COJustifyContent> {
        if s == "flexstart"@ {
            Some(COJustifyContent::FlexStart)
        } else if s == "flexend"@ {
            Some(COJustifyContent::FlexEnd)
        } else if s == "center"@ {
            Some(COJustifyContent::Center)
        } else if s == "spacebetween"@ {
            Some(COJustifyContent::SpaceBetween)
        } else if s == "spacearound"@ {
            Some(COJustifyContent::SpaceAround)
        } else if s == "spaceevenly"@ {
            Some(COJustifyContent::SpaceEvenly)
        } else {
            None
        }
    }

    /// The name that scripts read and write.
    pub open spec fn spec_name(self) -> Seq<char> {
        match self {
            COJustifyContent::FlexStart => "flex_start"@,
            COJustifyContent::FlexEnd => "flex_end"@,
            COJustifyContent::Center => "center"@,
            COJustifyContent::SpaceBetween => "space_between"@,
            COJustifyContent::SpaceAround => "space_around"@,
            COJustifyContent::SpaceEvenly => "space_evenly"@,
        }
    }

    /// The spelling used in document markup.
    pub open spec fn spec_markup(self) -> Seq<char> {
        match self {
            COJustifyContent::FlexStart => "flexstart"@,
            COJustifyContent::FlexEnd => "flexend"@,
            COJustifyContent::Center => "center"@,
            COJustifyContent::SpaceBetween => "spacebetween"@,
            COJustifyContent::SpaceAround => "spacearound"@,
            COJustifyContent::SpaceEvenly => "spaceevenly"@,
        }
    }

    pub fn as_str(&self) -> (r: &'static str)
        ensures
            r@ == self.spec_name(),
    {
        match self {
            COJustifyContent::FlexStart => "flex_start",
            COJustifyContent::FlexEnd => "flex_end",
            COJustifyContent::Center => "center",
            COJustifyContent::SpaceBetween => "space_between",
            COJustifyContent::SpaceAround => "space_around",
            COJustifyContent::SpaceEvenly => "space_evenly",
        }
    }

    pub fn from_name(s: &str) -> (r: Option<Self>)
        ensures
            r == Self::named(s@),
    {
        if str_eq(s, "flex_start") {
            Some(COJustifyContent::FlexStart)
        } else if str_eq(s, "flex_end") {
            Some(COJustifyContent::FlexEnd)
        } else if str_eq(s, "center") {
            Some(COJustifyContent::Center)
        } else if str_eq(s, "space_between") {
            Some(COJustifyContent::SpaceBetween)
        } else if str_eq(s, "space_around") {
            Some(COJustifyContent::SpaceAround)
        } else if str_eq(s, "space_evenly") {
            Some(COJustifyContent::SpaceEvenly)
        } else {
            None
        }
    }

    pub fn from_markup(s: &str) -> (r: Option<Self>)
        ensures
            r == Self::marked(s@),
    {
        if str_eq(s, "flexstart") {
            Some(COJustifyContent::FlexStart)
        } else if str_eq(s, "flexend") {
            Some(COJustifyContent::FlexEnd)
        } else if str_eq(s, "center") {
            Some(COJustifyContent::Center)
        } else if str_eq(s, "spacebetween") {
            Some(COJustifyContent::SpaceBetween)
        } else if str_eq(s, "spacearound") {
            Some(COJustifyContent::SpaceAround)
        } else if str_eq(s, "spaceevenly") {
            Some(COJustifyContent::SpaceEvenly)
        } else {
            None
        }
    }
}

impl Default for COJustifyContent {
    fn default() -> (r: Self)
        ensures
            r == COJustifyContent::FlexStart,
    {
        COJustifyContent::FlexStart
    }
}

impl COFlexDirection {
    /// The value that a script's name denotes.
    pub open spec fn named(s: Seq<char>) -> Option<COFlexDirection> {
        if s == "row"@ {
            Some(COFlexDirection::Row)
        } else if s == "column"@ {
            Some(COFlexDirection::Column)
        } else if s == "row_reverse"@ {
            Some(COFlexDirection::RowReverse)
        } else if s == "column_reverse"@ {
            Some(COFlexDirection::ColumnReverse)
        } else {
            None
        }
    }

    /// The value that a markup attribute denotes.
    pub open spec fn marked(s: Seq<char>) -> Option<COFlexDirection> {
        if s == "row"@ {
            Some(COFlexDirection::Row)
        } else if s == "column"@ {
            Some(COFlexDirection::Column)
        } else if s == "rowreverse"@ {
            Some(COFlexDirection::RowReverse)
        } else if s == "columnreverse"@ {
            Some(COFlexDirection::ColumnReverse)
        } else {
            None
        }
    }

    /// The name that scripts read and write.
    pub open spec fn spec_name(self) -> Seq<char> {
        match self {
            COFlexDirection::Row => "row"@,
            COFlexDirection::Column => "column"@,
            COFlexDirection::RowReverse => "row_reverse"@,
            COFlexDirection::ColumnReverse => "column_reverse"@,
        }
    }

    /// The spelling used in document markup.
    pub open spec fn spec_markup(self) -> Seq<char> {
        match self {
            COFlexDirection::Row => "row"@,
            COFlexDirection::Column => "column"@,
            COFlexDirection::RowReverse => "rowreverse"@,
            COFlexDirection::ColumnReverse => "columnreverse"@,
        }
    }

    pub fn as_str(&self) -> (r: &'static str)
        ensures
            r@ == self.spec_name(),
    {
        match self {
            COFlexDirection::Row => "row",
            COFlexDirection::Column => "column",
            COFlexDirection::RowReverse => "row_reverse",
            COFlexDirection::ColumnReverse => "column_reverse",
        }
    }

    pub fn from_name(s: &str) -> (r: Option<Self>)
        ensures
            r == Self::named(s@),
    {
        if str_eq(s, "row") {
            Some(COFlexDirection::Row)
        } else if str_eq(s, "column") {
            Some(COFlexDirection::Column)
        } else if str_eq(s, "row_reverse") {
            Some(COFlexDirection::RowReverse)
        } else if str_eq(s, "column_reverse") {
            Some(COFlexDirection::ColumnReverse)
        } else {
            None
        }
    }

    pub fn from_markup(s: &str) -> (r: Option<Self>)
        ensures
            r == Self::marked(s@),
    {
        if str_eq(s, "row") {
            Some(COFlexDirection::Row)
        } else if str_eq(s, "column") {
            Some(COFlexDirection::Column)
        } else if str_eq(s, "rowreverse") {
            Some(COFlexDirection::RowReverse)
        } else if str_eq(s, "columnreverse") {
            Some(COFlexDirection::ColumnReverse)
        } else {
            None
        }
    }
}

impl Default for COFlexDirection {
    fn default() -> (r: Self)
        ensures
            r == COFlexDirection::Row,
    {
        COFlexDirection::Row
    }
}


/// A size constraint: a length in thousandths of a pixel, or a share of the
/// parent in thousandths of a percent.
#[derive(Clone, Copy, PartialEq, Eq, Debug, Structural)]
pub enum CODimension {
    Undefined,
    Auto,
    Points(i64),
    Percent(i64),
}

/// What a size attribute denotes: `12.5` is 12.5 px, `50%` is half of the
/// parent.
pub open spec fn dimension_of(s: Seq<char>) -> Option<CODimension> {
    if s.len() > 0 && s.last() == '%' {
        match decimal_millis(s.drop_last()) {
            Some(v) => Some(CODimension::Percent(v as i64)),
            None => None,
        }
    } else {
        match decimal_millis(s) {
            Some(v) => Some(CODimension::Points(v as i64)),
            None => None,
        }
    }
}

/// Reads a size attribute; `None` where it is not a number, optionally
/// followed by `%`.
pub fn try_parse_dimension(text: &str) -> (r: Option<CODimension>)
    ensures
        r == dimension_of(text@),
{
    let n = text.unicode_len();
    if n > 0 && text.get_char(n - 1) == '%' {
        let number = text.substring_char(0, n - 1);
        assert(number@ == text@.drop_last());
        match parse_decimal_millis(number) {
            Some(v) => Some(CODimension::Percent(v)),
            None => None,
        }
    } else {
        match parse_decimal_millis(text) {
            Some(v) => Some(CODimension::Points(v)),
            None => None,
        }
    }
}

impl CODimension {
    pub open spec fn spec_text(self) -> Seq<char> {
        match self {
            CODimension::Undefined => "undefined"@,
            CODimension::Auto => "auto"@,
            CODimension::Points(v) => millis_text(v as int),
            CODimension::Percent(v) => millis_text(v as int) + seq!['%'],
        }
    }

    /// The text that scripts read: `auto`, `12.5` or `50%`.
    pub fn as_text(&self) -> (r: String)
        ensures
            r@ == self.spec_text(),
    {
        match self {
            CODimension::Undefined => String::from_str("undefined"),
            CODimension::Auto => String::from_str("auto"),
            CODimension::Points(v) => millis_to_text(*v),
            CODimension::Percent(v) => {
                let mut t = millis_to_text(*v);
                proof {
                    reveal_strlit("%");
                }
                t.append("%");
                t
            },
        }
    }
}

/// The text that scripts read of a length or a share reads back as the same
/// size.
pub proof fn lemma_dimension_text_round_trip(d: CODimension)
    requires
        d is Points || d is Percent,
        d matches CODimension::Points(v) ==> -MAX_MILLIS <= v <= MAX_MILLIS,
        d matches CODimension::Percent(v) ==> -MAX_MILLIS <= v <= MAX_MILLIS,
    ensures
        dimension_of(d.spec_text()) == Some(d),
{
    match d {
        CODimension::Points(v) => {
            lemma_millis_text_round_trip(v as int);
        },
        CODimension::Percent(v) => {
            lemma_millis_text_round_trip(v as int);
            let t = millis_text(v as int);
            assert((t + seq!['%']).drop_last() == t);
        },
        _ => {},
    }
}

/// The font size of a node that sets none.
pub const DEFAULT_FONT_SIZE: u16 = 20;

/// The style record of a node. `dirty` records a change that the layout has
/// not yet taken in; each setter raises it.
#[derive(Clone, Copy, PartialEq, Eq, Debug, Structural)]
pub struct Styling {
    pub align: COAlignItems,
    pub justify: COJustifyContent,
    pub flexdir: COFlexDirection,
    pub width: Option<CODimension>,
    pub height: Option<CODimension>,
    pub color: Option<COColor>,
    pub background_color: Option<COColor>,
    pub font_size: u16,
    pub dirty: bool,
}

impl Default for Styling {
    fn default() -> (r: Self)
        ensures
            r == Styling::spec_default(),
    {
        Styling {
            align: COAlignItems::Stretch,
            justify: COJustifyContent::FlexStart,
            flexdir: COFlexDirection::Row,
            width: None,
            height: None,
            color: None,
            background_color: None,
            font_size: DEFAULT_FONT_SIZE,
            dirty: false,
        }
    }
}

impl Styling {
    pub open spec fn spec_default() -> Styling {
        Styling {
            align: COAlignItems::Stretch,
            justify: COJustifyContent::FlexStart,
            flexdir: COFlexDirection::Row,
            width: None,
            height: None,
            color: None,
            background_color: None,
            font_size: DEFAULT_FONT_SIZE,
            dirty: false,
        }
    }

    pub fn is_dirty(&self) -> (r: bool)
        ensures
            r == self.dirty,
    {
        self.dirty
    }

    pub fn set_dirty(&mut self)
        ensures
            *final(self) == (Styling { dirty: true, ..*old(self) }),
    {
        self.dirty = true;
    }

    pub fn set_non_dirty(&mut self)
        ensures
            *final(self) == (Styling { dirty: false, ..*old(self) }),
    {
        self.dirty = false;
    }

    pub fn set_width(&mut self, width: Option<CODimension>)
        ensures
            *final(self) == (Styling { width, dirty: true, ..*old(self) }),
    {
        self.width = width;
        self.dirty = true;
    }

    pub fn set_height(&mut self, height: Option<CODimension>)
        ensures
            *final(self) == (Styling { height, dirty: true, ..*old(self) }),
    {
        self.height = height;
        self.dirty = true;
    }

    pub fn set_align(&mut self, align: COAlignItems)
        ensures
            *final(self) == (Styling { align, dirty: true, ..*old(self) }),
    {
        self.align = align;
        self.dirty = true;
    }

    pub fn set_justify(&mut self, justify: COJustifyContent)
        ensures
            *final(self) == (Styling { justify, dirty: true, ..*old(self) }),
    {
        self.justify = justify;
        self.dirty = true;
    }

    pub fn set_flexdir(&mut self, flexdir: COFlexDirection)
        ensures
            *final(self) == (Styling { flexdir, dirty: true, ..*old(self) }),
    {
        self.flexdir = flexdir;
        self.dirty = true;
    }

    pub fn set_color(&mut self, color: Option<COColor>)
        ensures
            *final(self) == (Styling { color, dirty: true, ..*old(self) }),
    {
        self.color = color;
        self.dirty = true;
    }

    pub fn set_background_color(&mut self, background_color: Option<COColor>)
        ensures
            *final(self) == (Styling { background_color, dirty: true, ..*old(self) }),
    {
        self.background_color = background_color;
        self.dirty = true;
    }

    pub fn set_font_size(&mut self, font_size: u16)
        ensures
            *final(self) == (Styling { font_size, dirty: true, ..*old(self) }),
    {
        self.font_size = font_size;
        self.dirty = true;
    }
}

} // verus!
