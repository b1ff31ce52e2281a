//! Print options and the attributes of a job submission.

use vstd::prelude::*;
use crate::merge::PageRange;

verus! {

/// On how many sides of the sheet, and bound along which edge.
#[derive(Debug, Clone, Copy, PartialEq, Eq, Structural)]
pub enum DuplexMode {
    TwoSidedLongEdge,
    TwoSidedShortEdge,
    OneSided,
}

#[derive(Debug, Clone, Copy, PartialEq, Eq, Structural)]
pub enum ColorMode {
    Grayscale,
    Color,
}

/// What the caller asked for, as parsed from the request.
#[derive(Debug, Clone)]
pub struct PrintOptions {
    pub sides: DuplexMode,
    pub color_mode: ColorMode,
    pub pages: String,
    pub copies: u32,
    pub title: String,
}

impl DuplexMode {
    /// The keyword that stands for this mode on the wire.
    pub open spec fn keyword_spec(self) -> Seq<char> {
        match self {
            DuplexMode::TwoSidedLongEdge => "two-sided-long-edge"@,
            DuplexMode::TwoSidedShortEdge => "two-sided-short-edge"@,
            DuplexMode::OneSided => "one-sided"@,
        }
    }

    pub fn keyword(&self) -> (k: &'static str)
        ensures
            k@ == self.keyword_spec(),
    {
        match self {
            DuplexMode::TwoSidedLongEdge => "two-sided-long-edge",
            DuplexMode::TwoSidedShortEdge => "two-sided-short-edge",
            DuplexMode::OneSided => "one-sided",
        }
    }
}

impl ColorMode {
    /// The keyword that stands for this mode on the wire.
    pub open spec fn keyword_spec(self) -> Seq<char> {
        match self {
            ColorMode::Grayscale => "grayscale"@,
            ColorMode::Color => "color"@,
        }
    }

    pub fn keyword(&self) -> (k: &'static str)
        ensures
            k@ == self.keyword_spec(),
    {
        match self {
            ColorMode::Grayscale => "grayscale",
            ColorMode::Color => "color",
        }
    }
}

/// The value of a protocol attribute, as far as the gateway reads or writes
/// one.
#[derive(Debug, Clone)]
pub enum AttrValue {
    Integer(i32),
    Keyword(String),
    RangeOfInteger { min: i32, max: i32 },
    Uri(String),
    Other,
}

pub enum ValueView {
    Integer(int),
    Keyword(Seq<char>),
    RangeOfInteger { min: int, max: int },
    Uri(Seq<char>),
    Other,
}

impl View for AttrValue {
    type V = ValueView;

    open spec fn view(&self) -> ValueView {
        match self {
            AttrValue::Integer(v) => ValueView::Integer(*v as int),
            AttrValue::Keyword(k) => ValueView::Keyword(k@),
            AttrValue::RangeOfInteger { min, max } => ValueView::RangeOfInteger {
                min: *min as int,
                max: *max as int,
            },
            AttrValue::Uri(u) => ValueView::Uri(u@),
            AttrValue::Other => ValueView::Other,
        }
    }
}

/// A named protocol attribute.
#[derive(Debug, Clone)]
pub struct JobAttribute {
    pub name: String,
    pub value: AttrValue,
}

impl View for JobAttribute {
    type V = (Seq<char>, ValueView);

    open spec fn view(&self) -> (Seq<char>, ValueView) {
        (self.name@, self.value@)
    }
}

/// The attributes of `s`, each by its view.
pub open spec fn views(s: Seq<JobAttribute>) -> Seq<(Seq<char>, ValueView)> {
    s.map_values(|a: JobAttribute| a@)
}

/// The copies count as the protocol's signed 32-bit integer carries it:
/// counts above `i32::MAX` wrap around.
pub open spec fn copies_value(copies: u32) -> int {
    if copies <= i32::MAX {
        copies as int
    } else {
        copies - 0x1_0000_0000
    }
}

/// One `page-ranges` attribute for each range, in order.
pub open spec fn range_attrs(ranges: Seq<PageRange>) -> Seq<(Seq<char>, ValueView)> {
    ranges.map_values(
        |p: PageRange| ("page-ranges"@, ValueView::RangeOfInteger { min: p.0 as int, max: p.1 as int }),
    )
}

/// The attributes of a submission: sides, colour mode, the page ranges if
/// any, copies.
pub open spec fn job_attrs(
    sides: DuplexMode,
    color_mode: ColorMode,
    ranges: Seq<PageRange>,
    copies: u32,
) -> Seq<(Seq<char>, ValueView)> {
    seq![
        ("sides"@, ValueView::Keyword(sides.keyword_spec())),
        ("print-color-mode"@, ValueView::Keyword(color_mode.keyword_spec())),
    ] + range_attrs(ranges) + seq![("copies"@, ValueView::Integer(copies_value(copies)))]
}

/// The copies count as a signed 32-bit integer.
pub fn copies_integer(copies: u32) -> (v: i32)
    ensures
        v == copies_value(copies),
{
    if copies <= 0x7fff_ffff {
        copies as i32
    } else {
        let low: u32 = copies - 0x8000_0000;
        (low as i32) + i32::MIN
    }
}

/// Builds the attributes of a submission from the options and the merged
/// page ranges. No range gives no `page-ranges` attribute, which selects
/// every page.
pub fn job_attributes(
    sides: DuplexMode,
    color_mode: ColorMode,
    ranges: &Vec<PageRange>,
    copies: u32,
) -> (attrs: Vec<JobAttribute>)
    ensures
        views(attrs@) == job_attrs(sides, color_mode, ranges@, copies),
        attrs@.len() == ranges@.len() + 3,
{
    let mut attrs: Vec<JobAttribute> = Vec::new();
    attrs.push(
        JobAttribute {
            name: "sides".to_owned(),
            value: AttrValue::Keyword(sides.keyword().to_owned()),
        },
    );
    attrs.push(
        JobAttribute {
            name: "print-color-mode".to_owned(),
            value: AttrValue::Keyword(color_mode.keyword().to_owned()),
        },
    );
    let ghost head = seq![
        ("sides"@, ValueView::Keyword(sides.keyword_spec())),
        ("print-color-mode"@, ValueView::Keyword(color_mode.keyword_spec())),
    ];
    assert(views(attrs@) =~= head);
    let mut i: usize = 0;
    while i < ranges.len()
        invariant
            i <= ranges.len(),
            views(attrs@) == head + range_attrs(ranges@.take(i as int)),
            attrs@.len() == i + 2,
        decreases ranges.len() - i,
    {
        let p = ranges[i];
        let ghost before = attrs@;
        attrs.push(
            JobAttribute {
                name: "page-ranges".to_owned(),
                value: AttrValue::RangeOfInteger { min: p.0, max: p.1 },
            },
        );
        proof {
            assert(ranges@.take(i + 1) =~= ranges@.take(i as int).push(p));
            assert(views(attrs@) =~= views(before).push(attrs@.last()@));
            assert(range_attrs(ranges@.take(i + 1)) =~= range_attrs(ranges@.take(i as int)).push(
                attrs@.last()@,
            ));
            assert(views(attrs@) =~= head + range_attrs(ranges@.take(i + 1)));
        }
        i += 1;
    }
    let ghost before = attrs@;
    attrs.push(
        JobAttribute { name: "copies".to_owned(), value: AttrValue::Integer(copies_integer(copies)) },
    );
    proof {
        assert(ranges@.take(i as int) =~= ranges@);
        assert(views(attrs@) =~= views(before).push(attrs@.last()@));
        assert(views(attrs@) =~= job_attrs(sides, color_mode, ranges@, copies));
    }
    attrs
}

} // verus!
