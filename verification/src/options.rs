//! The print options of one render job.
//!
//! A caller may leave every option open. What the caller gives is kept; a
//! paper size that is not given follows from the paper format, and a few
//! options have a default of their own. Lengths that the caller gives are
//! carried through as they are, in whatever type `L` the caller measures
//! inches in; lengths that come from here are whole hundredths of an inch.

use vstd::prelude::*;

verus! {

/// The paper formats that a job can name.
#[derive(Clone, Copy, Debug, PartialEq, Eq, Structural)]
pub enum PaperFormat {
    A0,
    A1,
    A2,
    A3,
    A4,
    A5,
    A6,
    A7,
    Letter,
    Legal,
    Tabloid,
}

impl PaperFormat {
    /// The width of the paper in hundredths of an inch.
    pub open spec fn width_hundredths(self) -> u32 {
        match self {
            PaperFormat::A0 => 3310,
            PaperFormat::A1 => 2340,
            PaperFormat::A2 => 1650,
            PaperFormat::A3 => 1170,
            PaperFormat::A4 => 827,
            PaperFormat::A5 => 583,
            PaperFormat::A6 => 413,
            PaperFormat::A7 => 291,
            PaperFormat::Letter => 850,
            PaperFormat::Legal => 850,
            PaperFormat::Tabloid => 1100,
        }
    }

    /// The height of the paper in hundredths of an inch.
    pub open spec fn height_hundredths(self) -> u32 {
        match self {
            PaperFormat::A0 => 4680,
            PaperFormat::A1 => 3310,
            PaperFormat::A2 => 2340,
            PaperFormat::A3 => 1650,
            PaperFormat::A4 => 1169,
            PaperFormat::A5 => 827,
            PaperFormat::A6 => 583,
            PaperFormat::A7 => 413,
            PaperFormat::Letter => 1100,
            PaperFormat::Legal => 1400,
            PaperFormat::Tabloid => 1700,
        }
    }

    /// The width of the paper in hundredths of an inch.
    pub fn width(&self) -> (w: u32)
        ensures
            w == self.width_hundredths(),
    {
        match self {
            PaperFormat::A0 => 3310,
            PaperFormat::A1 => 2340,
            PaperFormat::A2 => 1650,
            PaperFormat::A3 => 1170,
            PaperFormat::A4 => 827,
            PaperFormat::A5 => 583,
            PaperFormat::A6 => 413,
            PaperFormat::A7 => 291,
            PaperFormat::Letter => 850,
            PaperFormat::Legal => 850,
            PaperFormat::Tabloid => 1100,
        }
    }

    /// The height of the paper in hundredths of an inch.
    pub fn height(&self) -> (h: u32)
        ensures
            h == self.height_hundredths(),
    {
        match self {
            PaperFormat::A0 => 4680,
            PaperFormat::A1 => 3310,
            PaperFormat::A2 => 2340,
            PaperFormat::A3 => 1650,
            PaperFormat::A4 => 1169,
            PaperFormat::A5 => 827,
            PaperFormat::A6 => 583,
            PaperFormat::A7 => 413,
            PaperFormat::Letter => 1100,
            PaperFormat::Legal => 1400,
            PaperFormat::Tabloid => 1700,
        }
    }
}

/// A length in inches.
#[derive(Clone, Copy, Debug, PartialEq, Eq)]
pub enum Length<L> {
    /// As the caller gave it.
    Given(L),
    /// In whole hundredths of an inch.
    Hundredths(u32),
}

/// The print options as a caller gives them: each may be left open.
#[derive(Debug)]
pub struct PdfOptions<L> {
    pub landscape: Option<bool>,
    pub display_header_footer: Option<bool>,
    pub print_background: Option<bool>,
    pub format: Option<PaperFormat>,
    pub scale: Option<L>,
    pub paper_width: Option<L>,
    pub paper_height: Option<L>,
    pub margin_top: Option<L>,
    pub margin_bottom: Option<L>,
    pub margin_left: Option<L>,
    pub margin_right: Option<L>,
    pub page_ranges: Option<String>,
    pub ignore_invalid_page_ranges: Option<bool>,
    pub header_template: Option<String>,
    pub footer_template: Option<String>,
    pub prefer_css_page_size: Option<bool>,
}

/// The print options that a job is rendered with. What has a default or
/// follows from the paper format is settled; what is still open is left to
/// the browser.
#[derive(Debug)]
pub struct PrintOptions<L> {
    pub landscape: Option<bool>,
    pub display_header_footer: Option<bool>,
    pub print_background: bool,
    pub format: PaperFormat,
    pub scale: Option<L>,
    pub paper_width: Length<L>,
    pub paper_height: Length<L>,
    pub margin_top: Length<L>,
    pub margin_bottom: Length<L>,
    pub margin_left: Length<L>,
    pub margin_right: Length<L>,
    pub page_ranges: Option<String>,
    pub ignore_invalid_page_ranges: Option<bool>,
    pub header_template: Option<String>,
    pub footer_template: Option<String>,
    pub prefer_css_page_size: bool,
}

/// A length as given, or else `fallback` hundredths of an inch.
pub open spec fn length_or<L>(given: Option<L>, fallback: u32) -> Length<L> {
    match given {
        Some(length) => Length::Given(length),
        None => Length::Hundredths(fallback),
    }
}

/// A switch as given, or else on.
pub open spec fn on_unless(given: Option<bool>) -> bool {
    match given {
        Some(on) => on,
        None => true,
    }
}

/// The paper format as given, or else A4.
pub open spec fn format_or_a4(given: Option<PaperFormat>) -> PaperFormat {
    match given {
        Some(format) => format,
        None => PaperFormat::A4,
    }
}

/// The print options that `given` resolves to.
///
/// Every option that is given is taken. The background is printed and the
/// page size of the style sheet preferred unless the caller says otherwise;
/// the margins are 0 where none is given; the paper is A4 where no format is
/// given; and its width and height are those of the format where they are
/// not given themselves.
pub open spec fn resolved<L>(given: PdfOptions<L>) -> PrintOptions<L> {
    let format = format_or_a4(given.format);
    PrintOptions {
        landscape: given.landscape,
        display_header_footer: given.display_header_footer,
        print_background: on_unless(given.print_background),
        format,
        scale: given.scale,
        paper_width: length_or(given.paper_width, format.width_hundredths()),
        paper_height: length_or(given.paper_height, format.height_hundredths()),
        margin_top: length_or(given.margin_top, 0),
        margin_bottom: length_or(given.margin_bottom, 0),
        margin_left: length_or(given.margin_left, 0),
        margin_right: length_or(given.margin_right, 0),
        page_ranges: given.page_ranges,
        ignore_invalid_page_ranges: given.ignore_invalid_page_ranges,
        header_template: given.header_template,
        footer_template: given.footer_template,
        prefer_css_page_size: on_unless(given.prefer_css_page_size),
    }
}

/// The options of a caller who gives none.
pub open spec fn nothing_given<L>() -> PdfOptions<L> {
    PdfOptions {
        landscape: None,
        display_header_footer: None,
        print_background: None,
        format: None,
        scale: None,
        paper_width: None,
        paper_height: None,
        margin_top: None,
        margin_bottom: None,
        margin_left: None,
        margin_right: None,
        page_ranges: None,
        ignore_invalid_page_ranges: None,
        header_template: None,
        footer_template: None,
        prefer_css_page_size: None,
    }
}

fn pick_length<L>(given: Option<L>, fallback: u32) -> (length: Length<L>)
    ensures
        length == length_or(given, fallback),
{
    match given {
        Some(length) => Length::Given(length),
        None => Length::Hundredths(fallback),
    }
}

fn pick_switch(given: Option<bool>) -> (on: bool)
    ensures
        on == on_unless(given),
{
    match given {
        Some(on) => on,
        None => true,
    }
}

/// Resolves the print options of a job. A job without options is rendered
/// like one that leaves every option open.
pub fn resolve<L>(options: Option<PdfOptions<L>>) -> (print: PrintOptions<L>)
    ensures
        print == resolved(
            match options {
                Some(given) => given,
                None => nothing_given(),
            },
        ),
{
    let given = match options {
        Some(given) => given,
        None => PdfOptions {
            landscape: None,
            display_header_footer: None,
            print_background: None,
            format: None,
            scale: None,
            paper_width: None,
            paper_height: None,
            margin_top: None,
            margin_bottom: None,
            margin_left: None,
            margin_right: None,
            page_ranges: None,
            ignore_invalid_page_ranges: None,
            header_template: None,
            footer_template: None,
            prefer_css_page_size: None,
        },
    };
    let format = match given.format {
        Some(format) => format,
        None => PaperFormat::A4,
    };
    PrintOptions {
        landscape: given.landscape,
        display_header_footer: given.display_header_footer,
        print_background: pick_switch(given.print_background),
        format,
        scale: given.scale,
        paper_width: pick_length(given.paper_width, format.width()),
        paper_height: pick_length(given.paper_height, format.height()),
        margin_top: pick_length(given.margin_top, 0),
        margin_bottom: pick_length(given.margin_bottom, 0),
        margin_left: pick_length(given.margin_left, 0),
        margin_right: pick_length(given.margin_right, 0),
        page_ranges: given.page_ranges,
        ignore_invalid_page_ranges: given.ignore_invalid_page_ranges,
        header_template: given.header_template,
        footer_template: given.footer_template,
        prefer_css_page_size: pick_switch(given.prefer_css_page_size),
    }
}

} // verus!
