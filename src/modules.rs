//! What a screen module produces besides its picture, and the layout of the
//! news headline screen.
use vstd::prelude::*;
use crate::geometry::{Bounds, Padding};
use crate::stack::{Element, HStack, VAlign, VStack};
use crate::view::{Image, Spacer};

verus! {

/// The screen modules there are.
#[derive(Clone, Copy, Debug, PartialEq, Eq, Structural)]
pub enum Module {
    /// The latest headline of one of a set of news outlets.
    NewsHeadlines,
}

/// What a module reports besides drawing its picture.
#[derive(Clone, Copy, Debug, PartialEq, Eq, Structural)]
pub struct ViewOptions {
    /// How long the picture stays valid, in minutes.
    pub ttl: Option<u32>,
}

impl ViewOptions {
    /// No options at all.
    pub fn none() -> (r: Self)
        ensures
            r.ttl.is_none(),
    {
        ViewOptions { ttl: None }
    }
}

/// The module that shows a news headline.
#[derive(Clone, Copy, Debug, PartialEq, Eq, Structural)]
pub struct NewsHeadlines {}

/// The margin around the headline and the bottom bar.
pub const MARGIN: u32 = 10;

/// One step of fitting a headline: `None` once text of `size` measured as
/// `measured` lies strictly within `limit`, or when it cannot shrink any
/// more; otherwise the next smaller size to try.
pub fn shrink_to_fit(size: u32, measured: Bounds, limit: Bounds) -> (r: Option<u32>)
    ensures
        r == (if measured.width < limit.width && measured.height < limit.height || size <= 1 {
            None
        } else {
            Some((size - 1) as u32)
        }),
{
    if measured.width < limit.width && measured.height < limit.height || size <= 1 {
        None
    } else {
        Some(size - 1)
    }
}

/// The headline screen: the headline at the top, then a vertical spacer,
/// then a bottom-aligned bar with the outlet's logo on the left and the time
/// on the right, inset by the margin on the left, right and bottom.
pub fn news_screen<L>(headline: L, logo: Image, clock: L) -> (r: VStack<L>)
    ensures
        r.views@.len() == 3,
        r.views@[0] == Element::Leaf(headline),
        r.views@[1] matches Element::Spacer(sp) && !sp.is_horizontal(),
        r.views@[2] matches Element::HStack(bar) && bar.align == VAlign::Bottom && bar.padding == (Padding {
            left: MARGIN,
            right: MARGIN,
            top: 0,
            bottom: MARGIN,
        }) && bar.views@.len() == 3 && bar.views@[0] == Element::<L>::Image(logo) && (bar.views@[1] matches Element::Spacer(sp)
            && sp.is_horizontal()) && bar.views@[2] == Element::Leaf(clock),
{
    let mut bar: HStack<L> = HStack::new();
    bar.padding = Padding { left: MARGIN, right: MARGIN, top: 0, bottom: MARGIN };
    bar.align = VAlign::Bottom;
    bar.views.push(Element::Image(logo));
    bar.views.push(Element::Spacer(Spacer::horizontal()));
    bar.views.push(Element::Leaf(clock));
    let mut screen: VStack<L> = VStack::new();
    screen.views.push(Element::Leaf(headline));
    screen.views.push(Element::Spacer(Spacer::vertical()));
    screen.views.push(Element::HStack(bar));
    screen
}

} // verus!
