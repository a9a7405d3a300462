use open_epaper_gen::config::{find_tag, Settings, Tag};
use open_epaper_gen::geometry::{Bounds, Edge, Padding, SizingHint};
use open_epaper_gen::layout::Frame;
use open_epaper_gen::modules::{news_screen, shrink_to_fit, ViewOptions};
use open_epaper_gen::raster::RasterFormat;
use open_epaper_gen::stack::{Element, HAlign, HStack, VAlign, VStack};
use open_epaper_gen::surface::{RasterError, Surface, BLACK, WHITE};
use open_epaper_gen::text::{paint_glyph, text_bounds, GlyphBox};
use open_epaper_gen::view::{Drawable, Image, Spacer};

/// A view of fixed size.
struct Fixed {
    width: u32,
    height: u32,
}

impl Drawable<()> for Fixed {
    fn measured(&self, _fonts: (), _suggested: Bounds) -> Bounds {
        Bounds::new(self.width, self.height)
    }

    fn bounds(&self, _surface: &Surface<()>, suggested: Bounds) -> Bounds {
        self.measured((), suggested)
    }

    fn draw(&self, _surface: &mut Surface<()>, _x: u32, _y: u32, _suggested: Bounds) {}

    fn padding_data(&self) -> Padding {
        Padding::zero()
    }

    fn set_padding_data(&mut self, _padding: Padding) {}
}

fn fixed(width: u32, height: u32) -> Element<Fixed> {
    Element::Leaf(Fixed { width, height })
}

fn hints(b: Bounds) -> [Bounds; 3] {
    [b.zero_hinted(), b.optimally_hinted(), b.infinitely_hinted()]
}

/// A small picture whose pixels differ from each other, encoded as PNG.
fn sample_png(width: u32, height: u32) -> Vec<u8> {
    let mut s = Surface::new(width, height, ());
    for y in 0..height {
        for x in 0..width {
            s.put_pixel(x, y, [x as u8 * 40, y as u8 * 40, 7]);
        }
    }
    s.encode(RasterFormat::Png).unwrap()
}

#[test]
fn subtraction_saturates_on_each_axis() {
    let a = Bounds::new(10, 5).infinitely_hinted();
    let r = a - Bounds::new(3, 8);
    assert_eq!(7, r.width);
    assert_eq!(0, r.height);
    assert_eq!(SizingHint::InfiniteSpace, r.hint);
    let z = Bounds::new(0, 0) - Bounds::new(u32::MAX, u32::MAX);
    assert_eq!((0, 0), (z.width, z.height));
}

#[test]
fn addition_sums_and_saturates() {
    let r = Bounds::new(2, 3) + Bounds::new(40, 50);
    assert_eq!((42, 53), (r.width, r.height));
    let s = Bounds::new(u32::MAX, 1) + Bounds::new(1, 1);
    assert_eq!((u32::MAX, 2), (s.width, s.height));
}

#[test]
fn equality_ignores_hint_and_order_follows_area() {
    assert!(Bounds::new(4, 5) == Bounds::new(4, 5).zero_hinted());
    assert!(Bounds::new(4, 5) != Bounds::new(5, 4));
    assert!(Bounds::new(10, 10) > Bounds::new(3, 3));
    assert!(Bounds::new(3, 3) < Bounds::new(10, 10));
    assert!(Bounds::new(u32::MAX, u32::MAX) > Bounds::new(u32::MAX, 1));
}

#[test]
fn bounds_builders_keep_the_other_fields() {
    let b = Bounds::new(7, 9).zero_hinted();
    assert_eq!((3, 9, SizingHint::ZeroSpace), (b.width_adjusted(3).width, b.width_adjusted(3).height, b.width_adjusted(3).hint));
    assert_eq!((7, 4), (b.height_adjusted(4).width, b.height_adjusted(4).height));
    let c = b.copy_hint(1, 2);
    assert_eq!((1, 2, SizingHint::ZeroSpace), (c.width, c.height, c.hint));
    assert_eq!(SizingHint::Optimal, Bounds::new(1, 1).hint);
}

#[test]
fn padding_edges_and_totals() {
    let p = Padding::zero().set_edge(Edge::Left, 10).set_edge(Edge::Right, 5).set_edge(Edge::Top, 15).set_edge(Edge::Bottom, 2);
    assert_eq!((10, 5, 15, 2), (p.left, p.right, p.top, p.bottom));
    let b = p.bounds();
    assert_eq!((15, 17), (b.width, b.height));
    let big = Padding { left: u32::MAX, right: 1, top: 0, bottom: 0 }.bounds();
    assert_eq!(u32::MAX, big.width);
    let d: Padding = Default::default();
    assert_eq!(Padding::zero(), d);
}

#[test]
fn empty_stacks_measure_to_zero_under_every_hint() {
    let surface = Surface::new(10, 10, ());
    let v: VStack<Fixed> = VStack::new();
    let h: HStack<Fixed> = HStack::new();
    for s in hints(Bounds::new(300, 200)) {
        let a = v.bounds(&surface, s);
        let b = h.bounds(&surface, s);
        assert_eq!((0, 0), (a.width, a.height));
        assert_eq!((0, 0), (b.width, b.height));
    }
}

#[test]
fn empty_stack_with_padding_measures_to_its_padding() {
    let surface = Surface::new(10, 10, ());
    let mut v: VStack<Fixed> = VStack::new();
    v.padding(Edge::Left, 3);
    v.padding(Edge::Bottom, 4);
    v.spacing = 9;
    let r = v.bounds(&surface, Bounds::new(1, 1).zero_hinted());
    assert_eq!((3, 4), (r.width, r.height));
}

#[test]
fn spacers_alone_collapse_or_fill() {
    let surface = Surface::new(10, 10, ());
    let mut v: VStack<Fixed> = VStack::new();
    let mut h: HStack<Fixed> = HStack::new();
    for _ in 0..3 {
        v.views.push(Element::Spacer(Spacer::vertical()));
        h.views.push(Element::Spacer(Spacer::horizontal()));
    }
    let s = Bounds::new(250, 400);
    let a = v.bounds(&surface, s.zero_hinted());
    assert_eq!((0, 0), (a.width, a.height));
    let b = h.bounds(&surface, s.zero_hinted());
    assert_eq!((0, 0), (b.width, b.height));
    for s2 in [s.optimally_hinted(), s.infinitely_hinted()] {
        let a = v.bounds(&surface, s2);
        assert_eq!((0, 400), (a.width, a.height));
        let b = h.bounds(&surface, s2);
        assert_eq!((250, 0), (b.width, b.height));
    }
    v.spacing = 10;
    let c = v.bounds(&surface, s.optimally_hinted());
    assert_eq!(400, c.height);
}

#[test]
fn two_spacers_split_leftover_floor_first() {
    let surface = Surface::new(10, 10, ());
    let mut v: VStack<Fixed> = VStack::new();
    v.views.push(fixed(50, 100));
    v.views.push(Element::Spacer(Spacer::vertical()));
    v.views.push(fixed(50, 75));
    v.views.push(Element::Spacer(Spacer::vertical()));
    v.views.push(fixed(50, 50));
    let frames: Vec<Frame> = v.frames(&surface, 0, 0, Bounds::new(400, 400));
    let ys: Vec<u32> = frames.iter().map(|f| f.y).collect();
    assert_eq!(vec![0, 100, 187, 262, 350], ys);
    assert_eq!(87, frames[1].bounds.height);
    assert_eq!(88, frames[3].bounds.height);
}

#[test]
fn alignment_places_children_across_the_stack() {
    let surface = Surface::new(10, 10, ());
    let mut v: VStack<Fixed> = VStack::new();
    v.views.push(fixed(50, 20));
    v.views.push(fixed(75, 20));
    v.align = HAlign::Right;
    let f = v.frames(&surface, 100, 10, Bounds::new(400, 400));
    assert_eq!((450, 10), (f[0].x, f[0].y));
    assert_eq!((425, 30), (f[1].x, f[1].y));
    v.align = HAlign::Center;
    let f = v.frames(&surface, 100, 10, Bounds::new(400, 400));
    assert_eq!(275, f[0].x);
    assert_eq!(262, f[1].x);
    v.align = HAlign::Left;
    v.padding(Edge::Left, 7);
    let f = v.frames(&surface, 100, 10, Bounds::new(400, 400));
    assert_eq!(107, f[1].x);

    let mut h: HStack<Fixed> = HStack::new();
    h.views.push(fixed(20, 50));
    h.views.push(fixed(20, 75));
    h.align = VAlign::Bottom;
    let f = h.frames(&surface, 0, 0, Bounds::new(300, 200));
    assert_eq!((0, 150), (f[0].x, f[0].y));
    assert_eq!((20, 125), (f[1].x, f[1].y));
    h.align = VAlign::Center;
    let f = h.frames(&surface, 0, 0, Bounds::new(300, 200));
    assert_eq!(75, f[0].y);
    assert_eq!(62, f[1].y);
}

#[test]
fn alignment_uses_the_space_inside_the_padding() {
    let surface = Surface::new(10, 10, ());
    let mut v: VStack<Fixed> = VStack::new();
    v.views.push(fixed(50, 20));
    v.padding(Edge::Left, 10);
    v.padding(Edge::Right, 5);
    v.align = HAlign::Right;
    let f = v.frames(&surface, 100, 0, Bounds::new(400, 400));
    assert_eq!(100 + 400 - 5 - 50, f[0].x);
    v.align = HAlign::Center;
    let f = v.frames(&surface, 100, 0, Bounds::new(400, 400));
    assert_eq!(100 + 10 + (400 - 15 - 50) / 2, f[0].x);

    let mut h: HStack<Fixed> = HStack::new();
    h.views.push(fixed(20, 30));
    h.padding(Edge::Top, 4);
    h.padding(Edge::Bottom, 6);
    h.align = VAlign::Bottom;
    let f = h.frames(&surface, 0, 10, Bounds::new(100, 100));
    assert_eq!(10 + 100 - 6 - 30, f[0].y);
    h.align = VAlign::Center;
    let f = h.frames(&surface, 0, 10, Bounds::new(100, 100));
    assert_eq!(10 + 4 + (100 - 10 - 30) / 2, f[0].y);
}

#[test]
fn drawing_a_stack_paints_its_images_at_their_frames() {
    let mut v: VStack<Fixed> = VStack::new();
    v.views.push(Element::Image(Image::from_data(&sample_png(2, 2)).unwrap()));
    v.views.push(Element::Spacer(Spacer::vertical()));
    v.views.push(Element::Image(Image::from_data(&sample_png(3, 1)).unwrap()));
    v.align = HAlign::Right;
    let mut s = Surface::new(10, 10, ());
    let b = s.bounds();
    let f = v.frames(&s, 0, 0, b);
    assert_eq!((8, 0), (f[0].x, f[0].y));
    assert_eq!((7, 9), (f[2].x, f[2].y));
    v.draw(&mut s, 0, 0, b);
    assert_eq!(Some([0, 0, 7]), s.pixel(8, 0));
    assert_eq!(Some([40, 40, 7]), s.pixel(9, 1));
    assert_eq!(Some([80, 0, 7]), s.pixel(9, 9));
    assert_eq!(Some(WHITE), s.pixel(7, 0));
}

#[test]
fn oversized_child_makes_the_stack_exceed_its_suggestion() {
    let surface = Surface::new(10, 10, ());
    let mut v: VStack<Fixed> = VStack::new();
    v.views.push(fixed(30, 120));
    for s in hints(Bounds::new(40, 50)) {
        let r = v.bounds(&surface, s);
        assert_eq!((30, 120), (r.width, r.height));
    }
    let mut h: HStack<Fixed> = HStack::new();
    h.views.push(fixed(120, 30));
    h.views.push(fixed(10, 30));
    let r = h.bounds(&surface, Bounds::new(50, 40));
    assert_eq!(130, r.width);
}

#[test]
fn padding_is_added_under_every_hint() {
    let surface = Surface::new(10, 10, ());
    let mut h: HStack<Fixed> = HStack::new();
    h.views.push(fixed(150, 100));
    h.padding(Edge::Left, 10);
    h.padding(Edge::Right, 5);
    h.padding(Edge::Top, 15);
    h.padding(Edge::Bottom, 2);
    for s in hints(Bounds::new(400, 400)) {
        let r = h.bounds(&surface, s);
        assert_eq!((165, 117), (r.width, r.height));
    }
    assert_eq!(15, h.padding_data().top);
}

#[test]
fn large_spacing_saturates_instead_of_failing() {
    let surface = Surface::new(10, 10, ());
    let mut v: VStack<Fixed> = VStack::new();
    v.views.push(fixed(10, 10));
    v.views.push(Element::Spacer(Spacer::vertical()));
    v.views.push(fixed(10, 10));
    v.spacing = 100;
    let r = v.bounds(&surface, Bounds::new(50, 50));
    assert_eq!(220, r.height);
    v.spacing = u32::MAX;
    let r = v.bounds(&surface, Bounds::new(50, 50).infinitely_hinted());
    assert_eq!(u32::MAX, r.height);
}

#[test]
fn spacer_measures_along_its_axis() {
    let s = Bounds::new(30, 40);
    let v = Spacer::vertical().measure(s);
    assert_eq!((0, 40), (v.width, v.height));
    let h = Spacer::horizontal().measure(s.infinitely_hinted());
    assert_eq!((30, 0), (h.width, h.height));
    let z = Spacer::horizontal().measure(s.zero_hinted());
    assert_eq!((0, 0), (z.width, z.height));
}

#[test]
fn surface_starts_white_and_clips_writes() {
    let mut s = Surface::new(3, 2, ());
    let b = s.bounds();
    assert_eq!((3, 2, SizingHint::Optimal), (b.width, b.height, b.hint));
    assert_eq!(Some(WHITE), s.pixel(2, 1));
    assert_eq!(None, s.pixel(3, 0));
    s.put_pixel(1, 1, [1, 2, 3]);
    s.put_pixel(9, 9, [1, 2, 3]);
    assert_eq!(Some([1, 2, 3]), s.pixel(1, 1));
    assert_eq!(Some(WHITE), s.pixel(0, 0));
}

#[test]
fn png_round_trip_keeps_size_and_pixels() {
    let bytes = sample_png(3, 2);
    assert!(bytes.len() > 8);
    let img = Image::from_data(&bytes).unwrap();
    assert_eq!((3, 2), (img.width(), img.height()));
    let m = img.measure();
    assert_eq!((3, 2), (m.width, m.height));
}

#[test]
fn image_measure_ignores_suggestion_and_adds_padding() {
    let surface = Surface::new(1, 1, ());
    let mut img = Image::from_data(&sample_png(4, 3)).unwrap();
    Drawable::<()>::padding(&mut img, Edge::Left, 2);
    Drawable::<()>::padding(&mut img, Edge::Bottom, 5);
    for s in hints(Bounds::new(1, 1)) {
        let r = Drawable::<()>::bounds(&img, &surface, s);
        assert_eq!((6, 8), (r.width, r.height));
    }
}

#[test]
fn image_paint_copies_pixels_at_padded_origin() {
    let mut img = Image::from_data(&sample_png(3, 2)).unwrap();
    Drawable::<()>::padding(&mut img, Edge::Left, 1);
    Drawable::<()>::padding(&mut img, Edge::Top, 2);
    let mut s = Surface::new(6, 6, ());
    img.paint(&mut s, 2, 1);
    assert_eq!(Some([0, 0, 7]), s.pixel(3, 3));
    assert_eq!(Some([80, 40, 7]), s.pixel(5, 4));
    assert_eq!(Some(WHITE), s.pixel(2, 3));
    assert_eq!(Some(WHITE), s.pixel(3, 2));
    let mut small = Surface::new(4, 4, ());
    img.paint(&mut small, 2, 1);
    assert_eq!(Some([0, 0, 7]), small.pixel(3, 3));
}

#[test]
fn image_in_a_stack_is_drawn() {
    let img = Image::from_data(&sample_png(2, 2)).unwrap();
    let mut v: VStack<Fixed> = VStack::new();
    v.views.push(fixed(5, 3));
    v.views.push(Element::Image(img));
    let mut s = Surface::new(10, 10, ());
    let b = s.bounds();
    v.draw(&mut s, 1, 1, b);
    assert_eq!(Some([0, 0, 7]), s.pixel(1, 4));
    assert_eq!(Some([40, 40, 7]), s.pixel(2, 5));
    assert_eq!(Some(WHITE), s.pixel(1, 3));
}

#[test]
fn undecodable_bytes_are_a_decoding_error() {
    assert!(matches!(Image::from_data(&[1, 2, 3, 4]), Err(RasterError::Decoding)));
    assert!(matches!(Image::from_data(&[]), Err(RasterError::Decoding)));
}

#[test]
fn jpeg_encoding_produces_a_jpeg() {
    let s = Surface::new(8, 8, ());
    let bytes = s.encode(RasterFormat::Jpeg).unwrap();
    assert_eq!(&[0xff, 0xd8], &bytes[0..2]);
}

#[test]
fn text_bounds_is_tight_box_plus_padding() {
    let glyphs = vec![
        GlyphBox { x: 0, y: 2, width: 5, height: 7 },
        GlyphBox { x: 6, y: 0, width: 4, height: 6 },
    ];
    let p = Padding { left: 1, right: 2, top: 3, bottom: 4 };
    let r = text_bounds(&glyphs, p);
    assert_eq!((13, 16), (r.width, r.height));
    let e = text_bounds(&Vec::new(), Padding::zero());
    assert_eq!((0, 0), (e.width, e.height));
}

#[test]
fn glyph_pixels_above_threshold_turn_black() {
    let mut s = Surface::new(10, 10, ());
    let glyph = GlyphBox { x: 1, y: 1, width: 2, height: 2 };
    let p = Padding { left: 2, right: 0, top: 3, bottom: 0 };
    paint_glyph(&mut s, 0, 0, p, glyph, &vec![0, 31, 30, 255]);
    assert_eq!(Some(WHITE), s.pixel(3, 4));
    assert_eq!(Some(BLACK), s.pixel(4, 4));
    assert_eq!(Some(WHITE), s.pixel(3, 5));
    assert_eq!(Some(BLACK), s.pixel(4, 5));
    paint_glyph(&mut s, 8, 8, Padding::zero(), glyph, &vec![255, 255, 255, 255]);
    assert_eq!(Some(BLACK), s.pixel(9, 9));
}

#[test]
fn find_tag_returns_first_match() {
    let settings = Settings {
        epaper_link_host: "10.0.0.2".to_string(),
        tags: vec![
            Tag { mac: "aa".to_string(), width: 296, height: 128 },
            Tag { mac: "bb".to_string(), width: 152, height: 152 },
            Tag { mac: "bb".to_string(), width: 1, height: 1 },
        ],
    };
    let t = find_tag(&settings, &"bb".to_string()).unwrap();
    assert_eq!(("bb", 152, 152), (t.mac.as_str(), t.width, t.height));
    assert!(find_tag(&settings, &"cc".to_string()).is_none());
}

#[test]
fn shrink_to_fit_steps_down_until_it_fits() {
    let limit = Bounds::new(276, 78);
    assert_eq!(Some(39), shrink_to_fit(40, Bounds::new(300, 50), limit));
    assert_eq!(Some(39), shrink_to_fit(40, Bounds::new(100, 78), limit));
    assert_eq!(None, shrink_to_fit(40, Bounds::new(275, 77), limit));
    assert_eq!(None, shrink_to_fit(1, Bounds::new(900, 900), limit));
}

#[test]
fn news_screen_puts_headline_above_bottom_bar() {
    let logo = Image::from_data(&sample_png(20, 10)).unwrap();
    let screen = news_screen(Fixed { width: 200, height: 40 }, logo, Fixed { width: 60, height: 12 });
    let surface = Surface::new(296, 128, ());
    let f = screen.frames(&surface, 0, 0, surface.bounds());
    assert_eq!(3, f.len());
    assert_eq!((0, 0), (f[0].x, f[0].y));
    assert_eq!(40, f[1].y);
    assert_eq!(0, f[2].x);
    assert_eq!(128 - 22, f[2].y);
    match &screen.views[2] {
        Element::HStack(bar) => {
            let g = bar.frames(&surface, f[2].x, f[2].y, f[2].bounds);
            assert_eq!((10, 108), (g[0].x, g[0].y));
            assert_eq!((296 - 10 - 60, 106), (g[2].x, g[2].y));
        },
        _ => panic!("the bottom bar is not a horizontal stack"),
    }
}

#[test]
fn view_options_none_has_no_ttl() {
    assert_eq!(None, ViewOptions::none().ttl);
}
