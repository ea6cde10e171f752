use vstd::prelude::*;
use crate::text::same_text;
use crate::scene::{
    Props, PropsView, BLUR, BORDER_RADIUS, BRIGHTNESS, COLOR, COLOR_PROPS, CONTRAST, FILL, FONT_SIZE,
    HEIGHT, HUE_ROTATE, LETTER_SPACING, LINE_HEIGHT, NUM_PROPS, OPACITY, ROTATION, SATURATE, SCALE_X,
    SCALE_Y, STROKE_COLOR, STROKE_WIDTH, WIDTH, X, Y,
};

verus! {

/// The element kinds of a widget tree.
#[derive(Clone, Copy, Debug, PartialEq, Eq, Structural)]
pub enum Kind {
    Group,
    Mask,
    Shape,
    Path,
    Text,
    Image,
    Other,
}

/// Outline of a shape element.
#[derive(Clone, Copy, Debug, PartialEq, Eq, Structural)]
pub enum ShapeKind {
    Rect,
    Triangle,
    Star,
}

impl Kind {
    pub open spec fn is_container(self) -> bool {
        self == Kind::Group || self == Kind::Mask
    }
}

/// Position, size, transform, filters and opacity: the part of the style
/// that every element gets in the same way.
#[derive(Clone, Copy, Debug, PartialEq, Eq, Structural)]
pub struct Geometry {
    pub left: i64,
    pub top: i64,
    pub width: i64,
    pub height: i64,
    pub rotation: i64,
    pub scale_x: i64,
    pub scale_y: i64,
    pub opacity: i64,
    pub blur: i64,
    pub brightness: i64,
    pub contrast: i64,
    pub hue_rotate: i64,
    pub saturate: i64,
}

/// The kind-specific part of the style.
pub enum Visual {
    Plain,
    /// A rectangle: background, corner radius and a border (`border_width` 0: none).
    Box { background: String, radius: i64, border_width: i64, border_color: String },
    /// A triangle or star outline filled with one colour.
    Filled { fill: String },
    /// Vector path data drawn with fill and stroke.
    Stroked { fill: String, stroke: String, stroke_width: i64 },
    Text { font_size: i64, color: String, letter_spacing: Option<i64>, line_height: Option<i64> },
}

pub enum VisualView {
    Plain,
    Box { background: Seq<char>, radius: i64, border_width: i64, border_color: Seq<char> },
    Filled { fill: Seq<char> },
    Stroked { fill: Seq<char>, stroke: Seq<char>, stroke_width: i64 },
    Text { font_size: i64, color: Seq<char>, letter_spacing: Option<i64>, line_height: Option<i64> },
}

impl View for Visual {
    type V = VisualView;

    open spec fn view(&self) -> VisualView {
        match self {
            Visual::Plain => VisualView::Plain,
            Visual::Box { background, radius, border_width, border_color } => VisualView::Box {
                background: background@,
                radius: *radius,
                border_width: *border_width,
                border_color: border_color@,
            },
            Visual::Filled { fill } => VisualView::Filled { fill: fill@ },
            Visual::Stroked { fill, stroke, stroke_width } => VisualView::Stroked {
                fill: fill@,
                stroke: stroke@,
                stroke_width: *stroke_width,
            },
            Visual::Text { font_size, color, letter_spacing, line_height } => VisualView::Text {
                font_size: *font_size,
                color: color@,
                letter_spacing: *letter_spacing,
                line_height: *line_height,
            },
        }
    }
}

/// The full style of one element.
pub struct Style {
    pub geometry: Geometry,
    pub visual: Visual,
}

pub struct StyleView {
    pub geometry: Geometry,
    pub visual: VisualView,
}

impl View for Style {
    type V = StyleView;

    open spec fn view(&self) -> StyleView {
        StyleView { geometry: self.geometry, visual: self.visual@ }
    }
}

pub open spec fn geometry_spec(m: PropsView) -> Geometry {
    Geometry {
        left: m.num_or(X as int, 0),
        top: m.num_or(Y as int, 0),
        width: m.num_or(WIDTH as int, 0),
        height: m.num_or(HEIGHT as int, 0),
        rotation: m.num_or(ROTATION as int, 0),
        scale_x: m.num_or(SCALE_X as int, 1000),
        scale_y: m.num_or(SCALE_Y as int, 1000),
        opacity: m.num_or(OPACITY as int, 1000),
        blur: m.num_or(BLUR as int, 0),
        brightness: m.num_or(BRIGHTNESS as int, 100000),
        contrast: m.num_or(CONTRAST as int, 100000),
        hue_rotate: m.num_or(HUE_ROTATE as int, 0),
        saturate: m.num_or(SATURATE as int, 100000),
    }
}

pub open spec fn visual_spec(kind: Kind, shape: ShapeKind, has_path: bool, m: PropsView) -> VisualView {
    match kind {
        Kind::Shape => if shape == ShapeKind::Rect {
            let sw = m.num_or(STROKE_WIDTH as int, 0);
            VisualView::Box {
                background: m.color_or(FILL as int, "transparent"@),
                radius: m.num_or(BORDER_RADIUS as int, 0),
                border_width: sw,
                border_color: if sw != 0 { m.color_or(STROKE_COLOR as int, "transparent"@) } else { Seq::empty() },
            }
        } else {
            VisualView::Filled { fill: m.color_or(FILL as int, "#3b82f6"@) }
        },
        Kind::Path => if has_path {
            VisualView::Stroked {
                fill: m.color_or(FILL as int, "none"@),
                stroke: m.color_or(STROKE_COLOR as int, "#3b82f6"@),
                stroke_width: m.num_or(STROKE_WIDTH as int, 4000),
            }
        } else {
            VisualView::Plain
        },
        Kind::Text => VisualView::Text {
            font_size: m.num_or(FONT_SIZE as int, 48000),
            color: m.color_or(COLOR as int, "#fff"@),
            letter_spacing: m.nums[LETTER_SPACING as int],
            line_height: m.nums[LINE_HEIGHT as int],
        },
        _ => VisualView::Plain,
    }
}

/// The style of an element of kind `kind` whose properties are `m`.
pub open spec fn style_spec(kind: Kind, shape: ShapeKind, has_path: bool, m: PropsView) -> StyleView {
    StyleView { geometry: geometry_spec(m), visual: visual_spec(kind, shape, has_path, m) }
}

fn num_or(p: &Props, i: usize, d: i64) -> (r: i64)
    requires
        p@.wf(),
        i < NUM_PROPS,
    ensures
        r == p@.num_or(i as int, d),
{
    match p.nums[i] {
        Some(v) => v,
        None => d,
    }
}

fn color_or(p: &Props, i: usize, d: &str) -> (r: String)
    requires
        p@.wf(),
        i < COLOR_PROPS,
    ensures
        r@ == p@.color_or(i as int, d@),
{
    match &p.colors[i] {
        Some(c) => c.clone(),
        None => d.to_string(),
    }
}

/// The styling routine shared by the first frame and every animated one.
pub fn apply_style(kind: Kind, shape: ShapeKind, has_path: bool, m: &Props) -> (r: Style)
    requires
        m@.wf(),
    ensures
        r@ == style_spec(kind, shape, has_path, m@),
{
    proof {
        reveal_strlit("transparent");
        reveal_strlit("#3b82f6");
        reveal_strlit("none");
        reveal_strlit("#fff");
    }
    let geometry = Geometry {
        left: num_or(m, X, 0),
        top: num_or(m, Y, 0),
        width: num_or(m, WIDTH, 0),
        height: num_or(m, HEIGHT, 0),
        rotation: num_or(m, ROTATION, 0),
        scale_x: num_or(m, SCALE_X, 1000),
        scale_y: num_or(m, SCALE_Y, 1000),
        opacity: num_or(m, OPACITY, 1000),
        blur: num_or(m, BLUR, 0),
        brightness: num_or(m, BRIGHTNESS, 100000),
        contrast: num_or(m, CONTRAST, 100000),
        hue_rotate: num_or(m, HUE_ROTATE, 0),
        saturate: num_or(m, SATURATE, 100000),
    };
    let visual = match kind {
        Kind::Shape => {
            if shape == ShapeKind::Rect {
                let sw = num_or(m, STROKE_WIDTH, 0);
                let border_color = if sw != 0 {
                    color_or(m, STROKE_COLOR, "transparent")
                } else {
                    String::new()
                };
                Visual::Box {
                    background: color_or(m, FILL, "transparent"),
                    radius: num_or(m, BORDER_RADIUS, 0),
                    border_width: sw,
                    border_color,
                }
            } else {
                Visual::Filled { fill: color_or(m, FILL, "#3b82f6") }
            }
        },
        Kind::Path => {
            if has_path {
                Visual::Stroked {
                    fill: color_or(m, FILL, "none"),
                    stroke: color_or(m, STROKE_COLOR, "#3b82f6"),
                    stroke_width: num_or(m, STROKE_WIDTH, 4000),
                }
            } else {
                Visual::Plain
            }
        },
        Kind::Text => Visual::Text {
            font_size: num_or(m, FONT_SIZE, 48000),
            color: color_or(m, COLOR, "#fff"),
            letter_spacing: m.nums[LETTER_SPACING],
            line_height: m.nums[LINE_HEIGHT],
        },
        _ => Visual::Plain,
    };
    Style { geometry, visual }
}

pub open spec fn kind_spec(tag: Seq<char>) -> Kind {
    if tag == "group"@ {
        Kind::Group
    } else if tag == "mask"@ {
        Kind::Mask
    } else if tag == "shape"@ {
        Kind::Shape
    } else if tag == "path"@ {
        Kind::Path
    } else if tag == "text"@ {
        Kind::Text
    } else if tag == "image"@ {
        Kind::Image
    } else {
        Kind::Other
    }
}

pub open spec fn shape_spec(tag: Seq<char>) -> ShapeKind {
    if tag == "triangle"@ {
        ShapeKind::Triangle
    } else if tag == "star"@ {
        ShapeKind::Star
    } else {
        ShapeKind::Rect
    }
}

impl Kind {
    /// The kind named by `tag`; an unknown name gives `Other`.
    pub fn from_tag(tag: &str) -> (r: Kind)
        ensures
            r == kind_spec(tag@),
    {
        proof {
            reveal_strlit("group");
            reveal_strlit("mask");
            reveal_strlit("shape");
            reveal_strlit("path");
            reveal_strlit("text");
            reveal_strlit("image");
        }
        if same_text(tag, "group") {
            Kind::Group
        } else if same_text(tag, "mask") {
            Kind::Mask
        } else if same_text(tag, "shape") {
            Kind::Shape
        } else if same_text(tag, "path") {
            Kind::Path
        } else if same_text(tag, "text") {
            Kind::Text
        } else if same_text(tag, "image") {
            Kind::Image
        } else {
            Kind::Other
        }
    }
}

impl ShapeKind {
    /// The outline named by `tag`; anything but a triangle or star is a rectangle.
    pub fn from_tag(tag: &str) -> (r: ShapeKind)
        ensures
            r == shape_spec(tag@),
    {
        proof {
            reveal_strlit("triangle");
            reveal_strlit("star");
        }
        if same_text(tag, "triangle") {
            ShapeKind::Triangle
        } else if same_text(tag, "star") {
            ShapeKind::Star
        } else {
            ShapeKind::Rect
        }
    }
}

} // verus!
