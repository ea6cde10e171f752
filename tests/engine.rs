use overlay_render::color::{lerp, lerp_color, parse_color, Rgb};
use overlay_render::compose::{compose, render_frame, Element, GradientDir, Mask, Widget};
use overlay_render::easing::{ease, Easing, ONE};
use overlay_render::fingerprint::{fingerprint, marker_digits, should_reload};
use overlay_render::resolve::{find_widget, StoredOverlay};
use overlay_render::scene::{Props, FILL, NUM_PROPS, OPACITY, X};
use overlay_render::storage::{get_db_path, recency_order, OverlayRow, OverlaySummary};
use overlay_render::style::{apply_style, Kind, ShapeKind, Visual};
use overlay_render::timeline::{interpolate, sorted_order, ElementState, Keyframe, Timeline};

fn props(x: Option<i64>, opacity: Option<i64>, fill: Option<&str>) -> Props {
    let mut nums = vec![None; NUM_PROPS];
    nums[X] = x;
    nums[OPACITY] = opacity;
    let mut colors: Vec<Option<String>> = vec![None, None, None];
    colors[FILL] = fill.map(|s| s.to_string());
    Props { nums, colors }
}

fn element(id: &str, z: i64, visible: bool, children: Vec<Element>) -> Element {
    Element {
        id: id.to_string(),
        kind: if children.is_empty() { Kind::Shape } else { Kind::Group },
        shape: ShapeKind::Rect,
        z_index: z,
        visible,
        props: props(Some(1000), None, Some("#ff0000")),
        blend_mode: None,
        mask: Mask::Plain,
        path_data: None,
        font_family: None,
        text_align: None,
        font_weight: None,
        text_shadow: None,
        content: None,
        src: None,
        object_fit: None,
        entry: None,
        children,
    }
}

fn widget(id: &str, elements: Vec<Element>, timeline: Option<Timeline>) -> Widget {
    Widget { id: id.to_string(), width: None, height: None, background: None, elements, timeline }
}

fn keyframe(time_ms: u64, easing: Easing, id: &str, x: i64) -> Keyframe {
    Keyframe {
        time_ms,
        easing,
        states: vec![ElementState { id: id.to_string(), props: props(Some(x), None, None) }],
    }
}

#[test]
fn easing_curves_start_at_zero_and_end_at_one() {
    for k in [Easing::Linear, Easing::EaseIn, Easing::EaseOut, Easing::EaseInOut, Easing::Bounce, Easing::Elastic] {
        assert_eq!(ease(k, 0), Some(0));
        assert_eq!(ease(k, ONE), Some(ONE));
    }
}

#[test]
fn easing_midpoints() {
    assert_eq!(ease(Easing::Linear, 300000), Some(300000));
    assert_eq!(ease(Easing::EaseIn, 500000), Some(250000));
    assert_eq!(ease(Easing::EaseOut, 500000), Some(750000));
    assert_eq!(ease(Easing::EaseInOut, 250000), Some(125000));
    assert_eq!(ease(Easing::EaseInOut, 750000), Some(875000));
    assert_eq!(ease(Easing::Bounce, 500000), Some(765625));
    assert_eq!(ease(Easing::Elastic, 500000), None);
}

#[test]
fn easing_tags() {
    assert_eq!(Easing::from_tag("bounce"), Easing::Bounce);
    assert_eq!(Easing::from_tag("ease-in-out"), Easing::EaseInOut);
    assert_eq!(Easing::from_tag("wobble"), Easing::Linear);
}

#[test]
fn colour_notations_normalise_to_rgb() {
    assert_eq!(parse_color("#fff"), Rgb { r: 255, g: 255, b: 255 });
    assert_eq!(parse_color("#3b82f6"), Rgb { r: 0x3b, g: 0x82, b: 0xf6 });
    assert_eq!(parse_color("rgb(10, 20, 30)"), Rgb { r: 10, g: 20, b: 30 });
    assert_eq!(parse_color("rgba(1,2,3,0.5)"), Rgb { r: 1, g: 2, b: 3 });
    assert_eq!(parse_color("red"), Rgb { r: 0, g: 0, b: 0 });
    assert_eq!(parse_color("#12"), Rgb { r: 0, g: 0, b: 0 });
}

#[test]
fn colour_interpolation_ends_are_exact() {
    assert_eq!(lerp_color("#f00", "rgb(0, 0, 255)", 0), "#ff0000");
    assert_eq!(lerp_color("#f00", "rgb(0, 0, 255)", ONE), "#0000ff");
    assert_eq!(lerp_color("#000000", "#ffffff", 500000), "#808080");
}

#[test]
fn numeric_interpolation_rounds_to_nearest() {
    assert_eq!(lerp(0, 10, 500000), 5);
    assert_eq!(lerp(0, 3, 500000), 2);
    assert_eq!(lerp(10, -10, 250000), 5);
    assert_eq!(lerp(-7, 9, 0), -7);
    assert_eq!(lerp(-7, 9, ONE), 9);
}

#[test]
fn rectangle_style_defaults() {
    let s = apply_style(Kind::Shape, ShapeKind::Rect, false, &props(None, None, None));
    assert_eq!(s.geometry.opacity, 1000);
    assert_eq!(s.geometry.scale_x, 1000);
    assert_eq!(s.geometry.brightness, 100000);
    match s.visual {
        Visual::Box { background, radius, border_width, .. } => {
            assert_eq!(background, "transparent");
            assert_eq!(radius, 0);
            assert_eq!(border_width, 0);
        }
        _ => panic!("rectangle without a box"),
    }
    let t = apply_style(Kind::Shape, ShapeKind::Star, false, &props(None, None, None));
    match t.visual {
        Visual::Filled { fill } => assert_eq!(fill, "#3b82f6"),
        _ => panic!("star without a fill"),
    }
}

#[test]
fn keyframes_are_sorted_by_time() {
    let tl = Timeline {
        keyframes: vec![keyframe(2000, Easing::Linear, "a", 0), keyframe(0, Easing::Linear, "a", 0), keyframe(1000, Easing::Linear, "a", 0)],
        duration_ms: 2000,
        looping: false,
        autoplay: true,
        speed_pct: 100,
    };
    assert_eq!(sorted_order(&tl), vec![1, 2, 0]);
}

#[test]
fn interpolation_holds_at_both_ends_and_blends_between() {
    let tl = Timeline {
        keyframes: vec![keyframe(3000, Easing::Linear, "a", 100000), keyframe(1000, Easing::Linear, "a", 0)],
        duration_ms: 4000,
        looping: false,
        autoplay: true,
        speed_pct: 100,
    };
    let order = sorted_order(&tl);
    let base = props(Some(5), None, None);
    let before = interpolate(&tl, &order, "a", &base, 0).unwrap();
    assert_eq!(before.nums[X], Some(0));
    let after = interpolate(&tl, &order, "a", &base, 4000).unwrap();
    assert_eq!(after.nums[X], Some(100000));
    let mid = interpolate(&tl, &order, "a", &base, 2000).unwrap();
    assert_eq!(mid.nums[X], Some(50000));
    assert_eq!(mid.nums[OPACITY], None);
    let other = interpolate(&tl, &order, "b", &base, 2000).unwrap();
    assert!(other.nums.iter().all(|n| n.is_none()));
}

#[test]
fn playback_clock_wraps_or_stops() {
    let mut tl = Timeline { keyframes: vec![], duration_ms: 1000, looping: true, autoplay: true, speed_pct: 200 };
    let t = tl.tick(1200);
    assert_eq!((t.time_ms, t.more), (400, true));
    tl.looping = false;
    let t = tl.tick(1200);
    assert_eq!((t.time_ms, t.more), (1000, false));
    let t = tl.tick(100);
    assert_eq!((t.time_ms, t.more), (200, true));
    assert!(!tl.plays());
}

#[test]
fn hidden_elements_and_their_children_are_not_rendered() {
    let hidden = element("h", 0, false, vec![element("hc", 0, true, vec![])]);
    let group = element("g", 1, true, vec![element("c2", 5, true, vec![]), element("c1", -1, true, vec![]), element("c3", 0, false, vec![])]);
    let w = widget("w", vec![group, hidden], None);
    let nodes = compose(&w);
    assert_eq!(nodes.len(), 1);
    assert_eq!(nodes[0].id, "g");
    let ids: Vec<&str> = nodes[0].children.iter().map(|n| n.id.as_str()).collect();
    assert_eq!(ids, vec!["c1", "c2"]);
}

#[test]
fn frames_without_timeline_equal_static_render() {
    let w = widget("w", vec![element("a", 0, true, vec![]), element("b", 2, true, vec![])], None);
    let fixed = compose(&w);
    let frame = render_frame(&w, 12345).unwrap();
    assert_eq!(fixed.len(), frame.len());
    for (a, b) in fixed.iter().zip(frame.iter()) {
        assert_eq!(a.id, b.id);
        assert_eq!(a.style.geometry, b.style.geometry);
    }
    assert_eq!(fixed[0].style.geometry.left, 1000);
}

#[test]
fn animated_frame_applies_overrides() {
    let tl = Timeline {
        keyframes: vec![keyframe(0, Easing::Linear, "a", 0), keyframe(1000, Easing::Linear, "a", 10000)],
        duration_ms: 1000,
        looping: false,
        autoplay: true,
        speed_pct: 100,
    };
    let w = widget("w", vec![element("a", 0, true, vec![])], Some(tl));
    let frame = render_frame(&w, 500).unwrap();
    assert_eq!(frame[0].style.geometry.left, 5000);
}

#[test]
fn gradient_direction_defaults_to_bottom() {
    assert_eq!(GradientDir::from_tag("to left"), GradientDir::ToLeft);
    assert_eq!(GradientDir::from_tag("radial"), GradientDir::Radial);
    assert_eq!(GradientDir::from_tag("diagonal"), GradientDir::ToBottom);
    assert_eq!(Kind::from_tag("mask"), Kind::Mask);
    assert_eq!(ShapeKind::from_tag("hexagon"), ShapeKind::Rect);
}

#[test]
fn fingerprint_is_stable_and_sensitive() {
    let a = "{\"id\":\"w1\",\"elements\":[{\"x\":1}]}";
    let b = "{\"id\":\"w1\",\"elements\":[{\"x\":2}]}";
    assert_eq!(fingerprint(a), fingerprint(a));
    assert_ne!(fingerprint(a), fingerprint(b));
    assert_eq!(fingerprint(""), 0xcbf29ce484222325);
    assert_eq!(fingerprint("a"), 0xaf63dc4c8601ec8c);
}

#[test]
fn reload_only_on_changed_marker() {
    let body = "<html><!-- #HASH_12345 --><p>#HASH_x</p>";
    assert_eq!(marker_digits(body), Some("12345".to_string()));
    assert_eq!(marker_digits("#HASH_ only"), None);
    assert!(!should_reload("12345", body));
    assert!(should_reload("999", body));
    assert!(!should_reload("999", "no marker"));
}

fn stored(id: &str, widget_ids: Option<Vec<&str>>) -> StoredOverlay {
    StoredOverlay {
        id: id.to_string(),
        widgets: widget_ids.map(|ids| ids.into_iter().map(|w| widget(w, vec![], None)).collect()),
    }
}

#[test]
fn resolver_finds_widget_in_later_overlay() {
    let overlays = vec![stored("A", Some(vec!["w1"])), stored("broken", None), stored("B", Some(vec!["w2"]))];
    assert_eq!(find_widget(&overlays, "w2"), Some((2, 0)));
    assert_eq!(find_widget(&overlays, "w1"), Some((0, 0)));
    assert_eq!(find_widget(&overlays, "w3"), None);
}

fn summary(id: &str, at: &str) -> OverlaySummary {
    OverlaySummary { id: id.to_string(), name: id.to_string(), updated_at: at.to_string() }
}

#[test]
fn listing_is_newest_first() {
    let list = vec![
        summary("old", "2024-01-01 10:00:00"),
        summary("new", "2024-03-01 09:00:00"),
        summary("mid", "2024-02-01 00:00:00"),
        summary("mid2", "2024-02-01 00:00:00"),
    ];
    assert_eq!(recency_order(&list), vec![1, 2, 3, 0]);
}

#[test]
fn database_file_sits_in_directory() {
    assert_eq!(get_db_path("/opt/app"), "/opt/app/overlays.db");
    assert_eq!(get_db_path("/opt/app/"), "/opt/app/overlays.db");
    let row = OverlayRow { id: "a".into(), name: "A".into(), config: "{}".into(), updated_at: "t".into() };
    assert_eq!(row.config, "{}");
}

#[test]
fn widget_url_names_port_and_id() {
    assert_eq!(overlay_render::storage::get_obs_url("w1"), "http://localhost:7878/widget/w1");
    assert_eq!(overlay_render::storage::OBS_HTTP_PORT, 7878);
}

#[test]
fn hidden_subtrees_are_left_out_of_the_animation_ids() {
    let hidden = element("h", 0, false, vec![element("hc", 0, true, vec![])]);
    let group = element("g", 1, true, vec![element("c1", 0, true, vec![]), element("c2", 0, false, vec![])]);
    let w = widget("w", vec![group, hidden, element("s", 3, true, vec![])], None);
    assert_eq!(overlay_render::compose::visible_ids(&w), vec!["g", "c1", "s"]);
}
