use vstd::prelude::*;
use crate::text::same_text;
use crate::order::{choose_insert_point, insert_spec, lemma_insert_at};
use crate::scene::{merge_spec, Props, PropsView};
use crate::style::{apply_style, style_spec, Kind, ShapeKind, Style};
use crate::timeline::{empty_props, interpolate, interpolate_spec, sort_spec, sorted_order, Timeline};

verus! {

/// Direction of a gradient mask.
#[derive(Clone, Copy, Debug, PartialEq, Eq, Structural)]
pub enum GradientDir {
    ToRight,
    ToLeft,
    ToBottom,
    ToTop,
    ToBottomRight,
    Radial,
}

/// How a group or mask element limits what its children show. Opacity
/// masks work through the ordinary opacity property.
pub enum Mask {
    Plain,
    Clip { radius: i64 },
    Gradient { dir: GradientDir, start_opacity: i64, end_opacity: i64 },
    Opacity,
}

/// A named entry animation run once the element appears.
pub struct EntryAnimation {
    pub name: String,
    pub duration_ms: u64,
    pub delay_ms: u64,
    pub iterations: String,
}

/// One node of a widget's tree.
pub struct Element {
    pub id: String,
    pub kind: Kind,
    pub shape: ShapeKind,
    pub z_index: i64,
    pub visible: bool,
    pub props: Props,
    pub blend_mode: Option<String>,
    pub mask: Mask,
    pub path_data: Option<String>,
    pub font_family: Option<String>,
    pub text_align: Option<String>,
    pub font_weight: Option<String>,
    pub text_shadow: Option<String>,
    pub content: Option<String>,
    pub src: Option<String>,
    pub object_fit: Option<String>,
    pub entry: Option<EntryAnimation>,
    pub children: Vec<Element>,
}

/// One rendered element: its id, stacking index, style and rendered children.
pub struct RenderNode {
    pub id: String,
    pub z_index: i64,
    pub style: Style,
    pub children: Vec<RenderNode>,
}

pub open spec fn z_keys(cs: Seq<Element>) -> Seq<int> {
    cs.map_values(|c: Element| c.z_index as int)
}

/// The positions of the visible elements among the first `n` of `cs`, by
/// ascending z-index; equal z-indices keep their order.
pub open spec fn visible_order_spec(cs: Seq<Element>, n: int) -> Seq<int>
    decreases n,
{
    if n <= 0 {
        Seq::empty()
    } else if cs[n - 1].visible {
        insert_spec(visible_order_spec(cs, n - 1), n - 1, z_keys(cs))
    } else {
        visible_order_spec(cs, n - 1)
    }
}

pub open spec fn visible_order_of(cs: Seq<Element>) -> Seq<int> {
    visible_order_spec(cs, cs.len() as int)
}

/// Only visible elements are ordered, each one once.
pub proof fn lemma_visible_order(cs: Seq<Element>, n: int)
    requires
        0 <= n <= cs.len(),
    ensures
        visible_order_spec(cs, n).len() <= n,
        forall|i: int| 0 <= i < visible_order_spec(cs, n).len() ==> {
            let j = #[trigger] visible_order_spec(cs, n)[i];
            0 <= j < n && cs[j].visible
        },
    decreases n,
{
    if n > 0 {
        lemma_visible_order(cs, n - 1);
        if cs[n - 1].visible {
            let o = visible_order_spec(cs, n - 1);
            let k = choose_insert_point(o, n - 1, z_keys(cs));
            lemma_insert_at(o, n - 1, z_keys(cs), k);
            let r = visible_order_spec(cs, n);
            assert forall|i: int| 0 <= i < r.len() implies {
                let j = #[trigger] r[i];
                0 <= j < n && cs[j].visible
            } by {
                if i < k {
                    assert(r[i] == o[i]);
                } else if i > k {
                    assert(r[i] == o[i - 1]);
                }
            }
        }
    }
}

/// The positions of the visible elements of `cs` by ascending z-index.
pub fn visible_order(cs: &Vec<Element>) -> (r: Vec<usize>)
    ensures
        r@.map_values(|i: usize| i as int) == visible_order_of(cs@),
        forall|i: int| 0 <= i < r@.len() ==> #[trigger] r@[i] < cs@.len() && cs@[r@[i] as int].visible,
{
    let n = cs.len();
    let ghost keys = z_keys(cs@);
    let mut order: Vec<usize> = Vec::new();
    let mut j: usize = 0;
    while j < n
        invariant
            n == cs@.len(),
            keys == z_keys(cs@),
            j <= n,
            order@.map_values(|i: usize| i as int) == visible_order_spec(cs@, j as int),
            forall|i: int| 0 <= i < order@.len() ==> #[trigger] order@[i] < j && cs@[order@[i] as int].visible,
        decreases n - j,
    {
        if cs[j].visible {
            let ghost o = order@.map_values(|i: usize| i as int);
            let mut k: usize = order.len();
            while k > 0 && cs[order[k - 1]].z_index > cs[j].z_index
                invariant
                    n == cs@.len(),
                    keys == z_keys(cs@),
                    j < n,
                    k <= order@.len(),
                    o == order@.map_values(|i: usize| i as int),
                    forall|i: int| 0 <= i < order@.len() ==> #[trigger] order@[i] < j,
                    forall|i: int| k <= i < o.len() ==> keys[#[trigger] o[i]] > keys[j as int],
                decreases k,
            {
                k = k - 1;
            }
            proof {
                assert(forall|i: int| 0 <= i < o.len() ==> 0 <= #[trigger] o[i] < keys.len());
                lemma_insert_at(o, j as int, keys, k as int);
            }
            order.insert(k, j);
            proof {
                assert(order@.map_values(|i: usize| i as int) =~= o.subrange(0, k as int).push(j as int)
                    + o.subrange(k as int, o.len() as int));
            }
        }
        j = j + 1;
    }
    order
}

pub open spec fn element_wf(e: Element) -> bool
    decreases e, 0int,
{
    &&& e.props@.wf()
    &&& elements_wf_from(e.children@, 0)
}

pub open spec fn elements_wf_from(cs: Seq<Element>, i: int) -> bool
    decreases cs, cs.len() - i,
{
    if 0 <= i < cs.len() {
        element_wf(cs[i]) && elements_wf_from(cs, i + 1)
    } else {
        true
    }
}

proof fn lemma_elements_wf(cs: Seq<Element>, i: int, j: int)
    requires
        0 <= i <= j < cs.len(),
        elements_wf_from(cs, i),
    ensures
        element_wf(cs[j]),
    decreases j - i,
{
    if i < j {
        lemma_elements_wf(cs, i + 1, j);
    }
}

/// Whether `tl` animates at all.
pub open spec fn plays_spec(tl: Option<Timeline>) -> bool {
    match tl {
        Some(tl) => tl.autoplay && tl.keyframes@.len() > 0,
        None => false,
    }
}

/// The overrides element `e` takes at time `t`: none without a playing timeline.
pub open spec fn overrides_spec(tl: Option<Timeline>, e: Element, t: int) -> Option<PropsView> {
    if plays_spec(tl) {
        interpolate_spec(tl.unwrap(), e.id@, e.props@, t)
    } else {
        Some(empty_props())
    }
}

/// `n` renders element `e` at time `t`: the shared styling routine applied to
/// the element's properties merged with its overrides, and one rendered child
/// per visible child, by ascending z-index.
pub open spec fn node_ok(e: Element, tl: Option<Timeline>, t: int, n: RenderNode) -> bool
    decreases e, 0int,
{
    &&& n.id@ == e.id@
    &&& n.z_index == e.z_index
    &&& match overrides_spec(tl, e, t) {
        Some(o) => n.style@ == style_spec(e.kind, e.shape, e.path_data.is_some(), merge_spec(e.props@, o)),
        None => false,
    }
    &&& nodes_ok(e.children@, visible_order_of(e.children@), tl, t, n.children@, 0)
}

/// From position `k` on, `ns` renders the elements of `cs` that `order` picks.
pub open spec fn nodes_ok(cs: Seq<Element>, order: Seq<int>, tl: Option<Timeline>, t: int, ns: Seq<RenderNode>, k: int) -> bool
    decreases cs, order.len() - k,
{
    &&& ns.len() == order.len()
    &&& (0 <= k < order.len() ==> {
        &&& 0 <= order[k] < cs.len()
        &&& node_ok(cs[order[k]], tl, t, ns[k])
        &&& nodes_ok(cs, order, tl, t, ns, k + 1)
    })
}

proof fn lemma_nodes_ok_at(cs: Seq<Element>, order: Seq<int>, tl: Option<Timeline>, t: int, ns: Seq<RenderNode>, k: int, j: int)
    requires
        0 <= k <= j < order.len(),
        nodes_ok(cs, order, tl, t, ns, k),
    ensures
        0 <= order[j] < cs.len(),
        node_ok(cs[order[j]], tl, t, ns[j]),
    decreases j - k,
{
    if k < j {
        lemma_nodes_ok_at(cs, order, tl, t, ns, k + 1, j);
    }
}

pub open spec fn timeline_ready(tl: Option<Timeline>, kf_order: Seq<usize>) -> bool {
    match tl {
        Some(tl) => {
            &&& tl.wf()
            &&& kf_order.map_values(|i: usize| i as int) == sort_spec(tl.times(), tl.keyframes@.len() as int)
            &&& kf_order.len() == tl.keyframes@.len()
            &&& forall|i: int| 0 <= i < kf_order.len() ==> #[trigger] kf_order[i] < tl.keyframes@.len()
        },
        None => true,
    }
}

fn overrides(e: &Element, tl: &Option<Timeline>, kf_order: &Vec<usize>, t: u64) -> (r: Option<Props>)
    requires
        e.props@.wf(),
        timeline_ready(*tl, kf_order@),
    ensures
        match overrides_spec(*tl, *e, t as int) {
            Some(o) => r.is_some() && r.unwrap()@ == o && o.wf(),
            None => r.is_none(),
        },
{
    match tl {
        Some(x) => {
            if x.plays() {
                interpolate(x, kf_order, e.id.as_str(), &e.props, t)
            } else {
                let r = Props::empty();
                proof { lemma_empty_is(r@); }
                Some(r)
            }
        },
        None => {
            let r = Props::empty();
            proof { lemma_empty_is(r@); }
            Some(r)
        },
    }
}

proof fn lemma_empty_is(p: PropsView)
    requires
        p.wf(),
        p.is_empty(),
    ensures
        p == empty_props(),
        empty_props().wf(),
{
    assert forall|i: int| 0 <= i < p.nums.len() implies p.nums[i] == empty_props().nums[i] by {
        assert(p.nums[i].is_none());
    }
    assert forall|i: int| 0 <= i < p.colors.len() implies p.colors[i] == empty_props().colors[i] by {
        assert(p.colors[i].is_none());
    }
    assert(p.nums =~= empty_props().nums);
    assert(p.colors =~= empty_props().colors);
}

fn build_node(e: &Element, tl: &Option<Timeline>, kf_order: &Vec<usize>, t: u64) -> (r: Option<RenderNode>)
    requires
        element_wf(*e),
        timeline_ready(*tl, kf_order@),
    ensures
        match r {
            Some(n) => node_ok(*e, *tl, t as int, n),
            None => forall|n: RenderNode| !node_ok(*e, *tl, t as int, n),
        },
        !plays_spec(*tl) ==> r.is_some(),
    decreases e,
{
    let o = match overrides(e, tl, kf_order, t) {
        Some(o) => o,
        None => {
            return None;
        },
    };
    let merged = e.props.merged(&o);
    let style = apply_style(e.kind, e.shape, e.path_data.is_some(), &merged);
    let children = match build_list(&e.children, tl, kf_order, t) {
        Some(c) => c,
        None => {
            assert forall|n: RenderNode| !node_ok(*e, *tl, t as int, n) by {
                assert(!nodes_ok(e.children@, visible_order_of(e.children@), *tl, t as int, n.children@, 0));
            }
            return None;
        },
    };
    Some(RenderNode { id: e.id.clone(), z_index: e.z_index, style, children })
}

fn build_list(cs: &Vec<Element>, tl: &Option<Timeline>, kf_order: &Vec<usize>, t: u64) -> (r: Option<Vec<RenderNode>>)
    requires
        elements_wf_from(cs@, 0),
        timeline_ready(*tl, kf_order@),
    ensures
        match r {
            Some(ns) => nodes_ok(cs@, visible_order_of(cs@), *tl, t as int, ns@, 0),
            None => forall|ns: Seq<RenderNode>| !nodes_ok(cs@, visible_order_of(cs@), *tl, t as int, ns, 0),
        },
        !plays_spec(*tl) ==> r.is_some(),
    decreases cs,
{
    let order = visible_order(cs);
    let ghost vo = visible_order_of(cs@);
    assert(order@.len() == vo.len());
    let mut ns: Vec<RenderNode> = Vec::new();
    let mut k: usize = 0;
    while k < order.len()
        invariant
            elements_wf_from(cs@, 0),
            timeline_ready(*tl, kf_order@),
            vo == visible_order_of(cs@),
            order@.map_values(|i: usize| i as int) == vo,
            order@.len() == vo.len(),
            forall|i: int| 0 <= i < order@.len() ==> #[trigger] order@[i] < cs@.len() && cs@[order@[i] as int].visible,
            k <= order@.len(),
            ns@.len() == k,
            forall|i: int| 0 <= i < k ==> node_ok(cs@[vo[i]], *tl, t as int, #[trigger] ns@[i]),
        decreases order@.len() - k,
    {
        let j = order[k];
        assert(vo[k as int] == j as int);
        proof { lemma_elements_wf(cs@, 0, j as int); }
        match build_node(&cs[j], tl, kf_order, t) {
            Some(n) => ns.push(n),
            None => {
                assert forall|xs: Seq<RenderNode>| !nodes_ok(cs@, vo, *tl, t as int, xs, 0) by {
                    if nodes_ok(cs@, vo, *tl, t as int, xs, 0) {
                        lemma_nodes_ok_at(cs@, vo, *tl, t as int, xs, 0, k as int);
                    }
                }
                return None;
            },
        }
        k = k + 1;
    }
    proof { lemma_nodes_ok_from(cs@, vo, *tl, t as int, ns@, 0); }
    Some(ns)
}

proof fn lemma_nodes_ok_from(cs: Seq<Element>, order: Seq<int>, tl: Option<Timeline>, t: int, ns: Seq<RenderNode>, k: int)
    requires
        0 <= k <= order.len(),
        ns.len() == order.len(),
        forall|i: int| 0 <= i < order.len() ==> 0 <= #[trigger] order[i] < cs.len(),
        forall|i: int| 0 <= i < order.len() ==> node_ok(cs[order[i]], tl, t, #[trigger] ns[i]),
    ensures
        nodes_ok(cs, order, tl, t, ns, k),
    decreases order.len() - k,
{
    if k < order.len() {
        lemma_nodes_ok_from(cs, order, tl, t, ns, k + 1);
    }
}

/// A top-level widget: its size in pixels, background colour, element
/// tree and optional timeline.
pub struct Widget {
    pub id: String,
    pub width: Option<u64>,
    pub height: Option<u64>,
    pub background: Option<String>,
    pub elements: Vec<Element>,
    pub timeline: Option<Timeline>,
}

impl Widget {
    pub open spec fn wf(&self) -> bool {
        &&& elements_wf_from(self.elements@, 0)
        &&& match self.timeline {
            Some(tl) => tl.wf(),
            None => true,
        }
    }

    /// Declared width, 400 where none is given.
    pub fn width_px(&self) -> (r: u64)
        ensures
            r == match self.width { Some(w) => w, None => 400 },
    {
        match self.width {
            Some(w) => w,
            None => 400,
        }
    }

    /// Declared height, 300 where none is given.
    pub fn height_px(&self) -> (r: u64)
        ensures
            r == match self.height { Some(h) => h, None => 300 },
    {
        match self.height {
            Some(h) => h,
            None => 300,
        }
    }

    /// Declared background, `transparent` where none is given.
    pub fn background_color(&self) -> (r: String)
        ensures
            r@ == match self.background { Some(b) => b@, None => "transparent"@ },
    {
        proof { reveal_strlit("transparent"); }
        match &self.background {
            Some(b) => b.clone(),
            None => "transparent".to_string(),
        }
    }
}

/// The static render of the widget: its visible top-level elements by
/// ascending z-index, each styled from its own properties alone.
pub fn compose(w: &Widget) -> (r: Vec<RenderNode>)
    requires
        w.wf(),
    ensures
        nodes_ok(w.elements@, visible_order_of(w.elements@), None, 0, r@, 0),
{
    let none: Option<Timeline> = None;
    let kf: Vec<usize> = Vec::new();
    match build_list(&w.elements, &none, &kf, 0) {
        Some(ns) => ns,
        None => Vec::new(),
    }
}

/// The widget as it stands `t` milliseconds into its timeline. `None` only
/// where some element lies strictly inside an elastic span, whose curve has
/// no integer form.
pub fn render_frame(w: &Widget, t: u64) -> (r: Option<Vec<RenderNode>>)
    requires
        w.wf(),
    ensures
        match r {
            Some(ns) => nodes_ok(w.elements@, visible_order_of(w.elements@), w.timeline, t as int, ns@, 0),
            None => forall|ns: Seq<RenderNode>| !nodes_ok(w.elements@, visible_order_of(w.elements@), w.timeline, t as int, ns, 0),
        },
        !plays_spec(w.timeline) ==> r.is_some(),
{
    let kf: Vec<usize> = match &w.timeline {
        Some(tl) => sorted_order(tl),
        None => Vec::new(),
    };
    build_list(&w.elements, &w.timeline, &kf, t)
}

/// Without a playing timeline every frame is the static render, and each
/// rendered element is styled by the shared routine from its own properties.
pub proof fn lemma_static_frames(e: Element, tl: Option<Timeline>, t: int, n: RenderNode)
    requires
        element_wf(e),
        !plays_spec(tl),
    ensures
        node_ok(e, tl, t, n) == node_ok(e, None, 0, n),
        node_ok(e, None, 0, n) ==> n.style@ == style_spec(e.kind, e.shape, e.path_data.is_some(), e.props@),
    decreases e, 0int,
{
    lemma_empty_wf();
    crate::scene::lemma_merge_empty(e.props@, empty_props());
    lemma_static_list(e.children@, visible_order_of(e.children@), tl, t, n.children@, 0);
}

proof fn lemma_empty_wf()
    ensures
        empty_props().wf(),
        empty_props().is_empty(),
{
}

proof fn lemma_static_list(cs: Seq<Element>, order: Seq<int>, tl: Option<Timeline>, t: int, ns: Seq<RenderNode>, k: int)
    requires
        elements_wf_from(cs, 0),
        !plays_spec(tl),
        0 <= k,
    ensures
        nodes_ok(cs, order, tl, t, ns, k) == nodes_ok(cs, order, None, 0, ns, k),
    decreases cs, order.len() - k,
{
    if 0 <= k < order.len() && 0 <= order[k] < cs.len() {
        lemma_elements_wf(cs, 0, order[k]);
        lemma_static_frames(cs[order[k]], tl, t, ns[k]);
        lemma_static_list(cs, order, tl, t, ns, k + 1);
    }
}

/// Only visible elements are rendered: each rendered node stands for a
/// visible element, and below it again only for visible ones, since
/// `node_ok` applies the same ordering at every level.
pub proof fn lemma_only_visible(cs: Seq<Element>, tl: Option<Timeline>, t: int, ns: Seq<RenderNode>)
    requires
        nodes_ok(cs, visible_order_of(cs), tl, t, ns, 0),
    ensures
        forall|k: int| 0 <= k < ns.len() ==> {
            let j = visible_order_of(cs)[k];
            &&& 0 <= j < cs.len()
            &&& cs[j].visible
            &&& node_ok(cs[j], tl, t, #[trigger] ns[k])
        },
{
    lemma_visible_order(cs, cs.len() as int);
    assert forall|k: int| 0 <= k < ns.len() implies {
        let j = visible_order_of(cs)[k];
        &&& 0 <= j < cs.len()
        &&& cs[j].visible
        &&& node_ok(cs[j], tl, t, #[trigger] ns[k])
    } by {
        lemma_nodes_ok_at(cs, visible_order_of(cs), tl, t, ns, 0, k);
    }
}

pub open spec fn gradient_dir_spec(tag: Seq<char>) -> GradientDir {
    if tag == "to right"@ {
        GradientDir::ToRight
    } else if tag == "to left"@ {
        GradientDir::ToLeft
    } else if tag == "to top"@ {
        GradientDir::ToTop
    } else if tag == "to bottom right"@ {
        GradientDir::ToBottomRight
    } else if tag == "radial"@ {
        GradientDir::Radial
    } else {
        GradientDir::ToBottom
    }
}

impl GradientDir {
    /// The direction named by `tag`; an unknown name means `to bottom`.
    pub fn from_tag(tag: &str) -> (r: GradientDir)
        ensures
            r == gradient_dir_spec(tag@),
    {
        proof {
            reveal_strlit("to right");
            reveal_strlit("to left");
            reveal_strlit("to top");
            reveal_strlit("to bottom right");
            reveal_strlit("radial");
        }
        if same_text(tag, "to right") {
            GradientDir::ToRight
        } else if same_text(tag, "to left") {
            GradientDir::ToLeft
        } else if same_text(tag, "to top") {
            GradientDir::ToTop
        } else if same_text(tag, "to bottom right") {
            GradientDir::ToBottomRight
        } else if same_text(tag, "radial") {
            GradientDir::Radial
        } else {
            GradientDir::ToBottom
        }
    }
}

/// Ids of the elements of `cs` from position `i` on that take part in
/// animation: each visible element, then those below it, depth first;
/// a hidden element contributes nothing, nor do its descendants.
pub open spec fn visible_ids_from(cs: Seq<Element>, i: int) -> Seq<Seq<char>>
    decreases cs, cs.len() - i,
{
    if 0 <= i < cs.len() {
        let own = if cs[i].visible {
            seq![cs[i].id@] + visible_ids_from(cs[i].children@, 0)
        } else {
            Seq::empty()
        };
        own + visible_ids_from(cs, i + 1)
    } else {
        Seq::empty()
    }
}

pub open spec fn string_views(v: Seq<String>) -> Seq<Seq<char>> {
    v.map_values(|s: String| s@)
}

fn collect_ids(cs: &Vec<Element>, out: &mut Vec<String>)
    ensures
        string_views(final(out)@) == string_views(old(out)@) + visible_ids_from(cs@, 0),
    decreases cs,
{
    let mut i: usize = 0;
    let ghost start = string_views(out@);
    while i < cs.len()
        invariant
            i <= cs@.len(),
            start + visible_ids_from(cs@, 0) == string_views(out@) + visible_ids_from(cs@, i as int),
        decreases cs@.len() - i,
    {
        let ghost before = string_views(out@);
        if cs[i].visible {
            out.push(cs[i].id.clone());
            assert(string_views(out@) =~= before + seq![cs@[i as int].id@]);
            let ghost mid = string_views(out@);
            collect_ids(&cs[i].children, out);
            assert(string_views(out@) == mid + visible_ids_from(cs@[i as int].children@, 0));
        }
        proof {
            let own = if cs@[i as int].visible {
                seq![cs@[i as int].id@] + visible_ids_from(cs@[i as int].children@, 0)
            } else {
                Seq::<Seq<char>>::empty()
            };
            assert(visible_ids_from(cs@, i as int) == own + visible_ids_from(cs@, i + 1));
            assert(string_views(out@) =~= before + own);
            assert(before + visible_ids_from(cs@, i as int) =~= string_views(out@) + visible_ids_from(cs@, i + 1));
        }
        i = i + 1;
    }
}

/// The ids of the widget's elements that animation looks up: visible
/// elements under visible ancestors, depth first.
pub fn visible_ids(w: &Widget) -> (r: Vec<String>)
    ensures
        string_views(r@) == visible_ids_from(w.elements@, 0),
{
    let mut out: Vec<String> = Vec::new();
    assert(string_views(out@) =~= Seq::<Seq<char>>::empty());
    collect_ids(&w.elements, &mut out);
    assert(string_views(out@) =~= visible_ids_from(w.elements@, 0));
    out
}

/// A hidden element contributes no id, for itself or any descendant.
pub proof fn lemma_hidden_absent(e: Element)
    requires
        !e.visible,
    ensures
        visible_ids_from(seq![e], 0) == Seq::<Seq<char>>::empty(),
{
    assert(visible_ids_from(seq![e], 1) == Seq::<Seq<char>>::empty());
    assert(visible_ids_from(seq![e], 0) =~= Seq::<Seq<char>>::empty());
}

} // verus!
