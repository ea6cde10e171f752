use vstd::prelude::*;
use crate::text::same_text;
use crate::color::{lerp_color, lerp_spec, parse_color_spec, lerp_rgb_spec, hex_string};
use crate::order::{choose_insert_point, insert_spec, lemma_insert_at};
use crate::easing::{ease, ease_spec, Easing, ONE};
use crate::scene::{opt_view, Props, PropsView, COLOR_PROPS, NUM_PROPS};

verus! {

/// The overrides one keyframe sets for one element.
pub struct ElementState {
    pub id: String,
    pub props: Props,
}

/// A point of the timeline: its time in milliseconds, the easing used
/// from it to the next keyframe, and the overrides per element.
pub struct Keyframe {
    pub time_ms: u64,
    pub easing: Easing,
    pub states: Vec<ElementState>,
}

/// The animation of one widget. `speed_pct` is the playback speed in
/// percent (100 is real time).
pub struct Timeline {
    pub keyframes: Vec<Keyframe>,
    pub duration_ms: u64,
    pub looping: bool,
    pub autoplay: bool,
    pub speed_pct: u64,
}

impl Keyframe {
    pub open spec fn wf(&self) -> bool {
        forall|i: int| 0 <= i < self.states@.len() ==> (#[trigger] self.states@[i]).props@.wf()
    }
}

impl Timeline {
    pub open spec fn wf(&self) -> bool {
        forall|i: int| 0 <= i < self.keyframes@.len() ==> (#[trigger] self.keyframes@[i]).wf()
    }

    pub open spec fn times(&self) -> Seq<u64> {
        self.keyframes@.map_values(|k: Keyframe| k.time_ms)
    }
}

pub open spec fn empty_props() -> PropsView {
    PropsView {
        nums: Seq::new(NUM_PROPS as nat, |i: int| None::<i64>),
        colors: Seq::new(COLOR_PROPS as nat, |i: int| None::<Seq<char>>),
    }
}

/// The overrides that `states` holds for element `id` from position `i` on:
/// the first entry with that id, or none.
pub open spec fn state_from(states: Seq<ElementState>, id: Seq<char>, i: int) -> PropsView
    decreases states.len() - i,
{
    if i >= states.len() {
        empty_props()
    } else if states[i].id@ == id {
        states[i].props@
    } else {
        state_from(states, id, i + 1)
    }
}

pub open spec fn state_of(k: Keyframe, id: Seq<char>) -> PropsView {
    state_from(k.states@, id, 0)
}

/// The overrides keyframe `k` sets for element `id` (empty where it sets none).
pub fn state_for(k: &Keyframe, id: &str) -> (r: Props)
    requires
        k.wf(),
    ensures
        r@ == state_of(*k, id@),
        r@.wf(),
{
    let mut i: usize = 0;
    while i < k.states.len()
        invariant
            k.wf(),
            i <= k.states@.len(),
            state_from(k.states@, id@, i as int) == state_of(*k, id@),
        decreases k.states@.len() - i,
    {
        if same_text(k.states[i].id.as_str(), id) {
            return k.states[i].props.duplicate();
        }
        i = i + 1;
    }
    let r = Props::empty();
    assert forall|i: int| 0 <= i < COLOR_PROPS implies r@.colors[i] == empty_props().colors[i] by {
        assert(r@.colors[i].is_none());
    }
    assert forall|i: int| 0 <= i < NUM_PROPS implies r@.nums[i] == empty_props().nums[i] by {
        assert(r@.nums[i].is_none());
    }
    assert(r@.nums =~= empty_props().nums);
    assert(r@.colors =~= empty_props().colors);
    r
}

pub open spec fn time_keys(times: Seq<u64>) -> Seq<int> {
    times.map_values(|t: u64| t as int)
}

/// The keyframe indices `0..n` in order of time; equal times keep their order.
pub open spec fn sort_spec(times: Seq<u64>, n: int) -> Seq<int>
    decreases n,
{
    if n <= 0 {
        Seq::empty()
    } else {
        insert_spec(sort_spec(times, n - 1), n - 1, time_keys(times))
    }
}

/// Some entry of `o` is `m`.
pub open spec fn holds_index(o: Seq<int>, m: int) -> bool {
    exists|p: int| 0 <= p < o.len() && #[trigger] o[p] == m
}

proof fn lemma_sort_indices(times: Seq<u64>, n: int)
    requires
        0 <= n <= times.len(),
    ensures
        sort_spec(times, n).len() == n,
        forall|i: int| 0 <= i < n ==> 0 <= #[trigger] sort_spec(times, n)[i] < n,
        forall|i: int, j: int| 0 <= i <= j < n ==>
            times[#[trigger] sort_spec(times, n)[i]] <= times[#[trigger] sort_spec(times, n)[j]],
        forall|m: int| 0 <= m < n ==> #[trigger] holds_index(sort_spec(times, n), m),
    decreases n,
{
    if n > 0 {
        lemma_sort_indices(times, n - 1);
        let keys = time_keys(times);
        let o = sort_spec(times, n - 1);
        let ks = choose_insert_point(o, n - 1, keys);
        lemma_insert_at(o, n - 1, keys, ks);
        let r = sort_spec(times, n);
        assert(r == o.subrange(0, ks).push(n - 1) + o.subrange(ks, o.len() as int));
        assert forall|i: int| 0 <= i < n implies #[trigger] r[i] == (if i < ks { o[i] } else if i == ks { n - 1 } else { o[i - 1] }) by {}
        assert forall|i: int| 0 <= i < n implies 0 <= #[trigger] r[i] < n by {
            if i < ks {
                assert(r[i] == o[i]);
            } else if i > ks {
                assert(r[i] == o[i - 1]);
            }
        }
        assert forall|i: int, j: int| 0 <= i <= j < n implies times[#[trigger] r[i]] <= times[#[trigger] r[j]] by {
            assert(r[i] == (if i < ks { o[i] } else if i == ks { n - 1 } else { o[i - 1] }));
            assert(r[j] == (if j < ks { o[j] } else if j == ks { n - 1 } else { o[j - 1] }));
            if i < ks && j == ks {
                assert(times[o[i]] <= times[o[ks - 1]]);
                assert(keys[o[ks - 1]] <= keys[n - 1]);
            } else if i == ks && j > ks {
                assert(keys[o[j - 1]] > keys[n - 1]);
            } else if i < ks && j > ks {
                assert(times[o[i]] <= times[o[j - 1]]);
            } else if i > ks {
                assert(times[o[i - 1]] <= times[o[j - 1]]);
            }
        }
        assert forall|m: int| 0 <= m < n implies #[trigger] holds_index(r, m) by {
            if m == n - 1 {
                assert(r[ks] == m);
            } else {
                assert(holds_index(o, m));
                let p = choose|p: int| 0 <= p < o.len() && #[trigger] o[p] == m;
                if p < ks {
                    assert(r[p] == m);
                } else {
                    assert(r[p + 1] == m);
                }
            }
        }
    }
}

/// The keyframe indices of `tl` sorted by time; keyframes at equal times
/// keep the order they were given in.
pub fn sorted_order(tl: &Timeline) -> (r: Vec<usize>)
    ensures
        r@.map_values(|i: usize| i as int) == sort_spec(tl.times(), tl.keyframes@.len() as int),
        r@.len() == tl.keyframes@.len(),
        forall|i: int| 0 <= i < r@.len() ==> #[trigger] r@[i] < tl.keyframes@.len(),
{
    let n = tl.keyframes.len();
    let ghost times = tl.times();
    let mut order: Vec<usize> = Vec::new();
    let mut j: usize = 0;
    while j < n
        invariant
            n == tl.keyframes@.len(),
            times == tl.times(),
            times.len() == n,
            j <= n,
            order@.map_values(|i: usize| i as int) == sort_spec(times, j as int),
            order@.len() == j,
            forall|i: int| 0 <= i < order@.len() ==> #[trigger] order@[i] < j,
        decreases n - j,
    {
        let ghost o = order@.map_values(|i: usize| i as int);
        let mut k: usize = order.len();
        while k > 0 && tl.keyframes[order[k - 1]].time_ms > tl.keyframes[j].time_ms
            invariant
                n == tl.keyframes@.len(),
                times == tl.times(),
                j < n,
                k <= order@.len(),
                order@.len() == j,
                o == order@.map_values(|i: usize| i as int),
                forall|i: int| 0 <= i < order@.len() ==> #[trigger] order@[i] < j,
                forall|i: int| k <= i < o.len() ==> times[#[trigger] o[i]] > times[j as int],
            decreases k,
        {
            k = k - 1;
        }
        proof {
            assert(forall|i: int| 0 <= i < o.len() ==> 0 <= #[trigger] o[i] < times.len());
            lemma_insert_at(o, j as int, time_keys(times), k as int);
        }
        order.insert(k, j);
        proof {
            assert(order@.map_values(|i: usize| i as int) =~= o.subrange(0, k as int).push(j as int)
                + o.subrange(k as int, o.len() as int));
        }
        j = j + 1;
    }
    order
}

/// The first position `i` from `i0` on whose keyframe pair straddles `t`;
/// 0 where none does.
pub open spec fn bracket_from(times: Seq<u64>, order: Seq<int>, t: int, i: int) -> int
    decreases order.len() - i,
{
    if i + 1 >= order.len() {
        0
    } else if times[order[i]] <= t && t <= times[order[i + 1]] {
        i
    } else {
        bracket_from(times, order, t, i + 1)
    }
}

/// How far `t` lies from `tp` towards `tn`, in units of `1 / ONE`;
/// 0 over an empty span.
pub open spec fn progress_spec(tp: int, tn: int, t: int) -> int {
    if tn <= tp || t <= tp {
        0
    } else if t >= tn {
        ONE as int
    } else {
        (t - tp) * ONE / (tn - tp)
    }
}

pub open spec fn num_base(p: PropsView, i: int) -> int {
    match p.nums[i] {
        Some(v) => v as int,
        None => 0,
    }
}

pub open spec fn color_base(p: PropsView, i: int) -> Seq<char> {
    match p.colors[i] {
        Some(c) => c,
        None => "#000000"@,
    }
}

/// The properties set in `prev` or `next`, each interpolated at eased
/// progress `e`; where only one of them sets it, the other end is the
/// element's own value (`base`).
pub open spec fn blend_spec(prev: PropsView, next: PropsView, base: PropsView, e: int) -> PropsView {
    PropsView {
        nums: Seq::new(NUM_PROPS as nat, |i: int|
            if prev.nums[i].is_none() && next.nums[i].is_none() {
                None
            } else {
                let a = if prev.nums[i].is_some() { num_base(prev, i) } else { num_base(base, i) };
                let b = if next.nums[i].is_some() { num_base(next, i) } else { num_base(base, i) };
                Some(lerp_spec(a, b, e) as i64)
            }),
        colors: Seq::new(COLOR_PROPS as nat, |i: int|
            if prev.colors[i].is_none() && next.colors[i].is_none() {
                None
            } else {
                let a = if prev.colors[i].is_some() { color_base(prev, i) } else { color_base(base, i) };
                let b = if next.colors[i].is_some() { color_base(next, i) } else { color_base(base, i) };
                Some(hex_string(lerp_rgb_spec(parse_color_spec(a), parse_color_spec(b), e)))
            }),
    }
}

/// The overrides of element `id` at time `t`, with `base` its own
/// properties. `None` where the pair of keyframes around `t` eases
/// elastically and `t` lies strictly inside it.
pub open spec fn interpolate_spec(tl: Timeline, id: Seq<char>, base: PropsView, t: int) -> Option<PropsView> {
    let times = tl.times();
    let n = tl.keyframes@.len() as int;
    let order = sort_spec(times, n);
    if n == 0 {
        Some(empty_props())
    } else if t <= times[order[0]] {
        Some(state_of(tl.keyframes@[order[0]], id))
    } else if t >= times[order[n - 1]] {
        Some(state_of(tl.keyframes@[order[n - 1]], id))
    } else {
        let i = bracket_from(times, order, t, 0);
        let prev = tl.keyframes@[order[i]];
        let next = tl.keyframes@[order[i + 1]];
        match ease_spec(prev.easing, progress_spec(prev.time_ms as int, next.time_ms as int, t)) {
            Some(e) => Some(blend_spec(state_of(prev, id), state_of(next, id), base, e)),
            None => None,
        }
    }
}

fn base_num(p: &Props, i: usize) -> (r: i64)
    requires
        p@.wf(),
        i < NUM_PROPS,
    ensures
        r as int == num_base(p@, i as int),
{
    match p.nums[i] {
        Some(v) => v,
        None => 0,
    }
}

fn base_color(p: &Props, i: usize) -> (r: &str)
    requires
        p@.wf(),
        i < COLOR_PROPS,
    ensures
        r@ == color_base(p@, i as int),
{
    proof { reveal_strlit("#000000"); }
    match &p.colors[i] {
        Some(c) => c.as_str(),
        None => "#000000",
    }
}

/// Interpolates each property that `prev` or `next` sets.
pub fn blend(prev: &Props, next: &Props, base: &Props, e: u32) -> (r: Props)
    requires
        prev@.wf(),
        next@.wf(),
        base@.wf(),
        e <= ONE,
    ensures
        r@ == blend_spec(prev@, next@, base@, e as int),
        r@.wf(),
{
    let ghost spec_r = blend_spec(prev@, next@, base@, e as int);
    let mut nums: Vec<Option<i64>> = Vec::new();
    let mut i: usize = 0;
    while i < NUM_PROPS
        invariant
            prev@.wf(),
            next@.wf(),
            base@.wf(),
            e <= ONE,
            spec_r == blend_spec(prev@, next@, base@, e as int),
            i <= NUM_PROPS,
            nums@.len() == i,
            forall|j: int| 0 <= j < i ==> #[trigger] nums@[j] == spec_r.nums[j],
        decreases NUM_PROPS - i,
    {
        if prev.nums[i].is_none() && next.nums[i].is_none() {
            nums.push(None);
        } else {
            let a = if prev.nums[i].is_some() { base_num(prev, i) } else { base_num(base, i) };
            let b = if next.nums[i].is_some() { base_num(next, i) } else { base_num(base, i) };
            nums.push(Some(crate::color::lerp(a, b, e)));
        }
        i = i + 1;
    }
    let mut colors: Vec<Option<String>> = Vec::new();
    let mut i: usize = 0;
    while i < COLOR_PROPS
        invariant
            prev@.wf(),
            next@.wf(),
            base@.wf(),
            e <= ONE,
            spec_r == blend_spec(prev@, next@, base@, e as int),
            i <= COLOR_PROPS,
            colors@.len() == i,
            forall|j: int| 0 <= j < i ==> opt_view(#[trigger] colors@[j]) == spec_r.colors[j],
        decreases COLOR_PROPS - i,
    {
        if prev.colors[i].is_none() && next.colors[i].is_none() {
            colors.push(None);
        } else {
            let a = if prev.colors[i].is_some() { base_color(prev, i) } else { base_color(base, i) };
            let b = if next.colors[i].is_some() { base_color(next, i) } else { base_color(base, i) };
            colors.push(Some(lerp_color(a, b, e)));
        }
        i = i + 1;
    }
    let r = Props { nums, colors };
    assert(r@.nums =~= spec_r.nums);
    assert(r@.colors =~= spec_r.colors);
    r
}

/// Raw progress of `t` between keyframe times `tp` and `tn`.
pub fn progress(tp: u64, tn: u64, t: u64) -> (r: u32)
    ensures
        r as int == progress_spec(tp as int, tn as int, t as int),
        r <= ONE,
{
    if tn <= tp || t <= tp {
        0
    } else if t >= tn {
        ONE
    } else {
        assert((t - tp) as u128 * 1000000u128 <= 0xffff_ffff_ffff_ffff_u128 * 1000000u128) by (nonlinear_arith)
            requires (t - tp) as u128 <= 0xffff_ffff_ffff_ffff_u128;
        let num: u128 = (t - tp) as u128 * ONE as u128;
        let den: u128 = (tn - tp) as u128;
        proof {
            let a = (t - tp) as int;
            let d = (tn - tp) as int;
            assert(a * ONE / d <= ONE) by (nonlinear_arith) requires 0 < a < d;
        }
        (num / den) as u32
    }
}

fn bracket(tl: &Timeline, order: &Vec<usize>, t: u64) -> (r: usize)
    requires
        order@.len() == tl.keyframes@.len(),
        order@.len() >= 2,
        forall|i: int| 0 <= i < order@.len() ==> #[trigger] order@[i] < tl.keyframes@.len(),
    ensures
        r as int == bracket_from(tl.times(), order@.map_values(|i: usize| i as int), t as int, 0),
        r + 1 < order@.len(),
{
    let ghost times = tl.times();
    let ghost o = order@.map_values(|i: usize| i as int);
    let n = order.len();
    let mut i: usize = 0;
    while i + 1 < n
        invariant
            n == tl.keyframes@.len(),
            n == order@.len(),
            n >= 2,
            times == tl.times(),
            o == order@.map_values(|i: usize| i as int),
            forall|j: int| 0 <= j < order@.len() ==> #[trigger] order@[j] < n,
            i < n,
            bracket_from(times, o, t as int, i as int) == bracket_from(times, o, t as int, 0),
        decreases n - i,
    {
        let tp = tl.keyframes[order[i]].time_ms;
        let tn = tl.keyframes[order[i + 1]].time_ms;
        if tp <= t && t <= tn {
            return i;
        }
        i = i + 1;
    }
    0
}

/// The overrides of the element `id`, whose own properties are `base`, at
/// time `t` in milliseconds; `order` is the timeline's `sorted_order`.
pub fn interpolate(tl: &Timeline, order: &Vec<usize>, id: &str, base: &Props, t: u64) -> (r: Option<Props>)
    requires
        tl.wf(),
        base@.wf(),
        order@.map_values(|i: usize| i as int) == sort_spec(tl.times(), tl.keyframes@.len() as int),
        order@.len() == tl.keyframes@.len(),
        forall|i: int| 0 <= i < order@.len() ==> #[trigger] order@[i] < tl.keyframes@.len(),
    ensures
        match interpolate_spec(*tl, id@, base@, t as int) {
            Some(p) => r.is_some() && r.unwrap()@ == p && p.wf(),
            None => r.is_none(),
        },
{
    let ghost times = tl.times();
    let ghost o = order@.map_values(|i: usize| i as int);
    let n = tl.keyframes.len();
    if n == 0 {
        let r = Props::empty();
        assert forall|i: int| 0 <= i < COLOR_PROPS implies r@.colors[i] == empty_props().colors[i] by {
            assert(r@.colors[i].is_none());
        }
        assert forall|i: int| 0 <= i < NUM_PROPS implies r@.nums[i] == empty_props().nums[i] by {
            assert(r@.nums[i].is_none());
        }
        assert(r@.nums =~= empty_props().nums);
        assert(r@.colors =~= empty_props().colors);
        return Some(r);
    }
    assert(o[0] == order@[0] as int);
    assert(o[n - 1] == order@[n - 1] as int);
    let first = &tl.keyframes[order[0]];
    let last = &tl.keyframes[order[n - 1]];
    if t <= first.time_ms {
        return Some(state_for(first, id));
    }
    if t >= last.time_ms {
        return Some(state_for(last, id));
    }
    let found = bracket(tl, order, t);
    let prev = &tl.keyframes[order[found]];
    let next = &tl.keyframes[order[found + 1]];
    let raw = progress(prev.time_ms, next.time_ms, t);
    match ease(prev.easing, raw) {
        Some(e) => {
            let ps = state_for(prev, id);
            let ns = state_for(next, id);
            Some(blend(&ps, &ns, base, e))
        },
        None => None,
    }
}

/// Where the playback clock stands after `elapsed_ms` of real time, and
/// whether further frames are due.
#[derive(Clone, Copy, Debug, PartialEq, Eq, Structural)]
pub struct Tick {
    pub time_ms: u64,
    pub more: bool,
}

pub open spec fn scaled_spec(elapsed: int, speed_pct: int) -> int {
    let v = elapsed * speed_pct / 100;
    if v > u64::MAX { u64::MAX as int } else { v }
}

pub open spec fn tick_spec(duration: int, looping: bool, speed_pct: int, elapsed: int) -> Tick {
    let s = scaled_spec(elapsed, speed_pct);
    let t = if s >= duration {
        if looping {
            if duration > 0 { s % duration } else { 0 }
        } else {
            duration
        }
    } else {
        s
    };
    Tick { time_ms: t as u64, more: t < duration || looping }
}

impl Timeline {
    /// Whether the timeline plays at all: it must autoplay and hold a keyframe.
    pub fn plays(&self) -> (r: bool)
        ensures
            r == (self.autoplay && self.keyframes@.len() > 0),
    {
        self.autoplay && self.keyframes.len() > 0
    }

    /// The timeline time for `elapsed_ms` of real time: scaled by the speed,
    /// wrapped when looping, held at the end otherwise; frames stop once a
    /// timeline that does not loop has reached its end. A looping timeline of
    /// zero length stays at time 0.
    pub fn tick(&self, elapsed_ms: u64) -> (r: Tick)
        ensures
            r == tick_spec(self.duration_ms as int, self.looping, self.speed_pct as int, elapsed_ms as int),
    {
        assert(elapsed_ms as u128 * self.speed_pct as u128 <= 0xffff_ffff_ffff_ffff_u128 * 0xffff_ffff_ffff_ffff_u128)
            by (nonlinear_arith);
        let v: u128 = elapsed_ms as u128 * self.speed_pct as u128 / 100;
        let s: u64 = if v > u64::MAX as u128 { u64::MAX } else { v as u64 };
        let t: u64 = if s >= self.duration_ms {
            if self.looping {
                if self.duration_ms > 0 { s % self.duration_ms } else { 0 }
            } else {
                self.duration_ms
            }
        } else {
            s
        };
        Tick { time_ms: t, more: t < self.duration_ms || self.looping }
    }
}

/// At or before the time of the earliest keyframe an element takes exactly
/// that keyframe's overrides: no drift and no extrapolation.
pub proof fn lemma_hold_first(tl: Timeline, id: Seq<char>, base: PropsView, t: int)
    requires
        tl.keyframes@.len() > 0,
        forall|m: int| 0 <= m < tl.keyframes@.len() ==> t <= #[trigger] tl.keyframes@[m].time_ms,
    ensures
        ({
            let first = sort_spec(tl.times(), tl.keyframes@.len() as int)[0];
            &&& 0 <= first < tl.keyframes@.len()
            &&& forall|m: int| 0 <= m < tl.keyframes@.len()
                ==> tl.keyframes@[first].time_ms <= #[trigger] tl.keyframes@[m].time_ms
            &&& interpolate_spec(tl, id, base, t) == Some(state_of(tl.keyframes@[first], id))
        }),
{
    let n = tl.keyframes@.len() as int;
    lemma_sort_indices(tl.times(), n);
    let o = sort_spec(tl.times(), n);
    assert(tl.times()[o[0]] == tl.keyframes@[o[0]].time_ms);
    assert forall|m: int| 0 <= m < n implies tl.keyframes@[o[0]].time_ms <= #[trigger] tl.keyframes@[m].time_ms by {
        assert(holds_index(o, m));
        let p = choose|p: int| 0 <= p < o.len() && #[trigger] o[p] == m;
        assert(tl.times()[o[0]] <= tl.times()[o[p]]);
    }
}

/// At or after the time of the latest keyframe an element takes exactly
/// that keyframe's overrides. Where every keyframe shares the time `t`,
/// the earliest one in order is taken instead, so some keyframe must lie
/// before `t`.
pub proof fn lemma_hold_last(tl: Timeline, id: Seq<char>, base: PropsView, t: int)
    requires
        tl.keyframes@.len() > 0,
        forall|m: int| 0 <= m < tl.keyframes@.len() ==> #[trigger] tl.keyframes@[m].time_ms <= t,
        exists|m: int| 0 <= m < tl.keyframes@.len() && #[trigger] tl.keyframes@[m].time_ms < t,
    ensures
        ({
            let last = sort_spec(tl.times(), tl.keyframes@.len() as int)[tl.keyframes@.len() - 1];
            &&& 0 <= last < tl.keyframes@.len()
            &&& forall|m: int| 0 <= m < tl.keyframes@.len()
                ==> #[trigger] tl.keyframes@[m].time_ms <= tl.keyframes@[last].time_ms
            &&& interpolate_spec(tl, id, base, t) == Some(state_of(tl.keyframes@[last], id))
        }),
{
    let n = tl.keyframes@.len() as int;
    lemma_sort_indices(tl.times(), n);
    let o = sort_spec(tl.times(), n);
    let w = choose|m: int| 0 <= m < n && #[trigger] tl.keyframes@[m].time_ms < t;
    assert(holds_index(o, w));
    let pw = choose|p: int| 0 <= p < o.len() && #[trigger] o[p] == w;
    assert(tl.times()[o[0]] <= tl.times()[o[pw]]);
    assert(tl.times()[o[0]] < t);
    assert forall|m: int| 0 <= m < n implies #[trigger] tl.keyframes@[m].time_ms <= tl.keyframes@[o[n - 1]].time_ms by {
        assert(holds_index(o, m));
        let p = choose|p: int| 0 <= p < o.len() && #[trigger] o[p] == m;
        assert(tl.times()[o[p]] <= tl.times()[o[n - 1]]);
    }
    assert(tl.times()[o[n - 1]] == tl.keyframes@[o[n - 1]].time_ms);
}

} // verus!
