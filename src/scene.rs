use vstd::prelude::*;

verus! {

/// Numeric properties are integers in thousandths of their unit (pixels,
/// degrees, percent, or plain factors for opacity and scale).
pub const X: usize = 0;
pub const Y: usize = 1;
pub const WIDTH: usize = 2;
pub const HEIGHT: usize = 3;
pub const ROTATION: usize = 4;
pub const OPACITY: usize = 5;
pub const STROKE_WIDTH: usize = 6;
pub const BORDER_RADIUS: usize = 7;
pub const FONT_SIZE: usize = 8;
pub const LETTER_SPACING: usize = 9;
pub const LINE_HEIGHT: usize = 10;
pub const BLUR: usize = 11;
pub const BRIGHTNESS: usize = 12;
pub const CONTRAST: usize = 13;
pub const HUE_ROTATE: usize = 14;
pub const SATURATE: usize = 15;
pub const SCALE_X: usize = 16;
pub const SCALE_Y: usize = 17;
pub const NUM_PROPS: usize = 18;

/// Colour properties, held as the colour text the author wrote.
pub const FILL: usize = 0;
pub const STROKE_COLOR: usize = 1;
pub const COLOR: usize = 2;
pub const COLOR_PROPS: usize = 3;

/// A partial property record: `None` marks a property that is not set.
/// Elements carry one for their own values, keyframes one per element.
pub struct Props {
    pub nums: Vec<Option<i64>>,
    pub colors: Vec<Option<String>>,
}

pub open spec fn opt_view(c: Option<String>) -> Option<Seq<char>> {
    match c {
        Some(s) => Some(s@),
        None => None,
    }
}

pub struct PropsView {
    pub nums: Seq<Option<i64>>,
    pub colors: Seq<Option<Seq<char>>>,
}

impl View for Props {
    type V = PropsView;

    open spec fn view(&self) -> PropsView {
        PropsView { nums: self.nums@, colors: self.colors@.map_values(|c: Option<String>| opt_view(c)) }
    }
}

impl PropsView {
    pub open spec fn wf(self) -> bool {
        self.nums.len() == NUM_PROPS && self.colors.len() == COLOR_PROPS
    }

    pub open spec fn is_empty(self) -> bool {
        (forall|i: int| 0 <= i < self.nums.len() ==> #[trigger] self.nums[i].is_none())
            && (forall|i: int| 0 <= i < self.colors.len() ==> #[trigger] self.colors[i].is_none())
    }

    pub open spec fn num_or(self, i: int, d: i64) -> i64 {
        match self.nums[i] {
            Some(v) => v,
            None => d,
        }
    }

    pub open spec fn color_or(self, i: int, d: Seq<char>) -> Seq<char> {
        match self.colors[i] {
            Some(c) => c,
            None => d,
        }
    }
}

/// Each property of `over` that is set replaces the one of `base`.
pub open spec fn merge_spec(base: PropsView, over: PropsView) -> PropsView {
    PropsView {
        nums: Seq::new(NUM_PROPS as nat, |i: int| if over.nums[i].is_some() { over.nums[i] } else { base.nums[i] }),
        colors: Seq::new(COLOR_PROPS as nat, |i: int| if over.colors[i].is_some() { over.colors[i] } else { base.colors[i] }),
    }
}

fn clone_opt(c: &Option<String>) -> (r: Option<String>)
    ensures
        opt_view(r) == opt_view(*c),
{
    match c {
        Some(s) => Some(s.clone()),
        None => None,
    }
}

impl Props {
    /// A record with no property set.
    pub fn empty() -> (r: Props)
        ensures
            r@.wf(),
            r@.is_empty(),
    {
        let mut nums: Vec<Option<i64>> = Vec::new();
        let mut i: usize = 0;
        while i < NUM_PROPS
            invariant
                i <= NUM_PROPS,
                nums@.len() == i,
                forall|j: int| 0 <= j < i ==> #[trigger] nums@[j].is_none(),
            decreases NUM_PROPS - i,
        {
            nums.push(None);
            i = i + 1;
        }
        let colors: Vec<Option<String>> = vec![None, None, None];
        Props { nums, colors }
    }

    /// A copy of the record.
    pub fn duplicate(&self) -> (r: Props)
        ensures
            r@ == self@,
    {
        let nums = self.nums.clone();
        let mut colors: Vec<Option<String>> = Vec::new();
        let mut i: usize = 0;
        while i < self.colors.len()
            invariant
                i <= self.colors@.len(),
                colors@.len() == i,
                forall|j: int| 0 <= j < i ==> opt_view(#[trigger] colors@[j]) == opt_view(self.colors@[j]),
            decreases self.colors@.len() - i,
        {
            colors.push(clone_opt(&self.colors[i]));
            i = i + 1;
        }
        let r = Props { nums, colors };
        assert(r@.nums =~= self@.nums);
        assert(r@.colors =~= self@.colors);
        r
    }

    /// Overlays `over` on `self`.
    pub fn merged(&self, over: &Props) -> (r: Props)
        requires
            self@.wf(),
            over@.wf(),
        ensures
            r@ == merge_spec(self@, over@),
            r@.wf(),
    {
        let mut nums: Vec<Option<i64>> = Vec::new();
        let mut i: usize = 0;
        while i < NUM_PROPS
            invariant
                self@.wf(),
                over@.wf(),
                i <= NUM_PROPS,
                nums@.len() == i,
                forall|j: int| 0 <= j < i ==> #[trigger] nums@[j] == merge_spec(self@, over@).nums[j],
            decreases NUM_PROPS - i,
        {
            if over.nums[i].is_some() {
                nums.push(over.nums[i]);
            } else {
                nums.push(self.nums[i]);
            }
            i = i + 1;
        }
        let mut colors: Vec<Option<String>> = Vec::new();
        let mut i: usize = 0;
        while i < COLOR_PROPS
            invariant
                self@.wf(),
                over@.wf(),
                i <= COLOR_PROPS,
                colors@.len() == i,
                forall|j: int| 0 <= j < i ==> opt_view(#[trigger] colors@[j]) == merge_spec(self@, over@).colors[j],
            decreases COLOR_PROPS - i,
        {
            if over.colors[i].is_some() {
                colors.push(clone_opt(&over.colors[i]));
            } else {
                colors.push(clone_opt(&self.colors[i]));
            }
            i = i + 1;
        }
        let r = Props { nums, colors };
        assert(r@.nums =~= merge_spec(self@, over@).nums);
        assert(r@.colors =~= merge_spec(self@, over@).colors);
        r
    }
}

/// Merging an empty record changes nothing.
pub proof fn lemma_merge_empty(base: PropsView, over: PropsView)
    requires
        base.wf(),
        over.wf(),
        over.is_empty(),
    ensures
        merge_spec(base, over) == base,
{
    assert forall|i: int| 0 <= i < NUM_PROPS implies merge_spec(base, over).nums[i] == base.nums[i] by {
        assert(over.nums[i].is_none());
    }
    assert forall|i: int| 0 <= i < COLOR_PROPS implies merge_spec(base, over).colors[i] == base.colors[i] by {
        assert(over.colors[i].is_none());
    }
    assert(merge_spec(base, over).nums =~= base.nums);
    assert(merge_spec(base, over).colors =~= base.colors);
}

} // verus!
