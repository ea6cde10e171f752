use vstd::prelude::*;
use crate::text::same_text;

verus! {

/// Progress values are fixed-point fractions: `ONE` stands for 1.0.
pub const ONE: u32 = 1000000;

/// The easing curves a keyframe may name.
#[derive(Clone, Copy, Debug, PartialEq, Eq, Structural)]
pub enum Easing {
    Linear,
    EaseIn,
    EaseOut,
    EaseInOut,
    Bounce,
    Elastic,
}

pub open spec fn tag_spec(tag: Seq<char>) -> Easing {
    if tag == "ease-in"@ {
        Easing::EaseIn
    } else if tag == "ease-out"@ {
        Easing::EaseOut
    } else if tag == "ease-in-out"@ {
        Easing::EaseInOut
    } else if tag == "bounce"@ {
        Easing::Bounce
    } else if tag == "elastic"@ {
        Easing::Elastic
    } else {
        Easing::Linear
    }
}

impl Easing {
    /// The curve named by `tag`; an unknown tag means linear.
    pub fn from_tag(tag: &str) -> (r: Easing)
        ensures
            r == tag_spec(tag@),
    {
        proof {
            reveal_strlit("ease-in");
            reveal_strlit("ease-out");
            reveal_strlit("ease-in-out");
            reveal_strlit("bounce");
            reveal_strlit("elastic");
        }
        if same_text(tag, "ease-in") {
            Easing::EaseIn
        } else if same_text(tag, "ease-out") {
            Easing::EaseOut
        } else if same_text(tag, "ease-in-out") {
            Easing::EaseInOut
        } else if same_text(tag, "bounce") {
            Easing::Bounce
        } else if same_text(tag, "elastic") {
            Easing::Elastic
        } else {
            Easing::Linear
        }
    }
}

/// The polynomial curves, on `p` in units of `1 / ONE` (results rounded down).
/// The elastic curve is a decaying sine and has no integer form: it is
/// defined here only at its two ends.
pub open spec fn ease_spec(kind: Easing, p: int) -> Option<int> {
    let s = ONE as int;
    match kind {
        Easing::Linear => Some(p),
        Easing::EaseIn => Some(p * p / s),
        Easing::EaseOut => Some(p * (2 * s - p) / s),
        Easing::EaseInOut => if 2 * p < s {
            Some(2 * p * p / s)
        } else {
            Some((4 * s - 2 * p) * p / s - s)
        },
        Easing::Bounce => if 11 * p < 4 * s {
            Some((11 * p) * (11 * p) / (16 * s))
        } else if 11 * p < 8 * s {
            Some((11 * p - 6 * s) * (11 * p - 6 * s) / (16 * s) + 3 * s / 4)
        } else if 11 * p < 10 * s {
            Some((11 * p - 9 * s) * (11 * p - 9 * s) / (16 * s) + 15 * s / 16)
        } else {
            Some((22 * p - 21 * s) * (22 * p - 21 * s) / (64 * s) + 63 * s / 64)
        },
        Easing::Elastic => if p == 0 {
            Some(0)
        } else if p == s {
            Some(s)
        } else {
            None
        },
    }
}

/// Eased progress for raw progress `p`; `None` only for the inner points of
/// the elastic curve.
pub fn ease(kind: Easing, p: u32) -> (r: Option<u32>)
    requires
        p <= ONE,
    ensures
        r.is_some() == ease_spec(kind, p as int).is_some(),
        r.is_some() ==> r.unwrap() as int == ease_spec(kind, p as int).unwrap(),
        r.is_some() ==> r.unwrap() <= ONE,
        r.is_none() == (kind == Easing::Elastic && 0 < p && p < ONE),
{
    let s: u64 = ONE as u64;
    let q: u64 = p as u64;
    let ghost si = s as int;
    let ghost qi = q as int;
    match kind {
        Easing::Linear => Some(p),
        Easing::EaseIn => {
            assert(qi * qi / si <= si) by (nonlinear_arith) requires 0 <= qi <= si, si > 0;
            Some((q * q / s) as u32)
        },
        Easing::EaseOut => {
            assert(0 <= qi * (2 * si - qi) <= si * si) by (nonlinear_arith) requires 0 <= qi <= si;
            assert(qi * (2 * si - qi) / si <= si) by (nonlinear_arith)
                requires 0 <= qi * (2 * si - qi) <= si * si, si > 0;
            Some((q * (2 * s - q) / s) as u32)
        },
        Easing::EaseInOut => {
            if 2 * q < s {
                assert(2 * qi * qi / si <= si) by (nonlinear_arith) requires 0 <= 2 * qi < si;
                Some((2 * q * q / s) as u32)
            } else {
                assert(si * si <= (4 * si - 2 * qi) * qi <= 2 * si * si) by (nonlinear_arith)
                    requires 2 * qi >= si, qi <= si;
                let v: u64 = (4 * s - 2 * q) * q / s;
                assert(si <= v as int <= 2 * si) by (nonlinear_arith)
                    requires v as int == (4 * si - 2 * qi) * qi / si,
                        si * si <= (4 * si - 2 * qi) * qi <= 2 * si * si, si > 0;
                Some((v - s) as u32)
            }
        },
        Easing::Bounce => {
            if 11 * q < 4 * s {
                let a: u64 = 11 * q;
                let ghost ai = a as int;
                assert(ai * ai / (16 * si) <= si) by (nonlinear_arith) requires 0 <= ai < 4 * si, si > 0;
                Some((a * a / (16 * s)) as u32)
            } else if 11 * q < 8 * s {
                let a: u64 = if 11 * q >= 6 * s { 11 * q - 6 * s } else { 6 * s - 11 * q };
                let ghost ai = a as int;
                assert(ai * ai == (11 * qi - 6 * si) * (11 * qi - 6 * si)) by (nonlinear_arith)
                    requires ai == 11 * qi - 6 * si || ai == 6 * si - 11 * qi;
                assert(ai * ai / (16 * si) <= si / 4) by (nonlinear_arith) requires 0 <= ai <= 2 * si, si == 1000000;
                Some((a * a / (16 * s) + 3 * s / 4) as u32)
            } else if 11 * q < 10 * s {
                let a: u64 = if 11 * q >= 9 * s { 11 * q - 9 * s } else { 9 * s - 11 * q };
                let ghost ai = a as int;
                assert(ai * ai == (11 * qi - 9 * si) * (11 * qi - 9 * si)) by (nonlinear_arith)
                    requires ai == 11 * qi - 9 * si || ai == 9 * si - 11 * qi;
                assert(ai * ai / (16 * si) <= si / 16) by (nonlinear_arith) requires 0 <= ai <= si, si == 1000000;
                Some((a * a / (16 * s) + 15 * s / 16) as u32)
            } else {
                let a: u64 = if 22 * q >= 21 * s { 22 * q - 21 * s } else { 21 * s - 22 * q };
                let ghost ai = a as int;
                assert(ai * ai == (22 * qi - 21 * si) * (22 * qi - 21 * si)) by (nonlinear_arith)
                    requires ai == 22 * qi - 21 * si || ai == 21 * si - 22 * qi;
                assert(ai * ai <= si * si && ai * ai / (64 * si) <= si / 64) by (nonlinear_arith)
                    requires 0 <= ai <= si, si == 1000000;
                Some((a * a / (64 * s) + 63 * s / 64) as u32)
            }
        },
        Easing::Elastic => {
            if p == 0 {
                Some(0)
            } else if p == ONE {
                Some(ONE)
            } else {
                None
            }
        },
    }
}

/// Every curve starts at 0 and ends at 1.
pub proof fn lemma_ease_boundaries(kind: Easing)
    ensures
        ease_spec(kind, 0) == Some(0int),
        ease_spec(kind, ONE as int) == Some(ONE as int),
{
    let s = ONE as int;
    assert(s * s / s == s) by (nonlinear_arith) requires s > 0;
    assert(s * (2 * s - s) / s == s) by (nonlinear_arith) requires s > 0;
    assert((4 * s - 2 * s) * s / s - s == s) by (nonlinear_arith) requires s > 0;
    assert((22 * s - 21 * s) * (22 * s - 21 * s) / (64 * s) == 15625) by (nonlinear_arith)
        requires s == 1000000;
}

} // verus!
