use vstd::prelude::*;
use crate::easing::ONE;

verus! {

/// A colour as three 8-bit channels.
#[derive(Clone, Copy, Debug, PartialEq, Eq, Structural)]
pub struct Rgb {
    pub r: u8,
    pub g: u8,
    pub b: u8,
}

/// `a + (b - a) * t / ONE`, rounded to the nearest integer (halves upward).
pub open spec fn lerp_spec(a: int, b: int, t: int) -> int {
    (2 * a * ONE + 2 * (b - a) * t + ONE) / (2 * ONE as int)
}

proof fn lemma_lerp_between(a: int, b: int, t: int)
    requires
        0 <= t <= ONE,
    ensures
        a <= b ==> a <= lerp_spec(a, b, t) <= b,
        b <= a ==> b <= lerp_spec(a, b, t) <= a,
        t == 0 ==> lerp_spec(a, b, t) == a,
        t == ONE ==> lerp_spec(a, b, t) == b,
{
    let s = ONE as int;
    let n = 2 * a * s + 2 * (b - a) * t + s;
    assert(a <= b ==> 2 * a * s + s <= n <= 2 * b * s + s) by (nonlinear_arith)
        requires n == 2 * a * s + 2 * (b - a) * t + s, 0 <= t <= s;
    assert(b <= a ==> 2 * b * s + s <= n <= 2 * a * s + s) by (nonlinear_arith)
        requires n == 2 * a * s + 2 * (b - a) * t + s, 0 <= t <= s;
    assert((2 * a * s + s) / (2 * s) == a) by (nonlinear_arith) requires s > 0;
    assert((2 * b * s + s) / (2 * s) == b) by (nonlinear_arith) requires s > 0;
    assert(forall|x: int, y: int| x <= y ==> #[trigger] (x / (2 * s)) <= #[trigger] (y / (2 * s))) by {
        assert forall|x: int, y: int| x <= y implies #[trigger] (x / (2 * s)) <= #[trigger] (y / (2 * s)) by {
            vstd::arithmetic::div_mod::lemma_div_is_ordered(x, y, 2 * s);
        }
    }
    assert(t == ONE ==> n == 2 * b * s + s) by (nonlinear_arith)
        requires n == 2 * a * s + 2 * (b - a) * t + s, s == ONE;
}

fn floor_div(n: i128, d: i128) -> (r: i128)
    requires
        0 < d < 0x1_0000_0000,
        -0x1_0000_0000_0000_0000_0000_0000 < n < 0x1_0000_0000_0000_0000_0000_0000,
    ensures
        r == n / d,
{
    if n >= 0 {
        n / d
    } else {
        let m: i128 = -n;
        let q: i128 = (m + d - 1) / d;
        proof {
            let mi = m as int;
            let di = d as int;
            let qi = q as int;
            vstd::arithmetic::div_mod::lemma_fundamental_div_mod(mi + di - 1, di);
            let ri = (mi + di - 1) % di;
            assert(0 <= ri < di);
            assert(n as int == di * (-qi) + (di - 1 - ri)) by (nonlinear_arith)
                requires mi + di - 1 == di * qi + ri, n as int == -mi;
            vstd::arithmetic::div_mod::lemma_fundamental_div_mod_converse(n as int, di, -qi, di - 1 - ri);
        }
        -q
    }
}

/// Linear interpolation between `a` and `b` at fixed-point progress `t`.
pub fn lerp(a: i64, b: i64, t: u32) -> (r: i64)
    requires
        t <= ONE,
    ensures
        r == lerp_spec(a as int, b as int, t as int),
        a <= b ==> a <= r <= b,
        b <= a ==> b <= r <= a,
{
    proof { lemma_lerp_between(a as int, b as int, t as int); }
    let s: i128 = ONE as i128;
    let ai: i128 = a as i128;
    let bi: i128 = b as i128;
    let ti: i128 = t as i128;
    assert(-0x1_0000_0000_0000_0000 * 0x1_0000_0000 <= 2 * (bi - ai) * ti <= 0x1_0000_0000_0000_0000 * 0x1_0000_0000) by (nonlinear_arith)
        requires -0x1_0000_0000_0000_0000 <= bi - ai <= 0x1_0000_0000_0000_0000, 0 <= ti <= 1000000;
    assert(-0x1_0000_0000_0000_0000 * 0x1_0000_0000 <= 2 * ai * s <= 0x1_0000_0000_0000_0000 * 0x1_0000_0000) by (nonlinear_arith)
        requires -0x1_0000_0000_0000_0000 <= ai <= 0x1_0000_0000_0000_0000, s == 1000000;
    let n: i128 = 2 * ai * s + 2 * (bi - ai) * ti + s;
    floor_div(n, 2 * s) as i64
}

/// Channel-wise interpolation of two colours.
pub open spec fn lerp_rgb_spec(a: Rgb, b: Rgb, t: int) -> Rgb {
    Rgb {
        r: lerp_spec(a.r as int, b.r as int, t) as u8,
        g: lerp_spec(a.g as int, b.g as int, t) as u8,
        b: lerp_spec(a.b as int, b.b as int, t) as u8,
    }
}

/// Interpolates each channel independently, rounding to the nearest integer.
pub fn lerp_rgb(a: Rgb, b: Rgb, t: u32) -> (r: Rgb)
    requires
        t <= ONE,
    ensures
        r == lerp_rgb_spec(a, b, t as int),
{
    Rgb {
        r: lerp(a.r as i64, b.r as i64, t) as u8,
        g: lerp(a.g as i64, b.g as i64, t) as u8,
        b: lerp(a.b as i64, b.b as i64, t) as u8,
    }
}

/// Interpolating at the two ends gives back the two colours.
pub proof fn lemma_lerp_rgb_ends(a: Rgb, b: Rgb)
    ensures
        lerp_rgb_spec(a, b, 0) == a,
        lerp_rgb_spec(a, b, ONE as int) == b,
{
    lemma_lerp_between(a.r as int, b.r as int, 0);
    lemma_lerp_between(a.g as int, b.g as int, 0);
    lemma_lerp_between(a.b as int, b.b as int, 0);
    lemma_lerp_between(a.r as int, b.r as int, ONE as int);
    lemma_lerp_between(a.g as int, b.g as int, ONE as int);
    lemma_lerp_between(a.b as int, b.b as int, ONE as int);
}

pub open spec fn hex_value(c: char) -> Option<int> {
    if '0' <= c && c <= '9' {
        Some(c as int - '0' as int)
    } else if 'a' <= c && c <= 'f' {
        Some(c as int - 'a' as int + 10)
    } else if 'A' <= c && c <= 'F' {
        Some(c as int - 'A' as int + 10)
    } else {
        None
    }
}

pub open spec fn is_hex(c: char) -> bool {
    hex_value(c).is_some()
}

pub open spec fn byte_of(hi: char, lo: char) -> u8 {
    (hex_value(hi).unwrap() * 16 + hex_value(lo).unwrap()) as u8
}

pub open spec fn black() -> Rgb {
    Rgb { r: 0, g: 0, b: 0 }
}

pub open spec fn expand_hex(h: Seq<char>) -> Seq<char> {
    if h.len() == 3 {
        seq![h[0], h[0], h[1], h[1], h[2], h[2]]
    } else {
        h
    }
}

/// Hex digits after `#`: three are doubled, otherwise the first six count.
pub open spec fn hex_color_spec(h: Seq<char>) -> Rgb {
    let f = expand_hex(h);
    if f.len() >= 6 && (forall|i: int| 0 <= i < 6 ==> is_hex(#[trigger] f[i])) {
        Rgb { r: byte_of(f[0], f[1]), g: byte_of(f[2], f[3]), b: byte_of(f[4], f[5]) }
    } else {
        black()
    }
}

pub open spec fn is_digit(c: char) -> bool {
    '0' <= c && c <= '9'
}

pub open spec fn close_run(cur: Option<u8>, acc: Seq<u8>) -> Seq<u8> {
    match cur {
        Some(v) => acc.push(v),
        None => acc,
    }
}

pub open spec fn extend_run(cur: Option<u8>, c: char) -> u8 {
    let d = c as int - '0' as int;
    match cur {
        Some(v) => if v * 10 + d > 255 { 255 } else { (v * 10 + d) as u8 },
        None => d as u8,
    }
}

/// The runs of decimal digits in `s` from position `i` on, each read as a
/// number capped at 255, after the runs already in `acc` and the one in `cur`.
pub open spec fn digit_runs_from(s: Seq<char>, i: int, cur: Option<u8>, acc: Seq<u8>) -> Seq<u8>
    decreases s.len() - i,
{
    if i >= s.len() {
        close_run(cur, acc)
    } else if is_digit(s[i]) {
        digit_runs_from(s, i + 1, Some(extend_run(cur, s[i])), acc)
    } else {
        digit_runs_from(s, i + 1, None, close_run(cur, acc))
    }
}

pub open spec fn digit_runs(s: Seq<char>) -> Seq<u8> {
    digit_runs_from(s, 0, None, Seq::empty())
}

/// A colour written as `#rgb`, `#rrggbb` or a function such as `rgb(r, g, b)`;
/// anything else reads as black.
pub open spec fn parse_color_spec(s: Seq<char>) -> Rgb {
    if s.len() > 0 && s[0] == '#' {
        hex_color_spec(s.subrange(1, s.len() as int))
    } else {
        let runs = digit_runs(s);
        if runs.len() >= 3 {
            Rgb { r: runs[0], g: runs[1], b: runs[2] }
        } else {
            black()
        }
    }
}

fn hex_digit_value(c: char) -> (r: Option<u8>)
    ensures
        r.is_some() == is_hex(c),
        r.is_some() ==> r.unwrap() as int == hex_value(c).unwrap() && r.unwrap() < 16,
{
    if '0' <= c && c <= '9' {
        Some((c as u32 - '0' as u32) as u8)
    } else if 'a' <= c && c <= 'f' {
        Some((c as u32 - 'a' as u32 + 10) as u8)
    } else if 'A' <= c && c <= 'F' {
        Some((c as u32 - 'A' as u32 + 10) as u8)
    } else {
        None
    }
}

fn hex_color(s: &str) -> (r: Rgb)
    requires
        s@.len() > 0,
        s@[0] == '#',
    ensures
        r == hex_color_spec(s@.subrange(1, s@.len() as int)),
{
    let ghost h = s@.subrange(1, s@.len() as int);
    let n = s.unicode_len();
    let mut f: Vec<char> = Vec::new();
    if n == 4 {
        let a = s.get_char(1);
        let b = s.get_char(2);
        let c = s.get_char(3);
        f = vec![a, a, b, b, c, c];
        assert(f@ =~= seq![h[0], h[0], h[1], h[1], h[2], h[2]]);
    } else {
        if n < 7 {
            return black_rgb();
        }
        let mut i: usize = 1;
        while i < 7
            invariant
                n == s@.len(),
                n >= 7,
                1 <= i <= 7,
                f@ =~= s@.subrange(1, i as int),
            decreases 7 - i,
        {
            f.push(s.get_char(i));
            i = i + 1;
        }
    }
    let ghost full = if h.len() == 3 { seq![h[0], h[0], h[1], h[1], h[2], h[2]] } else { h };
    assert(f@.len() == 6);
    assert(forall|i: int| 0 <= i < 6 ==> f@[i] == full[i]);
    let mut v: Vec<u8> = Vec::new();
    let mut i: usize = 0;
    while i < 6
        invariant
            f@.len() == 6,
            full.len() >= 6,
            forall|j: int| 0 <= j < 6 ==> f@[j] == full[j],
            h == s@.subrange(1, s@.len() as int),
            full == (if h.len() == 3 { seq![h[0], h[0], h[1], h[1], h[2], h[2]] } else { h }),
            i <= 6,
            v@.len() == i,
            s@.len() > 0,
            forall|j: int|
                #![trigger f@[j]]
                #![trigger v@[j]]
                0 <= j < i ==> is_hex(f@[j]) && v@[j] as int == hex_value(f@[j]).unwrap() && v@[j] < 16,
        decreases 6 - i,
    {
        match hex_digit_value(f[i]) {
            Some(d) => v.push(d),
            None => {
                assert(!is_hex(full[i as int]));
                return black_rgb();
            },
        }
        i = i + 1;
    }
    Rgb { r: v[0] * 16 + v[1], g: v[2] * 16 + v[3], b: v[4] * 16 + v[5] }
}

fn black_rgb() -> (r: Rgb)
    ensures
        r == black(),
{
    Rgb { r: 0, g: 0, b: 0 }
}

/// The decimal digit runs of `s`, each capped at 255.
fn digit_runs_exec(s: &str) -> (r: Vec<u8>)
    ensures
        r@ == digit_runs(s@),
{
    let n = s.unicode_len();
    let mut acc: Vec<u8> = Vec::new();
    let mut cur: Option<u8> = None;
    let mut i: usize = 0;
    while i < n
        invariant
            n == s@.len(),
            i <= n,
            digit_runs_from(s@, i as int, cur, acc@) == digit_runs(s@),
        decreases n - i,
    {
        let c = s.get_char(i);
        if '0' <= c && c <= '9' {
            let d: u16 = (c as u32 - '0' as u32) as u16;
            let next: u8 = match cur {
                Some(v) => if (v as u16) * 10 + d > 255 { 255 } else { ((v as u16) * 10 + d) as u8 },
                None => d as u8,
            };
            cur = Some(next);
        } else {
            match cur {
                Some(v) => acc.push(v),
                None => {},
            }
            cur = None;
        }
        i = i + 1;
    }
    match cur {
        Some(v) => acc.push(v),
        None => {},
    }
    acc
}

/// Reads a colour in short or long hex notation, or the first three numbers
/// of a colour function; anything else is black.
pub fn parse_color(s: &str) -> (r: Rgb)
    ensures
        r == parse_color_spec(s@),
{
    let n = s.unicode_len();
    if n > 0 && s.get_char(0) == '#' {
        hex_color(s)
    } else {
        let runs = digit_runs_exec(s);
        if runs.len() >= 3 {
            Rgb { r: runs[0], g: runs[1], b: runs[2] }
        } else {
            black_rgb()
        }
    }
}

pub open spec fn hex_char(n: int) -> char {
    if n < 10 {
        ('0' as int + n) as char
    } else {
        ('a' as int + n - 10) as char
    }
}

/// `#rrggbb` in lower-case hex.
pub open spec fn hex_string(c: Rgb) -> Seq<char> {
    seq![
        '#',
        hex_char(c.r as int / 16),
        hex_char(c.r as int % 16),
        hex_char(c.g as int / 16),
        hex_char(c.g as int % 16),
        hex_char(c.b as int / 16),
        hex_char(c.b as int % 16),
    ]
}

fn hex_digit_str(n: u8) -> (r: &'static str)
    requires
        n < 16,
    ensures
        r@ == seq![hex_char(n as int)],
{
    proof {
        reveal_strlit("0"); reveal_strlit("1"); reveal_strlit("2"); reveal_strlit("3");
        reveal_strlit("4"); reveal_strlit("5"); reveal_strlit("6"); reveal_strlit("7");
        reveal_strlit("8"); reveal_strlit("9"); reveal_strlit("a"); reveal_strlit("b");
        reveal_strlit("c"); reveal_strlit("d"); reveal_strlit("e"); reveal_strlit("f");
    }
    let r = match n {
        0 => "0", 1 => "1", 2 => "2", 3 => "3", 4 => "4", 5 => "5", 6 => "6", 7 => "7",
        8 => "8", 9 => "9", 10 => "a", 11 => "b", 12 => "c", 13 => "d", 14 => "e", _ => "f",
    };
    assert(r@ =~= seq![hex_char(n as int)]);
    r
}

impl Rgb {
    /// The colour as `#rrggbb`.
    pub fn to_hex(&self) -> (r: String)
        ensures
            r@ == hex_string(*self),
    {
        proof { reveal_strlit("#"); }
        let mut s = String::from_str("#");
        s.append(hex_digit_str(self.r / 16));
        s.append(hex_digit_str(self.r % 16));
        s.append(hex_digit_str(self.g / 16));
        s.append(hex_digit_str(self.g % 16));
        s.append(hex_digit_str(self.b / 16));
        s.append(hex_digit_str(self.b % 16));
        assert(s@ =~= hex_string(*self));
        s
    }
}

/// Interpolates two colours given in any notation that `parse_color` reads,
/// and writes the result as `#rrggbb`.
pub fn lerp_color(a: &str, b: &str, t: u32) -> (r: String)
    requires
        t <= ONE,
    ensures
        r@ == hex_string(lerp_rgb_spec(parse_color_spec(a@), parse_color_spec(b@), t as int)),
{
    let ca = parse_color(a);
    let cb = parse_color(b);
    lerp_rgb(ca, cb, t).to_hex()
}

} // verus!
