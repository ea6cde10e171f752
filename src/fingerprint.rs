use vstd::prelude::*;
use crate::text::same_text;

verus! {

pub const FNV_OFFSET: u64 = 0xcbf29ce484222325;
pub const FNV_PRIME: u64 = 0x100000001b3;

/// 64-bit FNV-1a over the code points of `s`.
pub open spec fn fingerprint_spec(s: Seq<char>) -> u64
    decreases s.len(),
{
    if s.len() == 0 {
        FNV_OFFSET
    } else {
        vstd::wrapping::u64_specs::wrapping_mul(
            fingerprint_spec(s.drop_last()) ^ (s.last() as u32 as u64),
            FNV_PRIME,
        )
    }
}

/// Content fingerprint of a widget's serialised text.
pub fn fingerprint(content: &str) -> (r: u64)
    ensures
        r == fingerprint_spec(content@),
{
    let n = content.unicode_len();
    let mut h: u64 = FNV_OFFSET;
    let mut i: usize = 0;
    while i < n
        invariant
            n == content@.len(),
            i <= n,
            h == fingerprint_spec(content@.subrange(0, i as int)),
        decreases n - i,
    {
        let c = content.get_char(i);
        proof {
            let s = content@.subrange(0, i as int + 1);
            assert(s.drop_last() =~= content@.subrange(0, i as int));
        }
        h = (h ^ (c as u32 as u64)).wrapping_mul(FNV_PRIME);
        i = i + 1;
    }
    assert(content@.subrange(0, n as int) =~= content@);
    h
}

/// Equal content gives equal fingerprints, so re-rendering an unchanged
/// widget never triggers a reload.
pub proof fn lemma_fingerprint_stable(a: Seq<char>, b: Seq<char>)
    requires
        a == b,
    ensures
        fingerprint_spec(a) == fingerprint_spec(b),
{
}

pub open spec fn is_digit(c: char) -> bool {
    '0' <= c && c <= '9'
}

/// A marker `#HASH_` followed by a digit starts at position `i`.
pub open spec fn marker_at(s: Seq<char>, i: int) -> bool {
    &&& 0 <= i
    &&& i + 7 <= s.len()
    &&& s.subrange(i, i + 6) == "#HASH_"@
    &&& is_digit(s[i + 6])
}

pub open spec fn first_marker_from(s: Seq<char>, i: int) -> Option<int>
    decreases s.len() - i,
{
    if i < 0 || i + 7 > s.len() {
        None
    } else if marker_at(s, i) {
        Some(i)
    } else {
        first_marker_from(s, i + 1)
    }
}

/// End of the run of digits that starts at `j`.
pub open spec fn digits_end(s: Seq<char>, j: int) -> int
    decreases s.len() - j,
{
    if j < 0 || j >= s.len() || !is_digit(s[j]) {
        j
    } else {
        digits_end(s, j + 1)
    }
}

/// The digits of the first fingerprint marker in a document.
pub open spec fn marker_digits_spec(s: Seq<char>) -> Option<Seq<char>> {
    match first_marker_from(s, 0) {
        Some(i) => Some(s.subrange(i + 6, digits_end(s, i + 6))),
        None => None,
    }
}

proof fn lemma_digits_end(s: Seq<char>, j: int)
    requires
        0 <= j <= s.len(),
    ensures
        j <= digits_end(s, j) <= s.len(),
    decreases s.len() - j,
{
    if j < s.len() && is_digit(s[j]) {
        lemma_digits_end(s, j + 1);
    }
}

fn marker_at_exec(s: &str, i: usize) -> (r: bool)
    requires
        i + 7 <= s@.len(),
    ensures
        r == marker_at(s@, i as int),
{
    proof { reveal_strlit("#HASH_"); }
    let _n = s.unicode_len();
    let m = "#HASH_";
    let mut k: usize = 0;
    while k < 6
        invariant
            i + 7 <= s@.len(),
            s@.len() <= usize::MAX,
            m@ == "#HASH_"@,
            m@.len() == 6,
            k <= 6,
            forall|j: int| 0 <= j < k ==> s@[i + j] == m@[j],
        decreases 6 - k,
    {
        if s.get_char(i + k) != m.get_char(k) {
            assert(s@.subrange(i as int, i + 6)[k as int] != "#HASH_"@[k as int]);
            return false;
        }
        k = k + 1;
    }
    assert(s@.subrange(i as int, i + 6) =~= "#HASH_"@);
    let c = s.get_char(i + 6);
    '0' <= c && c <= '9'
}

fn is_digit_exec(c: char) -> (r: bool)
    ensures
        r == is_digit(c),
{
    '0' <= c && c <= '9'
}

/// The digits of the first `#HASH_` marker in `body`, if it holds one.
pub fn marker_digits(body: &str) -> (r: Option<String>)
    ensures
        match marker_digits_spec(body@) {
            Some(d) => r.is_some() && r.unwrap()@ == d,
            None => r.is_none(),
        },
{
    let n = body.unicode_len();
    let mut i: usize = 0;
    while i < n && n - i >= 7
        invariant
            n == body@.len(),
            i <= n,
            first_marker_from(body@, i as int) == first_marker_from(body@, 0),
        decreases n - i,
    {
        if marker_at_exec(body, i) {
            let mut j: usize = i + 6;
            while j < n && is_digit_exec(body.get_char(j))
                invariant
                    n == body@.len(),
                    i + 6 <= j <= n,
                    digits_end(body@, j as int) == digits_end(body@, i + 6),
                decreases n - j,
            {
                j = j + 1;
            }
            return Some(body.substring_char(i + 6, j).to_string());
        }
        i = i + 1;
    }
    None
}

/// Whether a viewer showing fingerprint `current` must reload after
/// fetching `body`: only when `body` carries a different fingerprint.
pub fn should_reload(current: &str, body: &str) -> (r: bool)
    ensures
        r == match marker_digits_spec(body@) {
            Some(d) => d != current@,
            None => false,
        },
{
    match marker_digits(body) {
        Some(d) => !same_text(d.as_str(), current),
        None => false,
    }
}

} // verus!
