use vstd::prelude::*;
use crate::order::{choose_insert_by_point, insert_by, lemma_insert_by_at};

verus! {

/// Summary of one stored overlay: identifier, display name, last-modified stamp.
pub struct OverlaySummary {
    pub id: String,
    pub name: String,
    pub updated_at: String,
}

/// Full stored overlay record; `config` holds the raw configuration text.
pub struct OverlayRow {
    pub id: String,
    pub name: String,
    pub config: String,
    pub updated_at: String,
}

/// Path of the overlay database file inside directory `dir`.
pub open spec fn db_path_spec(dir: Seq<char>) -> Seq<char> {
    if dir.len() > 0 && dir.last() == '/' {
        dir + "overlays.db"@
    } else {
        dir + "/overlays.db"@
    }
}

/// Location of the overlay database file within the directory `dir`.
pub fn get_db_path(dir: &str) -> (r: String)
    ensures
        r@ == db_path_spec(dir@),
{
    let mut r = dir.to_string();
    let n = dir.unicode_len();
    if n > 0 && dir.get_char(n - 1) == '/' {
        r.append("overlays.db");
    } else {
        r.append("/overlays.db");
    }
    proof { reveal_strlit("overlays.db"); reveal_strlit("/overlays.db"); }
    r
}

/// `a` comes at or before `b` in character order.
pub open spec fn text_le(a: Seq<char>, b: Seq<char>) -> bool
    decreases a.len(),
{
    if a.len() == 0 {
        true
    } else if b.len() == 0 {
        false
    } else if a[0] != b[0] {
        a[0] < b[0]
    } else {
        text_le(a.drop_first(), b.drop_first())
    }
}

fn text_le_exec(a: &str, b: &str) -> (r: bool)
    ensures
        r == text_le(a@, b@),
{
    let n = a.unicode_len();
    let m = b.unicode_len();
    let mut i: usize = 0;
    assert(a@.subrange(0, n as int) =~= a@);
    assert(b@.subrange(0, m as int) =~= b@);
    while i < n && i < m && a.get_char(i) == b.get_char(i)
        invariant
            n == a@.len(),
            m == b@.len(),
            i <= n,
            i <= m,
            text_le(a@.subrange(i as int, n as int), b@.subrange(i as int, m as int)) == text_le(a@, b@),
        decreases n - i,
    {
        proof {
            let x = a@.subrange(i as int, n as int);
            let y = b@.subrange(i as int, m as int);
            assert(x.drop_first() =~= a@.subrange(i + 1, n as int));
            assert(y.drop_first() =~= b@.subrange(i + 1, m as int));
        }
        i = i + 1;
    }
    if i == n {
        true
    } else if i == m {
        false
    } else {
        a.get_char(i) < b.get_char(i)
    }
}

pub open spec fn stamps(list: Seq<OverlaySummary>) -> Seq<Seq<char>> {
    list.map_values(|s: OverlaySummary| s.updated_at@)
}

/// Entry `a` was updated no earlier than entry `b`.
pub open spec fn not_older(keys: Seq<Seq<char>>) -> spec_fn(int, int) -> bool {
    |a: int, b: int| text_le(keys[b], keys[a])
}

/// The first `n` positions of a listing, most recently updated first;
/// entries with the same stamp keep their order.
pub open spec fn recency_spec(keys: Seq<Seq<char>>, n: int) -> Seq<int>
    decreases n,
{
    if n <= 0 {
        Seq::empty()
    } else {
        insert_by(recency_spec(keys, n - 1), n - 1, not_older(keys))
    }
}

/// Positions of `list` ordered by last update, newest first. Stamps are
/// compared as text, which orders `YYYY-MM-DD HH:MM:SS` stamps by time.
pub fn recency_order(list: &Vec<OverlaySummary>) -> (r: Vec<usize>)
    ensures
        r@.map_values(|i: usize| i as int) == recency_spec(stamps(list@), list@.len() as int),
        forall|i: int| 0 <= i < r@.len() ==> #[trigger] r@[i] < list@.len(),
{
    let n = list.len();
    let ghost keys = stamps(list@);
    let mut order: Vec<usize> = Vec::new();
    let mut j: usize = 0;
    while j < n
        invariant
            n == list@.len(),
            keys == stamps(list@),
            j <= n,
            order@.map_values(|i: usize| i as int) == recency_spec(keys, j as int),
            forall|i: int| 0 <= i < order@.len() ==> #[trigger] order@[i] < j,
        decreases n - j,
    {
        let ghost o = order@.map_values(|i: usize| i as int);
        let mut k: usize = order.len();
        while k > 0 && !text_le_exec(list[j].updated_at.as_str(), list[order[k - 1]].updated_at.as_str())
            invariant
                n == list@.len(),
                keys == stamps(list@),
                j < n,
                k <= order@.len(),
                o == order@.map_values(|i: usize| i as int),
                forall|i: int| 0 <= i < order@.len() ==> #[trigger] order@[i] < j,
                forall|i: int| k <= i < o.len() ==> !(not_older(keys))(#[trigger] o[i], j as int),
            decreases k,
        {
            k = k - 1;
        }
        proof {
            lemma_insert_by_at(o, j as int, not_older(keys), k as int);
        }
        order.insert(k, j);
        proof {
            assert(order@.map_values(|i: usize| i as int) =~= o.subrange(0, k as int).push(j as int)
                + o.subrange(k as int, o.len() as int));
        }
        j = j + 1;
    }
    order
}

/// Port of the local endpoint that serves widgets to capture software.
pub const OBS_HTTP_PORT: u16 = 7878;

/// Address at which capture software finds widget `id`.
pub fn get_obs_url(id: &str) -> (r: String)
    ensures
        r@ == "http://localhost:7878/widget/"@ + id@,
{
    proof { reveal_strlit("http://localhost:7878/widget/"); }
    let mut r = String::from_str("http://localhost:7878/widget/");
    r.append(id);
    r
}

proof fn lemma_text_le_total(a: Seq<char>, b: Seq<char>)
    ensures
        text_le(a, b) || text_le(b, a),
    decreases a.len(),
{
    if a.len() > 0 && b.len() > 0 && a[0] == b[0] {
        lemma_text_le_total(a.drop_first(), b.drop_first());
    }
}

proof fn lemma_text_le_trans(a: Seq<char>, b: Seq<char>, c: Seq<char>)
    requires
        text_le(a, b),
        text_le(b, c),
    ensures
        text_le(a, c),
    decreases a.len(),
{
    if a.len() > 0 && b.len() > 0 && c.len() > 0 && a[0] == b[0] && b[0] == c[0] {
        lemma_text_le_trans(a.drop_first(), b.drop_first(), c.drop_first());
    }
}

proof fn lemma_recency_sorted(keys: Seq<Seq<char>>, n: int)
    requires
        0 <= n <= keys.len(),
    ensures
        recency_spec(keys, n).len() == n,
        forall|i: int| 0 <= i < n ==> 0 <= #[trigger] recency_spec(keys, n)[i] < n,
        forall|i: int, j: int| 0 <= i <= j < n ==>
            text_le(keys[#[trigger] recency_spec(keys, n)[j]], keys[#[trigger] recency_spec(keys, n)[i]]),
    decreases n,
{
    if n > 0 {
        lemma_recency_sorted(keys, n - 1);
        let o = recency_spec(keys, n - 1);
        let before = not_older(keys);
        let ks = choose_insert_by_point(o, n - 1, before);
        lemma_insert_by_at(o, n - 1, before, ks);
        let r = recency_spec(keys, n);
        assert(r == o.subrange(0, ks).push(n - 1) + o.subrange(ks, o.len() as int));
        assert forall|i: int| 0 <= i < n implies #[trigger] r[i] == (if i < ks { o[i] } else if i == ks { n - 1 } else { o[i - 1] }) by {}
        assert forall|i: int| 0 <= i < n implies 0 <= #[trigger] r[i] < n by {
            if i < ks {
                assert(r[i] == o[i]);
            } else if i > ks {
                assert(r[i] == o[i - 1]);
            }
        }
        assert forall|i: int, j: int| 0 <= i <= j < n implies text_le(keys[#[trigger] r[j]], keys[#[trigger] r[i]]) by {
            assert(r[i] == (if i < ks { o[i] } else if i == ks { n - 1 } else { o[i - 1] }));
            assert(r[j] == (if j < ks { o[j] } else if j == ks { n - 1 } else { o[j - 1] }));
            if i < ks && j == ks {
                assert(text_le(keys[o[ks - 1]], keys[o[i]]));
                assert(before(o[ks - 1], n - 1));
                lemma_text_le_trans(keys[n - 1], keys[o[ks - 1]], keys[o[i]]);
            } else if i == ks && j > ks {
                assert(!before(o[j - 1], n - 1));
                lemma_text_le_total(keys[n - 1], keys[o[j - 1]]);
            } else if i < ks && j > ks {
                assert(text_le(keys[o[j - 1]], keys[o[i]]));
            } else if i > ks {
                assert(text_le(keys[o[j - 1]], keys[o[i - 1]]));
            } else if i == j {
                lemma_text_le_total(keys[r[i]], keys[r[i]]);
            }
        }
    }
}

/// The listing comes newest first: along the order no entry has a later
/// stamp than one before it.
pub proof fn lemma_newest_first(list: Seq<OverlaySummary>)
    ensures
        ({
            let o = recency_spec(stamps(list), list.len() as int);
            &&& o.len() == list.len()
            &&& forall|i: int, j: int| 0 <= i <= j < o.len() ==>
                text_le(list[#[trigger] o[j]].updated_at@, list[#[trigger] o[i]].updated_at@)
        }),
{
    let keys = stamps(list);
    let n = list.len() as int;
    lemma_recency_sorted(keys, n);
    let o = recency_spec(keys, n);
    assert forall|i: int, j: int| 0 <= i <= j < o.len() implies
        text_le(list[#[trigger] o[j]].updated_at@, list[#[trigger] o[i]].updated_at@) by {
        assert(0 <= o[i] < n && 0 <= o[j] < n);
        assert(keys[o[i]] == list[o[i]].updated_at@);
        assert(keys[o[j]] == list[o[j]].updated_at@);
    }
}

} // verus!
