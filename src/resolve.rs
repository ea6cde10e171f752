use vstd::prelude::*;
use crate::compose::Widget;
use crate::text::same_text;

verus! {

/// One stored overlay as the resolver sees it: its widgets, or `None` where
/// the record is gone or its configuration could not be read.
pub struct StoredOverlay {
    pub id: String,
    pub widgets: Option<Vec<Widget>>,
}

/// The first position from `j` on in `ws` whose widget has id `id`.
pub open spec fn widget_from(ws: Seq<Widget>, id: Seq<char>, j: int) -> Option<int>
    decreases ws.len() - j,
{
    if j < 0 || j >= ws.len() {
        None
    } else if ws[j].id@ == id {
        Some(j)
    } else {
        widget_from(ws, id, j + 1)
    }
}

/// The first overlay from `i` on, and the first top-level widget in it,
/// with id `id`; unreadable overlays are passed over.
pub open spec fn find_from(ovs: Seq<StoredOverlay>, id: Seq<char>, i: int) -> Option<(int, int)>
    decreases ovs.len() - i,
{
    if i < 0 || i >= ovs.len() {
        None
    } else {
        match ovs[i].widgets {
            Some(ws) => match widget_from(ws@, id, 0) {
                Some(j) => Some((i, j)),
                None => find_from(ovs, id, i + 1),
            },
            None => find_from(ovs, id, i + 1),
        }
    }
}

fn widget_index(ws: &Vec<Widget>, id: &str) -> (r: Option<usize>)
    ensures
        r.is_some() == widget_from(ws@, id@, 0).is_some(),
        r.is_some() ==> widget_from(ws@, id@, 0) == Some(r.unwrap() as int),
{
    let mut j: usize = 0;
    while j < ws.len()
        invariant
            j <= ws@.len(),
            widget_from(ws@, id@, j as int) == widget_from(ws@, id@, 0),
        decreases ws@.len() - j,
    {
        if same_text(ws[j].id.as_str(), id) {
            return Some(j);
        }
        j = j + 1;
    }
    None
}

/// Locates the top-level widget `widget_id` across the overlays in listing
/// order: the overlay's position and the widget's position within it.
pub fn find_widget(overlays: &Vec<StoredOverlay>, widget_id: &str) -> (r: Option<(usize, usize)>)
    ensures
        r.is_some() == find_from(overlays@, widget_id@, 0).is_some(),
        r.is_some() ==> find_from(overlays@, widget_id@, 0) == Some((r.unwrap().0 as int, r.unwrap().1 as int)),
        r matches Some((i, j)) ==> i < overlays@.len() && overlays@[i as int].widgets.is_some()
            && j < overlays@[i as int].widgets.unwrap()@.len()
            && overlays@[i as int].widgets.unwrap()@[j as int].id@ == widget_id@,
{
    let mut i: usize = 0;
    while i < overlays.len()
        invariant
            i <= overlays@.len(),
            find_from(overlays@, widget_id@, i as int) == find_from(overlays@, widget_id@, 0),
        decreases overlays@.len() - i,
    {
        match &overlays[i].widgets {
            Some(ws) => {
                match widget_index(ws, widget_id) {
                    Some(j) => {
                        proof {
                            lemma_widget_from(ws@, widget_id@, 0);
                            assert(overlays@[i as int].widgets.unwrap()@ == ws@);
                            assert(ws@[j as int].id@ == widget_id@);
                        }
                        return Some((i, j));
                    },
                    None => {},
                }
            },
            None => {},
        }
        i = i + 1;
    }
    None
}

proof fn lemma_widget_from(ws: Seq<Widget>, id: Seq<char>, j: int)
    requires
        0 <= j,
    ensures
        widget_from(ws, id, j) matches Some(k) ==> j <= k < ws.len() && ws[k].id@ == id,
    decreases ws.len() - j,
{
    if j < ws.len() && ws[j].id@ != id {
        lemma_widget_from(ws, id, j + 1);
    }
}

} // verus!
