use vstd::prelude::*;

verus! {

use crate::error::Error;
use crate::style::WindowStyle;

/// The status word the OS reports for the window owning the active caption.
pub const WS_ACTIVECAPTION: u32 = 1;

/// An immutable point-in-time capture of one window's metadata, keyed by its
/// handle. A snapshot is stale the instant it is taken: the foreign process
/// may move or destroy the window at any time, so callers must re-query
/// before any state-dependent decision. Handle equality, never cached
/// metadata, is what identifies a window.
#[derive(Debug, PartialEq)]
pub struct WindowInfo {
    /// The opaque, process-wide-unique window handle. Never dereferenced;
    /// only handed back to the OS's own query functions.
    pub hwnd: usize,
    /// The window caption text.
    pub caption: String,
    /// The window class name.
    pub class_name: String,
    /// The owning process id.
    pub pid: u32,
    /// The owning thread id.
    pub tid: u32,
    /// The window rectangle: top, right, bottom, left, in screen coordinates.
    pub position: (i32, i32, i32, i32),
    /// The client-area rectangle: top, right, bottom, left.
    pub client_position: (i32, i32, i32, i32),
    /// The border size: width, height.
    pub border: (u32, u32),
    /// Whether the window owned the active caption when the snapshot was
    /// taken.
    pub is_active: bool,
    /// The raw style bit masks.
    pub style: WindowStyle,
}

impl Clone for WindowInfo {
    fn clone(&self) -> (r: Self)
        ensures
            r == *self,
    {
        WindowInfo {
            hwnd: self.hwnd,
            caption: self.caption.clone(),
            class_name: self.class_name.clone(),
            pid: self.pid,
            tid: self.tid,
            position: self.position,
            client_position: self.client_position,
            border: self.border,
            is_active: self.is_active,
            style: self.style,
        }
    }
}

impl WindowInfo {
    /// Assembles a snapshot from the plain values the OS reports for a
    /// handle. The window counts as active exactly when the reported status
    /// word names the active caption.
    pub fn from_raw(
        hwnd: usize,
        caption: String,
        class_name: String,
        tid: u32,
        pid: u32,
        position: (i32, i32, i32, i32),
        client_position: (i32, i32, i32, i32),
        border: (u32, u32),
        window_status: u32,
        style: WindowStyle,
    ) -> (r: WindowInfo)
        ensures
            r.hwnd == hwnd,
            r.caption == caption,
            r.class_name == class_name,
            r.tid == tid,
            r.pid == pid,
            r.position == position,
            r.client_position == client_position,
            r.border == border,
            r.is_active == (window_status == WS_ACTIVECAPTION),
            r.style == style,
    {
        WindowInfo {
            hwnd,
            caption,
            class_name,
            pid,
            tid,
            position,
            client_position,
            border,
            is_active: window_status == WS_ACTIVECAPTION,
            style,
        }
    }
}

// ---------------------------------------------------------------------------
// Filtering candidates by class name
// ---------------------------------------------------------------------------
/// The handles whose resolved class name equals `name` exactly, in the order
/// the candidates came. A candidate whose class name could not be resolved
/// never matches.
pub open spec fn matching_handles(cands: Seq<(usize, Option<String>)>, name: Seq<char>) -> Seq<
    usize,
>
    decreases cands.len(),
{
    if cands.len() == 0 {
        Seq::empty()
    } else {
        let rest = matching_handles(cands.skip(1), name);
        match cands[0].1 {
            Some(cls) => if cls@ == name {
                seq![cands[0].0] + rest
            } else {
                rest
            },
            None => rest,
        }
    }
}

/// Keeps the candidate handles whose class name equals `class_name` exactly
/// (case-sensitively). Enumeration order is preserved; candidates whose class
/// name the OS could not report are dropped.
pub fn filter_handles_by_class(cands: &Vec<(usize, Option<String>)>, class_name: &String) -> (r:
    Vec<usize>)
    ensures
        r@ == matching_handles(cands@, class_name@),
{
    let ghost all = cands@;
    let mut r: Vec<usize> = Vec::new();
    let mut i: usize = 0;
    proof {
        assert(all.skip(0) =~= all);
        assert(r@ + matching_handles(all, class_name@) =~= matching_handles(all, class_name@));
    }
    while i < cands.len()
        invariant
            i <= all.len(),
            all == cands@,
            matching_handles(all, class_name@) == r@ + matching_handles(
                all.skip(i as int),
                class_name@,
            ),
        decreases all.len() - i,
    {
        let ghost suffix = all.skip(i as int);
        proof {
            assert(suffix[0] == all[i as int]);
            assert(suffix.skip(1) =~= all.skip(i as int + 1));
        }
        match &cands[i].1 {
            Some(cls) => {
                if *cls == *class_name {
                    let ghost r0 = r@;
                    r.push(cands[i].0);
                    proof {
                        assert(r0 + (seq![suffix[0].0] + matching_handles(
                            suffix.skip(1),
                            class_name@,
                        )) =~= r@ + matching_handles(suffix.skip(1), class_name@));
                    }
                }
            },
            None => {},
        }
        i = i + 1;
    }
    proof {
        assert(all.skip(all.len() as int).len() == 0);
        assert(r@ + Seq::<usize>::empty() =~= r@);
    }
    r
}

// ---------------------------------------------------------------------------
// Best-effort metadata resolution
// ---------------------------------------------------------------------------
/// The snapshots that resolved, in order; failed resolutions are dropped.
pub open spec fn resolved_infos(rs: Seq<Option<WindowInfo>>) -> Seq<WindowInfo>
    decreases rs.len(),
{
    if rs.len() == 0 {
        Seq::empty()
    } else {
        let rest = resolved_infos(rs.skip(1));
        match rs[0] {
            Some(w) => seq![w] + rest,
            None => rest,
        }
    }
}

/// How many of the resolutions failed.
pub open spec fn count_failed(rs: Seq<Option<WindowInfo>>) -> nat
    decreases rs.len(),
{
    if rs.len() == 0 {
        0
    } else {
        (if rs[0] is None {
            1nat
        } else {
            0nat
        }) + count_failed(rs.skip(1))
    }
}

/// Keeps the snapshots that resolved, in order. Metadata-resolution failure
/// for one handle never aborts the batch: a request for N candidates returns
/// however many resolved, and failures are dropped silently.
pub fn collect_resolved(resolved: &Vec<Option<WindowInfo>>) -> (r: Vec<WindowInfo>)
    ensures
        r@ == resolved_infos(resolved@),
{
    let ghost all = resolved@;
    let mut r: Vec<WindowInfo> = Vec::new();
    let mut i: usize = 0;
    proof {
        assert(all.skip(0) =~= all);
        assert(r@ + resolved_infos(all) =~= resolved_infos(all));
    }
    while i < resolved.len()
        invariant
            i <= all.len(),
            all == resolved@,
            resolved_infos(all) == r@ + resolved_infos(all.skip(i as int)),
        decreases all.len() - i,
    {
        let ghost suffix = all.skip(i as int);
        proof {
            assert(suffix[0] == all[i as int]);
            assert(suffix.skip(1) =~= all.skip(i as int + 1));
        }
        match &resolved[i] {
            Some(w) => {
                let ghost r0 = r@;
                r.push(w.clone());
                proof {
                    assert(r0 + (seq![suffix[0].unwrap()] + resolved_infos(suffix.skip(1))) =~= r@
                        + resolved_infos(suffix.skip(1)));
                }
            },
            None => {},
        }
        i = i + 1;
    }
    proof {
        assert(all.skip(all.len() as int).len() == 0);
        assert(r@ + Seq::<WindowInfo>::empty() =~= r@);
    }
    r
}

/// Best effort: a batch of N candidates where some resolutions fail yields
/// exactly N minus the failures snapshots — never an error.
pub proof fn lemma_best_effort(rs: Seq<Option<WindowInfo>>)
    ensures
        resolved_infos(rs).len() == rs.len() - count_failed(rs),
        count_failed(rs) <= rs.len(),
    decreases rs.len(),
{
    if rs.len() > 0 {
        lemma_best_effort(rs.skip(1));
    }
}

/// Empty result, not an error: when no candidate's class name matches, the
/// selection is empty — a top-level query for an unknown class name returns
/// the empty set rather than failing.
pub proof fn lemma_no_match_is_empty(cands: Seq<(usize, Option<String>)>, name: Seq<char>)
    requires
        forall|k: int|
            0 <= k < cands.len() ==> match (#[trigger] cands[k]).1 {
                Some(cls) => cls@ != name,
                None => true,
            },
    ensures
        matching_handles(cands, name) =~= Seq::<usize>::empty(),
    decreases cands.len(),
{
    if cands.len() > 0 {
        assert(cands.skip(1).len() == cands.len() - 1);
        assert forall|k: int| 0 <= k < cands.skip(1).len() implies match (#[trigger] cands.skip(
            1,
        )[k]).1 {
            Some(cls) => cls@ != name,
            None => true,
        } by {
            assert(cands.skip(1)[k] == cands[k + 1]);
        }
        lemma_no_match_is_empty(cands.skip(1), name);
    }
}

// ---------------------------------------------------------------------------
// Child lookups
// ---------------------------------------------------------------------------
/// The snapshots whose class name equals `name` exactly, in order.
pub open spec fn infos_with_class(ws: Seq<WindowInfo>, name: Seq<char>) -> Seq<WindowInfo>
    decreases ws.len(),
{
    if ws.len() == 0 {
        Seq::empty()
    } else {
        let rest = infos_with_class(ws.skip(1), name);
        if ws[0].class_name@ == name {
            seq![ws[0]] + rest
        } else {
            rest
        }
    }
}

/// Keeps the snapshots whose class name equals `class_name` exactly, in
/// order.
pub fn filter_infos_by_class(ws: &Vec<WindowInfo>, class_name: &String) -> (r: Vec<WindowInfo>)
    ensures
        r@ == infos_with_class(ws@, class_name@),
{
    let ghost all = ws@;
    let mut r: Vec<WindowInfo> = Vec::new();
    let mut i: usize = 0;
    proof {
        assert(all.skip(0) =~= all);
        assert(r@ + infos_with_class(all, class_name@) =~= infos_with_class(all, class_name@));
    }
    while i < ws.len()
        invariant
            i <= all.len(),
            all == ws@,
            infos_with_class(all, class_name@) == r@ + infos_with_class(
                all.skip(i as int),
                class_name@,
            ),
        decreases all.len() - i,
    {
        let ghost suffix = all.skip(i as int);
        proof {
            assert(suffix[0] == all[i as int]);
            assert(suffix.skip(1) =~= all.skip(i as int + 1));
        }
        if ws[i].class_name == *class_name {
            let ghost r0 = r@;
            r.push(ws[i].clone());
            proof {
                assert(r0 + (seq![suffix[0]] + infos_with_class(suffix.skip(1), class_name@)) =~= r@
                    + infos_with_class(suffix.skip(1), class_name@));
            }
        }
        i = i + 1;
    }
    proof {
        assert(all.skip(all.len() as int).len() == 0);
        assert(r@ + Seq::<WindowInfo>::empty() =~= r@);
    }
    r
}

/// A child query fails with `WindowNotFound` exactly when nothing was found:
/// the parent had no children (or was itself gone by the time the walk
/// started). A non-empty batch is handed back unchanged.
pub fn require_children(children: Vec<WindowInfo>) -> (r: Result<Vec<WindowInfo>, Error>)
    ensures
        children@.len() == 0 ==> r == Result::<Vec<WindowInfo>, Error>::Err(Error::WindowNotFound),
        children@.len() > 0 ==> r == Result::<Vec<WindowInfo>, Error>::Ok(children),
{
    if children.len() == 0 {
        Err(Error::WindowNotFound)
    } else {
        Ok(children)
    }
}

/// Child lookup by class name on resolved snapshots: keeps the children whose
/// class name equals `class_name`, and fails with `WindowNotFound` exactly
/// when that filtered result is empty.
pub fn find_children_by_class_core(children: &Vec<WindowInfo>, class_name: &String) -> (r: Result<
    Vec<WindowInfo>,
    Error,
>)
    ensures
        match r {
            Ok(kept) => kept@ == infos_with_class(children@, class_name@) && kept@.len() > 0,
            Err(e) => e == Error::WindowNotFound && infos_with_class(children@, class_name@).len()
                == 0,
        },
{
    let kept = filter_infos_by_class(children, class_name);
    if kept.len() == 0 {
        Err(Error::WindowNotFound)
    } else {
        Ok(kept)
    }
}

} // verus!
