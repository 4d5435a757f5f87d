//! The queue of decisions waiting for the user: one shown, the rest in
//! order behind it, none twice.

use vstd::prelude::*;
use std::collections::VecDeque;
use crate::state::{Modal, TabId};

verus! {

/// The modal concerns the tab `t`.
pub open spec fn about_tab(m: Modal, t: TabId) -> bool {
    match m {
        Modal::CloseTab(id) => id == t,
        Modal::ExternalConflict(id) => id == t,
        Modal::DeletedFile(id) => id == t,
        Modal::Shutdown => false,
    }
}

/// `s` without the modals about `t`, order kept.
pub open spec fn without_tab(s: Seq<Modal>, t: TabId) -> Seq<Modal>
    decreases s.len(),
{
    if s.len() == 0 {
        s
    } else if about_tab(s.last(), t) {
        without_tab(s.drop_last(), t)
    } else {
        without_tab(s.drop_last(), t).push(s.last())
    }
}

/// `s` without `m`, order kept.
pub open spec fn without_modal(s: Seq<Modal>, m: Modal) -> Seq<Modal>
    decreases s.len(),
{
    if s.len() == 0 {
        s
    } else if s.last() == m {
        without_modal(s.drop_last(), m)
    } else {
        without_modal(s.drop_last(), m).push(s.last())
    }
}

/// The queue is sound: nothing waits twice, and what is shown does not also
/// wait.
pub open spec fn queue_wf(active: Option<Modal>, pending: Seq<Modal>) -> bool {
    &&& forall|i: int, j: int| 0 <= i < j < pending.len() ==> pending[i] != pending[j]
    &&& active matches Some(a) ==> !pending.contains(a)
}

/// Queues `modal`: shown at once when nothing is shown, else put last in
/// line; a modal already shown or waiting is not queued again (`false`).
pub fn queue_modal(active: &mut Option<Modal>, pending: &mut VecDeque<Modal>, modal: Modal) -> (r: bool)
    ensures
        r == !(*old(active) == Some(modal) || old(pending)@.contains(modal)),
        !r ==> *final(active) == *old(active) && final(pending)@ == old(pending)@,
        r && (*old(active)) is None ==> *final(active) == Some(modal) && final(pending)@ == old(pending)@,
        r && (*old(active)) is Some ==> *final(active) == *old(active) && final(pending)@ == old(pending)@.push(modal),
        queue_wf(*old(active), old(pending)@) ==> queue_wf(*final(active), final(pending)@),
        *final(active) == Some(modal) || final(pending)@.contains(modal),
{
    if *active == Some(modal) || contains_modal(pending, modal) {
        return false;
    }
    if active.is_none() {
        *active = Some(modal);
    } else {
        let ghost before = pending@;
        pending.push_back(modal);
        assert(pending@[pending@.len() - 1] == modal);
        proof {
            assert forall|i: int, j: int| 0 <= i < j < pending@.len() && queue_wf(*old(active), before) implies pending@[i] != pending@[j] by {
                if j == before.len() {
                    assert(before.contains(before[i]));
                }
            }
            if let Some(a) = *active {
                if pending@.contains(a) && queue_wf(*old(active), before) {
                    let k = choose|k: int| 0 <= k < pending@.len() && pending@[k] == a;
                    if k < before.len() {
                        assert(before.contains(a));
                    }
                }
            }
        }
    }
    true
}

fn contains_modal(pending: &VecDeque<Modal>, m: Modal) -> (r: bool)
    ensures
        r == pending@.contains(m),
{
    let mut i: usize = 0;
    while i < pending.len()
        invariant
            0 <= i <= pending@.len(),
            forall|j: int| 0 <= j < i ==> pending@[j] != m,
        decreases pending@.len() - i,
    {
        if pending[i] == m {
            assert(pending@[i as int] == m);
            return true;
        }
        i = i + 1;
    }
    false
}

/// Shows the next waiting modal, or nothing.
pub fn advance_modal(active: &mut Option<Modal>, pending: &mut VecDeque<Modal>)
    ensures
        old(pending)@.len() == 0 ==> *final(active) is None && final(pending)@ == old(pending)@,
        old(pending)@.len() > 0 ==> *final(active) == Some(old(pending)@[0]) && final(pending)@ == old(pending)@.drop_first(),
        queue_wf(*old(active), old(pending)@) ==> queue_wf(*final(active), final(pending)@),
{
    if pending.len() == 0 {
        *active = None;
    } else {
        let ghost before = pending@;
        let next = pending.pop_front();
        *active = next;
        let ghost first = before[0];
        proof {
            assert(pending@ =~= before.drop_first());
            if queue_wf(*old(active), before) {
                assert forall|i: int, j: int| 0 <= i < j < pending@.len() implies pending@[i] != pending@[j] by {
                    assert(pending@[i] == before[i + 1] && pending@[j] == before[j + 1]);
                }
                if pending@.contains(first) {
                    let k = choose|k: int| 0 <= k < pending@.len() && pending@[k] == first;
                    assert(before[k + 1] == before[0]);
                }
            }
        }
    }
}

proof fn lemma_without_tab(s: Seq<Modal>, t: TabId)
    ensures
        forall|m: Modal| #![trigger without_tab(s, t).contains(m)] #![trigger s.contains(m)]
            without_tab(s, t).contains(m) <==> (s.contains(m) && !about_tab(m, t)),
        (forall|i: int, j: int| 0 <= i < j < s.len() ==> s[i] != s[j]) ==>
            (forall|i: int, j: int| 0 <= i < j < without_tab(s, t).len() ==> without_tab(s, t)[i] != without_tab(s, t)[j]),
    decreases s.len(),
{
    if s.len() > 0 {
        let d = s.drop_last();
        lemma_without_tab(d, t);
        let r = without_tab(d, t);
        assert forall|m: Modal| without_tab(s, t).contains(m) <==> (s.contains(m) && !about_tab(m, t)) by {
            if without_tab(s, t).contains(m) {
                let k = choose|k: int| 0 <= k < without_tab(s, t).len() && without_tab(s, t)[k] == m;
                if !about_tab(s.last(), t) && k == r.len() {
                    assert(s[s.len() - 1] == m);
                } else {
                    assert(r[k] == m);
                    assert(r.contains(m));
                    assert(d.contains(m));
                    let q = choose|q: int| 0 <= q < d.len() && d[q] == m;
                    assert(s[q] == m);
                }
            }
            if s.contains(m) && !about_tab(m, t) {
                let k = choose|k: int| 0 <= k < s.len() && s[k] == m;
                if k == s.len() - 1 {
                    assert(without_tab(s, t)[r.len() as int] == m);
                } else {
                    assert(d[k] == m);
                    assert(d.contains(m));
                    assert(r.contains(m));
                    let q = choose|q: int| 0 <= q < r.len() && r[q] == m;
                    assert(without_tab(s, t)[q] == m);
                }
            }
        }
        if forall|i: int, j: int| 0 <= i < j < s.len() ==> s[i] != s[j] {
            assert forall|i: int, j: int| 0 <= i < j < d.len() implies d[i] != d[j] by {
                assert(d[i] == s[i] && d[j] == s[j]);
            }
            if !about_tab(s.last(), t) {
                assert(!r.contains(s.last())) by {
                    if r.contains(s.last()) {
                        assert(d.contains(s.last()));
                        let q = choose|q: int| 0 <= q < d.len() && d[q] == s.last();
                        assert(s[q] == s[s.len() - 1]);
                    }
                }
                assert forall|i: int, j: int| 0 <= i < j < without_tab(s, t).len() implies without_tab(s, t)[i] != without_tab(s, t)[j] by {
                    if j == r.len() {
                        assert(without_tab(s, t)[i] == r[i]);
                        assert(r.contains(r[i]));
                    } else {
                        assert(without_tab(s, t)[i] == r[i] && without_tab(s, t)[j] == r[j]);
                    }
                }
            }
        }
    }
}

proof fn lemma_without_modal(s: Seq<Modal>, m0: Modal)
    ensures
        forall|m: Modal| #![trigger without_modal(s, m0).contains(m)] #![trigger s.contains(m)]
            without_modal(s, m0).contains(m) <==> (s.contains(m) && m != m0),
        (forall|i: int, j: int| 0 <= i < j < s.len() ==> s[i] != s[j]) ==>
            (forall|i: int, j: int| 0 <= i < j < without_modal(s, m0).len() ==> without_modal(s, m0)[i] != without_modal(s, m0)[j]),
    decreases s.len(),
{
    if s.len() > 0 {
        let d = s.drop_last();
        lemma_without_modal(d, m0);
        let r = without_modal(d, m0);
        assert forall|m: Modal| without_modal(s, m0).contains(m) <==> (s.contains(m) && m != m0) by {
            if without_modal(s, m0).contains(m) {
                let k = choose|k: int| 0 <= k < without_modal(s, m0).len() && without_modal(s, m0)[k] == m;
                if s.last() != m0 && k == r.len() {
                    assert(s[s.len() - 1] == m);
                } else {
                    assert(r[k] == m);
                    assert(r.contains(m));
                    assert(d.contains(m));
                    let q = choose|q: int| 0 <= q < d.len() && d[q] == m;
                    assert(s[q] == m);
                }
            }
            if s.contains(m) && m != m0 {
                let k = choose|k: int| 0 <= k < s.len() && s[k] == m;
                if k == s.len() - 1 {
                    assert(without_modal(s, m0)[r.len() as int] == m);
                } else {
                    assert(d[k] == m);
                    assert(d.contains(m));
                    assert(r.contains(m));
                    let q = choose|q: int| 0 <= q < r.len() && r[q] == m;
                    assert(without_modal(s, m0)[q] == m);
                }
            }
        }
        if forall|i: int, j: int| 0 <= i < j < s.len() ==> s[i] != s[j] {
            assert forall|i: int, j: int| 0 <= i < j < d.len() implies d[i] != d[j] by {
                assert(d[i] == s[i] && d[j] == s[j]);
            }
            if s.last() != m0 {
                assert(!r.contains(s.last())) by {
                    if r.contains(s.last()) {
                        assert(d.contains(s.last()));
                        let q = choose|q: int| 0 <= q < d.len() && d[q] == s.last();
                        assert(s[q] == s[s.len() - 1]);
                    }
                }
                assert forall|i: int, j: int| 0 <= i < j < without_modal(s, m0).len() implies without_modal(s, m0)[i] != without_modal(s, m0)[j] by {
                    if j == r.len() {
                        assert(without_modal(s, m0)[i] == r[i]);
                        assert(r.contains(r[i]));
                    } else {
                        assert(without_modal(s, m0)[i] == r[i] && without_modal(s, m0)[j] == r[j]);
                    }
                }
            }
        }
    }
}

fn retain_not_modal(pending: &mut VecDeque<Modal>, m: Modal)
    ensures
        final(pending)@ == without_modal(old(pending)@, m),
{
    let ghost s = pending@;
    let mut kept: VecDeque<Modal> = VecDeque::new();
    let mut i: usize = 0;
    assert(s.subrange(0, 0) =~= Seq::<Modal>::empty());
    while i < pending.len()
        invariant
            0 <= i <= pending@.len(),
            pending@ == s,
            kept@ == without_modal(s.subrange(0, i as int), m),
        decreases pending@.len() - i,
    {
        assert(s.subrange(0, i + 1).drop_last() =~= s.subrange(0, i as int));
        if pending[i] != m {
            kept.push_back(pending[i]);
        }
        i = i + 1;
    }
    assert(s.subrange(0, s.len() as int) =~= s);
    *pending = kept;
}

fn retain_not_about(pending: &mut VecDeque<Modal>, t: TabId)
    ensures
        final(pending)@ == without_tab(old(pending)@, t),
{
    let ghost s = pending@;
    let mut kept: VecDeque<Modal> = VecDeque::new();
    let mut i: usize = 0;
    assert(s.subrange(0, 0) =~= Seq::<Modal>::empty());
    while i < pending.len()
        invariant
            0 <= i <= pending@.len(),
            pending@ == s,
            kept@ == without_tab(s.subrange(0, i as int), t),
        decreases pending@.len() - i,
    {
        assert(s.subrange(0, i + 1).drop_last() =~= s.subrange(0, i as int));
        let is_about = match pending[i] {
            Modal::CloseTab(id) => id == t,
            Modal::ExternalConflict(id) => id == t,
            Modal::DeletedFile(id) => id == t,
            Modal::Shutdown => false,
        };
        if !is_about {
            kept.push_back(pending[i]);
        }
        i = i + 1;
    }
    assert(s.subrange(0, s.len() as int) =~= s);
    *pending = kept;
}

/// When no tab is dirty any more, a waiting or shown shutdown request is
/// dropped (the next modal is shown in its place).
pub fn clear_shutdown_modal(active: &mut Option<Modal>, pending: &mut VecDeque<Modal>, has_dirty_tabs: bool)
    ensures
        has_dirty_tabs ==> *final(active) == *old(active) && final(pending)@ == old(pending)@,
        !has_dirty_tabs && *old(active) != Some(Modal::Shutdown) ==>
            *final(active) == *old(active) && final(pending)@ == without_modal(old(pending)@, Modal::Shutdown),
        !has_dirty_tabs && *old(active) == Some(Modal::Shutdown) ==> {
            let rest = without_modal(old(pending)@, Modal::Shutdown);
            &&& rest.len() == 0 ==> *final(active) is None && final(pending)@ == rest
            &&& rest.len() > 0 ==> *final(active) == Some(rest[0]) && final(pending)@ == rest.drop_first()
        },
        !has_dirty_tabs ==> *final(active) != Some(Modal::Shutdown) && !final(pending)@.contains(Modal::Shutdown),
        queue_wf(*old(active), old(pending)@) ==> queue_wf(*final(active), final(pending)@),
{
    if has_dirty_tabs {
        return;
    }
    let ghost before = pending@;
    proof { lemma_without_modal(before, Modal::Shutdown); }
    retain_not_modal(pending, Modal::Shutdown);
    let ghost rest = pending@;
    assert(rest == without_modal(before, Modal::Shutdown));
    assert(!without_modal(before, Modal::Shutdown).contains(Modal::Shutdown));
    if *active == Some(Modal::Shutdown) {
        advance_modal(active, pending);
        proof {
            if rest.len() > 0 {
                assert(rest.contains(rest[0]));
            }
            if pending@.contains(Modal::Shutdown) {
                let k = choose|k: int| 0 <= k < pending@.len() && pending@[k] == Modal::Shutdown;
                assert(rest[k + 1] == Modal::Shutdown);
                assert(rest.contains(Modal::Shutdown));
            }
        }
    }
}

proof fn lemma_drop_first_within(s: Seq<Modal>)
    requires
        s.len() > 0,
    ensures
        s.contains(s[0]),
        forall|m: Modal| #[trigger] s.drop_first().contains(m) ==> s.contains(m),
{
    assert(s[0] == s[0]);
    assert forall|m: Modal| #[trigger] s.drop_first().contains(m) implies s.contains(m) by {
        let k = choose|k: int| 0 <= k < s.drop_first().len() && s.drop_first()[k] == m;
        assert(s[k + 1] == m);
    }
}

/// The shown modal and the queue after the next waiting modal is shown.
pub open spec fn after_advance(pending: Seq<Modal>) -> (Option<Modal>, Seq<Modal>) {
    if pending.len() == 0 {
        (None, pending)
    } else {
        (Some(pending[0]), pending.drop_first())
    }
}

/// The modals about `t` dropped: the queue keeps the others in order, and a
/// shown modal about `t` gives way to the next one left waiting.
pub open spec fn cleared_of_tab(active: Option<Modal>, pending: Seq<Modal>, t: TabId) -> (Option<Modal>, Seq<Modal>) {
    let rest = without_tab(pending, t);
    if active matches Some(a) && about_tab(a, t) {
        after_advance(rest)
    } else {
        (active, rest)
    }
}

/// The shutdown request dropped when no tab is dirty, shown or waiting.
pub open spec fn cleared_of_shutdown(active: Option<Modal>, pending: Seq<Modal>, has_dirty_tabs: bool) -> (Option<Modal>, Seq<Modal>) {
    if has_dirty_tabs {
        (active, pending)
    } else {
        let rest = without_modal(pending, Modal::Shutdown);
        if active == Some(Modal::Shutdown) {
            after_advance(rest)
        } else {
            (active, rest)
        }
    }
}

/// The queue after a tab leaves: its modals dropped, then the shutdown
/// request when no dirty tab is left.
pub open spec fn spec_clear_tab_modals(active: Option<Modal>, pending: Seq<Modal>, t: TabId, has_dirty_tabs: bool) -> (Option<Modal>, Seq<Modal>) {
    let c = cleared_of_tab(active, pending, t);
    cleared_of_shutdown(c.0, c.1, has_dirty_tabs)
}

/// Drops every modal about `tab_id` (showing the next one if the shown one
/// was about it), then the shutdown request when no tab is dirty.
pub fn clear_tab_modal_state(active: &mut Option<Modal>, pending: &mut VecDeque<Modal>, tab_id: TabId, has_dirty_tabs: bool)
    ensures
        *final(active) == spec_clear_tab_modals(*old(active), old(pending)@, tab_id, has_dirty_tabs).0,
        final(pending)@ == spec_clear_tab_modals(*old(active), old(pending)@, tab_id, has_dirty_tabs).1,
        queue_wf(*old(active), old(pending)@) ==> queue_wf(*final(active), final(pending)@),
        forall|m: Modal| final(pending)@.contains(m) ==> !about_tab(m, tab_id),
        *final(active) matches Some(a) ==> !about_tab(a, tab_id),
        !has_dirty_tabs ==> *final(active) != Some(Modal::Shutdown) && !final(pending)@.contains(Modal::Shutdown),
        forall|m: Modal| final(pending)@.contains(m) ==> old(pending)@.contains(m),
{
    let ghost orig = pending@;
    proof { lemma_without_tab(orig, tab_id); }
    retain_not_about(pending, tab_id);
    let ghost mid = pending@;
    assert(mid == without_tab(orig, tab_id));
    let about = match *active {
        Some(Modal::CloseTab(id)) => id == tab_id,
        Some(Modal::ExternalConflict(id)) => id == tab_id,
        Some(Modal::DeletedFile(id)) => id == tab_id,
        _ => false,
    };
    if about {
        proof {
            if mid.len() > 0 {
                lemma_drop_first_within(mid);
            }
        }
        advance_modal(active, pending);
    }
    let ghost mid2 = pending@;
    let ghost act2 = *active;
    assert(forall|m: Modal| mid2.contains(m) ==> mid.contains(m));
    assert(act2 matches Some(a) ==> !about_tab(a, tab_id));
    proof {
        lemma_without_modal(mid2, Modal::Shutdown);
        if without_modal(mid2, Modal::Shutdown).len() > 0 {
            lemma_drop_first_within(without_modal(mid2, Modal::Shutdown));
        }
    }
    clear_shutdown_modal(active, pending, has_dirty_tabs);
    assert(forall|m: Modal| pending@.contains(m) ==> mid2.contains(m));
    proof {
        let rest = without_modal(mid2, Modal::Shutdown);
        if !has_dirty_tabs && act2 == Some(Modal::Shutdown) && rest.len() > 0 {
            assert(rest.contains(rest[0]));
            assert(mid2.contains(rest[0]));
            assert(mid.contains(rest[0]));
        }
    }
}

/// Dismissing closes the shown modal and shows the next one, except an
/// external conflict, which stays until it is resolved (`false`).
pub fn dismiss_modal_state(active: &mut Option<Modal>, pending: &mut VecDeque<Modal>) -> (r: bool)
    ensures
        r == !((*old(active)) matches Some(Modal::ExternalConflict(_))),
        !r ==> *final(active) == *old(active) && final(pending)@ == old(pending)@,
        r && old(pending)@.len() == 0 ==> *final(active) is None && final(pending)@ == old(pending)@,
        r && old(pending)@.len() > 0 ==> *final(active) == Some(old(pending)@[0]) && final(pending)@ == old(pending)@.drop_first(),
        queue_wf(*old(active), old(pending)@) ==> queue_wf(*final(active), final(pending)@),
{
    if let Some(Modal::ExternalConflict(_)) = *active {
        return false;
    }
    advance_modal(active, pending);
    true
}

} // verus!
