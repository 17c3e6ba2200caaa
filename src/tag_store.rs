use vstd::prelude::*;

use crate::tags::{ActionView, EventView, PostId, ReconcilerView, Stage, TagId, without};

verus! {

/// The tags and the bookmark-tag links that a store holds.
pub struct TagStore {
    pub names: Map<TagId, Seq<char>>,
    pub links: Set<(PostId, TagId)>,
}

impl TagStore {
    /// Whether some bookmark links the tag `t`.
    pub open spec fn linked(self, t: TagId) -> bool {
        exists|q: PostId| #[trigger] self.links.contains((q, t))
    }

    /// The names of the tags that `p` links.
    pub open spec fn names_of(self, p: PostId) -> Set<Seq<char>> {
        Set::new(
            |n: Seq<char>|
                exists|t: TagId| #[trigger] self.links.contains((p, t)) && self.names[t] == n,
        )
    }

    /// Tag names are unique, and links go to tags that exist.
    pub open spec fn wf(self) -> bool {
        &&& forall|t1: TagId, t2: TagId|
            #![trigger self.names[t1], self.names[t2]]
            self.names.contains_key(t1) && self.names.contains_key(t2) && self.names[t1]
                == self.names[t2] ==> t1 == t2
        &&& forall|q: PostId, t: TagId| #[trigger]
            self.links.contains((q, t)) ==> self.names.contains_key(t)
    }

    /// Every tag is linked by some bookmark, `except` perhaps.
    pub open spec fn collected(self, except: Option<TagId>) -> bool {
        forall|t: TagId| #[trigger]
            self.names.contains_key(t) && except != Some(t) ==> self.linked(t)
    }

    /// How a store that does what is asked of it answers `a` and what it
    /// holds afterwards.
    pub open spec fn answers(self, a: ActionView, next: TagStore, e: EventView) -> bool {
        match a {
            ActionView::LoadLinks(p) => next == self && match e {
                EventView::Ids(v) => v.no_duplicates() && forall|t: TagId| #[trigger]
                    v.contains(t) <==> self.links.contains((p, t)),
                _ => false,
            },
            ActionView::FindTag(n) => next == self && match e {
                EventView::Ids(v) => v.no_duplicates() && forall|t: TagId| #[trigger]
                    v.contains(t) <==> (self.names.contains_key(t) && self.names[t] == n),
                _ => false,
            },
            ActionView::InsertTag(n) => match e {
                EventView::Inserted(t) => !self.names.contains_key(t) && next == TagStore {
                    names: self.names.insert(t, n),
                    links: self.links,
                },
                _ => false,
            },
            ActionView::Link(p, t) => e == EventView::Written && next == TagStore {
                names: self.names,
                links: self.links.insert((p, t)),
            },
            ActionView::Unlink(p, t) => e == EventView::Written && next == TagStore {
                names: self.names,
                links: self.links.remove((p, t)),
            },
            ActionView::CheckLinked(t) => next == self && e == EventView::Linked(self.linked(t)),
            ActionView::DeleteTag(t) => e == EventView::Written && next == TagStore {
                names: self.names.remove(t),
                links: self.links.filter(|l: (PostId, TagId)| l.1 != t),
            },
            ActionView::Done => next == self,
        }
    }
}

/// The tag a reconciliation may leave unlinked for a moment.
pub open spec fn exception(stage: Stage) -> Option<TagId> {
    match stage {
        Stage::Linking(t) => Some(t),
        Stage::Checking(t) => Some(t),
        Stage::Deleting(t) => Some(t),
        _ => None,
    }
}

/// What holds at every stage once the links are loaded.
pub open spec fn settled(s0: TagStore, m: ReconcilerView, s: TagStore) -> bool {
    let p = m.post_id;
    &&& s.wf()
    &&& 0 <= m.next <= m.desired.len()
    &&& forall|q: PostId, t: TagId|
        q != p ==> (#[trigger] s.links.contains((q, t)) <==> s0.links.contains((q, t)))
    &&& forall|t: TagId| #[trigger]
        s0.names.contains_key(t) && s.names.contains_key(t) ==> s.names[t] == s0.names[t]
    &&& m.old.no_duplicates()
    &&& m.wanted.no_duplicates()
    &&& forall|t: TagId| !(#[trigger] m.old.contains(t) && m.wanted.contains(t))
    &&& covers(m.wanted, m.desired, m.next, s.names)
    &&& forall|t: TagId| #[trigger]
        m.old.contains(t) ==> !m.desired.subrange(0, m.next).contains(s.names[t])
    &&& m.next < m.desired.len() ==> forall|t: TagId| #[trigger]
        s0.names.contains_key(t) ==> s.names.contains_key(t)
}

/// The tags `wanted` carry exactly the names among the first `next` of `desired`.
pub open spec fn covers(
    wanted: Seq<TagId>,
    desired: Seq<Seq<char>>,
    next: int,
    names: Map<TagId, Seq<char>>,
) -> bool {
    &&& forall|k: int|
        0 <= k < wanted.len() ==> names.contains_key(#[trigger] wanted[k])
            && desired.subrange(0, next).contains(names[wanted[k]])
    &&& forall|i: int| 0 <= i < next ==> #[trigger] carried(wanted, names, desired[i])
}

/// Whether one of the tags `wanted` has the name `n`.
pub open spec fn carried(wanted: Seq<TagId>, names: Map<TagId, Seq<char>>, n: Seq<char>) -> bool {
    exists|k: int| 0 <= k < wanted.len() && #[trigger] names[wanted[k]] == n
}

/// The links of the bookmark: the old ones not yet dealt with, the wanted
/// ones, and one being unlinked.
pub open spec fn links_match(m: ReconcilerView, s: TagStore) -> bool {
    forall|t: TagId| #[trigger]
        s.links.contains((m.post_id, t)) <==> (m.old.contains(t) || m.wanted.contains(t)
            || m.stage == Stage::Unlinking(t))
}

/// What holds of a reconciliation `m` waiting on `a`, run from the store
/// `s0` against a store that now holds `s`.
pub open spec fn inv(s0: TagStore, m: ReconcilerView, a: ActionView, s: TagStore) -> bool {
    &&& s.collected(exception(m.stage))
    &&& m.wf()
    &&& if m.stage is Loading {
        &&& a == ActionView::LoadLinks(m.post_id)
        &&& s == s0
        &&& m.next == 0
        &&& m.old.len() == 0
        &&& m.wanted.len() == 0
        &&& s0.wf()
    } else {
        &&& settled(s0, m, s)
        &&& links_match(m, s)
        &&& match m.stage {
            Stage::Finding => a == ActionView::FindTag(m.desired[m.next]),
            Stage::Refinding => false,
            Stage::Inserting => a == ActionView::InsertTag(m.desired[m.next]) && forall|t: TagId|
                #[trigger] s.names.contains_key(t) ==> s.names[t] != m.desired[m.next],
            Stage::Linking(id) => a == ActionView::Link(m.post_id, id) && s.names.contains_key(id)
                && s.names[id] == m.desired[m.next] && !m.old.contains(id) && !m.wanted.contains(
                id,
            ),
            Stage::Unlinking(t) => a == ActionView::Unlink(m.post_id, t) && m.next
                == m.desired.len() && !m.old.contains(t) && !m.wanted.contains(t)
                && !m.desired.contains(s.names[t]),
            Stage::Checking(t) => a == ActionView::CheckLinked(t) && m.next == m.desired.len()
                && !m.old.contains(t) && !m.wanted.contains(t),
            Stage::Deleting(t) => a == ActionView::DeleteTag(t) && m.next == m.desired.len()
                && !s.linked(t) && !m.old.contains(t) && !m.wanted.contains(t),
            Stage::Finished => a == ActionView::Done && m.next == m.desired.len() && m.old.len()
                == 0,
            Stage::Loading => true,
        }
    }
}

/// What `without` keeps.
pub proof fn lemma_without(v: Seq<TagId>, id: TagId)
    ensures
        forall|x: TagId| #[trigger] without(v, id).contains(x) <==> (v.contains(x) && x != id),
        v.no_duplicates() ==> without(v, id).no_duplicates(),
    decreases v.len(),
{
    if v.len() > 0 {
        let init = v.drop_last();
        lemma_without(init, id);
        assert forall|x: TagId| v.contains(x) <==> (init.contains(x) || x == v.last()) by {
            if v.contains(x) {
                let i = choose|i: int| 0 <= i < v.len() && v[i] == x;
                if i < v.len() - 1 {
                    assert(init[i] == x);
                }
            }
            if init.contains(x) {
                let i = choose|i: int| 0 <= i < init.len() && init[i] == x;
                assert(v[i] == x);
            }
            if x == v.last() {
                assert(v[v.len() - 1] == x);
            }
        }
        if v.last() != id {
            let w = without(init, id);
            assert forall|x: TagId| #[trigger] w.push(v.last()).contains(x) <==> (w.contains(x)
                || x == v.last()) by {
                if w.push(v.last()).contains(x) {
                    let i = choose|i: int| 0 <= i < w.len() + 1 && w.push(v.last())[i] == x;
                    if i < w.len() {
                        assert(w[i] == x);
                    }
                }
                if w.contains(x) {
                    let i = choose|i: int| 0 <= i < w.len() && w[i] == x;
                    assert(w.push(v.last())[i] == x);
                }
                if x == v.last() {
                    assert(w.push(v.last())[w.len() as int] == x);
                }
            }
            if v.no_duplicates() {
                assert(init.no_duplicates()) by {
                    assert forall|i: int, j: int|
                        0 <= i < init.len() && 0 <= j < init.len() && i != j implies init[i]
                        != init[j] by {
                        assert(init[i] == v[i] && init[j] == v[j]);
                    }
                }
                assert(!init.contains(v.last())) by {
                    if init.contains(v.last()) {
                        let i = choose|i: int| 0 <= i < init.len() && init[i] == v.last();
                        assert(v[i] == v[v.len() - 1]);
                    }
                }
                assert(w.push(v.last()).no_duplicates()) by {
                    assert forall|i: int, j: int|
                        0 <= i < w.len() + 1 && 0 <= j < w.len() + 1 && i != j implies w.push(
                        v.last(),
                    )[i] != w.push(v.last())[j] by {
                        if i < w.len() && j == w.len() {
                            assert(w.contains(w[i]));
                        } else if j < w.len() && i == w.len() {
                            assert(w.contains(w[j]));
                        }
                    }
                }
            }
            assert forall|x: TagId| #[trigger] without(v, id).contains(x) <==> (v.contains(x) && x
                != id) by {
                assert(without(v, id) == w.push(v.last()));
            }
        } else {
            assert forall|x: TagId| #[trigger] without(v, id).contains(x) <==> (v.contains(x) && x
                != id) by {
                assert(without(v, id) == without(init, id));
            }
            if v.no_duplicates() {
                assert(init.no_duplicates()) by {
                    assert forall|i: int, j: int|
                        0 <= i < init.len() && 0 <= j < init.len() && i != j implies init[i]
                        != init[j] by {
                        assert(init[i] == v[i] && init[j] == v[j]);
                    }
                }
            }
        }
    }
}

/// The first `next + 1` names are the first `next` and one more.
pub proof fn lemma_prefix_grows(desired: Seq<Seq<char>>, next: int)
    requires
        0 <= next < desired.len(),
    ensures
        forall|x: Seq<char>| #[trigger]
            desired.subrange(0, next + 1).contains(x) <==> (desired.subrange(0, next).contains(x)
                || x == desired[next]),
{
    let a = desired.subrange(0, next);
    let b = desired.subrange(0, next + 1);
    assert forall|x: Seq<char>| #[trigger] b.contains(x) <==> (a.contains(x) || x == desired[next]) by {
        if b.contains(x) {
            let i = choose|i: int| 0 <= i < b.len() && b[i] == x;
            if i < next {
                assert(a[i] == x);
            }
        }
        if a.contains(x) {
            let i = choose|i: int| 0 <= i < a.len() && a[i] == x;
            assert(b[i] == x);
        }
        if x == desired[next] {
            assert(b[next] == x);
        }
    }
}

/// What dropping the last element keeps.
pub proof fn lemma_drop_last(v: Seq<TagId>)
    requires
        v.len() > 0,
        v.no_duplicates(),
    ensures
        v.drop_last().no_duplicates(),
        !v.drop_last().contains(v.last()),
        forall|x: TagId| #[trigger] v.contains(x) <==> (v.drop_last().contains(x) || x == v.last()),
{
    let init = v.drop_last();
    assert forall|i: int, j: int|
        0 <= i < init.len() && 0 <= j < init.len() && i != j implies init[i] != init[j] by {
        assert(init[i] == v[i] && init[j] == v[j]);
    }
    if init.contains(v.last()) {
        let i = choose|i: int| 0 <= i < init.len() && init[i] == v.last();
        assert(v[i] == v[v.len() - 1]);
    }
    assert forall|x: TagId| #[trigger] v.contains(x) <==> (init.contains(x) || x == v.last()) by {
        if v.contains(x) {
            let i = choose|i: int| 0 <= i < v.len() && v[i] == x;
            if i < v.len() - 1 {
                assert(init[i] == x);
            }
        }
        if init.contains(x) {
            let i = choose|i: int| 0 <= i < init.len() && init[i] == x;
            assert(v[i] == x);
        }
        if x == v.last() {
            assert(v[v.len() - 1] == x);
        }
    }
}

/// With every name dealt with, the next old tag is unlinked, or the work is done.
pub proof fn lemma_unlink_next(s0: TagStore, m: ReconcilerView, s: TagStore)
    requires
        settled(s0, m, s),
        links_match(m, s),
        !(m.stage is Unlinking),
        m.next == m.desired.len(),
        s.collected(None),
    ensures
        inv(s0, m.unlink_next().0, m.unlink_next().1, s),
{
    if m.old.len() > 0 {
        let t = m.old.last();
        lemma_drop_last(m.old);
        let m2 = m.unlink_next().0;
        assert forall|x: TagId| #[trigger] m2.old.contains(x) implies m.old.contains(x) && x
            != t by {
            assert(m.old.contains(x));
        }
        assert(m.old.contains(t));
        assert(!m.wanted.contains(t));
        assert(m.desired.subrange(0, m.next) =~= m.desired);
        assert(settled(s0, m2, s));
        assert forall|x: TagId| #[trigger]
            s.links.contains((m.post_id, x)) <==> (m2.old.contains(x) || m2.wanted.contains(x)
                || m2.stage == Stage::Unlinking(x)) by {
            assert(m.old.contains(x) <==> (m2.old.contains(x) || x == t));
        }
        assert(links_match(m2, s));
    } else {
        let m2 = m.unlink_next().0;
        assert(settled(s0, m2, s));
        assert(links_match(m2, s));
    }
}

/// The next name is looked up, or unlinking begins.
pub proof fn lemma_advance(s0: TagStore, m: ReconcilerView, s: TagStore)
    requires
        settled(s0, m, s),
        links_match(m, s),
        !(m.stage is Unlinking),
        s.collected(None),
    ensures
        inv(s0, m.advance().0, m.advance().1, s),
{
    if m.next < m.desired.len() {
        let m2 = m.advance().0;
        assert(settled(s0, m2, s));
        assert(links_match(m2, s));
    } else {
        lemma_unlink_next(s0, m, s);
    }
}

/// Coverage is kept where the wanted tags keep their names.
pub proof fn lemma_covers_names(
    wanted: Seq<TagId>,
    desired: Seq<Seq<char>>,
    next: int,
    names: Map<TagId, Seq<char>>,
    names2: Map<TagId, Seq<char>>,
)
    requires
        covers(wanted, desired, next, names),
        0 <= next <= desired.len(),
        forall|k: int|
            0 <= k < wanted.len() ==> names2.contains_key(#[trigger] wanted[k])
                && names2[wanted[k]] == names[wanted[k]],
    ensures
        covers(wanted, desired, next, names2),
{
    assert forall|k: int| 0 <= k < wanted.len() implies names2.contains_key(#[trigger] wanted[k])
        && desired.subrange(0, next).contains(names2[wanted[k]]) by {
        assert(names2[wanted[k]] == names[wanted[k]]);
    }
    assert forall|i: int| 0 <= i < next implies #[trigger] carried(wanted, names2, desired[i]) by {
        assert(carried(wanted, names, desired[i]));
        let k = choose|k: int| 0 <= k < wanted.len() && #[trigger] names[wanted[k]] == desired[i];
        assert(names2[wanted[k]] == desired[i]);
    }
}

/// Coverage grows by one name, carried by `id`, new or already wanted.
pub proof fn lemma_covers_extend(
    wanted: Seq<TagId>,
    desired: Seq<Seq<char>>,
    next: int,
    names: Map<TagId, Seq<char>>,
    id: TagId,
)
    requires
        covers(wanted, desired, next, names),
        0 <= next < desired.len(),
        names.contains_key(id),
        names[id] == desired[next],
    ensures
        covers(wanted.push(id), desired, next + 1, names),
        wanted.contains(id) ==> covers(wanted, desired, next + 1, names),
{
    assert forall|k: int| 0 <= k < wanted.len() implies desired.subrange(0, next + 1).contains(
        names[#[trigger] wanted[k]],
    ) by {
        let j = choose|j: int|
            0 <= j < next && desired.subrange(0, next)[j] == names[wanted[k]];
        assert(desired.subrange(0, next + 1)[j] == names[wanted[k]]);
    }
    assert(desired.subrange(0, next + 1)[next] == names[id]);
    let w2 = wanted.push(id);
    assert forall|k: int| 0 <= k < w2.len() implies names.contains_key(#[trigger] w2[k])
        && desired.subrange(0, next + 1).contains(names[w2[k]]) by {
        if k < wanted.len() {
            assert(w2[k] == wanted[k]);
        }
    }
    assert forall|i: int| 0 <= i < next + 1 implies #[trigger] carried(w2, names, desired[i]) by {
        if i < next {
            assert(carried(wanted, names, desired[i]));
            let k = choose|k: int| 0 <= k < wanted.len() && #[trigger] names[wanted[k]] == desired[i];
            assert(w2[k] == wanted[k]);
            assert(names[w2[k]] == desired[i]);
        } else {
            assert(names[w2[wanted.len() as int]] == desired[i]);
        }
    }
    if wanted.contains(id) {
        let j = choose|j: int| 0 <= j < wanted.len() && wanted[j] == id;
        assert forall|i: int| 0 <= i < next + 1 implies #[trigger] carried(
            wanted,
            names,
            desired[i],
        ) by {
            if i < next {
                assert(carried(wanted, names, desired[i]));
            } else {
                assert(names[wanted[j]] == desired[i]);
            }
        }
    }
}

/// Once the current name is carried by `id`, the other old tags still carry
/// none of the names dealt with.
pub proof fn lemma_old_unnamed(s0: TagStore, m: ReconcilerView, s: TagStore, id: TagId)
    requires
        settled(s0, m, s),
        links_match(m, s),
        m.next < m.desired.len(),
        s.names.contains_key(id),
        s.names[id] == m.desired[m.next],
    ensures
        forall|t: TagId| #[trigger]
            m.old.contains(t) && t != id ==> !m.desired.subrange(0, m.next + 1).contains(
                s.names[t],
            ),
{
    lemma_prefix_grows(m.desired, m.next);
    assert forall|t: TagId| #[trigger] m.old.contains(t) && t != id implies !m.desired.subrange(
        0,
        m.next + 1,
    ).contains(s.names[t]) by {
        assert(s.links.contains((m.post_id, t)));
        assert(s.names.contains_key(t));
        if s.names[t] == m.desired[m.next] {
            assert(s.names[t] == s.names[id]);
        }
    }
}

/// The current name resolved to `id`, a tag that has it.
pub proof fn lemma_take(s0: TagStore, m: ReconcilerView, s: TagStore, id: TagId)
    requires
        settled(s0, m, s),
        links_match(m, s),
        !(m.stage is Unlinking),
        m.next < m.desired.len(),
        s.names.contains_key(id),
        s.names[id] == m.desired[m.next],
        s.collected(Some(id)),
    ensures
        inv(s0, m.take(id).0, m.take(id).1, s),
{
    let p = m.post_id;
    lemma_covers_extend(m.wanted, m.desired, m.next, s.names, id);
    lemma_old_unnamed(s0, m, s, id);
    if m.wanted.contains(id) {
        let ms = ReconcilerView { next: m.next + 1, ..m };
        assert(s.links.contains((p, id)));
        assert(s.linked(id));
        assert(settled(s0, ms, s));
        lemma_advance(s0, ms, s);
    } else if m.old.contains(id) {
        lemma_without(m.old, id);
        let ms = ReconcilerView {
            old: without(m.old, id),
            wanted: m.wanted.push(id),
            next: m.next + 1,
            ..m
        };
        assert(s.links.contains((p, id)));
        assert(s.linked(id));
        assert forall|x: TagId| #[trigger] ms.wanted.contains(x) <==> (m.wanted.contains(x) || x
            == id) by {
            if ms.wanted.contains(x) {
                let i = choose|i: int| 0 <= i < ms.wanted.len() && ms.wanted[i] == x;
                if i < m.wanted.len() {
                    assert(m.wanted[i] == x);
                }
            }
            if m.wanted.contains(x) {
                let i = choose|i: int| 0 <= i < m.wanted.len() && m.wanted[i] == x;
                assert(ms.wanted[i] == x);
            }
            if x == id {
                assert(ms.wanted[m.wanted.len() as int] == x);
            }
        }
        assert(ms.wanted.no_duplicates()) by {
            assert forall|i: int, j: int|
                0 <= i < ms.wanted.len() && 0 <= j < ms.wanted.len() && i != j implies ms.wanted[i]
                != ms.wanted[j] by {
                if i < m.wanted.len() && j == m.wanted.len() {
                    assert(m.wanted.contains(m.wanted[i]));
                } else if j < m.wanted.len() && i == m.wanted.len() {
                    assert(m.wanted.contains(m.wanted[j]));
                }
            }
        }
        assert(settled(s0, ms, s));
        assert(links_match(ms, s));
        lemma_advance(s0, ms, s);
    } else {
        let ms = m.take(id).0;
        assert(settled(s0, ms, s));
        assert(links_match(ms, s));
    }
}

/// One answer of a store that does what is asked keeps the invariant.
pub proof fn lemma_step(
    s0: TagStore,
    m: ReconcilerView,
    a: ActionView,
    s: TagStore,
    e: EventView,
    s2: TagStore,
)
    requires
        inv(s0, m, a, s),
        s.answers(a, s2, e),
    ensures
        inv(s0, m.step(e).0, m.step(e).1, s2),
{
    let p = m.post_id;
    match m.stage {
        Stage::Loading => {
            let v = e->Ids_0;
            let ms = ReconcilerView { old: v, ..m };
            assert(settled(s0, ms, s2));
            assert(links_match(ms, s2));
            lemma_advance(s0, ms, s2);
        },
        Stage::Finding => {
            let v = e->Ids_0;
            let n = m.desired[m.next];
            if v.len() == 0 {
                assert forall|t: TagId| #[trigger] s.names.contains_key(t) implies s.names[t]
                    != n by {
                    if s.names[t] == n {
                        assert(v.contains(t));
                    }
                }
                let ms = m.step(e).0;
                assert(settled(s0, ms, s2));
                assert(links_match(ms, s2));
            } else if v.len() == 1 {
                assert(v.contains(v[0]));
                lemma_take(s0, m, s, v[0]);
            } else {
                assert(v.contains(v[0]));
                assert(v.contains(v[1]));
                assert(v[0] != v[1]);
                assert(s.names[v[0]] == s.names[v[1]]);
            }
        },
        Stage::Refinding => {},
        Stage::Inserting => {
            let t = e->Inserted_0;
            let n = m.desired[m.next];
            assert(s2.wf()) by {
                assert forall|t1: TagId, t2: TagId|
                    s2.names.contains_key(t1) && s2.names.contains_key(t2) && s2.names[t1]
                        == s2.names[t2] implies t1 == t2 by {
                    if t1 != t && t2 != t {
                        assert(s.names[t1] == s.names[t2]);
                    } else if t1 == t && t2 != t {
                        assert(s.names.contains_key(t2));
                    } else if t2 == t && t1 != t {
                        assert(s.names.contains_key(t1));
                    }
                }
            }
            assert forall|k: int| 0 <= k < m.wanted.len() implies s2.names.contains_key(
                #[trigger] m.wanted[k],
            ) && s2.names[m.wanted[k]] == s.names[m.wanted[k]] by {
                assert(s.names.contains_key(m.wanted[k]));
            }
            lemma_covers_names(m.wanted, m.desired, m.next, s.names, s2.names);
            assert forall|x: TagId| #[trigger] m.old.contains(x) implies s2.names[x]
                == s.names[x] by {
                assert(s.links.contains((p, x)));
            }
            assert(settled(s0, m, s2));
            assert(links_match(m, s2));
            assert forall|x: TagId| #[trigger]
                s2.names.contains_key(x) && Some(t) != Some(x) implies s2.linked(x) by {
                assert(s.names.contains_key(x));
                assert(s.linked(x));
                let q = choose|q: PostId| #[trigger] s.links.contains((q, x));
                assert(s2.links.contains((q, x)));
            }
            lemma_take(s0, m, s2, t);
        },
        Stage::Linking(id) => {
            lemma_covers_extend(m.wanted, m.desired, m.next, s.names, id);
            lemma_old_unnamed(s0, m, s, id);
            let ms = ReconcilerView { wanted: m.wanted.push(id), next: m.next + 1, ..m };
            assert forall|x: TagId| #[trigger] ms.wanted.contains(x) <==> (m.wanted.contains(x)
                || x == id) by {
                if ms.wanted.contains(x) {
                    let i = choose|i: int| 0 <= i < ms.wanted.len() && ms.wanted[i] == x;
                    if i < m.wanted.len() {
                        assert(m.wanted[i] == x);
                    }
                }
                if m.wanted.contains(x) {
                    let i = choose|i: int| 0 <= i < m.wanted.len() && m.wanted[i] == x;
                    assert(ms.wanted[i] == x);
                }
                if x == id {
                    assert(ms.wanted[m.wanted.len() as int] == x);
                }
            }
            assert(ms.wanted.no_duplicates()) by {
                assert forall|i: int, j: int|
                    0 <= i < ms.wanted.len() && 0 <= j < ms.wanted.len() && i != j implies ms.wanted[i]
                    != ms.wanted[j] by {
                    if i < m.wanted.len() && j == m.wanted.len() {
                        assert(m.wanted.contains(m.wanted[i]));
                    } else if j < m.wanted.len() && i == m.wanted.len() {
                        assert(m.wanted.contains(m.wanted[j]));
                    }
                }
            }
            assert(settled(s0, ms, s2));
            assert(links_match(ms, s2));
            assert forall|x: TagId| #[trigger] s2.names.contains_key(x) implies s2.linked(x) by {
                if x == id {
                    assert(s2.links.contains((p, id)));
                } else {
                    assert(s.linked(x));
                    let q = choose|q: PostId| #[trigger] s.links.contains((q, x));
                    assert(s2.links.contains((q, x)));
                }
            }
            lemma_advance(s0, ms, s2);
        },
        Stage::Unlinking(t) => {
            let ms = m.step(e).0;
            assert(settled(s0, ms, s2));
            assert(links_match(ms, s2));
            assert forall|x: TagId| #[trigger]
                s2.names.contains_key(x) && Some(t) != Some(x) implies s2.linked(x) by {
                let q = choose|q: PostId| #[trigger] s.links.contains((q, x));
                assert(s2.links.contains((q, x)));
            }
        },
        Stage::Checking(t) => {
            if s.linked(t) {
                lemma_unlink_next(s0, m, s);
            } else {
                let ms = m.step(e).0;
                assert(settled(s0, ms, s2));
                assert(links_match(ms, s2));
            }
        },
        Stage::Deleting(t) => {
            assert forall|l: (PostId, TagId)| #[trigger] s.links.contains(l) implies l.1 != t by {
                if l.1 == t {
                    assert(s.links.contains((l.0, t)));
                }
            }
            assert(s2.links =~= s.links);
            assert forall|k: int| 0 <= k < m.wanted.len() implies s2.names.contains_key(
                #[trigger] m.wanted[k],
            ) && s2.names[m.wanted[k]] == s.names[m.wanted[k]] by {
                assert(m.wanted.contains(m.wanted[k]));
                assert(s.names.contains_key(m.wanted[k]));
            }
            lemma_covers_names(m.wanted, m.desired, m.next, s.names, s2.names);
            assert forall|x: TagId| #[trigger] m.old.contains(x) implies s2.names[x]
                == s.names[x] by {
                assert(x != t);
            }
            assert(settled(s0, m, s2));
            assert(links_match(m, s2));
            lemma_unlink_next(s0, m, s2);
        },
        Stage::Finished => {},
    }
}

/// One point of a run: a reconciliation, the request it waits on, and what
/// the store holds.
pub type RunPoint = (ReconcilerView, ActionView, TagStore);

/// Whether the store answers the request of `x` with some event, leaving
/// what `y` holds, and the reconciliation goes on to the state and request of `y`.
pub open spec fn steps_to(x: RunPoint, y: RunPoint) -> bool {
    exists|e: EventView| x.2.answers(x.1, y.2, e) && x.0.step(e) == (y.0, y.1)
}

/// A run against a store that does what is asked of it.
pub open spec fn is_run(trace: Seq<RunPoint>) -> bool {
    forall|k: int| 0 <= k < trace.len() - 1 ==> #[trigger] steps_to(trace[k], trace[k + 1])
}

/// The invariant holds all along a run.
pub proof fn lemma_run(s0: TagStore, trace: Seq<RunPoint>)
    requires
        trace.len() > 0,
        is_run(trace),
        inv(s0, trace[0].0, trace[0].1, trace[0].2),
    ensures
        inv(s0, trace.last().0, trace.last().1, trace.last().2),
    decreases trace.len(),
{
    if trace.len() > 1 {
        let init = trace.drop_last();
        assert forall|k: int| 0 <= k < init.len() - 1 implies #[trigger] steps_to(
            init[k],
            init[k + 1],
        ) by {
            assert(steps_to(trace[k], trace[k + 1]));
        }
        lemma_run(s0, init);
        let j = trace.len() - 2;
        let x = trace[j];
        assert(steps_to(trace[j], trace[j + 1]));
        assert(trace[j + 1] == trace.last());
        let e = choose|e: EventView| x.2.answers(x.1, trace.last().2, e) && x.0.step(e) == (
            trace.last().0,
            trace.last().1,
        );
        lemma_step(s0, x.0, x.1, x.2, e, trace.last().2);
    }
}

/// The invariant holds at every point of a run.
pub proof fn lemma_run_at(s0: TagStore, trace: Seq<RunPoint>, k: int)
    requires
        trace.len() > 0,
        is_run(trace),
        inv(s0, trace[0].0, trace[0].1, trace[0].2),
        0 <= k < trace.len(),
    ensures
        inv(s0, trace[k].0, trace[k].1, trace[k].2),
{
    let pre = trace.subrange(0, k + 1);
    assert forall|j: int| 0 <= j < pre.len() - 1 implies #[trigger] steps_to(pre[j], pre[j + 1]) by {
        assert(steps_to(trace[j], trace[j + 1]));
    }
    assert(pre[0] == trace[0]);
    assert(pre.last() == trace[k]);
    lemma_run(s0, pre);
}

/// Whether the request at `x`, if it unlinks a tag, unlinks one whose name
/// is not among `desired`.
pub open spec fn spares_desired(x: RunPoint, desired: Seq<Seq<char>>) -> bool {
    match x.1 {
        ActionView::Unlink(_, t) => !desired.contains(x.2.names[t]),
        _ => true,
    }
}

/// What holds once a run is over.
pub proof fn lemma_done(s0: TagStore, m: ReconcilerView, s: TagStore)
    requires
        inv(s0, m, ActionView::Done, s),
    ensures
        s.names_of(m.post_id) == m.desired.to_set(),
        s.wf(),
        s.collected(None),
        forall|q: PostId, t: TagId|
            q != m.post_id ==> (#[trigger] s.links.contains((q, t)) <==> s0.links.contains(
                (q, t),
            )),
        forall|t: TagId| #[trigger]
            s0.names.contains_key(t) && s.names.contains_key(t) ==> s.names[t] == s0.names[t],
{
    let p = m.post_id;
    assert(m.stage is Finished);
    assert forall|n: Seq<char>| #[trigger] s.names_of(p).contains(n) <==> m.desired.to_set().contains(n) by {
        if s.names_of(p).contains(n) {
            let t = choose|t: TagId| #[trigger] s.links.contains((p, t)) && s.names[t] == n;
            assert(m.wanted.contains(t));
            let k = choose|k: int| 0 <= k < m.wanted.len() && m.wanted[k] == t;
            assert(m.desired.subrange(0, m.next).contains(s.names[m.wanted[k]]));
            let i = choose|i: int|
                0 <= i < m.next && m.desired.subrange(0, m.next)[i] == s.names[m.wanted[k]];
            assert(m.desired[i] == n);
        }
        if m.desired.to_set().contains(n) {
            let i = choose|i: int| 0 <= i < m.desired.len() && m.desired[i] == n;
            assert(carried(m.wanted, s.names, m.desired[i]));
            let k = choose|k: int| 0 <= k < m.wanted.len() && #[trigger] s.names[m.wanted[k]]
                == m.desired[i];
            assert(m.wanted.contains(m.wanted[k]));
            assert(s.links.contains((p, m.wanted[k])));
        }
    }
    assert(s.names_of(p) =~= m.desired.to_set());
}

/// Reconciling a bookmark's tags against a store that does what is asked
/// ends with the bookmark carrying exactly the names it was given, whatever
/// it carried before. Links of other bookmarks are untouched, so a tag that
/// another bookmark links stays, under its name; and no tag is left that
/// nothing links, so a tag that only this bookmark linked, under a name it
/// was not given, is gone. A tag under a name it was given is never unlinked
/// on the way.
pub proof fn law_reconcile(
    s0: TagStore,
    p: PostId,
    desired: Seq<Seq<char>>,
    trace: Seq<RunPoint>,
)
    requires
        s0.wf(),
        s0.collected(None),
        trace.len() > 0,
        trace[0] == (ReconcilerView::initial(p, desired), ActionView::LoadLinks(p), s0),
        is_run(trace),
        trace.last().1 == ActionView::Done,
    ensures
        ({
            let s = trace.last().2;
            &&& s.names_of(p) == desired.to_set()
            &&& s.wf()
            &&& s.collected(None)
            &&& forall|q: PostId, t: TagId|
                q != p ==> (#[trigger] s.links.contains((q, t)) <==> s0.links.contains((q, t)))
            &&& forall|q: PostId, t: TagId|
                q != p && #[trigger] s0.links.contains((q, t)) ==> s.names.contains_key(t)
                    && s.names[t] == s0.names[t]
            &&& forall|t: TagId|
                #![trigger s0.names[t]]
                s0.names.contains_key(t) && !desired.contains(s0.names[t]) && (forall|q: PostId|
                    q != p ==> !#[trigger] s0.links.contains((q, t))) ==> !s.names.contains_key(t)
            &&& forall|k: int| 0 <= k < trace.len() ==> spares_desired(#[trigger] trace[k], desired)
        }),
{
    assert forall|k: int| 0 <= k < trace.len() implies spares_desired(
        #[trigger] trace[k],
        desired,
    ) by {
        lemma_run_at(s0, trace, k);
        lemma_run_keeps(trace.subrange(0, k + 1));
        assert(trace.subrange(0, k + 1).last() == trace[k]);
    }
    lemma_run(s0, trace);
    let m = trace.last().0;
    let s = trace.last().2;
    lemma_done(s0, m, s);
    assert(m.post_id == p && m.desired == desired) by {
        lemma_run_keeps(trace);
    }
    assert forall|q: PostId, t: TagId|
        q != p && #[trigger] s0.links.contains((q, t)) implies s.names.contains_key(t)
            && s.names[t] == s0.names[t] by {
        assert(s.links.contains((q, t)));
    }
    assert forall|t: TagId|
        #![trigger s0.names[t]]
        s0.names.contains_key(t) && !desired.contains(s0.names[t]) && (forall|q: PostId|
            q != p ==> !#[trigger] s0.links.contains((q, t))) implies !s.names.contains_key(t) by {
        if s.names.contains_key(t) {
            assert(s.linked(t));
            let q = choose|q: PostId| #[trigger] s.links.contains((q, t));
            if q != p {
                assert(s0.links.contains((q, t)));
            } else {
                assert(s.names_of(p).contains(s.names[t]));
                assert(desired.to_set().contains(s0.names[t]));
            }
        }
    }
}

/// A run keeps the bookmark and the names it was given.
pub proof fn lemma_run_keeps(trace: Seq<RunPoint>)
    requires
        trace.len() > 0,
        is_run(trace),
    ensures
        trace.last().0.post_id == trace[0].0.post_id,
        trace.last().0.desired == trace[0].0.desired,
    decreases trace.len(),
{
    if trace.len() > 1 {
        let init = trace.drop_last();
        assert forall|k: int| 0 <= k < init.len() - 1 implies #[trigger] steps_to(
            init[k],
            init[k + 1],
        ) by {
            assert(steps_to(trace[k], trace[k + 1]));
        }
        lemma_run_keeps(init);
        let j = trace.len() - 2;
        let x = trace[j];
        assert(steps_to(trace[j], trace[j + 1]));
        assert(trace[j + 1] == trace.last());
    }
}

/// Tagging a bookmark that has just been created, against a store that does
/// what is asked, ends with the bookmark carrying exactly the names it was
/// given; links of other bookmarks are untouched and no tag is left that
/// nothing links.
pub proof fn law_tag_new(s0: TagStore, p: PostId, desired: Seq<Seq<char>>, trace: Seq<RunPoint>)
    requires
        s0.wf(),
        s0.collected(None),
        forall|t: TagId| !#[trigger] s0.links.contains((p, t)),
        trace.len() > 0,
        trace[0] == (
            ReconcilerView::initial(p, desired).advance().0,
            ReconcilerView::initial(p, desired).advance().1,
            s0,
        ),
        is_run(trace),
        trace.last().1 == ActionView::Done,
    ensures
        ({
            let s = trace.last().2;
            &&& s.names_of(p) == desired.to_set()
            &&& s.wf()
            &&& s.collected(None)
            &&& forall|q: PostId, t: TagId|
                q != p ==> (#[trigger] s.links.contains((q, t)) <==> s0.links.contains((q, t)))
        }),
{
    let m0 = ReconcilerView::initial(p, desired);
    assert(settled(s0, m0, s0));
    assert(links_match(m0, s0));
    lemma_advance(s0, m0, s0);
    lemma_run(s0, trace);
    lemma_run_keeps(trace);
    lemma_done(s0, trace.last().0, trace.last().2);
}

} // verus!
