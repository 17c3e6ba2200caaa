use vstd::prelude::*;

use crate::search::strings_view;

verus! {

pub type PostId = i64;

pub type TagId = i64;

/// What the tag registry makes of the tags found under one name.
#[derive(Debug, PartialEq, Eq)]
pub enum Resolution {
    /// Exactly one tag has the name.
    Existing(TagId),
    /// No tag has it: one is to be created.
    Create,
    /// Several have it: the name is unusable.
    Anomaly,
}

/// Resolves a name from the ids of the tags that carry it: none asks for a
/// new tag, one is the tag, more than one breaks name uniqueness.
pub fn resolve_found(found: &Vec<TagId>) -> (r: Resolution)
    ensures
        found@.len() == 0 ==> r is Create,
        found@.len() == 1 ==> r == Resolution::Existing(found@[0]),
        found@.len() > 1 ==> r is Anomaly,
{
    if found.len() == 0 {
        Resolution::Create
    } else if found.len() == 1 {
        Resolution::Existing(found[0])
    } else {
        Resolution::Anomaly
    }
}

/// A request to the store during reconciliation.
#[derive(Debug, PartialEq, Eq)]
pub enum TagAction {
    /// The ids of the tags linked to the bookmark.
    LoadLinks { post_id: PostId },
    /// The ids of the tags with this name.
    FindTag { name: String },
    /// A new tag with this name; the answer is its id.
    InsertTag { name: String },
    Link { post_id: PostId, tag_id: TagId },
    Unlink { post_id: PostId, tag_id: TagId },
    /// Whether any bookmark is still linked to the tag.
    CheckLinked { tag_id: TagId },
    DeleteTag { tag_id: TagId },
    /// Reconciliation is over.
    Done,
}

/// A store request, as a mathematical value.
pub enum ActionView {
    LoadLinks(PostId),
    FindTag(Seq<char>),
    InsertTag(Seq<char>),
    Link(PostId, TagId),
    Unlink(PostId, TagId),
    CheckLinked(TagId),
    DeleteTag(TagId),
    Done,
}

impl View for TagAction {
    type V = ActionView;

    open spec fn view(&self) -> ActionView {
        match self {
            TagAction::LoadLinks { post_id } => ActionView::LoadLinks(*post_id),
            TagAction::FindTag { name } => ActionView::FindTag(name@),
            TagAction::InsertTag { name } => ActionView::InsertTag(name@),
            TagAction::Link { post_id, tag_id } => ActionView::Link(*post_id, *tag_id),
            TagAction::Unlink { post_id, tag_id } => ActionView::Unlink(*post_id, *tag_id),
            TagAction::CheckLinked { tag_id } => ActionView::CheckLinked(*tag_id),
            TagAction::DeleteTag { tag_id } => ActionView::DeleteTag(*tag_id),
            TagAction::Done => ActionView::Done,
        }
    }
}

/// The store's answer to the last request.
#[derive(Debug, PartialEq, Eq)]
pub enum TagEvent {
    /// Ids of tags: the answer to `LoadLinks` and `FindTag`.
    Ids(Vec<TagId>),
    /// The id of the tag that `InsertTag` created.
    Inserted(TagId),
    /// The answer to `CheckLinked`.
    Linked(bool),
    /// A write went through.
    Written,
    /// The request failed.
    Failed,
}

/// A store answer, as a mathematical value.
pub enum EventView {
    Ids(Seq<TagId>),
    Inserted(TagId),
    Linked(bool),
    Written,
    Failed,
}

impl View for TagEvent {
    type V = EventView;

    open spec fn view(&self) -> EventView {
        match self {
            TagEvent::Ids(v) => EventView::Ids(v@),
            TagEvent::Inserted(t) => EventView::Inserted(*t),
            TagEvent::Linked(b) => EventView::Linked(*b),
            TagEvent::Written => EventView::Written,
            TagEvent::Failed => EventView::Failed,
        }
    }
}

/// Where a reconciliation stands: which request it waits on.
#[derive(Clone, Copy, Debug, PartialEq, Eq, Structural)]
pub enum Stage {
    Loading,
    Finding,
    Inserting,
    /// After a failed insert: someone else may have created the tag.
    Refinding,
    Linking(TagId),
    Unlinking(TagId),
    Checking(TagId),
    Deleting(TagId),
    Finished,
}

/// Moves one bookmark from the tags it has to the tag names it is given:
/// tags it keeps are left alone, new names are linked (created on demand),
/// tags it loses are unlinked and deleted once nothing links them.
pub struct Reconciler {
    pub post_id: PostId,
    /// The names the bookmark is to have, in the order given.
    pub desired: Vec<String>,
    /// How many of `desired` have been dealt with.
    pub next: usize,
    /// Tags linked before that no name has asked for yet.
    pub old: Vec<TagId>,
    /// Tags that names have asked for and that are linked.
    pub wanted: Vec<TagId>,
    pub stage: Stage,
}

/// A reconciliation, as a mathematical value.
pub struct ReconcilerView {
    pub post_id: PostId,
    pub desired: Seq<Seq<char>>,
    pub next: int,
    pub old: Seq<TagId>,
    pub wanted: Seq<TagId>,
    pub stage: Stage,
}

impl View for Reconciler {
    type V = ReconcilerView;

    open spec fn view(&self) -> ReconcilerView {
        ReconcilerView {
            post_id: self.post_id,
            desired: strings_view(self.desired@),
            next: self.next as int,
            old: self.old@,
            wanted: self.wanted@,
            stage: self.stage,
        }
    }
}

/// `s` without any `id`.
pub open spec fn without(s: Seq<TagId>, id: TagId) -> Seq<TagId>
    decreases s.len(),
{
    if s.len() == 0 {
        s
    } else if s.last() == id {
        without(s.drop_last(), id)
    } else {
        without(s.drop_last(), id).push(s.last())
    }
}

impl ReconcilerView {
    /// A reconciliation of the tags of `p` to `desired` that has not begun.
    pub open spec fn initial(p: PostId, desired: Seq<Seq<char>>) -> ReconcilerView {
        ReconcilerView {
            post_id: p,
            desired,
            next: 0,
            old: seq![],
            wanted: seq![],
            stage: Stage::Loading,
        }
    }

    /// While a name is being dealt with, there is one.
    pub open spec fn wf(self) -> bool {
        &&& 0 <= self.next <= self.desired.len()
        &&& (self.stage is Finding || self.stage is Inserting || self.stage is Refinding
            || self.stage is Linking) ==> self.next < self.desired.len()
    }

    pub open spec fn with_stage(self, stage: Stage) -> ReconcilerView {
        ReconcilerView { stage, ..self }
    }

    /// The next old tag is unlinked; with none left, the work is done.
    pub open spec fn unlink_next(self) -> (ReconcilerView, ActionView) {
        if self.old.len() > 0 {
            let t = self.old.last();
            (
                ReconcilerView { old: self.old.drop_last(), stage: Stage::Unlinking(t), ..self },
                ActionView::Unlink(self.post_id, t),
            )
        } else {
            (self.with_stage(Stage::Finished), ActionView::Done)
        }
    }

    /// The next name is looked up; with none left, unlinking begins.
    pub open spec fn advance(self) -> (ReconcilerView, ActionView) {
        if self.next < self.desired.len() {
            (self.with_stage(Stage::Finding), ActionView::FindTag(self.desired[self.next]))
        } else {
            self.unlink_next()
        }
    }

    /// The current name is done with.
    pub open spec fn skip(self) -> (ReconcilerView, ActionView) {
        ReconcilerView { next: self.next + 1, ..self }.advance()
    }

    /// The current name resolved to `id`.
    pub open spec fn take(self, id: TagId) -> (ReconcilerView, ActionView) {
        if self.wanted.contains(id) {
            self.skip()
        } else if self.old.contains(id) {
            ReconcilerView {
                old: without(self.old, id),
                wanted: self.wanted.push(id),
                ..self
            }.skip()
        } else {
            (self.with_stage(Stage::Linking(id)), ActionView::Link(self.post_id, id))
        }
    }

    /// The state and the request that follow the answer `e`.
    pub open spec fn step(self, e: EventView) -> (ReconcilerView, ActionView) {
        match self.stage {
            Stage::Loading => match e {
                EventView::Ids(v) => ReconcilerView { old: v, ..self }.advance(),
                _ => ReconcilerView { old: seq![], ..self }.advance(),
            },
            Stage::Finding => match e {
                EventView::Ids(v) => if v.len() == 0 {
                    (
                        self.with_stage(Stage::Inserting),
                        ActionView::InsertTag(self.desired[self.next]),
                    )
                } else if v.len() == 1 {
                    self.take(v[0])
                } else {
                    self.skip()
                },
                _ => self.skip(),
            },
            Stage::Inserting => match e {
                EventView::Inserted(id) => self.take(id),
                _ => (
                    self.with_stage(Stage::Refinding),
                    ActionView::FindTag(self.desired[self.next]),
                ),
            },
            Stage::Refinding => match e {
                EventView::Ids(v) => if v.len() == 1 {
                    self.take(v[0])
                } else {
                    self.skip()
                },
                _ => self.skip(),
            },
            Stage::Linking(id) => match e {
                EventView::Written => ReconcilerView {
                    wanted: self.wanted.push(id),
                    ..self
                }.skip(),
                _ => self.skip(),
            },
            Stage::Unlinking(t) => (self.with_stage(Stage::Checking(t)), ActionView::CheckLinked(t)),
            Stage::Checking(t) => match e {
                EventView::Linked(false) => (
                    self.with_stage(Stage::Deleting(t)),
                    ActionView::DeleteTag(t),
                ),
                _ => self.unlink_next(),
            },
            Stage::Deleting(_) => self.unlink_next(),
            Stage::Finished => (self, ActionView::Done),
        }
    }
}

/// Whether `v` holds `id`.
fn holds(v: &Vec<TagId>, id: TagId) -> (r: bool)
    ensures
        r == v@.contains(id),
{
    let mut i: usize = 0;
    while i < v.len()
        invariant
            0 <= i <= v.len(),
            forall|k: int| 0 <= k < i ==> v@[k] != id,
        decreases v.len() - i,
    {
        if v[i] == id {
            return true;
        }
        i = i + 1;
    }
    false
}

/// `v` without any `id`.
fn remove_id(v: &Vec<TagId>, id: TagId) -> (r: Vec<TagId>)
    ensures
        r@ == without(v@, id),
{
    let mut r: Vec<TagId> = Vec::new();
    let mut i: usize = 0;
    while i < v.len()
        invariant
            0 <= i <= v.len(),
            r@ == without(v@.subrange(0, i as int), id),
        decreases v.len() - i,
    {
        assert(v@.subrange(0, i + 1).drop_last() =~= v@.subrange(0, i as int));
        if v[i] != id {
            r.push(v[i]);
        }
        i = i + 1;
    }
    assert(v@.subrange(0, v.len() as int) =~= v@);
    r
}

impl Reconciler {
    pub open spec fn wf(&self) -> bool {
        self@.wf()
    }

    /// Starts reconciling the tags of `post_id` to `desired`; the first
    /// request loads the tags it has.
    pub fn start(post_id: PostId, desired: Vec<String>) -> (r: (Reconciler, TagAction))
        ensures
            r.0.wf(),
            r.0@ == ReconcilerView::initial(post_id, strings_view(desired@)),
            r.1@ == ActionView::LoadLinks(post_id),
    {
        let m = Reconciler {
            post_id,
            desired,
            next: 0,
            old: Vec::new(),
            wanted: Vec::new(),
            stage: Stage::Loading,
        };
        (m, TagAction::LoadLinks { post_id })
    }

    /// Starts tagging a bookmark that has just been created, and so has no
    /// tags yet: the first request looks up the first name.
    pub fn start_new(post_id: PostId, desired: Vec<String>) -> (r: (Reconciler, TagAction))
        ensures
            r.0.wf(),
            (r.0@, r.1@) == ReconcilerView::initial(post_id, strings_view(desired@)).advance(),
    {
        let mut m = Reconciler {
            post_id,
            desired,
            next: 0,
            old: Vec::new(),
            wanted: Vec::new(),
            stage: Stage::Loading,
        };
        let a = m.advance();
        (m, a)
    }

    fn unlink_next(&mut self) -> (a: TagAction)
        requires
            old(self).next <= old(self).desired.len(),
        ensures
            final(self).wf(),
            (final(self)@, a@) == old(self)@.unlink_next(),
    {
        match self.old.pop() {
            Some(t) => {
                self.stage = Stage::Unlinking(t);
                TagAction::Unlink { post_id: self.post_id, tag_id: t }
            },
            None => {
                self.stage = Stage::Finished;
                TagAction::Done
            },
        }
    }

    fn advance(&mut self) -> (a: TagAction)
        requires
            old(self).next <= old(self).desired.len(),
        ensures
            final(self).wf(),
            (final(self)@, a@) == old(self)@.advance(),
    {
        if self.next < self.desired.len() {
            self.stage = Stage::Finding;
            TagAction::FindTag { name: self.desired[self.next].clone() }
        } else {
            self.unlink_next()
        }
    }

    fn skip(&mut self) -> (a: TagAction)
        requires
            old(self).wf(),
            old(self).next < old(self).desired.len(),
        ensures
            final(self).wf(),
            (final(self)@, a@) == old(self)@.skip(),
    {
        self.next = self.next + 1;
        self.advance()
    }

    fn take(&mut self, id: TagId) -> (a: TagAction)
        requires
            old(self).wf(),
            old(self).next < old(self).desired.len(),
        ensures
            final(self).wf(),
            (final(self)@, a@) == old(self)@.take(id),
    {
        if holds(&self.wanted, id) {
            self.skip()
        } else if holds(&self.old, id) {
            self.old = remove_id(&self.old, id);
            self.wanted.push(id);
            self.skip()
        } else {
            self.stage = Stage::Linking(id);
            TagAction::Link { post_id: self.post_id, tag_id: id }
        }
    }

    /// Takes the store's answer to the last request and gives the next one.
    pub fn step(&mut self, event: TagEvent) -> (a: TagAction)
        requires
            old(self).wf(),
        ensures
            final(self).wf(),
            (final(self)@, a@) == old(self)@.step(event@),
    {
        match self.stage {
            Stage::Loading => {
                match event {
                    TagEvent::Ids(v) => {
                        self.old = v;
                    },
                    _ => {
                        self.old = Vec::new();
                    },
                }
                self.advance()
            },
            Stage::Finding => {
                match event {
                    TagEvent::Ids(v) => {
                        match resolve_found(&v) {
                            Resolution::Create => {
                                self.stage = Stage::Inserting;
                                TagAction::InsertTag { name: self.desired[self.next].clone() }
                            },
                            Resolution::Existing(id) => self.take(id),
                            Resolution::Anomaly => self.skip(),
                        }
                    },
                    _ => self.skip(),
                }
            },
            Stage::Inserting => {
                match event {
                    TagEvent::Inserted(id) => self.take(id),
                    _ => {
                        self.stage = Stage::Refinding;
                        TagAction::FindTag { name: self.desired[self.next].clone() }
                    },
                }
            },
            Stage::Refinding => {
                match event {
                    TagEvent::Ids(v) => {
                        if v.len() == 1 {
                            self.take(v[0])
                        } else {
                            self.skip()
                        }
                    },
                    _ => self.skip(),
                }
            },
            Stage::Linking(id) => {
                match event {
                    TagEvent::Written => {
                        self.wanted.push(id);
                        self.skip()
                    },
                    _ => self.skip(),
                }
            },
            Stage::Unlinking(t) => {
                self.stage = Stage::Checking(t);
                TagAction::CheckLinked { tag_id: t }
            },
            Stage::Checking(t) => {
                match event {
                    TagEvent::Linked(false) => {
                        self.stage = Stage::Deleting(t);
                        TagAction::DeleteTag { tag_id: t }
                    },
                    _ => self.unlink_next(),
                }
            },
            Stage::Deleting(_) => self.unlink_next(),
            Stage::Finished => TagAction::Done,
        }
    }
}

/// A bound on the requests a reconciliation still makes once the links are
/// loaded: four for each name left and for each old tag left, and what
/// remains of the current one.
pub open spec fn work_left(m: ReconcilerView) -> int {
    let current: int = match m.stage {
        Stage::Finding => 3,
        Stage::Inserting => 2,
        Stage::Refinding => 1,
        Stage::Unlinking(_) => 3,
        Stage::Checking(_) => 2,
        Stage::Deleting(_) => 1,
        _ => 0,
    };
    4 * (m.desired.len() - m.next) + 4 * m.old.len() + current
}

/// `without` never lengthens.
pub proof fn lemma_without_len(v: Seq<TagId>, id: TagId)
    ensures
        without(v, id).len() <= v.len(),
    decreases v.len(),
{
    if v.len() > 0 {
        lemma_without_len(v.drop_last(), id);
    }
}

/// Whatever the store answers, failures included, a reconciliation moves
/// on: loading the links leaves the loading stage, every later answer
/// leaves strictly less work, and the request `Done` comes exactly when
/// it has finished (and then for good).
pub proof fn law_progress(m: ReconcilerView, e: EventView)
    requires
        m.wf(),
    ensures
        ({
            let (m2, a) = m.step(e);
            &&& !(m2.stage is Loading)
            &&& (a == ActionView::Done <==> m2.stage is Finished)
            &&& m.stage is Finished ==> m2 == m
            &&& !(m.stage is Loading) && !(m.stage is Finished) ==> 0 <= work_left(m2) < work_left(
                m,
            )
        }),
{
    match m.stage {
        Stage::Finding => match e {
            EventView::Ids(v) => if v.len() == 1 {
                lemma_without_len(m.old, v[0]);
            },
            _ => {},
        },
        Stage::Refinding => match e {
            EventView::Ids(v) => if v.len() == 1 {
                lemma_without_len(m.old, v[0]);
            },
            _ => {},
        },
        Stage::Inserting => match e {
            EventView::Inserted(id) => {
                lemma_without_len(m.old, id);
            },
            _ => {},
        },
        _ => {},
    }
}

} // verus!
