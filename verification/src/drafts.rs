//! Drafts for text fields that commit on blur or Enter.
//!
//! A field keeps what the user typed, and the value it started from, until the
//! edit finishes: model echoes that arrive meanwhile never replace the typing.
//! Each frame is two steps around the text widget: `begin` picks the entity
//! the field edits, the widget edits `text`, and `end` reads what the widget
//! reported and says which value, if any, is committed.

use vstd::prelude::*;
use crate::text::{trim, trim_exec, equals_vec, string_of};

verus! {

/// What the text widget reported this frame.
#[derive(Clone, Copy, Debug, PartialEq, Eq)]
pub struct FieldEvents {
    pub has_focus: bool,
    pub lost_focus: bool,
    pub changed: bool,
    /// Escape was pressed this frame.
    pub escape: bool,
}

/// The draft of one field.
#[derive(Debug)]
pub struct TextDraft {
    /// The entity being edited (the field's persistent id).
    pub target: Option<u64>,
    /// What the field shows; the widget edits it between `begin` and `end`.
    pub text: String,
    /// The model value the edit started from.
    pub original: String,
    /// The user has touched the field since it was last reset.
    pub active: bool,
    /// The last commit was refused because the field was empty.
    pub invalid: bool,
}

/// A draft as plain values.
pub struct DraftView {
    pub target: Option<u64>,
    pub text: Seq<char>,
    pub original: Seq<char>,
    pub active: bool,
    pub invalid: bool,
}

impl View for TextDraft {
    type V = DraftView;

    open spec fn view(&self) -> DraftView {
        DraftView {
            target: self.target,
            text: self.text@,
            original: self.original@,
            active: self.active,
            invalid: self.invalid,
        }
    }
}

/// The draft of a field nobody has shown yet.
pub open spec fn blank_draft() -> DraftView {
    DraftView { target: None, text: Seq::empty(), original: Seq::empty(), active: false, invalid: false }
}

/// The draft showing `source` untouched, for `target`.
pub open spec fn reset_draft(target: Option<u64>, source: Seq<char>) -> DraftView {
    DraftView { target, text: source, original: source, active: false, invalid: false }
}

/// The first step of a frame: a new entity, or an untouched field, adopts the
/// model's value; a field the user is editing keeps its draft.
pub open spec fn begin_spec(d: DraftView, id: u64, source: Seq<char>) -> DraftView {
    if d.target == Some(id) && d.active {
        d
    } else {
        reset_draft(Some(id), source)
    }
}

/// The widget's report gives focus to the field or takes it away.
pub open spec fn focused(ev: FieldEvents) -> bool {
    ev.has_focus || ev.lost_focus
}

/// The second step of a frame: the draft afterwards, and the value committed.
pub open spec fn end_spec(d: DraftView, source: Seq<char>, ev: FieldEvents, allow_empty: bool) -> (
    DraftView,
    Option<Seq<char>>,
) {
    if focused(ev) && ev.escape {
        (reset_draft(d.target, source), None)
    } else {
        let active = d.active || ev.has_focus || ev.changed;
        let invalid = if ev.changed { false } else { d.invalid };
        let value = trim(d.text);
        if ev.lost_focus && active {
            if !allow_empty && value.len() == 0 {
                (DraftView { active, invalid: true, ..d }, None)
            } else {
                let commit = if value != trim(d.original) && value != trim(source) {
                    Some(value)
                } else {
                    None
                };
                (DraftView { active: false, invalid: false, ..d }, commit)
            }
        } else {
            (DraftView { active, invalid, ..d }, None)
        }
    }
}

pub open spec fn opt_chars(r: Option<String>) -> Option<Seq<char>> {
    match r {
        Some(s) => Some(s@),
        None => None,
    }
}

impl TextDraft {
    pub fn new() -> (d: TextDraft)
        ensures
            d@ == blank_draft(),
    {
        TextDraft {
            target: None,
            text: String::new(),
            original: String::new(),
            active: false,
            invalid: false,
        }
    }

    /// Show `source` untouched.
    fn reset(&mut self, source: &str)
        ensures
            final(self)@ == reset_draft(old(self).target, source@),
    {
        self.text = source.to_owned();
        self.original = source.to_owned();
        self.active = false;
        self.invalid = false;
    }

    /// Start a frame of the field `id` whose model value is `source`.
    pub fn begin(&mut self, id: u64, source: &str)
        ensures
            final(self)@ == begin_spec(old(self)@, id, source@),
    {
        let same = match self.target {
            Some(t) => t == id,
            None => false,
        };
        if !same {
            self.target = Some(id);
            self.reset(source);
        } else if !self.active {
            self.reset(source);
        }
    }

    /// Finish the frame: `events` is what the widget reported, `source` the
    /// model value, and `allow_empty` whether an empty value means something
    /// (a path meaning "auto"). Returns the trimmed value to commit.
    pub fn end(&mut self, source: &str, events: FieldEvents, allow_empty: bool) -> (r: Option<String>)
        ensures
            (final(self)@, opt_chars(r)) == end_spec(old(self)@, source@, events, allow_empty),
    {
        if (events.has_focus || events.lost_focus) && events.escape {
            self.reset(source);
            return None;
        }
        self.active = self.active || events.has_focus || events.changed;
        if events.changed {
            self.invalid = false;
        }
        let mut committed: Option<String> = None;
        if events.lost_focus && self.active {
            let value = trim_exec(self.text.as_str());
            if !allow_empty && value.len() == 0 {
                self.invalid = true;
            } else {
                let original = trim_exec(self.original.as_str());
                let model = trim_exec(source);
                if !equals_vec(&value, &original) && !equals_vec(&value, &model) {
                    committed = Some(string_of(&value));
                }
                self.active = false;
                self.invalid = false;
            }
        }
        committed
    }
}

/// While the user is editing a field, neither another frame nor a model echo
/// replaces what they typed.
pub proof fn lemma_typing_survives_echoes(d: DraftView, id: u64, source: Seq<char>)
    requires
        d.target == Some(id),
        d.active,
    ensures
        begin_spec(d, id, source) == d,
{
}

/// Escape throws the typing away and shows the model's current value.
pub proof fn lemma_escape_adopts_the_model(d: DraftView, source: Seq<char>, ev: FieldEvents, allow_empty: bool)
    requires
        focused(ev),
        ev.escape,
    ensures
        end_spec(d, source, ev, allow_empty).0.text == source,
        end_spec(d, source, ev, allow_empty).1 == None::<Seq<char>>,
{
}

/// Moving the field to another entity drops the previous draft: the field
/// shows the new entity's value and nothing of the old typing is committed.
pub proof fn lemma_switching_entities_never_commits(
    d: DraftView,
    id: u64,
    source: Seq<char>,
    ev: FieldEvents,
    allow_empty: bool,
)
    requires
        d.target != Some(id),
    ensures
        begin_spec(d, id, source) == reset_draft(Some(id), source),
        end_spec(begin_spec(d, id, source), source, ev, allow_empty).1 == None::<Seq<char>>,
{
}

/// A value is committed only when the field loses focus after the user
/// touched it, and only if it differs from both where the edit started and
/// what the model holds now: an untouched field never overwrites an external
/// update, and an echo of the committed value is not sent twice.
pub proof fn lemma_commit_is_a_real_change(d: DraftView, source: Seq<char>, ev: FieldEvents, allow_empty: bool)
    ensures
        ({
            let (after, commit) = end_spec(d, source, ev, allow_empty);
            commit is Some ==> {
                &&& ev.lost_focus
                &&& !ev.escape || !focused(ev)
                &&& commit == Some(trim(d.text))
                &&& trim(d.text) != trim(d.original)
                &&& trim(d.text) != trim(source)
                &&& (allow_empty || trim(d.text).len() > 0)
                &&& !after.active
            }
        }),
{
}

/// After a commit, the next frame shows the model's value again: the field
/// is no longer being edited.
pub proof fn lemma_commit_ends_the_edit(
    d: DraftView,
    source: Seq<char>,
    ev: FieldEvents,
    allow_empty: bool,
    id: u64,
    echo: Seq<char>,
)
    requires
        end_spec(d, source, ev, allow_empty).1 is Some,
    ensures
        begin_spec(end_spec(d, source, ev, allow_empty).0, id, echo) == reset_draft(Some(id), echo),
{
}


/// The draft of one path field of a generated backend form.
#[derive(Debug)]
pub struct PathDraft {
    /// The field's persistent id, which includes the backend's identity.
    pub id: u64,
    /// The last frame that showed the field.
    pub seen: u64,
    pub draft: TextDraft,
}

pub struct PathDraftView {
    pub id: u64,
    pub seen: u64,
    pub draft: DraftView,
}

impl View for PathDraft {
    type V = PathDraftView;

    open spec fn view(&self) -> PathDraftView {
        PathDraftView { id: self.id, seen: self.seen, draft: self.draft@ }
    }
}

/// Drafts for the path fields of a generated backend form. Storage is bounded
/// to the fields shown this frame or the one before, and a new form epoch
/// drops every old draft.
#[derive(Debug)]
pub struct BackendPathDrafts {
    entries: Vec<PathDraft>,
    frame: Option<u64>,
    epoch: Option<u64>,
}

pub open spec fn views(s: Seq<PathDraft>) -> Seq<PathDraftView> {
    s.map_values(|e: PathDraft| e@)
}

pub broadcast proof fn lemma_views_update(s: Seq<PathDraft>, i: int, x: PathDraft)
    requires
        0 <= i < s.len(),
    ensures
        #[trigger] views(s.update(i, x)) == views(s).update(i, x@),
{
    assert(views(s.update(i, x)) =~= views(s).update(i, x@));
}

/// The entries of `s` shown at `floor` or later, in order.
pub open spec fn shown_since(s: Seq<PathDraftView>, floor: u64) -> Seq<PathDraftView>
    decreases s.len(),
{
    if s.len() == 0 {
        Seq::empty()
    } else if s.last().seen >= floor {
        shown_since(s.drop_last(), floor).push(s.last())
    } else {
        shown_since(s.drop_last(), floor)
    }
}

/// The first index where `id` stands in `s`, if any.
pub open spec fn index_of(s: Seq<PathDraftView>, id: u64) -> Option<int>
    decreases s.len(),
{
    if s.len() == 0 {
        None
    } else {
        match index_of(s.drop_last(), id) {
            Some(i) => Some(i),
            None => if s.last().id == id { Some(s.len() - 1) } else { None },
        }
    }
}

/// No id stands twice.
pub open spec fn ids_distinct(s: Seq<PathDraftView>) -> bool {
    forall|i: int, j: int| 0 <= i < j < s.len() ==> s[i].id != s[j].id
}

/// The oldest frame whose drafts a frame keeps: itself and the one before.
pub open spec fn recent_floor(frame: u64) -> u64 {
    if frame >= 1 {
        (frame - 1) as u64
    } else {
        0
    }
}

/// What survives of `s` when a frame of `epoch` and `frame` starts.
pub open spec fn kept_spec(
    s: Seq<PathDraftView>,
    old_epoch: Option<u64>,
    old_frame: Option<u64>,
    epoch: u64,
    frame: u64,
) -> Seq<PathDraftView> {
    let s1 = if old_epoch != Some(epoch) { Seq::empty() } else { s };
    if old_frame != Some(frame) {
        shown_since(s1, recent_floor(frame))
    } else {
        s1
    }
}

/// The draft that `field` hands out: the kept draft of `id`, or a blank one.
pub open spec fn field_draft(
    s: Seq<PathDraftView>,
    old_epoch: Option<u64>,
    old_frame: Option<u64>,
    epoch: u64,
    frame: u64,
    id: u64,
) -> DraftView {
    let kept = kept_spec(s, old_epoch, old_frame, epoch, frame);
    match index_of(kept, id) {
        Some(i) => kept[i].draft,
        None => blank_draft(),
    }
}

/// The entries after `field`, where the caller left the field's draft as
/// `draft`: the kept entries, with `id` marked as shown in `frame`, or added
/// at the end.
pub open spec fn field_entries(
    s: Seq<PathDraftView>,
    old_epoch: Option<u64>,
    old_frame: Option<u64>,
    epoch: u64,
    frame: u64,
    id: u64,
    draft: DraftView,
) -> Seq<PathDraftView> {
    let kept = kept_spec(s, old_epoch, old_frame, epoch, frame);
    let entry = PathDraftView { id, seen: frame, draft };
    match index_of(kept, id) {
        Some(i) => kept.update(i, entry),
        None => kept.push(entry),
    }
}

proof fn lemma_index_of(s: Seq<PathDraftView>, id: u64)
    ensures
        match index_of(s, id) {
            Some(i) => 0 <= i < s.len() && s[i].id == id && forall|k: int| 0 <= k < i ==> s[k].id != id,
            None => forall|k: int| 0 <= k < s.len() ==> s[k].id != id,
        },
    decreases s.len(),
{
    if s.len() > 0 {
        let p = s.drop_last();
        lemma_index_of(p, id);
        assert forall|k: int| 0 <= k < p.len() implies p[k] == s[k] by {}
        match index_of(p, id) {
            Some(i) => {
                assert(s[i] == p[i]);
            },
            None => {
                assert forall|k: int| 0 <= k < s.len() - 1 implies s[k].id != id by {
                    assert(s[k] == p[k]);
                }
            },
        }
    }
}

proof fn lemma_shown_since_subset(s: Seq<PathDraftView>, floor: u64)
    ensures
        forall|i: int| 0 <= i < shown_since(s, floor).len() ==> {
            &&& #[trigger] shown_since(s, floor)[i].seen >= floor
            &&& s.contains(shown_since(s, floor)[i])
        },
        ids_distinct(s) ==> ids_distinct(shown_since(s, floor)),
    decreases s.len(),
{
    if s.len() > 0 {
        let p = s.drop_last();
        let r = shown_since(p, floor);
        lemma_shown_since_subset(p, floor);
        assert forall|i: int| 0 <= i < shown_since(s, floor).len() implies {
            &&& #[trigger] shown_since(s, floor)[i].seen >= floor
            &&& s.contains(shown_since(s, floor)[i])
        } by {
            if i < r.len() {
                assert(r[i].seen >= floor);
                assert(p.contains(r[i]));
                let k = choose|k: int| 0 <= k < p.len() && p[k] == r[i];
                assert(s[k] == p[k]);
            } else {
                assert(s[s.len() - 1] == s.last());
            }
        }
        if ids_distinct(s) {
            assert(ids_distinct(p));
            if s.last().seen >= floor {
                assert forall|i: int, j: int| 0 <= i < j < shown_since(s, floor).len() implies
                    shown_since(s, floor)[i].id != shown_since(s, floor)[j].id by {
                    if j == r.len() {
                        assert(r[i].seen >= floor);
                        assert(p.contains(r[i]));
                        let k = choose|k: int| 0 <= k < p.len() && p[k] == r[i];
                        assert(s[k] == p[k]);
                    }
                }
            }
        }
    }
}

proof fn lemma_shown_since_keeps(s: Seq<PathDraftView>, floor: u64, k: int)
    requires
        0 <= k < s.len(),
        s[k].seen >= floor,
    ensures
        shown_since(s, floor).contains(s[k]),
    decreases s.len(),
{
    let p = s.drop_last();
    if k == s.len() - 1 {
        assert(shown_since(s, floor).last() == s[k]);
    } else {
        assert(p[k] == s[k]);
        lemma_shown_since_keeps(p, floor, k);
        let j = choose|j: int| 0 <= j < shown_since(p, floor).len() && shown_since(p, floor)[j] == s[k];
        if s.last().seen >= floor {
            assert(shown_since(s, floor)[j] == s[k]);
        }
    }
}

proof fn lemma_shown_since_empty(floor: u64)
    ensures
        shown_since(Seq::<PathDraftView>::empty(), floor) == Seq::<PathDraftView>::empty(),
{
}

proof fn lemma_kept_is_recent(
    s: Seq<PathDraftView>,
    old_epoch: Option<u64>,
    old_frame: Option<u64>,
    epoch: u64,
    frame: u64,
)
    ensures
        ids_distinct(s) ==> ids_distinct(kept_spec(s, old_epoch, old_frame, epoch, frame)),
        old_frame != Some(frame) ==> forall|k: int|
            0 <= k < kept_spec(s, old_epoch, old_frame, epoch, frame).len()
                ==> #[trigger] kept_spec(s, old_epoch, old_frame, epoch, frame)[k].seen >= recent_floor(frame),
{
    let s1 = if old_epoch != Some(epoch) { Seq::<PathDraftView>::empty() } else { s };
    lemma_shown_since_subset(s1, recent_floor(frame));
}

/// Drafts live only as long as their fields are shown: when every draft was
/// shown in this frame or the one before (as a new frame guarantees by
/// dropping the others), so is every draft after `field`.
pub proof fn lemma_drafts_stay_recent(
    s: Seq<PathDraftView>,
    old_epoch: Option<u64>,
    old_frame: Option<u64>,
    epoch: u64,
    frame: u64,
    id: u64,
    draft: DraftView,
)
    requires
        old_frame == Some(frame) ==> forall|k: int| 0 <= k < s.len() ==> #[trigger] s[k].seen >= recent_floor(frame),
    ensures
        forall|k: int|
            0 <= k < field_entries(s, old_epoch, old_frame, epoch, frame, id, draft).len()
                ==> #[trigger] field_entries(s, old_epoch, old_frame, epoch, frame, id, draft)[k].seen >= recent_floor(frame),
{
    lemma_kept_is_recent(s, old_epoch, old_frame, epoch, frame);
    let kept = kept_spec(s, old_epoch, old_frame, epoch, frame);
    lemma_index_of(kept, id);
    assert forall|k: int| 0 <= k < kept.len() implies #[trigger] kept[k].seen >= recent_floor(frame) by {
        if old_frame == Some(frame) && old_epoch == Some(epoch) {
            assert(kept[k] == s[k]);
        }
    }
}

/// A new form epoch drops every old draft: the field gets a blank draft and
/// is the only one stored.
pub proof fn lemma_new_epoch_drops_old_drafts(
    s: Seq<PathDraftView>,
    old_epoch: Option<u64>,
    old_frame: Option<u64>,
    epoch: u64,
    frame: u64,
    id: u64,
    draft: DraftView,
)
    requires
        old_epoch != Some(epoch),
    ensures
        field_draft(s, old_epoch, old_frame, epoch, frame, id) == blank_draft(),
        field_entries(s, old_epoch, old_frame, epoch, frame, id, draft) == seq![
            PathDraftView { id, seen: frame, draft },
        ],
{
    lemma_shown_since_empty(recent_floor(frame));
    let kept = kept_spec(s, old_epoch, old_frame, epoch, frame);
    assert(kept == Seq::<PathDraftView>::empty());
    assert(field_entries(s, old_epoch, old_frame, epoch, frame, id, draft) =~= seq![
        PathDraftView { id, seen: frame, draft },
    ]);
}

/// No field ever has two drafts.
pub proof fn lemma_field_ids_stay_distinct(
    s: Seq<PathDraftView>,
    old_epoch: Option<u64>,
    old_frame: Option<u64>,
    epoch: u64,
    frame: u64,
    id: u64,
    draft: DraftView,
)
    requires
        ids_distinct(s),
    ensures
        ids_distinct(field_entries(s, old_epoch, old_frame, epoch, frame, id, draft)),
{
    lemma_kept_is_recent(s, old_epoch, old_frame, epoch, frame);
    let kept = kept_spec(s, old_epoch, old_frame, epoch, frame);
    lemma_index_of(kept, id);
    let after = field_entries(s, old_epoch, old_frame, epoch, frame, id, draft);
    match index_of(kept, id) {
        Some(i) => {
            assert forall|a: int, b: int| 0 <= a < b < after.len() implies after[a].id != after[b].id by {
                assert(after[a].id == kept[a].id);
                assert(after[b].id == kept[b].id);
            }
        },
        None => {
            assert forall|a: int, b: int| 0 <= a < b < after.len() implies after[a].id != after[b].id by {
                if b < kept.len() {
                    assert(after[a] == kept[a]);
                    assert(after[b] == kept[b]);
                } else {
                    assert(after[a] == kept[a]);
                }
            }
        },
    }
}

/// What the user typed in a field survives to the next frame: a field shown
/// in this frame or the one before gets back its own draft.
pub proof fn lemma_recent_draft_is_kept(
    s: Seq<PathDraftView>,
    old_frame: Option<u64>,
    epoch: u64,
    frame: u64,
    id: u64,
    k: int,
)
    requires
        ids_distinct(s),
        0 <= k < s.len(),
        s[k].id == id,
        s[k].seen >= recent_floor(frame),
    ensures
        field_draft(s, Some(epoch), old_frame, epoch, frame, id) == s[k].draft,
{
    let kept = kept_spec(s, Some(epoch), old_frame, epoch, frame);
    lemma_kept_is_recent(s, Some(epoch), old_frame, epoch, frame);
    lemma_index_of(kept, id);
    if old_frame != Some(frame) {
        lemma_shown_since_keeps(s, recent_floor(frame), k);
    } else {
        assert(kept[k] == s[k]);
    }
    assert(kept.contains(s[k]));
    let j = choose|j: int| 0 <= j < kept.len() && kept[j] == s[k];
    match index_of(kept, id) {
        Some(i) => {
            if i != j {
                assert(kept[i].id == kept[j].id);
            }
        },
        None => {
            assert(kept[j].id == id);
        },
    }
}

impl BackendPathDrafts {
    pub fn new() -> (d: BackendPathDrafts)
        ensures
            d.entries_view() == Seq::<PathDraftView>::empty(),
            d.frame_seen() == None::<u64>,
            d.epoch_seen() == None::<u64>,
    {
        BackendPathDrafts { entries: Vec::new(), frame: None, epoch: None }
    }

    pub closed spec fn entries_view(&self) -> Seq<PathDraftView> {
        views(self.entries@)
    }

    pub closed spec fn frame_seen(&self) -> Option<u64> {
        self.frame
    }

    pub closed spec fn epoch_seen(&self) -> Option<u64> {
        self.epoch
    }

    /// The draft of the field `id` in a form of `epoch`, shown in `frame`.
    /// A new epoch drops every draft; a new frame drops the drafts not shown
    /// in it or the one before. The field's draft is kept, or a blank one is
    /// added at the end, and it is marked as shown now.
    pub fn field(&mut self, id: u64, epoch: u64, frame: u64) -> (r: &mut TextDraft)
        ensures
            final(self).epoch_seen() == Some(epoch),
            final(self).frame_seen() == Some(frame),
            (*r)@ == field_draft(old(self).entries_view(), old(self).epoch_seen(), old(self).frame_seen(), epoch, frame, id),
            final(self).entries_view() == field_entries(
                old(self).entries_view(),
                old(self).epoch_seen(),
                old(self).frame_seen(),
                epoch,
                frame,
                id,
                (*final(r))@,
            ),
    {
        broadcast use lemma_views_update;

        let ghost before = views(self.entries@);
        let same_epoch = match self.epoch {
            Some(e) => e == epoch,
            None => false,
        };
        if !same_epoch {
            self.entries.clear();
            self.epoch = Some(epoch);
        }
        let ghost s1 = views(self.entries@);
        assert(s1 =~= (if old(self).epoch != Some(epoch) { Seq::empty() } else { before }));
        let same_frame = match self.frame {
            Some(f) => f == frame,
            None => false,
        };
        if !same_frame {
            let floor: u64 = if frame >= 1 { frame - 1 } else { 0 };
            let mut pending: Vec<PathDraft> = Vec::new();
            std::mem::swap(&mut pending, &mut self.entries);
            let n = pending.len();
            assert(views(pending@).take(0) =~= Seq::<PathDraftView>::empty());
            assert(views(self.entries@) =~= Seq::<PathDraftView>::empty());
            assert(views(pending@).skip(0) =~= views(pending@));
            while pending.len() > 0
                invariant
                    n == s1.len(),
                    self.epoch == Some(epoch),
                    pending@.len() <= n,
                    views(pending@) == s1.skip(n - pending@.len()),
                    views(self.entries@) == shown_since(s1.take(n - pending@.len()), floor),
                decreases pending@.len(),
            {
                let ghost done = (n - pending@.len()) as int;
                let ghost rest = views(pending@);
                let ghost oldp = pending@;
                let e = pending.remove(0);
                assert(e@ == rest[0]);
                assert(rest[0] == s1[done]);
                assert(s1.take(done + 1).drop_last() =~= s1.take(done));
                assert(s1.take(done + 1).last() == s1[done]);
                assert forall|k: int| 0 <= k < views(pending@).len() implies views(pending@)[k]
                    == s1.skip(done + 1)[k] by {
                    assert(pending@[k] == oldp[k + 1]);
                    assert(rest[k + 1] == s1[done + 1 + k]);
                }
                assert(views(pending@) =~= s1.skip(done + 1));
                if e.seen >= floor {
                    let ghost prev = self.entries@;
                    self.entries.push(e);
                    assert(views(self.entries@) =~= views(prev).push(e@));
                }
            }
            assert(s1.take(n as int) =~= s1);
            self.frame = Some(frame);
        }
        let ghost kept = views(self.entries@);
        let mut index: usize = 0;
        while index < self.entries.len() && self.entries[index].id != id
            invariant
                index <= self.entries@.len(),
                views(self.entries@) == kept,
                self.epoch == Some(epoch),
                self.frame == Some(frame),
                forall|k: int| 0 <= k < index ==> kept[k].id != id,
            decreases self.entries@.len() - index,
        {
            index = index + 1;
        }
        proof {
            lemma_index_of(kept, id);
        }
        if index == self.entries.len() {
            let fresh = PathDraft { id, seen: frame, draft: TextDraft::new() };
            let ghost prev = self.entries@;
            self.entries.push(fresh);
            assert(views(self.entries@) =~= views(prev).push(fresh@));
        } else {
            assert(kept[index as int].id == id);
        }
        let ghost listed = views(self.entries@);
        let mut e = self.entries.remove(index);
        e.seen = frame;
        let ghost marked = e@;
        self.entries.insert(index, e);
        assert(views(self.entries@) =~= listed.update(index as int, marked));
        &mut self.entries[index].draft
    }

    /// How many drafts are stored.
    pub fn len(&self) -> (r: usize)
        ensures
            r == self.entries_view().len(),
    {
        self.entries.len()
    }

    /// Forget every draft.
    pub fn discard_context(&mut self)
        ensures
            final(self).entries_view() == Seq::<PathDraftView>::empty(),
            final(self).frame_seen() == old(self).frame_seen(),
            final(self).epoch_seen() == old(self).epoch_seen(),
    {
        self.entries.clear();
        assert(views(self.entries@) =~= Seq::<PathDraftView>::empty());
    }
}

} // verus!
