//! The steps of a fetch by way of a staging copy.
//!
//! A fetch never writes to the repository on disk before what it brings has
//! been checked. The repository is cloned into a staging copy, the remote is
//! fetched from into the copy with nothing pruned, the copy is verified, and
//! only a valid copy is fetched from into the repository, with pruning.
//!
//! The work on disk is not done here. [`Fetch`] decides: it says which
//! action is due, takes what came of it as an [`Event`], and says what is
//! due next. Whoever runs it performs the actions.

use crate::git::{ref_format_valid, RefString};
use crate::identity::Oid;
use crate::storage::git::{FetchError, FetchErrorView, Repository, RepositoryView};
use crate::storage::{updates_view, RefUpdate, RefUpdateView};
use vstd::prelude::*;

verus! {

/// The work that a fetch asks for.
#[derive(Debug, Clone, Copy, PartialEq, Eq)]
pub enum Action {
    /// Clone the repository on disk into a staging copy.
    Clone,
    /// Fetch from the remote into the staging copy, pruning nothing, and
    /// read the copy.
    Stage,
    /// Fetch from the staging copy into the repository on disk, pruning
    /// what the copy lacks.
    Promote,
    /// Nothing is left to do: the result can be taken.
    Finish,
}

/// Work on disk that did not succeed.
#[derive(Debug, Clone, Copy, PartialEq, Eq)]
pub enum Failure {
    /// The object store failed.
    Git,
    /// The file system failed.
    Io,
}

impl Failure {
    /// The error that a fetch ends with after this failure.
    pub open spec fn error(self) -> FetchErrorView {
        match self {
            Failure::Git => FetchErrorView::Git,
            Failure::Io => FetchErrorView::Io,
        }
    }

    /// The error that a fetch ends with after this failure.
    pub fn into_error(self) -> (e: FetchError)
        ensures
            e@ == self.error(),
    {
        match self {
            Failure::Git => FetchError::Git,
            Failure::Io => FetchError::Io,
        }
    }
}

/// What came of an action.
#[derive(Debug, PartialEq, Eq)]
pub enum Event {
    /// The staging copy was made.
    Cloned,
    /// The remote was fetched from into the staging copy, which now reads
    /// as given.
    Staged(Repository),
    /// The staging copy was fetched from into the repository on disk, with
    /// these changes.
    Promoted(Vec<RefUpdate>),
    /// The action failed.
    Failed(Failure),
}

/// The mathematical value of an [`Event`].
pub enum EventView {
    Cloned,
    Staged(RepositoryView),
    Promoted(Seq<RefUpdateView>),
    Failed(Failure),
}

impl View for Event {
    type V = EventView;

    open spec fn view(&self) -> EventView {
        match self {
            Event::Cloned => EventView::Cloned,
            Event::Staged(copy) => EventView::Staged(copy@),
            Event::Promoted(updates) => EventView::Promoted(updates_view(updates@)),
            Event::Failed(failure) => EventView::Failed(*failure),
        }
    }
}

/// Where a fetch stands.
#[derive(Debug, PartialEq, Eq)]
pub enum Stage {
    /// The staging copy is being made.
    Cloning,
    /// The remote is being fetched from into the staging copy.
    Staging,
    /// The staging copy was found valid and is being fetched from into the
    /// repository on disk.
    Promoting,
    /// The fetch is over, with this result.
    Finished(Result<Vec<RefUpdate>, FetchError>),
}

/// The mathematical value of a [`Stage`].
pub enum StageView {
    Cloning,
    Staging,
    Promoting,
    Finished(Result<Seq<RefUpdateView>, FetchErrorView>),
}

impl View for Stage {
    type V = StageView;

    open spec fn view(&self) -> StageView {
        match self {
            Stage::Cloning => StageView::Cloning,
            Stage::Staging => StageView::Staging,
            Stage::Promoting => StageView::Promoting,
            Stage::Finished(Ok(updates)) => StageView::Finished(Ok(updates_view(updates@))),
            Stage::Finished(Err(e)) => StageView::Finished(Err(e@)),
        }
    }
}

impl StageView {
    /// The action that is due at this stage.
    pub open spec fn action(self) -> Action {
        match self {
            StageView::Cloning => Action::Clone,
            StageView::Staging => Action::Stage,
            StageView::Promoting => Action::Promote,
            StageView::Finished(_) => Action::Finish,
        }
    }

    /// The stage after `event`.
    ///
    /// A failure ends the fetch. The staging copy, once fetched into, is
    /// verified: a valid one is promoted, any other ends the fetch with the
    /// reason why it is not valid. An event that the stage does not wait
    /// for changes nothing, and nothing changes a fetch that is over.
    pub open spec fn next(self, event: EventView) -> StageView {
        match (self, event) {
            (StageView::Finished(_), _) => self,
            (_, EventView::Failed(failure)) => StageView::Finished(Err(failure.error())),
            (StageView::Cloning, EventView::Cloned) => StageView::Staging,
            (StageView::Staging, EventView::Staged(copy)) => match copy.verified() {
                Ok(()) => StageView::Promoting,
                Err(e) => StageView::Finished(Err(FetchErrorView::Verify(e))),
            },
            (StageView::Promoting, EventView::Promoted(updates)) => StageView::Finished(
                Ok(updates),
            ),
            _ => self,
        }
    }
}

/// The stage of a fetch that has seen `events`, first to last.
pub open spec fn run(events: Seq<EventView>) -> StageView
    decreases events.len(),
{
    if events.len() == 0 {
        StageView::Cloning
    } else {
        run(events.drop_last()).next(events.last())
    }
}

/// Whether the event `events[k]` is a staging copy that was found valid
/// when the fetch waited for one.
pub open spec fn found_valid(events: Seq<EventView>, k: int) -> bool {
    &&& 0 <= k < events.len()
    &&& run(events.take(k)) is Staging
    &&& events[k] matches EventView::Staged(copy)
    &&& copy.verified() is Ok
}

/// Whether a fetch that has seen `events` has come to write to the
/// repository on disk: the fetch into it is due, or is done.
pub open spec fn promotes(events: Seq<EventView>) -> bool {
    run(events) is Promoting || run(events) matches StageView::Finished(Ok(_))
}

/// A fetch in progress.
#[derive(Debug, PartialEq, Eq)]
pub struct Fetch {
    /// Where the fetch stands. Only [`Fetch::step`] moves it on.
    stage: Stage,
}

impl View for Fetch {
    type V = StageView;

    closed spec fn view(&self) -> StageView {
        self.stage@
    }
}

impl Fetch {
    /// A fetch that has not begun: the staging copy is to be made.
    pub fn new() -> (fetch: Fetch)
        ensures
            fetch@ == run(Seq::empty()),
            fetch@ is Cloning,
    {
        Fetch { stage: Stage::Cloning }
    }

    /// The action that is due.
    pub fn action(&self) -> (action: Action)
        ensures
            action == self@.action(),
    {
        match &self.stage {
            Stage::Cloning => Action::Clone,
            Stage::Staging => Action::Stage,
            Stage::Promoting => Action::Promote,
            Stage::Finished(_) => Action::Finish,
        }
    }

    /// Take what came of the action that was due, and say which action is
    /// due now. The fetch into the repository on disk is asked for only
    /// from here, and only for a staging copy that passed verification.
    pub fn step(&mut self, event: Event) -> (action: Action)
        ensures
            final(self)@ == old(self)@.next(event@),
            action == final(self)@.action(),
    {
        let mut stage = Stage::Cloning;
        std::mem::swap(&mut stage, &mut self.stage);
        let stage = match stage {
            Stage::Finished(result) => Stage::Finished(result),
            stage => match event {
                Event::Failed(failure) => Stage::Finished(Err(failure.into_error())),
                event => match (stage, event) {
                    (Stage::Cloning, Event::Cloned) => Stage::Staging,
                    (Stage::Staging, Event::Staged(copy)) => match copy.verify() {
                        Ok(()) => Stage::Promoting,
                        Err(e) => Stage::Finished(Err(FetchError::Verify(e))),
                    },
                    (Stage::Promoting, Event::Promoted(updates)) => Stage::Finished(Ok(updates)),
                    (stage, _) => stage,
                },
            },
        };
        self.stage = stage;
        self.action()
    }

    /// The result of the fetch, if it is over.
    pub fn finish(self) -> (result: Option<Result<Vec<RefUpdate>, FetchError>>)
        ensures
            match result {
                None => !(self@ is Finished),
                Some(Ok(updates)) => self@ == StageView::Finished(Ok(updates_view(updates@))),
                Some(Err(e)) => self@ == StageView::Finished(Err(e@)),
            },
    {
        match self.stage {
            Stage::Finished(result) => Some(result),
            _ => None,
        }
    }
}

/// The change that the fetch into the repository on disk reports for one
/// reference, if the reference has a well-formed name. A fetch that meets
/// a name that is not well-formed is to be given up.
pub fn tip(name: &str, old: Oid, new: Oid) -> (update: Option<RefUpdate>)
    ensures
        update is Some <==> ref_format_valid(name@),
        update matches Some(u) ==> u@ == RefUpdate::of(name@, old, new),
{
    match RefString::try_from(name) {
        Some(name) => Some(RefUpdate::from(name, old, new)),
        None => None,
    }
}

/// No event moves a fetch on from its end.
pub proof fn lemma_finished_stays(events: Seq<EventView>, k: int)
    requires
        0 <= k <= events.len(),
        run(events.take(k)) is Finished,
    ensures
        run(events) == run(events.take(k)),
    decreases events.len(),
{
    if k == events.len() {
        assert(events.take(k) =~= events);
    } else {
        assert(events.drop_last().take(k) =~= events.take(k));
        lemma_finished_stays(events.drop_last(), k);
    }
}

/// The fetch into the repository on disk comes only after a valid staging
/// copy: whenever it is due or done, one of the events before was a staging
/// copy that the fetch waited for and that passed verification.
pub proof fn lemma_promotes_after_verified(events: Seq<EventView>) -> (k: int)
    requires
        promotes(events),
    ensures
        found_valid(events, k),
    decreases events.len(),
{
    let before = events.drop_last();
    let last = events.len() - 1;
    assert(events.take(last) =~= before);
    if promotes(before) {
        let k = lemma_promotes_after_verified(before);
        assert(before.take(k) =~= events.take(k));
        k
    } else {
        last
    }
}

/// A fetch that ends with what verification found wrong has never asked
/// for the fetch into the repository on disk.
pub proof fn lemma_invalid_never_promotes(events: Seq<EventView>, k: int)
    requires
        0 <= k <= events.len(),
        run(events) matches StageView::Finished(Err(FetchErrorView::Verify(_))),
    ensures
        !promotes(events.take(k)),
    decreases events.len(),
{
    if events.len() > 0 {
        let before = events.drop_last();
        assert(events.take(events.len() - 1) =~= before);
        if k == events.len() {
            assert(events.take(k) =~= events);
        } else if run(before) matches StageView::Finished(Err(FetchErrorView::Verify(_))) {
            assert(before.take(k) =~= events.take(k));
            lemma_invalid_never_promotes(before, k);
        } else {
            // The last event brought the error: the fetch was staging
            // until then, so it had not promoted at any point before.
            assert(run(before) is Staging);
            assert(before.take(k) =~= events.take(k));
            if promotes(before.take(k)) {
                if run(before.take(k)) is Finished {
                    lemma_finished_stays(before, k);
                } else {
                    lemma_promoting_goes_on(before, k);
                }
            }
        }
    }
}

/// Once the fetch into the repository on disk is due, the fetch is never
/// again staging or cloning.
pub proof fn lemma_promoting_goes_on(events: Seq<EventView>, k: int)
    requires
        0 <= k <= events.len(),
        run(events.take(k)) is Promoting,
    ensures
        run(events) is Promoting || run(events) is Finished,
    decreases events.len(),
{
    if k == events.len() {
        assert(events.take(k) =~= events);
    } else {
        assert(events.drop_last().take(k) =~= events.take(k));
        lemma_promoting_goes_on(events.drop_last(), k);
    }
}

} // verus!
