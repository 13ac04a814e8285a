//! Saving queued edits, one document at a time.
//!
//! Reading and writing files is the caller's part. The configuration says
//! what to do next, the caller does it and reports back, until the
//! configuration says that the work is done. The domains' documents come
//! first, in the order of the domains, then the project's own.

use super::apply::{edited_document, is_edited_text};
use super::document::parsed_document;
use super::domain::DomainView;
use super::edit::{ConfigEdit, EditError};
use super::project::{ProjectConfig, ProjectView};
use vstd::prelude::*;

verus! {

/// What the caller reports.
#[derive(Debug)]
pub enum SaveEvent {
    /// Nothing yet: the save begins.
    Start,
    /// The document that was asked for, or `None` where it could not be read.
    Loaded(Option<String>),
    /// Whether the text that was handed out is on disk now.
    Written(bool),
}

/// What the caller is to do next.
#[derive(Debug)]
pub enum SaveAction {
    /// Stop: the save is over, with this outcome.
    Done(Result<(), EditError>),
    /// Read the document at `location` and report it as `Loaded`.
    Load { location: String },
    /// Write `text` to `location` and report the outcome as `Written`.
    Write { location: String, text: String },
}

/// The place of the first of `domains` with edits that wait.
pub open spec fn first_pending(domains: Seq<DomainView>) -> Option<int>
    decreases domains.len(),
{
    if domains.len() == 0 {
        None
    } else {
        match first_pending(domains.drop_last()) {
            Some(i) => Some(i),
            None => if domains.last().pending_edits.len() > 0 {
                Some(domains.len() - 1)
            } else {
                None
            },
        }
    }
}

/// `domains` with the queue of domain `index` emptied.
pub open spec fn domain_saved(domains: Seq<DomainView>, index: int) -> Seq<DomainView> {
    domains.update(index, domains[index].saved())
}

impl ProjectView {
    /// Whether no edit waits, neither with a domain nor with the project.
    pub open spec fn nothing_waits(self) -> bool {
        first_pending(self.domains) is None && self.pending_edits.len() == 0
    }

    /// Where the document lies whose edits are saved next; `None` where
    /// nothing waits or the document that is due has no place.
    pub open spec fn due_location(self) -> Option<Seq<char>> {
        match first_pending(self.domains) {
            Some(i) => Some(self.domains[i].location),
            None => if self.pending_edits.len() == 0 {
                None
            } else {
                self.location
            },
        }
    }

    /// The edits that wait for the document that is due.
    pub open spec fn due_edits(self) -> Seq<ConfigEdit> {
        match first_pending(self.domains) {
            Some(i) => self.domains[i].pending_edits,
            None => self.pending_edits,
        }
    }

    /// The configuration once the document that is due has been written: its
    /// queue is empty, and nothing else has changed.
    pub open spec fn due_saved(self) -> ProjectView {
        match first_pending(self.domains) {
            Some(i) => ProjectView { domains: domain_saved(self.domains, i), ..self },
            None => ProjectView { pending_edits: Seq::empty(), ..self },
        }
    }

    /// Whether `action` is what a save does when no document is in work:
    /// it is over where nothing waits, it fails where the project's document
    /// is due and has no place, and else the document that is due is to be
    /// read.
    pub open spec fn begins_with(self, action: SaveAction) -> bool {
        if self.nothing_waits() {
            action == SaveAction::Done(Ok(()))
        } else {
            match self.due_location() {
                None => action == SaveAction::Done(Err(EditError::ConfigDoesNotExist)),
                Some(place) => action matches SaveAction::Load { location } && location@ == place,
            }
        }
    }

    /// Whether a save that was in state `self` and got `event` may go on in
    /// state `after` with `action`.
    pub open spec fn steps(self, event: SaveEvent, after: ProjectView, action: SaveAction) -> bool {
        match event {
            SaveEvent::Start => after == self && self.begins_with(action),
            SaveEvent::Loaded(None) => after == self && action == SaveAction::Done(
                Err(EditError::ConfigDoesNotExist),
            ),
            SaveEvent::Loaded(Some(document)) => after == self && match self.due_location() {
                None => self.begins_with(action),
                Some(place) => match parsed_document(document@) {
                    None => action == SaveAction::Done(Err(EditError::ParsingFailed)),
                    Some(_) => action matches SaveAction::Write { location, text } && location@
                        == place && is_edited_text(document@, self.due_edits(), text@),
                },
            },
            SaveEvent::Written(false) => after == self && action == SaveAction::Done(
                Err(EditError::DiskWriteFailed),
            ),
            SaveEvent::Written(true) => after == self.due_saved() && after.begins_with(action),
        }
    }
}

/// With nothing queued anywhere, a save is over at once, with success, and
/// asks for no read and no write.
pub proof fn lemma_nothing_to_save(config: ProjectView, after: ProjectView, action: SaveAction)
    requires
        config.nothing_waits(),
        config.steps(SaveEvent::Start, after, action),
    ensures
        action == SaveAction::Done(Ok(())),
        after == config,
{
}

/// A queue is emptied only by the report that its document was written: any
/// other report leaves every queue as it was.
pub proof fn lemma_queues_kept_until_written(
    config: ProjectView,
    event: SaveEvent,
    after: ProjectView,
    action: SaveAction,
)
    requires
        config.steps(event, after, action),
        event != SaveEvent::Written(true),
    ensures
        after == config,
{
}

impl ProjectConfig {
    /// The place of the first domain with edits that wait.
    fn first_pending_domain(&self) -> (r: Option<usize>)
        ensures
            match r {
                Some(i) => first_pending(self.deep_view().domains) == Some(i as int) && i
                    < self.domains.len() && self.domains[i as int].pending_edits.len() > 0,
                None => first_pending(self.deep_view().domains) is None,
            },
    {
        let ghost domains = self.deep_view().domains;
        let mut i: usize = 0;
        while i < self.domains.len()
            invariant
                i <= self.domains.len(),
                domains == self.deep_view().domains,
                first_pending(domains.subrange(0, i as int)) is None,
            decreases self.domains.len() - i,
        {
            assert(domains.subrange(0, i + 1).drop_last() =~= domains.subrange(0, i as int));
            if self.domains[i].has_edits() {
                proof {
                    lemma_first_pending_prefix(domains, i + 1);
                }
                return Some(i);
            }
            i += 1;
        }
        assert(domains.subrange(0, self.domains.len() as int) =~= domains);
        None
    }

    /// What a save does when no document is in work.
    fn begin_save(&self) -> (action: SaveAction)
        ensures
            self.deep_view().begins_with(action),
    {
        match self.first_pending_domain() {
            Some(i) => SaveAction::Load { location: self.domains[i].location.clone() },
            None => {
                if self.pending_edits.len() == 0 {
                    SaveAction::Done(Ok(()))
                } else {
                    match &self.location {
                        Some(location) => SaveAction::Load { location: location.clone() },
                        None => SaveAction::Done(Err(EditError::ConfigDoesNotExist)),
                    }
                }
            },
        }
    }

    /// The text to write for the document that is due, given what was read.
    fn edit_due_document(&self, document: &str) -> (action: SaveAction)
        ensures
            match self.deep_view().due_location() {
                None => self.deep_view().begins_with(action),
                Some(place) => match parsed_document(document@) {
                    None => action == SaveAction::Done(Err(EditError::ParsingFailed)),
                    Some(_) => action matches SaveAction::Write { location, text } && location@
                        == place && is_edited_text(document@, self.deep_view().due_edits(), text@),
                },
            },
    {
        match self.first_pending_domain() {
            Some(i) => {
                match edited_document(document, &self.domains[i].pending_edits) {
                    Ok(text) => SaveAction::Write {
                        location: self.domains[i].location.clone(),
                        text,
                    },
                    Err(_) => SaveAction::Done(Err(EditError::ParsingFailed)),
                }
            },
            None => {
                if self.pending_edits.len() == 0 {
                    SaveAction::Done(Ok(()))
                } else {
                    match &self.location {
                        None => SaveAction::Done(Err(EditError::ConfigDoesNotExist)),
                        Some(location) => match edited_document(document, &self.pending_edits) {
                            Ok(text) => SaveAction::Write { location: location.clone(), text },
                            Err(_) => SaveAction::Done(Err(EditError::ParsingFailed)),
                        },
                    }
                }
            },
        }
    }

    /// Empties the queue of the document that is due.
    fn mark_due_saved(&mut self)
        ensures
            final(self).deep_view() == old(self).deep_view().due_saved(),
    {
        match self.first_pending_domain() {
            Some(i) => {
                let ghost before = self.deep_view();
                let mut domain = self.domains[i].clone();
                domain.pending_edits = Vec::new();
                self.domains.set(i, domain);
                assert(self.deep_view().domains =~= domain_saved(before.domains, i as int));
            },
            None => {
                self.pending_edits = Vec::new();
            },
        }
    }

    /// One step of saving the queued edits: takes what the caller reports and
    /// says what to do next.
    ///
    /// A save begins with `Start`. With nothing queued it is over at once.
    /// Else the document that is due is asked for; when it is reported, its
    /// edits are made in it and the new text is handed out; when that text is
    /// reported as written, the document's queue is emptied and the next
    /// document is due. A document that cannot be read ends the save with
    /// `ConfigDoesNotExist`, one that is not well formed with
    /// `ParsingFailed`, and a failed write with `DiskWriteFailed`; the queue
    /// of that document and of those after it stay as they are.
    pub fn apply_edits(&mut self, event: SaveEvent) -> (action: SaveAction)
        ensures
            old(self).deep_view().steps(event, final(self).deep_view(), action),
    {
        match event {
            SaveEvent::Start => self.begin_save(),
            SaveEvent::Loaded(None) => SaveAction::Done(Err(EditError::ConfigDoesNotExist)),
            SaveEvent::Loaded(Some(document)) => self.edit_due_document(document.as_str()),
            SaveEvent::Written(false) => SaveAction::Done(Err(EditError::DiskWriteFailed)),
            SaveEvent::Written(true) => {
                self.mark_due_saved();
                self.begin_save()
            },
        }
    }

    /// One step of saving the queued edits; see `apply_edits`.
    pub fn save_edits(&mut self, event: SaveEvent) -> (action: SaveAction)
        ensures
            old(self).deep_view().steps(event, final(self).deep_view(), action),
    {
        self.apply_edits(event)
    }
}

/// Where the last of the first `upto` domains is the first with edits that
/// wait, it is the first of all.
pub proof fn lemma_first_pending_prefix(domains: Seq<DomainView>, upto: int)
    requires
        0 < upto <= domains.len(),
        first_pending(domains.subrange(0, upto - 1)) is None,
        domains[upto - 1].pending_edits.len() > 0,
    ensures
        first_pending(domains) == Some(upto - 1),
    decreases domains.len() - upto,
{
    let prefix = domains.subrange(0, upto);
    assert(prefix.drop_last() =~= domains.subrange(0, upto - 1));
    assert(first_pending(prefix) == Some(upto - 1));
    if upto < domains.len() {
        lemma_first_pending_grows(domains, upto);
    } else {
        assert(prefix =~= domains);
    }
}

/// A first domain with edits that wait stays the first when more domains
/// follow.
pub proof fn lemma_first_pending_grows(domains: Seq<DomainView>, upto: int)
    requires
        0 <= upto <= domains.len(),
        first_pending(domains.subrange(0, upto)) is Some,
    ensures
        first_pending(domains) == first_pending(domains.subrange(0, upto)),
    decreases domains.len() - upto,
{
    if upto < domains.len() {
        let next = domains.subrange(0, upto + 1);
        assert(next.drop_last() =~= domains.subrange(0, upto));
        lemma_first_pending_grows(domains, upto + 1);
    } else {
        assert(domains.subrange(0, upto) =~= domains);
    }
}

} // verus!
