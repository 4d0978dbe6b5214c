//! A dictionary operation as a sequence of steps: each step is an engine
//! request, a read or a write of the local snapshot, or the end; whoever
//! carries a step out hands its outcome back. Every successful change ends
//! with a fresh fetch of the dictionary written to the snapshot.

use vstd::prelude::*;
use crate::commands::DictionaryCommand;
use crate::dictionary::{
    dictionary_document, dictionary_words, find_in_fetched, fetched_view, lookup, words_view, DictWord,
    WordView,
};
use crate::engine::{http_form, to_http, EngineRequest, HttpRequest, HttpView, HttpMethod};
use crate::error::RelayError;

verus! {

/// What to do next.
pub enum Step {
    /// Make this request; hand back the response body, or the error.
    Send(HttpRequest),
    /// Read the local snapshot; hand back its text, or the error.
    ReadSnapshot,
    /// Overwrite the local snapshot with this text; hand back any text, or the error.
    WriteSnapshot(String),
    /// The operation is over.
    Done(Result<TaskOutcome, RelayError>),
}

/// How a dictionary operation ended well.
pub enum TaskOutcome {
    /// The dictionary was changed and the snapshot rewritten.
    Changed,
    /// The dictionary document, as fetched.
    Listed(String),
}

pub enum OutcomeView {
    Changed,
    Listed(Seq<char>),
}

pub enum StepView {
    Send(HttpView),
    ReadSnapshot,
    WriteSnapshot(Seq<char>),
    Done(Result<OutcomeView, RelayError>),
}

#[derive(Clone, Copy, Debug, PartialEq, Eq, Structural)]
pub enum OpKind {
    Add,
    Edit,
    Remove,
    Reset,
    Restore,
    List,
}

#[derive(Clone, Copy, Debug, PartialEq, Eq, Structural)]
pub enum Phase {
    /// Waiting for the dictionary document fetched to look the surface up.
    Lookup,
    /// Waiting for the snapshot's text.
    Reading,
    /// Waiting for the outcome of a change.
    Sending,
    /// Waiting for the dictionary document fetched after the changes.
    Saving,
    /// Waiting for the snapshot to be written.
    Writing,
    Finished,
}

/// A dictionary operation under way.
pub struct DictionaryTask {
    kind: OpKind,
    surface: String,
    mutation: Option<HttpRequest>,
    phase: Phase,
    /// Changes still to send, the next one last.
    pending: Vec<HttpRequest>,
}

pub struct TaskView {
    pub kind: OpKind,
    pub surface: Seq<char>,
    pub mutation: Option<HttpView>,
    pub phase: Phase,
    /// Changes still to send, in order.
    pub pending: Seq<HttpView>,
}

impl View for DictionaryTask {
    type V = TaskView;

    closed spec fn view(&self) -> TaskView {
        TaskView {
            kind: self.kind,
            surface: self.surface@,
            mutation: match self.mutation {
                Some(m) => Some(m@),
                None => None,
            },
            phase: self.phase,
            pending: Seq::new(self.pending@.len(), |i: int| self.pending@[self.pending@.len() - 1 - i]@),
        }
    }
}

pub open spec fn get_form() -> HttpView {
    http_form(EngineRequest::GetDictionary)
}

pub open spec fn delete_form(id: Seq<char>) -> HttpView {
    HttpView { method: HttpMethod::Delete, path: "/user_dict_word/"@ + id, query: Seq::empty(), body: None }
}

pub open spec fn import_form(doc: Seq<char>) -> HttpView {
    HttpView { method: HttpMethod::Post, path: "/import_user_dict"@, query: seq![("override"@, "true"@)], body: Some(doc) }
}

pub open spec fn outcome_view(o: TaskOutcome) -> OutcomeView {
    match o {
        TaskOutcome::Changed => OutcomeView::Changed,
        TaskOutcome::Listed(d) => OutcomeView::Listed(d@),
    }
}

pub open spec fn step_view(s: Step) -> StepView {
    match s {
        Step::Send(r) => StepView::Send(r@),
        Step::ReadSnapshot => StepView::ReadSnapshot,
        Step::WriteSnapshot(d) => StepView::WriteSnapshot(d@),
        Step::Done(Ok(o)) => StepView::Done(Ok(outcome_view(o))),
        Step::Done(Err(e)) => StepView::Done(Err(e)),
    }
}

pub open spec fn finish(s: TaskView, r: Result<OutcomeView, RelayError>) -> (TaskView, StepView) {
    (TaskView { phase: Phase::Finished, mutation: None, pending: Seq::empty(), ..s }, StepView::Done(r))
}

/// Sends `first`, then the requests in `rest`.
pub open spec fn send_all(s: TaskView, first: HttpView, rest: Seq<HttpView>) -> (TaskView, StepView) {
    (TaskView { phase: Phase::Sending, mutation: None, pending: rest, ..s }, StepView::Send(first))
}

/// Fetches the dictionary to rewrite the snapshot.
pub open spec fn save(s: TaskView) -> (TaskView, StepView) {
    (TaskView { phase: Phase::Saving, mutation: None, pending: Seq::empty(), ..s }, StepView::Send(get_form()))
}

/// The members of a fetched document, for a reset.
pub open spec fn members(doc: Seq<char>) -> Result<Seq<WordView>, RelayError> {
    match dictionary_document(doc) {
        None => Err(RelayError::MalformedDocument),
        Some(None) => Ok(Seq::empty()),
        Some(Some(ws)) => Ok(ws),
    }
}

/// The state and step after the outcome `reply` of the current step.
pub open spec fn advance(s: TaskView, reply: Result<Seq<char>, RelayError>) -> (TaskView, StepView) {
    match s.phase {
        Phase::Lookup => match s.kind {
            OpKind::Add => if lookup(reply, s.surface) is Ok {
                finish(s, Err(RelayError::AlreadyExists))
            } else {
                send_all(s, s.mutation->Some_0, Seq::empty())
            },
            OpKind::Edit => if lookup(reply, s.surface) is Ok {
                send_all(s, s.mutation->Some_0, Seq::empty())
            } else {
                finish(s, Err(RelayError::NotFound))
            },
            OpKind::Remove => match lookup(reply, s.surface) {
                Ok(id) => send_all(s, delete_form(id), Seq::empty()),
                Err(_) => finish(s, Err(RelayError::NotFound)),
            },
            OpKind::Reset => match reply {
                Err(e) => finish(s, Err(e)),
                Ok(doc) => match members(doc) {
                    Err(e) => finish(s, Err(e)),
                    Ok(ws) => if ws.len() == 0 {
                        save(s)
                    } else {
                        send_all(
                            s,
                            delete_form(ws[0].id),
                            Seq::new((ws.len() - 1) as nat, |i: int| delete_form(ws[i + 1].id)),
                        )
                    },
                },
            },
            _ => match reply {
                Err(e) => finish(s, Err(e)),
                Ok(doc) => finish(s, Ok(OutcomeView::Listed(doc))),
            },
        },
        Phase::Reading => match reply {
            Err(e) => finish(s, Err(e)),
            Ok(doc) => send_all(s, import_form(doc), Seq::empty()),
        },
        Phase::Sending => match reply {
            Err(e) => finish(s, Err(e)),
            Ok(_) => if s.pending.len() > 0 {
                send_all(s, s.pending[0], s.pending.subrange(1, s.pending.len() as int))
            } else {
                save(s)
            },
        },
        Phase::Saving => match reply {
            Err(e) => finish(s, Err(e)),
            Ok(doc) => (TaskView { phase: Phase::Writing, ..s }, StepView::WriteSnapshot(doc)),
        },
        _ => match reply {
            Err(e) => finish(s, Err(e)),
            Ok(_) => finish(s, Ok(OutcomeView::Changed)),
        },
    }
}

/// The state and first step of an operation.
pub open spec fn started(kind: OpKind, surface: Seq<char>, mutation: Option<HttpView>) -> (TaskView, StepView) {
    let s = TaskView { kind, surface, mutation, phase: Phase::Lookup, pending: Seq::empty() };
    if kind == OpKind::Restore {
        (TaskView { phase: Phase::Reading, ..s }, StepView::ReadSnapshot)
    } else {
        (s, StepView::Send(get_form()))
    }
}

fn get_request() -> (r: HttpRequest)
    ensures
        r@ == get_form(),
{
    to_http(&EngineRequest::GetDictionary)
}


/// Auto-save: once the last change has succeeded the dictionary is fetched
/// anew, the document fetched is what the snapshot is overwritten with, and
/// only a written snapshot ends the operation as `Changed`. A restore imports
/// the snapshot's text as it was read.
pub proof fn lemma_changes_are_saved(s: TaskView, body: Seq<char>, doc: Seq<char>)
    ensures
        s.phase == Phase::Sending && s.pending.len() == 0 ==> advance(s, Ok(body)).1 == StepView::Send(get_form())
            && advance(s, Ok(body)).0.phase == Phase::Saving,
        s.phase == Phase::Saving ==> advance(s, Ok(doc)).1 == StepView::WriteSnapshot(doc)
            && advance(s, Ok(doc)).0.phase == Phase::Writing,
        s.phase == Phase::Reading ==> advance(s, Ok(doc)).1 == StepView::Send(import_form(doc)),
        forall|r: Result<Seq<char>, RelayError>|
            s.phase != Phase::Finished && #[trigger] advance(s, r).1 == StepView::Done(Ok(OutcomeView::Changed))
                ==> s.phase == Phase::Writing,
{
}

impl DictionaryTask {
    pub closed spec fn wf(&self) -> bool {
        &&& (self.phase == Phase::Lookup && (self.kind == OpKind::Add || self.kind == OpKind::Edit))
            ==> self.mutation is Some
        &&& self.phase != Phase::Sending ==> self.pending@.len() == 0
        &&& self.phase != Phase::Lookup ==> self.mutation is None
        &&& self.kind == OpKind::Restore ==> self.phase != Phase::Lookup
    }

    /// Whether the operation is over.
    pub fn finished(&self) -> (r: bool)
        ensures
            r == (self@.phase == Phase::Finished),
    {
        self.phase == Phase::Finished
    }

    /// Starts a dictionary operation and gives its first step.
    pub fn start(command: DictionaryCommand) -> (r: (DictionaryTask, Step))
        ensures
            r.0.wf(),
            (r.0@, step_view(r.1)) == match command {
                DictionaryCommand::Add(e) => started(OpKind::Add, e.surface@, Some(http_form(EngineRequest::AddWord { entry: e }))),
                DictionaryCommand::Edit(e) => started(OpKind::Edit, e.surface@, Some(http_form(EngineRequest::RewriteWord { entry: e }))),
                DictionaryCommand::Remove(s) => started(OpKind::Remove, s@, None),
                DictionaryCommand::Reset => started(OpKind::Reset, Seq::empty(), None),
                DictionaryCommand::Restore => started(OpKind::Restore, Seq::empty(), None),
                DictionaryCommand::List => started(OpKind::List, Seq::empty(), None),
            },
    {
        let (kind, surface, mutation) = match command {
            DictionaryCommand::Add(e) => {
                let surface = e.surface.clone();
                let m = to_http(&EngineRequest::AddWord { entry: e });
                (OpKind::Add, surface, Some(m))
            },
            DictionaryCommand::Edit(e) => {
                let surface = e.surface.clone();
                let m = to_http(&EngineRequest::RewriteWord { entry: e });
                (OpKind::Edit, surface, Some(m))
            },
            DictionaryCommand::Remove(s) => (OpKind::Remove, s, None),
            DictionaryCommand::Reset => (OpKind::Reset, String::new(), None),
            DictionaryCommand::Restore => (OpKind::Restore, String::new(), None),
            DictionaryCommand::List => (OpKind::List, String::new(), None),
        };
        let is_restore = kind == OpKind::Restore;
        let task = DictionaryTask {
            kind,
            surface,
            mutation,
            phase: if is_restore { Phase::Reading } else { Phase::Lookup },
            pending: Vec::new(),
        };
        let step = if is_restore { Step::ReadSnapshot } else { Step::Send(get_request()) };
        assert(task@.pending =~= Seq::<HttpView>::empty());
        (task, step)
    }

    fn finish_with(&mut self, r: Result<TaskOutcome, RelayError>) -> (s: Step)
        ensures
            final(self).wf(),
            (final(self)@, step_view(s)) == finish(old(self)@, match r {
                Ok(o) => Ok(outcome_view(o)),
                Err(e) => Err(e),
            }),
    {
        self.phase = Phase::Finished;
        self.mutation = None;
        self.pending = Vec::new();
        assert(self@.pending =~= Seq::<HttpView>::empty());
        Step::Done(r)
    }

    fn save_step(&mut self) -> (s: Step)
        ensures
            final(self).wf(),
            (final(self)@, step_view(s)) == save(old(self)@),
    {
        self.phase = Phase::Saving;
        self.mutation = None;
        self.pending = Vec::new();
        assert(self@.pending =~= Seq::<HttpView>::empty());
        Step::Send(get_request())
    }

    /// Hands back the outcome of the current step and gives the next one.
    pub fn step(&mut self, reply: Result<String, RelayError>) -> (s: Step)
        requires
            old(self).wf(),
            old(self)@.phase != Phase::Finished,
        ensures
            final(self).wf(),
            (final(self)@, step_view(s)) == advance(old(self)@, fetched_view(reply)),
    {
        match self.phase {
            Phase::Lookup => {
                if self.kind == OpKind::Reset {
                    match reply {
                        Err(e) => self.finish_with(Err(e)),
                        Ok(doc) => match dictionary_words(doc.as_str()) {
                            Err(e) => self.finish_with(Err(e)),
                            Ok(ws) => {
                                proof {
                                    let doc_v = doc@;
                                    if let Some(Some(wv)) = dictionary_document(doc_v) {
                                        assert(words_view(ws@) == wv);
                                        if ws@.len() > 0 {
                                            assert(wv[0].id == ws@[0].id@);
                                            assert(Seq::new((ws@.len() - 1) as nat, |i: int| delete_form(ws@[i + 1].id@))
                                                =~= Seq::new((wv.len() - 1) as nat, |i: int| delete_form(wv[i + 1].id)));
                                        }
                                    }
                                }
                                self.plan_deletions(&ws)
                            },
                        },
                    }
                } else if self.kind == OpKind::List {
                    match reply {
                        Err(e) => self.finish_with(Err(e)),
                        Ok(doc) => self.finish_with(Ok(TaskOutcome::Listed(doc))),
                    }
                } else {
                    let found = find_in_fetched(&reply, self.surface.as_str());
                    if self.kind == OpKind::Add {
                        match found {
                            Ok(_) => self.finish_with(Err(RelayError::AlreadyExists)),
                            Err(_) => self.send_mutation(),
                        }
                    } else if self.kind == OpKind::Edit {
                        match found {
                            Ok(_) => self.send_mutation(),
                            Err(_) => self.finish_with(Err(RelayError::NotFound)),
                        }
                    } else {
                        match found {
                            Ok(id) => {
                                let req = to_http(&EngineRequest::DeleteWord { id });
                                self.send_only(req)
                            },
                            Err(_) => self.finish_with(Err(RelayError::NotFound)),
                        }
                    }
                }
            },
            Phase::Reading => match reply {
                Err(e) => self.finish_with(Err(e)),
                Ok(doc) => {
                    let req = to_http(&EngineRequest::ImportDictionary { document: doc });
                    self.send_only(req)
                },
            },
            Phase::Sending => match reply {
                Err(e) => self.finish_with(Err(e)),
                Ok(_) => {
                    let ghost before = self@;
                    match self.pending.pop() {
                        Some(req) => {
                            proof {
                                assert(req@ == before.pending[0]);
                                assert(self@.pending =~= before.pending.subrange(1, before.pending.len() as int));
                            }
                            Step::Send(req)
                        },
                        None => self.save_step(),
                    }
                },
            },
            Phase::Saving => match reply {
                Err(e) => self.finish_with(Err(e)),
                Ok(doc) => {
                    self.phase = Phase::Writing;
                    Step::WriteSnapshot(doc)
                },
            },
            _ => match reply {
                Err(e) => self.finish_with(Err(e)),
                Ok(_) => self.finish_with(Ok(TaskOutcome::Changed)),
            },
        }
    }

    fn send_only(&mut self, req: HttpRequest) -> (s: Step)
        requires
            old(self).pending@.len() == 0,
        ensures
            final(self).wf(),
            (final(self)@, step_view(s)) == send_all(old(self)@, req@, Seq::empty()),
    {
        self.phase = Phase::Sending;
        self.mutation = None;
        assert(self@.pending =~= Seq::<HttpView>::empty());
        Step::Send(req)
    }

    fn send_mutation(&mut self) -> (s: Step)
        requires
            old(self).mutation is Some,
            old(self).pending@.len() == 0,
        ensures
            final(self).wf(),
            (final(self)@, step_view(s)) == send_all(old(self)@, old(self)@.mutation->Some_0, Seq::empty()),
    {
        let m = self.mutation.take();
        match m {
            Some(req) => self.send_only(req),
            None => Step::ReadSnapshot,
        }
    }

    fn plan_deletions(&mut self, ws: &Vec<DictWord>) -> (s: Step)
        requires
            old(self).pending@.len() == 0,
        ensures
            final(self).wf(),
            (final(self)@, step_view(s)) == (if ws@.len() == 0 {
                save(old(self)@)
            } else {
                send_all(
                    old(self)@,
                    delete_form(ws@[0].id@),
                    Seq::new((ws@.len() - 1) as nat, |i: int| delete_form(ws@[i + 1].id@)),
                )
            }),
    {
        if ws.len() == 0 {
            return self.save_step();
        }
        let mut pending: Vec<HttpRequest> = Vec::new();
        let mut i: usize = ws.len();
        while i > 1
            invariant
                1 <= i <= ws@.len(),
                pending@.len() == ws@.len() - i,
                forall|j: int| 0 <= j < pending@.len() ==> (#[trigger] pending@[j])@ == delete_form(ws@[ws@.len() - 1 - j].id@),
            decreases i,
        {
            i -= 1;
            let req = to_http(&EngineRequest::DeleteWord { id: ws[i].id.clone() });
            pending.push(req);
        }
        let first = to_http(&EngineRequest::DeleteWord { id: ws[0].id.clone() });
        self.phase = Phase::Sending;
        self.mutation = None;
        self.pending = pending;
        assert(self@.pending =~= Seq::new((ws@.len() - 1) as nat, |k: int| delete_form(ws@[k + 1].id@)));
        Step::Send(first)
    }
}

} // verus!
