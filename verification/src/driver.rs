//! The run that collects the message-table entries of one module.
//!
//! The run itself calls nothing. It asks for one call of the system at a
//! time, a [`Request`], and is told how the call ended, an [`Event`]: load
//! the module, enumerate the names of its message tables, then for each name
//! in the order in which it was found: find the resource, load it, lock it
//! and hand its bytes over. The entries of the tables are put one behind the
//! other in that order. The first call that fails, the first name that
//! cannot be read and the first table that cannot be decoded end the run,
//! and then it has no entries.

use vstd::prelude::*;
use vstd::string::StringExecFns;
use crate::error::{error_text, Error, ErrorModel};
use crate::message_table::{decode_message_table, decode_table, DecodeError, Entries, entries_model};
use crate::sys::{IdModel, InvalidOrdinalString, ResourceId};

verus! {

/// The call that the run asks for next.
#[derive(Clone, Copy, Debug, PartialEq, Eq, Structural)]
pub enum Request {
    /// Load the module.
    LoadModule,
    /// Enumerate the names of the module's message tables.
    EnumerateNames,
    /// Find the resource with the name of the given index.
    FindResource(usize),
    /// Load the resource that was found.
    LoadResource(usize),
    /// Lock the resource that was loaded, and hand over its bytes.
    LockResource(usize),
    /// Nothing: the run has ended.
    Stop,
}

/// How the call that the run asked for has ended.
#[derive(Debug)]
pub enum Event {
    /// The call succeeded, and there is nothing to hand over.
    Done,
    /// The names were enumerated: here they are, in the order in which the
    /// system gave them.
    Names(Vec<ResourceId>),
    /// The resource was locked: here are its bytes.
    Data(Vec<u8>),
    /// The call failed with this error.
    Failed(Error),
    /// The enumeration gave a name that cannot be read.
    BadName(InvalidOrdinalString),
}

/// What a resource's bytes could not be had for.
#[derive(Clone, Copy, Debug, PartialEq, Eq, Structural)]
pub enum FetchError {
    /// The resource was not found.
    NotFound,
    /// The resource could not be loaded.
    LoadFailed,
    /// The resource could not be locked.
    LockFailed,
}

/// Why a run has no entries.
#[derive(Debug, PartialEq, Eq)]
pub enum Failure {
    /// The module could not be loaded.
    Load(Error),
    /// The names could not be enumerated.
    Enumerate(Error),
    /// The bytes of the resource with this name could not be had.
    Fetch(FetchError, ResourceId, Error),
    /// A name starts with `#` and is no number.
    Name(InvalidOrdinalString),
    /// The table of the resource with this name could not be decoded.
    Decode(ResourceId, DecodeError),
}

/// The call that a run waits for, and the names that it holds. A call for
/// a resource is always one for a name that the run holds.
#[derive(Debug)]
struct Plan {
    request: Request,
    names: Vec<ResourceId>,
}

/// The state of a run.
#[derive(Debug)]
pub struct Driver {
    plan: Plan,
    entries: Vec<(u32, String)>,
    failure: Option<Failure>,
}

/// What an [`Event`] holds.
pub enum EventModel {
    Done,
    Names(Seq<IdModel>),
    Data(Seq<u8>),
    Failed(ErrorModel),
    BadName(Seq<char>),
}

/// What a [`Failure`] holds.
pub enum FailureModel {
    Load(ErrorModel),
    Enumerate(ErrorModel),
    Fetch(FetchError, IdModel, ErrorModel),
    Name(Seq<char>),
    Decode(IdModel, DecodeError),
}

/// What a [`Driver`] holds: the call it waits for, the names that were
/// enumerated, the entries collected so far, and why it failed if it did.
pub struct DriverModel {
    pub request: Request,
    pub names: Seq<IdModel>,
    pub entries: Entries,
    pub failure: Option<FailureModel>,
}

/// What a vector of identifiers holds.
pub open spec fn names_model(names: Seq<ResourceId>) -> Seq<IdModel> {
    Seq::new(names.len(), |i: int| names[i]@)
}

impl View for Event {
    type V = EventModel;

    open spec fn view(&self) -> EventModel {
        match self {
            Event::Done => EventModel::Done,
            Event::Names(names) => EventModel::Names(names_model(names@)),
            Event::Data(bytes) => EventModel::Data(bytes@),
            Event::Failed(cause) => EventModel::Failed(cause@),
            Event::BadName(name) => EventModel::BadName(name.text@),
        }
    }
}

impl View for Failure {
    type V = FailureModel;

    open spec fn view(&self) -> FailureModel {
        match self {
            Failure::Load(cause) => FailureModel::Load(cause@),
            Failure::Enumerate(cause) => FailureModel::Enumerate(cause@),
            Failure::Fetch(kind, name, cause) => FailureModel::Fetch(*kind, name@, cause@),
            Failure::Name(name) => FailureModel::Name(name.text@),
            Failure::Decode(name, error) => FailureModel::Decode(name@, *error),
        }
    }
}

impl Clone for Failure {
    fn clone(&self) -> (copy: Failure)
        ensures
            copy@ == self@,
    {
        match self {
            Failure::Load(cause) => Failure::Load(cause.clone()),
            Failure::Enumerate(cause) => Failure::Enumerate(cause.clone()),
            Failure::Fetch(kind, name, cause) => Failure::Fetch(*kind, name.clone(), cause.clone()),
            Failure::Name(name) => Failure::Name(name.clone()),
            Failure::Decode(name, error) => Failure::Decode(name.clone(), *error),
        }
    }
}

impl View for Driver {
    type V = DriverModel;

    closed spec fn view(&self) -> DriverModel {
        DriverModel {
            request: self.plan.request,
            names: names_model(self.plan.names@),
            entries: entries_model(self.entries@),
            failure: match self.failure {
                Some(failure) => Some(failure@),
                None => None,
            },
        }
    }
}

/// A run that has not started: it asks for the module.
pub open spec fn start() -> DriverModel {
    DriverModel {
        request: Request::LoadModule,
        names: Seq::empty(),
        entries: Seq::empty(),
        failure: None,
    }
}

/// The run after it has failed: it asks for nothing more and has no entries.
pub open spec fn failed(run: DriverModel, failure: FailureModel) -> DriverModel {
    DriverModel {
        request: Request::Stop,
        names: run.names,
        entries: Seq::empty(),
        failure: Some(failure),
    }
}

/// The run with another call to wait for.
pub open spec fn waiting(run: DriverModel, request: Request) -> DriverModel {
    DriverModel { request, names: run.names, entries: run.entries, failure: run.failure }
}

/// The failure that it is when the call `request` fails with `cause`, in a
/// run with the names `names`.
pub open spec fn call_failure(request: Request, names: Seq<IdModel>, cause: ErrorModel) -> Option<
    FailureModel,
> {
    match request {
        Request::LoadModule => Some(FailureModel::Load(cause)),
        Request::EnumerateNames => Some(FailureModel::Enumerate(cause)),
        Request::FindResource(index) => Some(
            FailureModel::Fetch(FetchError::NotFound, names[index as int], cause),
        ),
        Request::LoadResource(index) => Some(
            FailureModel::Fetch(FetchError::LoadFailed, names[index as int], cause),
        ),
        Request::LockResource(index) => Some(
            FailureModel::Fetch(FetchError::LockFailed, names[index as int], cause),
        ),
        Request::Stop => None,
    }
}

/// The call that the run waits for is one for a name that the run holds.
pub open spec fn asks_within(run: DriverModel) -> bool {
    match run.request {
        Request::FindResource(index) => index < run.names.len(),
        Request::LoadResource(index) => index < run.names.len(),
        Request::LockResource(index) => index < run.names.len(),
        _ => true,
    }
}

/// The first call for the resource with the index `index`, where there are
/// `count` names; the end of the run where there is no such resource.
pub open spec fn resource_or_stop(index: int, count: nat) -> Request {
    if 0 <= index < count && index <= usize::MAX {
        Request::FindResource(index as usize)
    } else {
        Request::Stop
    }
}

/// The run after `event` has answered the call it waited for. An event that
/// is no answer to that call changes nothing.
pub open spec fn step_spec(run: DriverModel, event: EventModel) -> DriverModel {
    match (run.request, event) {
        (Request::Stop, _) => run,
        (request, EventModel::Failed(cause)) => failed(
            run,
            call_failure(request, run.names, cause)->0,
        ),
        (Request::LoadModule, EventModel::Done) => waiting(run, Request::EnumerateNames),
        (Request::EnumerateNames, EventModel::Names(names)) => DriverModel {
            request: resource_or_stop(0, names.len()),
            names,
            entries: run.entries,
            failure: run.failure,
        },
        (Request::EnumerateNames, EventModel::BadName(text)) => failed(
            run,
            FailureModel::Name(text),
        ),
        (Request::FindResource(index), EventModel::Done) => waiting(
            run,
            Request::LoadResource(index),
        ),
        (Request::LoadResource(index), EventModel::Done) => waiting(
            run,
            Request::LockResource(index),
        ),
        (Request::LockResource(index), EventModel::Data(bytes)) => match decode_table(bytes) {
            Ok(entries) => DriverModel {
                request: resource_or_stop(index + 1, run.names.len()),
                names: run.names,
                entries: run.entries + entries,
                failure: run.failure,
            },
            Err(error) => failed(run, FailureModel::Decode(run.names[index as int], error)),
        },
        _ => run,
    }
}

/// What a run that has ended came to: its entries, or why it has none.
pub open spec fn outcome(run: DriverModel) -> Result<Entries, FailureModel> {
    match run.failure {
        Some(failure) => Err(failure),
        None => Ok(run.entries),
    }
}

/// What went wrong, in words.
pub open spec fn failure_context(failure: FailureModel) -> Seq<char> {
    match failure {
        FailureModel::Load(_) => "failed to load the module"@,
        FailureModel::Enumerate(_) => "failed to enumerate message table resource names"@,
        FailureModel::Fetch(FetchError::NotFound, _, _) => "failed to find the resource"@,
        FailureModel::Fetch(FetchError::LoadFailed, _, _) => "failed to load the resource"@,
        FailureModel::Fetch(FetchError::LockFailed, _, _) => "failed to lock the resource"@,
        FailureModel::Name(_) => "failed to read a resource name"@,
        FailureModel::Decode(_, _) => "failed to decode a message table"@,
    }
}

/// What it went wrong with, in words.
pub open spec fn failure_cause(failure: FailureModel) -> Seq<char> {
    match failure {
        FailureModel::Load(cause) => error_text(cause),
        FailureModel::Enumerate(cause) => error_text(cause),
        FailureModel::Fetch(_, _, cause) => error_text(cause),
        FailureModel::Name(text) => text,
        FailureModel::Decode(_, DecodeError::Truncated) => "truncated message table"@,
        FailureModel::Decode(_, DecodeError::UnknownEncodingFlag) =>
            "unexpected flags value in message table entry"@,
    }
}

/// A failure as it is shown.
pub open spec fn failure_text(failure: FailureModel) -> Seq<char> {
    "failed to get message table entries"@ + failure_context(failure) + ": "@ + failure_cause(
        failure,
    )
}

impl Failure {
    /// What went wrong, in words.
    pub fn context(&self) -> (text: &'static str)
        ensures
            text@ == failure_context(self@),
    {
        match self {
            Failure::Load(_) => "failed to load the module",
            Failure::Enumerate(_) => "failed to enumerate message table resource names",
            Failure::Fetch(FetchError::NotFound, _, _) => "failed to find the resource",
            Failure::Fetch(FetchError::LoadFailed, _, _) => "failed to load the resource",
            Failure::Fetch(FetchError::LockFailed, _, _) => "failed to lock the resource",
            Failure::Name(_) => "failed to read a resource name",
            Failure::Decode(_, _) => "failed to decode a message table",
        }
    }

    /// What it went wrong with, in words.
    pub fn cause(&self) -> (text: String)
        ensures
            text@ == failure_cause(self@),
    {
        match self {
            Failure::Load(cause) => cause.to_string(),
            Failure::Enumerate(cause) => cause.to_string(),
            Failure::Fetch(_, _, cause) => cause.to_string(),
            Failure::Name(name) => name.text.clone(),
            Failure::Decode(_, DecodeError::Truncated) => "truncated message table".to_owned(),
            Failure::Decode(_, DecodeError::UnknownEncodingFlag) =>
                "unexpected flags value in message table entry".to_owned(),
        }
    }

    /// The name of the resource that the failure is about, where it is
    /// about one.
    pub fn resource(&self) -> (name: Option<&ResourceId>)
        ensures
            match self@ {
                FailureModel::Fetch(_, id, _) => name matches Some(held) && held@ == id,
                FailureModel::Decode(id, _) => name matches Some(held) && held@ == id,
                _ => name is None,
            },
    {
        match self {
            Failure::Fetch(_, name, _) => Some(name),
            Failure::Decode(name, _) => Some(name),
            _ => None,
        }
    }

    /// The failure as it is shown.
    pub fn to_string(&self) -> (text: String)
        ensures
            text@ == failure_text(self@),
    {
        let mut text = "failed to get message table entries".to_owned();
        text.append(self.context());
        text.append(": ");
        let cause = self.cause();
        text.append(cause.as_str());
        text
    }
}

impl Plan {
    /// A call for a resource is a call for a name that the run holds.
    #[verifier::type_invariant]
    spec fn asks_for_held_name(&self) -> bool {
        match self.request {
            Request::FindResource(index) => index < self.names@.len(),
            Request::LoadResource(index) => index < self.names@.len(),
            Request::LockResource(index) => index < self.names@.len(),
            _ => true,
        }
    }
}

impl Driver {
    /// A run that has not started.
    pub fn new() -> (driver: Driver)
        ensures
            driver@ == start(),
    {
        let driver = Driver {
            plan: Plan { request: Request::LoadModule, names: Vec::new() },
            entries: Vec::new(),
            failure: None,
        };
        assert(driver@.names == Seq::<IdModel>::empty());
        assert(driver@.entries == Seq::<(u32, Seq<char>)>::empty());
        driver
    }

    /// The call that the run waits for. Where it is a call for a resource,
    /// the run holds the resource's name.
    pub fn request(&self) -> (request: Request)
        ensures
            request == self@.request,
            asks_within(self@),
    {
        proof {
            use_type_invariant(&self.plan);
        }
        self.plan.request
    }

    /// The name with the index `index`, in the order in which the names were
    /// enumerated.
    pub fn name(&self, index: usize) -> (name: Option<&ResourceId>)
        ensures
            match name {
                Some(id) => index < self@.names.len() && id@ == self@.names[index as int],
                None => index >= self@.names.len(),
            },
    {
        if index < self.plan.names.len() {
            Some(&self.plan.names[index])
        } else {
            None
        }
    }

    /// Takes in how the call that the run waited for has ended, and tells
    /// which call it waits for now.
    pub fn step(&mut self, event: Event) -> (request: Request)
        ensures
            final(self)@ == step_spec(old(self)@, event@),
            request == final(self)@.request,
            asks_within(final(self)@),
    {
        proof {
            use_type_invariant(&self.plan);
        }
        match self.plan.request {
            Request::Stop => {},
            pending => match event {
                Event::Failed(cause) => match pending {
                    Request::LoadModule => {
                        self.fail(Failure::Load(cause));
                    },
                    Request::EnumerateNames => {
                        self.fail(Failure::Enumerate(cause));
                    },
                    Request::FindResource(index) => {
                        let name = self.plan.names[index].clone();
                        self.fail(Failure::Fetch(FetchError::NotFound, name, cause));
                    },
                    Request::LoadResource(index) => {
                        let name = self.plan.names[index].clone();
                        self.fail(Failure::Fetch(FetchError::LoadFailed, name, cause));
                    },
                    Request::LockResource(index) => {
                        let name = self.plan.names[index].clone();
                        self.fail(Failure::Fetch(FetchError::LockFailed, name, cause));
                    },
                    Request::Stop => {},
                },
                Event::Done => match pending {
                    Request::LoadModule => {
                        self.plan.request = Request::EnumerateNames;
                    },
                    Request::FindResource(index) => {
                        self.plan.request = Request::LoadResource(index);
                    },
                    Request::LoadResource(index) => {
                        self.plan.request = Request::LockResource(index);
                    },
                    _ => {},
                },
                Event::Names(names) => match pending {
                    Request::EnumerateNames => {
                        let first = if names.len() > 0 {
                            Request::FindResource(0)
                        } else {
                            Request::Stop
                        };
                        self.plan.names = names;
                        self.plan.request = first;
                    },
                    _ => {},
                },
                Event::BadName(name) => match pending {
                    Request::EnumerateNames => {
                        self.fail(Failure::Name(name));
                    },
                    _ => {},
                },
                Event::Data(bytes) => match pending {
                    Request::LockResource(index) => {
                        match decode_message_table(bytes.as_slice()) {
                            Ok(mut entries) => {
                                let ghost added = entries_model(entries@);
                                let ghost had = entries_model(self.entries@);
                                self.entries.append(&mut entries);
                                assert(entries_model(self.entries@) == had + added);
                                let count = self.plan.names.len();
                                self.plan.request = if index + 1 < count {
                                    Request::FindResource(index + 1)
                                } else {
                                    Request::Stop
                                };
                            },
                            Err(error) => {
                                let name = self.plan.names[index].clone();
                                self.fail(Failure::Decode(name, error));
                            },
                        }
                    },
                    _ => {},
                },
            },
        }
        self.plan.request
    }

    /// Ends the run with `failure`.
    fn fail(&mut self, failure: Failure)
        ensures
            final(self)@ == failed(old(self)@, failure@),
    {
        self.plan.request = Request::Stop;
        self.entries = Vec::new();
        self.failure = Some(failure);
        assert(self@.entries == Seq::<(u32, Seq<char>)>::empty());
    }

    /// What the run came to: all entries, or why there are none. `None`
    /// while the run has not ended.
    pub fn finish(self) -> (result: Option<Result<Vec<(u32, String)>, Failure>>)
        ensures
            match result {
                None => self@.request != Request::Stop,
                Some(Ok(entries)) => self@.request == Request::Stop && outcome(self@) == Ok::<
                    Entries,
                    FailureModel,
                >(entries_model(entries@)),
                Some(Err(failure)) => self@.request == Request::Stop && outcome(self@) == Err::<
                    Entries,
                    FailureModel,
                >(failure@),
            },
    {
        match self.plan.request {
            Request::Stop => match self.failure {
                Some(failure) => Some(Err(failure)),
                None => Some(Ok(self.entries)),
            },
            _ => None,
        }
    }
}

/// The entries of `tables`, table behind table.
pub open spec fn all_entries(tables: Seq<Seq<u8>>) -> Entries
    decreases tables.len(),
{
    if tables.len() == 0 {
        Seq::empty()
    } else {
        all_entries(tables.drop_last()) + decode_table(tables.last())->Ok_0
    }
}

/// The run after the resources that hold `tables` have come in one after
/// the other: each was found, loaded, and locked with its bytes.
pub open spec fn fetch_all(run: DriverModel, tables: Seq<Seq<u8>>) -> DriverModel
    decreases tables.len(),
{
    if tables.len() == 0 {
        run
    } else {
        step_spec(
            step_spec(
                step_spec(fetch_all(run, tables.drop_last()), EventModel::Done),
                EventModel::Done,
            ),
            EventModel::Data(tables.last()),
        )
    }
}

/// The run in which the module was loaded and `names` were enumerated.
pub open spec fn enumerated(names: Seq<IdModel>) -> DriverModel {
    step_spec(step_spec(start(), EventModel::Done), EventModel::Names(names))
}

proof fn lemma_fetch_prefix(names: Seq<IdModel>, tables: Seq<Seq<u8>>, k: int)
    requires
        names.len() == tables.len(),
        names.len() <= usize::MAX,
        forall|i: int| 0 <= i < tables.len() ==> (#[trigger] decode_table(tables[i])) is Ok,
        0 <= k <= tables.len(),
    ensures
        fetch_all(enumerated(names), tables.take(k)) == (DriverModel {
            request: resource_or_stop(k, names.len()),
            names,
            entries: all_entries(tables.take(k)),
            failure: None,
        }),
    decreases k,
{
    if k > 0 {
        lemma_fetch_prefix(names, tables, k - 1);
        assert(tables.take(k).drop_last() == tables.take(k - 1));
        assert(tables.take(k).last() == tables[k - 1]);
        assert(decode_table(tables[k - 1]) is Ok);
    } else {
        assert(tables.take(0).len() == 0);
    }
}

/// A run in which no call fails and every table can be decoded ends with
/// the entries of all tables, in the order in which the names of their
/// resources were enumerated, each table's entries in full.
pub proof fn lemma_run_collects_in_order(names: Seq<IdModel>, tables: Seq<Seq<u8>>)
    requires
        names.len() == tables.len(),
        names.len() <= usize::MAX,
        forall|i: int| 0 <= i < tables.len() ==> (#[trigger] decode_table(tables[i])) is Ok,
    ensures
        fetch_all(enumerated(names), tables).request == Request::Stop,
        fetch_all(enumerated(names), tables).names == names,
        outcome(fetch_all(enumerated(names), tables)) == Ok::<Entries, FailureModel>(
            all_entries(tables),
        ),
{
    lemma_fetch_prefix(names, tables, tables.len() as int);
    assert(tables.take(tables.len() as int) == tables);
}

/// The first call that fails ends the run: it asks for nothing more, it has
/// no entries, and no later event changes that.
pub proof fn lemma_failed_call_ends_run(run: DriverModel, cause: ErrorModel, later: EventModel)
    requires
        run.request != Request::Stop,
    ensures
        step_spec(run, EventModel::Failed(cause)).request == Request::Stop,
        step_spec(run, EventModel::Failed(cause)).entries.len() == 0,
        outcome(step_spec(run, EventModel::Failed(cause))) == Err::<Entries, FailureModel>(
            call_failure(run.request, run.names, cause)->0,
        ),
        step_spec(step_spec(run, EventModel::Failed(cause)), later) == step_spec(
            run,
            EventModel::Failed(cause),
        ),
{
}

/// A table that cannot be decoded ends the run with the table's error, and
/// the entries of the tables before it are not returned.
pub proof fn lemma_bad_table_ends_run(run: DriverModel, index: usize, bytes: Seq<u8>)
    requires
        run.request == Request::LockResource(index),
        decode_table(bytes) is Err,
    ensures
        step_spec(run, EventModel::Data(bytes)).request == Request::Stop,
        step_spec(run, EventModel::Data(bytes)).entries.len() == 0,
        outcome(step_spec(run, EventModel::Data(bytes))) == Err::<Entries, FailureModel>(
            FailureModel::Decode(run.names[index as int], decode_table(bytes)->Err_0),
        ),
{
}

} // verus!
