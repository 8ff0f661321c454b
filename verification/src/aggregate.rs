//! The entry filter and aggregator.
//!
//! A run goes through the entries in order. Each entry is either settled
//! from what the run already knows, or the run asks its caller for a fetch
//! and goes on when the answer is supplied. The rule for one entry is
//! [`rule`]; [`settle`] and [`supplied`] say how a run moves.

use vstd::prelude::*;
use crate::cache::LookupCache;
use crate::entry::{EntryModel, TimeEntry};
use crate::store::{flagged, BilledStore};
use crate::summary::{total_or_zero, Summary};

verus! {

/// What became of one entry.
#[derive(Clone, Copy, Debug, PartialEq, Eq, Structural)]
pub enum Outcome {
    /// The store holds the entry as billed: skipped.
    AlreadyBilled,
    /// The entry's timer is still running: skipped with a warning.
    NegativeDuration,
    /// The entry has no project: skipped with a warning.
    MissingProject,
    /// The entry's project has no client: skipped with a warning.
    ProjectWithoutClient,
    /// The entry belongs to another client: read and left out.
    OtherClient,
    /// The entry was added to the summary and to the ids to bill.
    Billed,
}

impl Outcome {
    /// Whether the entry was skipped for a reason that the operator is
    /// warned of: a running timer, a missing project, or a project without
    /// a client.
    pub open spec fn warns(self) -> bool {
        self == Outcome::NegativeDuration || self == Outcome::MissingProject || self
            == Outcome::ProjectWithoutClient
    }

    /// Whether the entry was skipped with a warning.
    pub fn is_warning(&self) -> (warning: bool)
        ensures
            warning == self.warns(),
    {
        match self {
            Outcome::NegativeDuration => true,
            Outcome::MissingProject => true,
            Outcome::ProjectWithoutClient => true,
            Outcome::AlreadyBilled => false,
            Outcome::OtherClient => false,
            Outcome::Billed => false,
        }
    }
}

/// Why a run was given up.
#[derive(Clone, Copy, Debug, PartialEq, Eq, Structural)]
pub enum AggregateError {
    /// An entry that is not billed yet has no duration.
    MissingDuration { entry_id: i64 },
    /// A client record has no name.
    ClientWithoutName { client_id: i64 },
    /// The seconds of a description no longer fit in 64 bits.
    TotalOverflow { entry_id: i64 },
    /// An answer was supplied that the run had not asked for.
    UnexpectedResponse,
}

/// What a run needs from its caller next.
#[derive(Clone, Copy, Debug, PartialEq, Eq, Structural)]
pub enum Request {
    /// Fetch the project and supply its client id.
    FetchProject { project_id: i64 },
    /// Fetch the client and supply its name.
    FetchClient { client_id: i64 },
    /// Every entry is settled.
    Finished,
}

/// The seconds to wait before each fetch, out of courtesy to the service.
pub const FETCH_PAUSE_SECONDS: u64 = 1;

impl Request {
    /// The seconds to wait before the request is carried out: the pause
    /// before every fetch, and none once the run is finished.
    pub fn pause_seconds(&self) -> (seconds: u64)
        ensures
            seconds == (if *self == Request::Finished {
                0
            } else {
                FETCH_PAUSE_SECONDS
            }),
    {
        match self {
            Request::Finished => 0,
            Request::FetchProject { .. } => FETCH_PAUSE_SECONDS,
            Request::FetchClient { .. } => FETCH_PAUSE_SECONDS,
        }
    }
}

/// The answer to a request.
#[derive(Clone, Debug)]
pub enum Response {
    /// The client id of the fetched project, if it has one.
    Project { client_id: Option<i64> },
    /// The name of the fetched client, if it has one.
    Client { name: Option<String> },
}

/// The mathematical content of a [`Response`].
pub enum ResponseModel {
    Project { client_id: Option<i64> },
    Client { name: Option<Seq<char>> },
}

impl View for Response {
    type V = ResponseModel;

    open spec fn view(&self) -> ResponseModel {
        match *self {
            Response::Project { client_id } => ResponseModel::Project { client_id },
            Response::Client { name } => ResponseModel::Client {
                name: match name {
                    Some(text) => Some(text@),
                    None => None,
                },
            },
        }
    }
}

/// A request together with the answer that was supplied for it.
pub struct Exchange {
    pub request: Request,
    pub response: ResponseModel,
}

/// What the rule says of one entry.
#[derive(Clone, Copy, Debug, PartialEq, Eq, Structural)]
pub enum Ruling {
    /// The entry is settled with this outcome.
    Settled(Outcome),
    /// The entry's project is not in the cache.
    NeedProject(i64),
    /// The client of the entry's project is not in the cache.
    NeedClient(i64),
    /// The run cannot go on.
    Fatal(AggregateError),
}

/// The mathematical state of a run.
pub struct RunModel {
    /// The entries of the date window, in the order received.
    pub entries: Seq<EntryModel>,
    /// The name of the client that is billed.
    pub target: Seq<char>,
    /// The billed flags that the run started with.
    pub billed: Map<i64, bool>,
    /// Project id to client id, as fetched so far.
    pub projects: Map<i64, i64>,
    /// Client id to name, as fetched so far.
    pub clients: Map<i64, Seq<char>>,
    /// The outcomes of the entries settled so far, in order.
    pub outcomes: Seq<Outcome>,
    /// The error that ended the run, if one did.
    pub failure: Option<AggregateError>,
    /// Every answer that the run accepted, with its request, in order.
    pub history: Seq<Exchange>,
}

/// The seconds of an entry; zero where it has no duration.
pub open spec fn seconds_of(entry: EntryModel) -> int {
    match entry.duration {
        Some(d) => d as int,
        None => 0,
    }
}

/// Description to total seconds over the entries whose outcome is
/// [`Outcome::Billed`].
pub open spec fn totals(entries: Seq<EntryModel>, outcomes: Seq<Outcome>) -> Map<Seq<char>, int>
    decreases outcomes.len(),
{
    if outcomes.len() == 0 {
        Map::empty()
    } else {
        let last = outcomes.len() - 1;
        let before = totals(entries, outcomes.drop_last());
        if outcomes[last] == Outcome::Billed {
            before.insert(
                entries[last].description,
                total_or_zero(before, entries[last].description) + seconds_of(entries[last]),
            )
        } else {
            before
        }
    }
}

/// The ids of the entries whose outcome is [`Outcome::Billed`], in order.
pub open spec fn billed_ids(entries: Seq<EntryModel>, outcomes: Seq<Outcome>) -> Seq<i64>
    decreases outcomes.len(),
{
    if outcomes.len() == 0 {
        Seq::empty()
    } else {
        let last = outcomes.len() - 1;
        let before = billed_ids(entries, outcomes.drop_last());
        if outcomes[last] == Outcome::Billed {
            before.push(entries[last].id)
        } else {
            before
        }
    }
}

impl RunModel {
    /// The index of the entry that is settled next.
    pub open spec fn cursor(self) -> int {
        self.outcomes.len() as int
    }

    /// Every entry is settled and no error ended the run.
    pub open spec fn finished(self) -> bool {
        self.failure is None && self.outcomes.len() == self.entries.len()
    }

    /// The summary so far.
    pub open spec fn totals(self) -> Map<Seq<char>, int> {
        totals(self.entries, self.outcomes)
    }

    /// The ids to bill so far.
    pub open spec fn billed_ids(self) -> Seq<i64> {
        billed_ids(self.entries, self.outcomes)
    }

    /// The run after one more entry was settled with `outcome`.
    pub open spec fn settled_with(self, outcome: Outcome) -> RunModel {
        RunModel { outcomes: self.outcomes.push(outcome), ..self }
    }
}

/// The rule for one entry, in the order in which its conditions are tested:
/// an entry that is billed already is skipped; its duration must be there
/// and must not be negative; it must have a project; the project's client
/// and the client's name come from the cache or must be fetched; and the
/// entry is billed if that name is the target's.
pub open spec fn rule(entry: EntryModel, run: RunModel) -> Ruling {
    if flagged(run.billed, entry.id) {
        Ruling::Settled(Outcome::AlreadyBilled)
    } else if entry.duration is None {
        Ruling::Fatal(AggregateError::MissingDuration { entry_id: entry.id })
    } else if entry.duration->0 < 0 {
        Ruling::Settled(Outcome::NegativeDuration)
    } else if entry.project_id is None {
        Ruling::Settled(Outcome::MissingProject)
    } else if !run.projects.contains_key(entry.project_id->0) {
        Ruling::NeedProject(entry.project_id->0)
    } else if !run.clients.contains_key(run.projects[entry.project_id->0]) {
        Ruling::NeedClient(run.projects[entry.project_id->0])
    } else if run.clients[run.projects[entry.project_id->0]] != run.target {
        Ruling::Settled(Outcome::OtherClient)
    } else if total_or_zero(run.totals(), entry.description) + entry.duration->0 > i64::MAX {
        Ruling::Fatal(AggregateError::TotalOverflow { entry_id: entry.id })
    } else {
        Ruling::Settled(Outcome::Billed)
    }
}

/// Settles entries from the cursor on for as long as the rule settles them,
/// and says what stopped it: a fetch that is needed, the end of the
/// entries, or an error.
pub open spec fn settle(run: RunModel) -> (RunModel, Result<Request, AggregateError>)
    decreases run.entries.len() - run.outcomes.len(),
{
    if run.outcomes.len() >= run.entries.len() {
        (run, Ok(Request::Finished))
    } else {
        match rule(run.entries[run.cursor()], run) {
            Ruling::Settled(outcome) => settle(run.settled_with(outcome)),
            Ruling::NeedProject(project_id) => (run, Ok(Request::FetchProject { project_id })),
            Ruling::NeedClient(client_id) => (run, Ok(Request::FetchClient { client_id })),
            Ruling::Fatal(error) => (run, Err(error)),
        }
    }
}

/// The run and the request after the caller asked what to do next. A run
/// that was given up repeats its error.
pub open spec fn advanced(run: RunModel) -> (RunModel, Result<Request, AggregateError>) {
    match run.failure {
        Some(error) => (run, Err(error)),
        None => settle(run),
    }
}

/// The run after `response` was supplied.
///
/// The answer must be the one that the entry at the cursor waits for. A
/// client id or a name goes into the cache. A project without a client
/// settles the entry and leaves the cache as it was. A client without a name
/// ends the run.
pub open spec fn supplied(run: RunModel, response: ResponseModel) -> (
    RunModel,
    Result<(), AggregateError>,
) {
    if run.failure is Some {
        (run, Err(run.failure->0))
    } else if run.outcomes.len() >= run.entries.len() {
        (run, Err(AggregateError::UnexpectedResponse))
    } else {
        match (rule(run.entries[run.cursor()], run), response) {
            (Ruling::NeedProject(project_id), ResponseModel::Project { client_id }) => {
                let logged = run.history.push(
                    Exchange { request: Request::FetchProject { project_id }, response },
                );
                match client_id {
                    Some(client_id) => (
                        RunModel {
                            projects: run.projects.insert(project_id, client_id),
                            history: logged,
                            ..run
                        },
                        Ok(()),
                    ),
                    None => (
                        RunModel {
                            outcomes: run.outcomes.push(Outcome::ProjectWithoutClient),
                            history: logged,
                            ..run
                        },
                        Ok(()),
                    ),
                }
            },
            (Ruling::NeedClient(client_id), ResponseModel::Client { name }) => {
                let logged = run.history.push(
                    Exchange { request: Request::FetchClient { client_id }, response },
                );
                match name {
                    Some(name) => (
                        RunModel {
                            clients: run.clients.insert(client_id, name),
                            history: logged,
                            ..run
                        },
                        Ok(()),
                    ),
                    None => (
                        RunModel {
                            failure: Some(AggregateError::ClientWithoutName { client_id }),
                            history: logged,
                            ..run
                        },
                        Err(AggregateError::ClientWithoutName { client_id }),
                    ),
                }
            },
            _ => (run, Err(AggregateError::UnexpectedResponse)),
        }
    }
}

/// The entry is not billed yet, has a duration that is not negative, and a
/// project whose client and client name are in the cache.
pub open spec fn resolved(entry: EntryModel, run: RunModel) -> bool {
    &&& !flagged(run.billed, entry.id)
    &&& entry.duration is Some
    &&& entry.duration->0 >= 0
    &&& entry.project_id is Some
    &&& run.projects.contains_key(entry.project_id->0)
    &&& run.clients.contains_key(run.projects[entry.project_id->0])
}

/// What an outcome says of its entry.
pub open spec fn justified(entry: EntryModel, outcome: Outcome, run: RunModel) -> bool {
    match outcome {
        Outcome::AlreadyBilled => flagged(run.billed, entry.id),
        Outcome::NegativeDuration => {
            &&& !flagged(run.billed, entry.id)
            &&& entry.duration is Some
            &&& entry.duration->0 < 0
        },
        Outcome::MissingProject => {
            &&& !flagged(run.billed, entry.id)
            &&& entry.duration is Some
            &&& entry.duration->0 >= 0
            &&& entry.project_id is None
        },
        Outcome::ProjectWithoutClient => {
            &&& !flagged(run.billed, entry.id)
            &&& entry.duration is Some
            &&& entry.duration->0 >= 0
            &&& entry.project_id is Some
        },
        Outcome::OtherClient => {
            &&& resolved(entry, run)
            &&& run.clients[run.projects[entry.project_id->0]] != run.target
        },
        Outcome::Billed => {
            &&& resolved(entry, run)
            &&& run.clients[run.projects[entry.project_id->0]] == run.target
        },
    }
}

/// The answer of the exchange carried what was asked for.
pub open spec fn learned(exchange: Exchange) -> bool {
    match exchange.response {
        ResponseModel::Project { client_id } => client_id is Some,
        ResponseModel::Client { name } => name is Some,
    }
}

/// The cache holds what `request` asks for.
pub open spec fn cached(run: RunModel, request: Request) -> bool {
    match request {
        Request::FetchProject { project_id } => run.projects.contains_key(project_id),
        Request::FetchClient { client_id } => run.clients.contains_key(client_id),
        Request::Finished => false,
    }
}

/// The cache holds what the exchange learned, under the key that was asked.
pub open spec fn remembered(run: RunModel, exchange: Exchange) -> bool {
    match (exchange.request, exchange.response) {
        (
            Request::FetchProject { project_id },
            ResponseModel::Project { client_id: Some(client_id) },
        ) => run.projects.contains_key(project_id) && run.projects[project_id] == client_id,
        (Request::FetchClient { client_id }, ResponseModel::Client { name: Some(name) }) => {
            run.clients.contains_key(client_id) && run.clients[client_id] == name
        },
        _ => false,
    }
}

/// The exchange at `k` asked for `request` and learned it.
pub open spec fn learned_at(history: Seq<Exchange>, k: int, request: Request) -> bool {
    0 <= k < history.len() && history[k].request == request && learned(history[k])
}

impl RunModel {
    /// The invariant of a run: each outcome holds of its entry; what an
    /// exchange learned is in the cache; nothing is asked again once it was
    /// learned; and everything in the cache was learned in some exchange.
    pub open spec fn wf(self) -> bool {
        &&& self.outcomes.len() <= self.entries.len()
        &&& forall|i: int|
            0 <= i < self.outcomes.len() ==> justified(
                self.entries[i],
                #[trigger] self.outcomes[i],
                self,
            )
        &&& forall|k: int|
            0 <= k < self.history.len() && learned(#[trigger] self.history[k]) ==> remembered(
                self,
                self.history[k],
            )
        &&& forall|k: int, later: int|
            0 <= k < later < self.history.len() && learned(#[trigger] self.history[k])
                ==> (#[trigger] self.history[later]).request != self.history[k].request
        &&& forall|request: Request| #[trigger]
            cached(self, request) ==> exists|k: int| learned_at(self.history, k, request)
    }

    /// A run that has not looked at any entry and knows nothing yet.
    pub open spec fn fresh(entries: Seq<EntryModel>, target: Seq<char>, billed: Map<i64, bool>) -> RunModel {
        RunModel {
            entries,
            target,
            billed,
            projects: Map::empty(),
            clients: Map::empty(),
            outcomes: Seq::empty(),
            failure: None,
            history: Seq::empty(),
        }
    }
}

/// What the rule settles holds of the entry.
pub proof fn lemma_rule_justified(run: RunModel, outcome: Outcome)
    requires
        run.cursor() < run.entries.len(),
        rule(run.entries[run.cursor()], run) == Ruling::Settled(outcome),
    ensures
        justified(run.entries[run.cursor()], outcome, run),
{
}

/// Settling the entry at the cursor with an outcome that holds of it keeps
/// the invariant.
pub proof fn lemma_settled_wf(run: RunModel, outcome: Outcome)
    requires
        run.wf(),
        run.cursor() < run.entries.len(),
        justified(run.entries[run.cursor()], outcome, run),
    ensures
        run.settled_with(outcome).wf(),
{
    let after = run.settled_with(outcome);
    assert forall|i: int| 0 <= i < after.outcomes.len() implies justified(
        after.entries[i],
        #[trigger] after.outcomes[i],
        after,
    ) by {
        if i < run.outcomes.len() {
            assert(justified(run.entries[i], run.outcomes[i], run));
        }
    }
    assert forall|k: int| 0 <= k < after.history.len() && learned(#[trigger] after.history[k])
        implies remembered(after, after.history[k]) by {
        assert(remembered(run, run.history[k]));
    }
    assert forall|request: Request| #[trigger] cached(after, request) implies exists|k: int|
        learned_at(after.history, k, request) by {
        assert(cached(run, request));
    }
}

/// Settling entries keeps the invariant.
pub proof fn lemma_settle_wf(run: RunModel)
    requires
        run.wf(),
    ensures
        settle(run).0.wf(),
    decreases run.entries.len() - run.outcomes.len(),
{
    if run.outcomes.len() < run.entries.len() {
        match rule(run.entries[run.cursor()], run) {
            Ruling::Settled(outcome) => {
                lemma_rule_justified(run, outcome);
                lemma_settled_wf(run, outcome);
                lemma_settle_wf(run.settled_with(outcome));
            },
            _ => {},
        }
    }
}

/// Logging an exchange for something that the cache does not hold keeps the
/// invariant, whether the answer is remembered or not.
proof fn lemma_logged_wf(run: RunModel, after: RunModel, exchange: Exchange)
    requires
        run.wf(),
        !cached(run, exchange.request),
        exchange.request != Request::Finished,
        after.history == run.history.push(exchange),
        after.entries == run.entries,
        after.target == run.target,
        after.billed == run.billed,
        after.outcomes == run.outcomes,
        learned(exchange) ==> remembered(after, exchange),
        forall|request: Request|
            cached(after, request) <==> cached(run, request) || (learned(exchange) && request
                == exchange.request),
        forall|other: Exchange| remembered(run, other) ==> remembered(after, other),
        forall|i: int|
            0 <= i < run.outcomes.len() && justified(run.entries[i], run.outcomes[i], run)
                ==> justified(run.entries[i], #[trigger] run.outcomes[i], after),
    ensures
        after.wf(),
{
    let n = run.history.len() as int;
    assert forall|k: int| 0 <= k < after.history.len() && learned(#[trigger] after.history[k])
        implies remembered(after, after.history[k]) by {
        if k < n {
            assert(remembered(run, run.history[k]));
        }
    }
    assert forall|k: int, later: int|
        0 <= k < later < after.history.len() && learned(#[trigger] after.history[k]) implies (
        #[trigger] after.history[later]).request != after.history[k].request by {
        assert(remembered(run, run.history[k]));
        if later == n {
            assert(cached(run, run.history[k].request));
        } else {
            assert(run.history[later].request != run.history[k].request);
        }
    }
    assert forall|request: Request| #[trigger] cached(after, request) implies exists|k: int|
        learned_at(after.history, k, request) by {
        if cached(run, request) {
            let k = choose|k: int| learned_at(run.history, k, request);
            assert(learned_at(after.history, k, request));
        } else {
            assert(learned_at(after.history, n, request));
        }
    }
}

/// Supplying an answer keeps the invariant.
pub proof fn lemma_supplied_wf(run: RunModel, response: ResponseModel)
    requires
        run.wf(),
    ensures
        supplied(run, response).0.wf(),
{
    let after = supplied(run, response).0;
    if run.failure is None && run.outcomes.len() < run.entries.len() {
        let entry = run.entries[run.cursor()];
        match (rule(entry, run), response) {
            (Ruling::NeedProject(project_id), ResponseModel::Project { client_id }) => {
                let exchange = Exchange { request: Request::FetchProject { project_id }, response };
                match client_id {
                    Some(client_id) => {
                        lemma_logged_wf(run, after, exchange);
                    },
                    None => {
                        let logged = RunModel { history: run.history.push(exchange), ..run };
                        lemma_logged_wf(run, logged, exchange);
                        lemma_settled_wf(logged, Outcome::ProjectWithoutClient);
                    },
                }
            },
            (Ruling::NeedClient(client_id), ResponseModel::Client { name }) => {
                let exchange = Exchange { request: Request::FetchClient { client_id }, response };
                lemma_logged_wf(run, after, exchange);
            },
            _ => {},
        }
    }
}

/// The state of one run.
pub struct Aggregator {
    entries: Vec<TimeEntry>,
    target: String,
    store: BilledStore,
    cache: LookupCache,
    outcomes: Vec<Outcome>,
    summary: Summary,
    to_bill: Vec<i64>,
    failure: Option<AggregateError>,
    history: Ghost<Seq<Exchange>>,
}

impl View for Aggregator {
    type V = RunModel;

    closed spec fn view(&self) -> RunModel {
        RunModel {
            entries: self.entries@.map_values(|entry: TimeEntry| entry@),
            target: self.target@,
            billed: self.store@,
            projects: self.cache.projects(),
            clients: self.cache.clients(),
            outcomes: self.outcomes@,
            failure: self.failure,
            history: self.history@,
        }
    }
}

impl Aggregator {
    /// The run's invariant, and the summary and the ids to bill are those of
    /// the outcomes so far.
    pub closed spec fn wf(&self) -> bool {
        &&& self@.wf()
        &&& self.summary.wf()
        &&& self.summary@ == self@.totals()
        &&& self.to_bill@ == self@.billed_ids()
    }

    /// A well-formed run keeps the invariant of its model.
    pub proof fn lemma_model_wf(&self)
        requires
            self.wf(),
        ensures
            self@.wf(),
    {
    }

    /// A run over `entries` for the client named `target`, against the
    /// billed flags of `store`.
    pub fn new(entries: Vec<TimeEntry>, target: String, store: BilledStore) -> (run: Aggregator)
        ensures
            run.wf(),
            run@ == RunModel::fresh(entries@.map_values(|entry: TimeEntry| entry@), target@, store@),
    {
        let run = Aggregator {
            entries,
            target,
            store,
            cache: LookupCache::new(),
            outcomes: Vec::new(),
            summary: Summary::new(),
            to_bill: Vec::new(),
            failure: None,
            history: Ghost(Seq::empty()),
        };
        proof {
            assert(run@.outcomes =~= Seq::<Outcome>::empty());
            assert(run@.history =~= Seq::<Exchange>::empty());
            assert forall|request: Request| #[trigger] cached(run@, request) implies exists|k: int|
                learned_at(run@.history, k, request) by {}
        }
        run
    }

    /// What the rule says of the entry at the cursor.
    fn rule_at_cursor(&self) -> (ruling: Ruling)
        requires
            self.wf(),
            self@.cursor() < self@.entries.len(),
        ensures
            ruling == rule(self@.entries[self@.cursor()], self@),
    {
        let entry = &self.entries[self.outcomes.len()];
        if self.store.is_billed(entry.id()) {
            return Ruling::Settled(Outcome::AlreadyBilled);
        }
        let seconds: i64 = match entry.duration() {
            Some(seconds) => seconds,
            None => {
                return Ruling::Fatal(AggregateError::MissingDuration { entry_id: entry.id() });
            },
        };
        if seconds < 0 {
            return Ruling::Settled(Outcome::NegativeDuration);
        }
        let project_id: i64 = match entry.project_id() {
            Some(project_id) => project_id,
            None => {
                return Ruling::Settled(Outcome::MissingProject);
            },
        };
        let client_id: i64 = match self.cache.resolve_client_id(project_id) {
            Some(client_id) => client_id,
            None => {
                return Ruling::NeedProject(project_id);
            },
        };
        let name = match self.cache.resolve_client_name(client_id) {
            Some(name) => name,
            None => {
                return Ruling::NeedClient(client_id);
            },
        };
        if name != self.target {
            return Ruling::Settled(Outcome::OtherClient);
        }
        let total: i64 = match self.summary.total_for(entry.description()) {
            Some(total) => total,
            None => 0,
        };
        if total > i64::MAX - seconds {
            Ruling::Fatal(AggregateError::TotalOverflow { entry_id: entry.id() })
        } else {
            Ruling::Settled(Outcome::Billed)
        }
    }

    /// Settles the entry at the cursor with `outcome`.
    fn settle_entry(&mut self, outcome: Outcome)
        requires
            old(self).wf(),
            old(self)@.cursor() < old(self)@.entries.len(),
            justified(old(self)@.entries[old(self)@.cursor()], outcome, old(self)@),
            outcome == Outcome::Billed ==> total_or_zero(
                old(self)@.totals(),
                old(self)@.entries[old(self)@.cursor()].description,
            ) + seconds_of(old(self)@.entries[old(self)@.cursor()]) <= i64::MAX,
        ensures
            final(self).wf(),
            final(self)@ == old(self)@.settled_with(outcome),
    {
        let cursor: usize = self.outcomes.len();
        if outcome == Outcome::Billed {
            let entry = &self.entries[cursor];
            let seconds: i64 = match entry.duration() {
                Some(seconds) => seconds,
                None => 0,
            };
            let added = self.summary.add(entry.description(), seconds);
            assert(added);
            self.to_bill.push(entry.id());
        }
        self.outcomes.push(outcome);
        proof {
            let before = old(self)@;
            let after = before.settled_with(outcome);
            assert(self@.outcomes == after.outcomes);
            assert(self@ == after);
            assert(after.outcomes.drop_last() == before.outcomes);
            lemma_settled_wf(before, outcome);
        }
    }

    /// Says what the run needs next, after settling every entry that can be
    /// settled from what the run knows. Asking again without supplying an
    /// answer gives the same request.
    pub fn next_request(&mut self) -> (result: Result<Request, AggregateError>)
        requires
            old(self).wf(),
        ensures
            final(self).wf(),
            (final(self)@, result) == advanced(old(self)@),
    {
        if let Some(error) = self.failure {
            return Err(error);
        }
        let ghost start = self@;
        loop
            invariant
                self.wf(),
                self@.failure is None,
                start == old(self)@,
                start.failure is None,
                settle(self@) == settle(start),
            decreases self@.entries.len() - self@.outcomes.len(),
        {
            if self.outcomes.len() >= self.entries.len() {
                return Ok(Request::Finished);
            }
            match self.rule_at_cursor() {
                Ruling::Settled(outcome) => {
                    proof {
                        lemma_rule_justified(self@, outcome);
                    }
                    self.settle_entry(outcome);
                },
                Ruling::NeedProject(project_id) => {
                    return Ok(Request::FetchProject { project_id });
                },
                Ruling::NeedClient(client_id) => {
                    return Ok(Request::FetchClient { client_id });
                },
                Ruling::Fatal(error) => {
                    return Err(error);
                },
            }
        }
    }

    /// Takes the answer to the request that the run is waiting for.
    pub fn supply(&mut self, response: Response) -> (result: Result<(), AggregateError>)
        requires
            old(self).wf(),
        ensures
            final(self).wf(),
            (final(self)@, result) == supplied(old(self)@, response@),
    {
        if let Some(error) = self.failure {
            return Err(error);
        }
        if self.outcomes.len() >= self.entries.len() {
            return Err(AggregateError::UnexpectedResponse);
        }
        proof {
            lemma_supplied_wf(self@, response@);
        }
        let ghost answer = response@;
        let ruling = self.rule_at_cursor();
        match (ruling, response) {
            (Ruling::NeedProject(project_id), Response::Project { client_id }) => {
                match client_id {
                    Some(client_id) => {
                        self.cache.populate_project(project_id, Some(client_id));
                    },
                    None => {
                        self.settle_entry(Outcome::ProjectWithoutClient);
                    },
                }
                proof {
                    self.history@ = self.history@.push(
                        Exchange {
                            request: Request::FetchProject { project_id },
                            response: answer,
                        },
                    );
                }
                Ok(())
            },
            (Ruling::NeedClient(client_id), Response::Client { name }) => {
                let missing = name.is_none();
                self.cache.populate_client(client_id, name);
                proof {
                    self.history@ = self.history@.push(
                        Exchange { request: Request::FetchClient { client_id }, response: answer },
                    );
                }
                if missing {
                    let error = AggregateError::ClientWithoutName { client_id };
                    self.failure = Some(error);
                    Err(error)
                } else {
                    Ok(())
                }
            },
            _ => Err(AggregateError::UnexpectedResponse),
        }
    }

    /// Whether every entry is settled and no error ended the run.
    pub fn is_finished(&self) -> (finished: bool)
        ensures
            finished == self@.finished(),
    {
        self.failure.is_none() && self.outcomes.len() == self.entries.len()
    }

    /// The outcomes of the entries settled so far, in the order of the
    /// entries.
    pub fn outcomes(&self) -> (outcomes: &Vec<Outcome>)
        ensures
            outcomes@ == self@.outcomes,
    {
        &self.outcomes
    }

    /// The summary so far.
    pub fn summary(&self) -> (summary: &Summary)
        requires
            self.wf(),
        ensures
            summary.wf(),
            summary@ == self@.totals(),
    {
        &self.summary
    }

    /// The ids to bill so far.
    pub fn to_bill(&self) -> (ids: &Vec<i64>)
        requires
            self.wf(),
        ensures
            ids@ == self@.billed_ids(),
    {
        &self.to_bill
    }

    /// Ends the run and hands out its parts: the summary, the ids to bill
    /// and the store that the run started with.
    pub fn into_parts(self) -> (parts: (Summary, Vec<i64>, BilledStore))
        requires
            self.wf(),
        ensures
            parts.0.wf(),
            parts.0@ == self@.totals(),
            parts.1@ == self@.billed_ids(),
            parts.2@ == self@.billed,
    {
        (self.summary, self.to_bill, self.store)
    }
}

} // verus!
