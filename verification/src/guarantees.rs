//! What holds of every run: which entries reach the summary, how often the
//! service is asked, and what a second run finds after a commit.

use vstd::prelude::*;
use crate::aggregate::{
    advanced, billed_ids, cached, justified, learned_at, lemma_rule_justified, lemma_settle_wf,
    lemma_settled_wf, lemma_supplied_wf, remembered, rule, seconds_of, settle, supplied, totals,
    AggregateError, Outcome, Request, ResponseModel, Ruling, RunModel,
};
use crate::entry::EntryModel;
use crate::store::{flagged, marked};
use crate::summary::total_or_zero;

verus! {

/// The entry at `i` was billed.
pub open spec fn billed_at(outcomes: Seq<Outcome>, i: int) -> bool {
    0 <= i < outcomes.len() && outcomes[i] == Outcome::Billed
}

/// The seconds of the billed entries that carry `description`.
pub open spec fn billed_seconds(
    entries: Seq<EntryModel>,
    outcomes: Seq<Outcome>,
    description: Seq<char>,
) -> int
    decreases outcomes.len(),
{
    if outcomes.len() == 0 {
        0
    } else {
        let last = outcomes.len() - 1;
        let before = billed_seconds(entries, outcomes.drop_last(), description);
        if outcomes[last] == Outcome::Billed && entries[last].description == description {
            before + seconds_of(entries[last])
        } else {
            before
        }
    }
}

/// The ids to bill are the ids of the billed entries, and of no others.
pub proof fn lemma_billed_ids_are_billed_entries(
    entries: Seq<EntryModel>,
    outcomes: Seq<Outcome>,
    id: i64,
)
    requires
        outcomes.len() <= entries.len(),
    ensures
        billed_ids(entries, outcomes).contains(id) <==> exists|i: int|
            #[trigger] billed_at(outcomes, i) && entries[i].id == id,
    decreases outcomes.len(),
{
    if outcomes.len() > 0 {
        let last = outcomes.len() - 1;
        let shorter = outcomes.drop_last();
        let before = billed_ids(entries, shorter);
        lemma_billed_ids_are_billed_entries(entries, shorter, id);
        if billed_ids(entries, outcomes).contains(id) {
            if before.contains(id) {
                let i = choose|i: int| #[trigger] billed_at(shorter, i) && entries[i].id == id;
                assert(billed_at(outcomes, i));
            } else {
                assert(outcomes[last] == Outcome::Billed);
                let at = choose|at: int|
                    0 <= at < before.push(entries[last].id).len() && before.push(
                        entries[last].id,
                    )[at] == id;
                if at < before.len() {
                    assert(before[at] == id);
                }
                assert(billed_at(outcomes, last));
            }
        }
        if exists|i: int| #[trigger] billed_at(outcomes, i) && entries[i].id == id {
            let i = choose|i: int| #[trigger] billed_at(outcomes, i) && entries[i].id == id;
            if i < last {
                assert(billed_at(shorter, i));
                assert(before.contains(id));
                let at = choose|at: int| 0 <= at < before.len() && before[at] == id;
                if outcomes[last] == Outcome::Billed {
                    assert(before.push(entries[last].id)[at] == id);
                }
            } else {
                assert(before.push(entries[last].id)[before.len() as int] == id);
            }
        }
    }
}

/// The summary holds, under each description, the seconds of the billed
/// entries of that description, and it holds no other description.
pub proof fn lemma_totals_are_billed_seconds(
    entries: Seq<EntryModel>,
    outcomes: Seq<Outcome>,
    description: Seq<char>,
)
    requires
        outcomes.len() <= entries.len(),
    ensures
        totals(entries, outcomes).contains_key(description) <==> exists|i: int|
            #[trigger] billed_at(outcomes, i) && entries[i].description == description,
        total_or_zero(totals(entries, outcomes), description) == billed_seconds(
            entries,
            outcomes,
            description,
        ),
    decreases outcomes.len(),
{
    if outcomes.len() > 0 {
        let last = outcomes.len() - 1;
        let shorter = outcomes.drop_last();
        lemma_totals_are_billed_seconds(entries, shorter, description);
        if totals(entries, outcomes).contains_key(description) {
            if totals(entries, shorter).contains_key(description) {
                let i = choose|i: int|
                    #[trigger] billed_at(shorter, i) && entries[i].description == description;
                assert(billed_at(outcomes, i));
            } else {
                assert(billed_at(outcomes, last));
            }
        }
        if exists|i: int| #[trigger] billed_at(outcomes, i) && entries[i].description == description {
            let i = choose|i: int|
                #[trigger] billed_at(outcomes, i) && entries[i].description == description;
            if i < last {
                assert(billed_at(shorter, i));
            }
        }
    }
}

/// An entry whose duration is negative is never billed: it adds to no
/// summary line and its place among the outcomes is not that of a billed
/// entry.
pub proof fn lemma_negative_duration_never_billed(run: RunModel, i: int)
    requires
        run.wf(),
        0 <= i < run.outcomes.len(),
        run.entries[i].duration is Some,
        run.entries[i].duration->0 < 0,
    ensures
        !billed_at(run.outcomes, i),
        run.outcomes[i] == Outcome::AlreadyBilled || run.outcomes[i] == Outcome::NegativeDuration,
{
    assert(justified(run.entries[i], run.outcomes[i], run));
}

/// Every billed entry was not billed before, lasted a duration that is not
/// negative, and belongs to a project of the target client.
pub proof fn lemma_billed_entry(run: RunModel, i: int)
    requires
        run.wf(),
        billed_at(run.outcomes, i),
    ensures
        !flagged(run.billed, run.entries[i].id),
        run.entries[i].duration is Some,
        run.entries[i].duration->0 >= 0,
        run.entries[i].project_id is Some,
        run.projects.contains_key(run.entries[i].project_id->0),
        run.clients.contains_key(run.projects[run.entries[i].project_id->0]),
        run.clients[run.projects[run.entries[i].project_id->0]] == run.target,
{
    assert(justified(run.entries[i], run.outcomes[i], run));
}

/// No id to bill is marked billed in the store that the run started with. So
/// where the commit of these ids is interrupted and the store stays as it
/// was, none of them is billed afterwards.
pub proof fn lemma_ids_to_bill_are_unbilled(run: RunModel, id: i64)
    requires
        run.wf(),
        run.billed_ids().contains(id),
    ensures
        !flagged(run.billed, id),
{
    lemma_billed_ids_are_billed_entries(run.entries, run.outcomes, id);
    let i = choose|i: int| #[trigger] billed_at(run.outcomes, i) && run.entries[i].id == id;
    lemma_billed_entry(run, i);
}

/// After a commit exactly the committed ids and the ids billed before are
/// billed.
pub proof fn lemma_commit_marks_batch(flags: Map<i64, bool>, ids: Seq<i64>, id: i64)
    ensures
        flagged(marked(flags, ids), id) <==> ids.contains(id) || flagged(flags, id),
{
}

/// What was learned once is not asked again: the cache holds a key exactly
/// if one exchange learned it, no second exchange learned it, and no later
/// exchange asked for it.
pub proof fn lemma_learned_once(run: RunModel, request: Request)
    requires
        run.wf(),
    ensures
        cached(run, request) <==> exists|k: int| learned_at(run.history, k, request),
        forall|k: int, other: int|
            learned_at(run.history, k, request) && learned_at(run.history, other, request) ==> k
                == other,
        forall|k: int, later: int|
            learned_at(run.history, k, request) && k < later < run.history.len()
                ==> run.history[later].request != request,
{
    if exists|k: int| learned_at(run.history, k, request) {
        let k = choose|k: int| learned_at(run.history, k, request);
        assert(remembered(run, run.history[k]));
    }
    assert forall|k: int, other: int|
        learned_at(run.history, k, request) && learned_at(
            run.history,
            other,
            request,
        ) implies k == other by {
        if k < other {
            assert(run.history[other].request != run.history[k].request);
        } else if other < k {
            assert(run.history[k].request != run.history[other].request);
        }
    }
    assert forall|k: int, later: int|
        learned_at(run.history, k, request) && k < later < run.history.len()
            implies run.history[later].request != request by {
        assert(run.history[later].request != run.history[k].request);
    }
}

/// A run asks only for what its cache does not hold.
pub proof fn lemma_asks_on_miss_only(run: RunModel)
    requires
        run.wf(),
    ensures
        settle(run).1 matches Ok(request) ==> !cached(settle(run).0, request),
    decreases run.entries.len() - run.outcomes.len(),
{
    if run.outcomes.len() < run.entries.len() {
        match rule(run.entries[run.cursor()], run) {
            Ruling::Settled(outcome) => {
                lemma_rule_justified(run, outcome);
                lemma_settled_wf(run, outcome);
                lemma_asks_on_miss_only(run.settled_with(outcome));
            },
            _ => {},
        }
    }
}

/// What the time-tracking service knows: the client of each project that has
/// one, and the name of each client that has one.
pub struct Directory {
    pub projects: Map<i64, i64>,
    pub clients: Map<i64, Seq<char>>,
}

impl Directory {
    /// The answer of the service to `request`.
    pub open spec fn answer(self, request: Request) -> ResponseModel {
        match request {
            Request::FetchClient { client_id } => ResponseModel::Client {
                name: if self.clients.contains_key(client_id) {
                    Some(self.clients[client_id])
                } else {
                    None
                },
            },
            Request::FetchProject { project_id } => ResponseModel::Project {
                client_id: if self.projects.contains_key(project_id) {
                    Some(self.projects[project_id])
                } else {
                    None
                },
            },
            Request::Finished => ResponseModel::Project { client_id: None },
        }
    }

    /// What becomes of `entry` when every lookup is answered by this
    /// directory; `None` where the run is given up over the entry.
    pub open spec fn verdict(self, entry: EntryModel, billed: Map<i64, bool>, target: Seq<char>) -> Option<
        Outcome,
    > {
        if flagged(billed, entry.id) {
            Some(Outcome::AlreadyBilled)
        } else if entry.duration is None {
            None
        } else if entry.duration->0 < 0 {
            Some(Outcome::NegativeDuration)
        } else if entry.project_id is None {
            Some(Outcome::MissingProject)
        } else if !self.projects.contains_key(entry.project_id->0) {
            Some(Outcome::ProjectWithoutClient)
        } else if !self.clients.contains_key(self.projects[entry.project_id->0]) {
            None
        } else if self.clients[self.projects[entry.project_id->0]] != target {
            Some(Outcome::OtherClient)
        } else {
            Some(Outcome::Billed)
        }
    }

    /// Everything that `run` has learned and decided is what this directory
    /// says: the cache is part of the directory, every answer in the history
    /// is the directory's, and every outcome is the directory's verdict.
    pub open spec fn explains(self, run: RunModel) -> bool {
        &&& forall|project_id: i64| #[trigger]
            run.projects.contains_key(project_id) ==> self.projects.contains_key(project_id)
                && self.projects[project_id] == run.projects[project_id]
        &&& forall|client_id: i64| #[trigger]
            run.clients.contains_key(client_id) ==> self.clients.contains_key(client_id)
                && self.clients[client_id] == run.clients[client_id]
        &&& forall|k: int|
            0 <= k < run.history.len() ==> (#[trigger] run.history[k]).response == self.answer(
                run.history[k].request,
            )
        &&& forall|i: int|
            0 <= i < run.outcomes.len() ==> self.verdict(run.entries[i], run.billed, run.target)
                == Some(#[trigger] run.outcomes[i])
    }
}

/// The request that a ruling stands for.
pub open spec fn request_of(ruling: Ruling) -> Request {
    match ruling {
        Ruling::NeedProject(project_id) => Request::FetchProject { project_id },
        Ruling::NeedClient(client_id) => Request::FetchClient { client_id },
        _ => Request::Finished,
    }
}

/// A run that has not started is explained by every directory.
pub proof fn lemma_fresh_is_explained(
    directory: Directory,
    entries: Seq<EntryModel>,
    target: Seq<char>,
    billed: Map<i64, bool>,
)
    ensures
        directory.explains(RunModel::fresh(entries, target, billed)),
{
}

/// Settling entries keeps a run explained by its directory.
pub proof fn lemma_settle_is_explained(directory: Directory, run: RunModel)
    requires
        run.wf(),
        directory.explains(run),
    ensures
        directory.explains(settle(run).0),
    decreases run.entries.len() - run.outcomes.len(),
{
    if run.outcomes.len() < run.entries.len() {
        match rule(run.entries[run.cursor()], run) {
            Ruling::Settled(outcome) => {
                let after = run.settled_with(outcome);
                lemma_rule_justified(run, outcome);
                lemma_settled_wf(run, outcome);
                assert forall|i: int| 0 <= i < after.outcomes.len() implies directory.verdict(
                    after.entries[i],
                    after.billed,
                    after.target,
                ) == Some(#[trigger] after.outcomes[i]) by {
                    if i < run.outcomes.len() {
                        assert(after.outcomes[i] == run.outcomes[i]);
                    }
                }
                lemma_settle_is_explained(directory, after);
            },
            _ => {},
        }
    }
}

/// Supplying the directory's answer to the request that the run waits for
/// keeps the run explained by the directory.
pub proof fn lemma_supplied_is_explained(directory: Directory, run: RunModel)
    requires
        run.wf(),
        directory.explains(run),
        run.failure is None,
        run.cursor() < run.entries.len(),
    ensures
        directory.explains(
            supplied(
                run,
                directory.answer(request_of(rule(run.entries[run.cursor()], run))),
            ).0,
        ),
{
    let ruling = rule(run.entries[run.cursor()], run);
    let response = directory.answer(request_of(ruling));
    let after = supplied(run, response).0;
    match ruling {
        Ruling::NeedProject(project_id) => {
            assert forall|i: int| 0 <= i < after.outcomes.len() implies directory.verdict(
                after.entries[i],
                after.billed,
                after.target,
            ) == Some(#[trigger] after.outcomes[i]) by {
                if i < run.outcomes.len() {
                    assert(after.outcomes[i] == run.outcomes[i]);
                }
            }
            assert forall|k: int| 0 <= k < after.history.len() implies (
            #[trigger] after.history[k]).response == directory.answer(after.history[k].request) by {
                if k < run.history.len() {
                    assert(after.history[k] == run.history[k]);
                }
            }
        },
        Ruling::NeedClient(client_id) => {
            assert forall|k: int| 0 <= k < after.history.len() implies (
            #[trigger] after.history[k]).response == directory.answer(after.history[k].request) by {
                if k < run.history.len() {
                    assert(after.history[k] == run.history[k]);
                }
            }
        },
        _ => {},
    }
}

/// Where every answer is the directory's, a key that the cache holds was
/// asked for exactly once.
pub proof fn lemma_asked_once(directory: Directory, run: RunModel, request: Request)
    requires
        run.wf(),
        directory.explains(run),
        cached(run, request),
    ensures
        exists|k: int|
            {
                &&& learned_at(run.history, k, request)
                &&& forall|other: int|
                    0 <= other < run.history.len() && other != k ==> (
                    #[trigger] run.history[other]).request != request
            },
{
    lemma_learned_once(run, request);
    let k = choose|k: int| learned_at(run.history, k, request);
    assert forall|other: int| 0 <= other < run.history.len() && other != k implies (
    #[trigger] run.history[other]).request != request by {
        if run.history[other].request == request {
            assert(run.history[other].response == directory.answer(request));
            assert(run.history[k].response == directory.answer(request));
            assert(learned_at(run.history, other, request));
        }
    }
}

/// Entries that share a project are served by one fetch: once a run that is
/// driven from a directory has resolved an entry to a client, the entry's
/// project was asked for in exactly one exchange.
pub proof fn lemma_shared_project_fetched_once(
    directory: Directory,
    entries: Seq<EntryModel>,
    target: Seq<char>,
    billed: Map<i64, bool>,
    steps: nat,
    i: int,
)
    requires
        0 <= i < driven(RunModel::fresh(entries, target, billed), directory, steps).outcomes.len(),
        ({
            let outcome = driven(
                RunModel::fresh(entries, target, billed),
                directory,
                steps,
            ).outcomes[i];
            outcome == Outcome::Billed || outcome == Outcome::OtherClient
        }),
    ensures
        entries[i].project_id is Some,
        ({
            let run = driven(RunModel::fresh(entries, target, billed), directory, steps);
            let request = Request::FetchProject { project_id: entries[i].project_id->0 };
            exists|k: int|
                {
                    &&& learned_at(run.history, k, request)
                    &&& forall|other: int|
                        0 <= other < run.history.len() && other != k ==> (
                        #[trigger] run.history[other]).request != request
                }
        }),
{
    let started = RunModel::fresh(entries, target, billed);
    let run = driven(started, directory, steps);
    lemma_fresh_wf(entries, target, billed);
    lemma_fresh_is_explained(directory, entries, target, billed);
    lemma_driven_is_explained(directory, started, steps);
    assert(justified(run.entries[i], run.outcomes[i], run));
    lemma_asked_once(
        directory,
        run,
        Request::FetchProject { project_id: entries[i].project_id->0 },
    );
}

/// No outcome is that of a billed entry: nothing is to be billed and the
/// summary is empty.
pub proof fn lemma_nothing_billed(entries: Seq<EntryModel>, outcomes: Seq<Outcome>)
    requires
        forall|i: int| 0 <= i < outcomes.len() ==> !(#[trigger] billed_at(outcomes, i)),
    ensures
        billed_ids(entries, outcomes) == Seq::<i64>::empty(),
        totals(entries, outcomes) == Map::<Seq<char>, int>::empty(),
    decreases outcomes.len(),
{
    if outcomes.len() > 0 {
        let shorter = outcomes.drop_last();
        assert forall|i: int| 0 <= i < shorter.len() implies !(#[trigger] billed_at(shorter, i)) by {
            assert(!billed_at(outcomes, i));
        }
        lemma_nothing_billed(entries, shorter);
        assert(!billed_at(outcomes, outcomes.len() - 1));
    }
}

/// An entry that one run billed is skipped as already billed by every run
/// that starts from the store after the commit of the first run's ids.
pub proof fn lemma_billed_entries_stay_out(first: RunModel, second: RunModel, i: int)
    requires
        first.wf(),
        second.wf(),
        second.entries == first.entries,
        second.billed == marked(first.billed, first.billed_ids()),
        billed_at(first.outcomes, i),
        i < second.outcomes.len(),
    ensures
        second.outcomes[i] == Outcome::AlreadyBilled,
{
    lemma_billed_ids_are_billed_entries(first.entries, first.outcomes, first.entries[i].id);
    assert(first.billed_ids().contains(first.entries[i].id));
    assert(justified(second.entries[i], second.outcomes[i], second));
}

/// Running twice over the same entries against the same directory, with the
/// ids of the first run committed in between, bills nothing the second
/// time: no id is to be billed and the summary is empty.
pub proof fn lemma_second_run_bills_nothing(
    directory: Directory,
    first: RunModel,
    second: RunModel,
)
    requires
        first.wf(),
        second.wf(),
        first.finished(),
        directory.explains(first),
        directory.explains(second),
        second.entries == first.entries,
        second.target == first.target,
        second.billed == marked(first.billed, first.billed_ids()),
    ensures
        second.billed_ids() == Seq::<i64>::empty(),
        second.totals() == Map::<Seq<char>, int>::empty(),
{
    assert forall|i: int| 0 <= i < second.outcomes.len() implies !(#[trigger] billed_at(
        second.outcomes,
        i,
    )) by {
        if billed_at(second.outcomes, i) {
            let entry = second.entries[i];
            assert(directory.verdict(entry, second.billed, second.target) == Some(
                second.outcomes[i],
            ));
            assert(!flagged(second.billed, entry.id));
            assert(!flagged(first.billed, entry.id));
            assert(directory.verdict(entry, first.billed, first.target) == Some(
                first.outcomes[i],
            ));
            assert(billed_at(first.outcomes, i));
            lemma_billed_ids_are_billed_entries(first.entries, first.outcomes, entry.id);
            assert(first.billed_ids().contains(entry.id));
        }
    }
    lemma_nothing_billed(second.entries, second.outcomes);
}

/// The run after its caller has gone on for as long as the run asked for a
/// fetch, at most `steps` times, and has answered each request from
/// `directory`.
pub open spec fn driven(run: RunModel, directory: Directory, steps: nat) -> RunModel
    decreases steps,
{
    let (settled, request) = advanced(run);
    if steps == 0 {
        settled
    } else {
        match request {
            Ok(Request::Finished) => settled,
            Ok(request) => driven(
                supplied(settled, directory.answer(request)).0,
                directory,
                (steps - 1) as nat,
            ),
            Err(_) => settled,
        }
    }
}

/// A run that has not started keeps the invariant.
pub proof fn lemma_fresh_wf(entries: Seq<EntryModel>, target: Seq<char>, billed: Map<i64, bool>)
    ensures
        RunModel::fresh(entries, target, billed).wf(),
{
    let run = RunModel::fresh(entries, target, billed);
    assert forall|request: Request| #[trigger] cached(run, request) implies exists|k: int|
        learned_at(run.history, k, request) by {}
}

/// Where settling stops at a fetch, the entry at the cursor is the one that
/// needs it. Settling changes nothing but the outcomes.
pub proof fn lemma_settle_stops_at_need(run: RunModel)
    ensures
        settle(run).0.entries == run.entries,
        settle(run).0.target == run.target,
        settle(run).0.billed == run.billed,
        settle(run).0.failure == run.failure,
        settle(run).1 is Ok && settle(run).1->Ok_0 != Request::Finished ==> {
            &&& settle(run).0.cursor() < run.entries.len()
            &&& request_of(
                rule(settle(run).0.entries[settle(run).0.cursor()], settle(run).0),
            ) == settle(run).1->Ok_0
        },
        settle(run).1 == Ok::<Request, AggregateError>(Request::Finished)
            ==> settle(run).0.outcomes.len() >= run.entries.len(),
    decreases run.entries.len() - run.outcomes.len(),
{
    if run.outcomes.len() < run.entries.len() {
        match rule(run.entries[run.cursor()], run) {
            Ruling::Settled(outcome) => {
                lemma_settle_stops_at_need(run.settled_with(outcome));
            },
            _ => {},
        }
    }
}

/// A run that is driven from a directory keeps its invariant, stays
/// explained by the directory, and keeps its entries, its target and the
/// billed flags that it started with.
pub proof fn lemma_driven_is_explained(directory: Directory, run: RunModel, steps: nat)
    requires
        run.wf(),
        directory.explains(run),
    ensures
        driven(run, directory, steps).wf(),
        directory.explains(driven(run, directory, steps)),
        driven(run, directory, steps).entries == run.entries,
        driven(run, directory, steps).target == run.target,
        driven(run, directory, steps).billed == run.billed,
    decreases steps,
{
    let (settled, request) = advanced(run);
    if run.failure is None {
        lemma_settle_wf(run);
        lemma_settle_is_explained(directory, run);
        lemma_settle_stops_at_need(run);
        if steps > 0 {
            match request {
                Ok(Request::Finished) => {},
                Ok(request) => {
                    let response = directory.answer(request);
                    lemma_supplied_wf(settled, response);
                    lemma_supplied_is_explained(directory, settled);
                    lemma_driven_is_explained(
                        directory,
                        supplied(settled, response).0,
                        (steps - 1) as nat,
                    );
                },
                Err(_) => {},
            }
        }
    }
}

/// Idempotence of the pipeline: a run over some entries is driven to its
/// end, its ids are committed, and a second run over the same entries is
/// driven against the same directory for any number of steps. The second
/// run has nothing to bill and its summary is empty.
pub proof fn lemma_rerun_after_commit_bills_nothing(
    directory: Directory,
    entries: Seq<EntryModel>,
    target: Seq<char>,
    billed: Map<i64, bool>,
    first_steps: nat,
    second_steps: nat,
)
    requires
        driven(RunModel::fresh(entries, target, billed), directory, first_steps).finished(),
    ensures
        ({
            let first = driven(RunModel::fresh(entries, target, billed), directory, first_steps);
            let committed = marked(billed, first.billed_ids());
            let second = driven(
                RunModel::fresh(entries, target, committed),
                directory,
                second_steps,
            );
            &&& second.billed_ids() == Seq::<i64>::empty()
            &&& second.totals() == Map::<Seq<char>, int>::empty()
        }),
{
    let started = RunModel::fresh(entries, target, billed);
    let first = driven(started, directory, first_steps);
    lemma_fresh_wf(entries, target, billed);
    lemma_fresh_is_explained(directory, entries, target, billed);
    lemma_driven_is_explained(directory, started, first_steps);
    let committed = marked(billed, first.billed_ids());
    let restarted = RunModel::fresh(entries, target, committed);
    let second = driven(restarted, directory, second_steps);
    lemma_fresh_wf(entries, target, committed);
    lemma_fresh_is_explained(directory, entries, target, committed);
    lemma_driven_is_explained(directory, restarted, second_steps);
    lemma_second_run_bills_nothing(directory, first, second);
}

} // verus!
