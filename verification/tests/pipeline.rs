use timesheet_billing::aggregate::{
    AggregateError, Aggregator, Outcome, Request, Response, FETCH_PAUSE_SECONDS,
};
use timesheet_billing::billing::bill;
use timesheet_billing::entry::TimeEntry;
use timesheet_billing::store::{BilledStore, WriteOutcome};

/// A service that knows projects 10 and 11 of client 5 ("ACME") and project
/// 20 of client 6 ("Other Corp"); project 30 has no client, and client 7 of
/// project 40 has no name. It counts what it is asked.
struct Service {
    project_fetches: Vec<i64>,
    client_fetches: Vec<i64>,
}

impl Service {
    fn new() -> Service {
        Service { project_fetches: Vec::new(), client_fetches: Vec::new() }
    }

    fn project(&mut self, project_id: i64) -> Response {
        self.project_fetches.push(project_id);
        let client_id = match project_id {
            10 | 11 => Some(5),
            20 => Some(6),
            40 => Some(7),
            _ => None,
        };
        Response::Project { client_id }
    }

    fn client(&mut self, client_id: i64) -> Response {
        self.client_fetches.push(client_id);
        let name = match client_id {
            5 => Some("ACME".to_string()),
            6 => Some("Other Corp".to_string()),
            _ => None,
        };
        Response::Client { name }
    }
}

fn drive(run: &mut Aggregator, service: &mut Service) -> Result<(), AggregateError> {
    loop {
        match run.next_request()? {
            Request::Finished => return Ok(()),
            Request::FetchProject { project_id } => run.supply(service.project(project_id))?,
            Request::FetchClient { client_id } => run.supply(service.client(client_id))?,
        }
    }
}

fn acme_run(entries: Vec<TimeEntry>, store: BilledStore) -> Aggregator {
    Aggregator::new(entries, "ACME".to_string(), store)
}

fn total(run: &Aggregator, description: &str) -> Option<i64> {
    run.summary().total_for(&description.to_string())
}

#[test]
fn two_entries_with_one_description_make_one_line() {
    let entries = vec![
        TimeEntry::new(1, Some("A"), Some(3600), Some(10)),
        TimeEntry::new(2, Some("A"), Some(1800), Some(10)),
    ];
    let mut run = acme_run(entries, BilledStore::new());
    drive(&mut run, &mut Service::new()).unwrap();
    assert!(run.is_finished());
    assert_eq!(run.to_bill(), &vec![1, 2]);
    assert_eq!(run.outcomes(), &vec![Outcome::Billed, Outcome::Billed]);
    let summary = run.summary();
    assert_eq!(summary.len(), 1);
    assert_eq!(summary.line(0).description(), "A");
    assert_eq!(summary.line(0).total_seconds(), 5400);

    let report = bill(summary, 100).unwrap();
    assert_eq!(report.len(), 1);
    let line = report.line(0);
    assert_eq!(line.description(), "A");
    assert_eq!((line.exact_hours().numer(), line.exact_hours().denom()), (3, 2));
    assert_eq!((line.rounded_hours().numer(), line.rounded_hours().denom()), (3, 2));
    assert_eq!((line.price().numer(), line.price().denom()), (150, 1));
    assert_eq!((report.total_hours().numer(), report.total_hours().denom()), (3, 2));
    assert_eq!((report.total_price().numer(), report.total_price().denom()), (150, 1));
    assert_eq!((report.deviation().numer(), report.deviation().denom()), (0, 1));
}

#[test]
fn running_timer_is_left_out_and_the_run_completes() {
    let entries = vec![
        TimeEntry::new(1, Some("A"), Some(3600), Some(10)),
        TimeEntry::new(2, Some("A"), Some(-30), Some(10)),
        TimeEntry::new(3, Some("B"), Some(600), Some(10)),
    ];
    let mut run = acme_run(entries, BilledStore::new());
    assert_eq!(drive(&mut run, &mut Service::new()), Ok(()));
    assert!(run.is_finished());
    assert_eq!(
        run.outcomes(),
        &vec![Outcome::Billed, Outcome::NegativeDuration, Outcome::Billed]
    );
    assert_eq!(run.to_bill(), &vec![1, 3]);
    assert_eq!(total(&run, "A"), Some(3600));
    assert_eq!(total(&run, "B"), Some(600));
}

#[test]
fn duration_of_minus_one_reaches_neither_summary_nor_batch() {
    let entries = vec![TimeEntry::new(1, Some("A"), Some(-1), Some(10))];
    let mut run = acme_run(entries, BilledStore::new());
    let mut service = Service::new();
    drive(&mut run, &mut service).unwrap();
    assert_eq!(run.outcomes(), &vec![Outcome::NegativeDuration]);
    assert_eq!(run.to_bill(), &Vec::<i64>::new());
    assert_eq!(run.summary().len(), 0);
    assert_eq!(total(&run, "A"), None);
}

#[test]
fn running_timer_causes_no_fetch() {
    let entries = vec![TimeEntry::new(1, Some("A"), Some(-1), Some(10))];
    let mut run = acme_run(entries, BilledStore::new());
    let mut service = Service::new();
    drive(&mut run, &mut service).unwrap();
    assert_eq!(service.project_fetches, Vec::<i64>::new());
    assert_eq!(service.client_fetches, Vec::<i64>::new());
}

#[test]
fn zero_duration_is_billed() {
    let entries = vec![TimeEntry::new(1, Some("A"), Some(0), Some(10))];
    let mut run = acme_run(entries, BilledStore::new());
    drive(&mut run, &mut Service::new()).unwrap();
    assert_eq!(run.outcomes(), &vec![Outcome::Billed]);
    assert_eq!(run.to_bill(), &vec![1]);
    assert_eq!(total(&run, "A"), Some(0));
}

#[test]
fn entry_without_project_is_skipped() {
    let entries = vec![
        TimeEntry::new(1, Some("A"), Some(60), None),
        TimeEntry::new(2, Some("A"), Some(120), Some(10)),
    ];
    let mut run = acme_run(entries, BilledStore::new());
    drive(&mut run, &mut Service::new()).unwrap();
    assert_eq!(run.outcomes(), &vec![Outcome::MissingProject, Outcome::Billed]);
    assert_eq!(run.to_bill(), &vec![2]);
    assert_eq!(total(&run, "A"), Some(120));
}

#[test]
fn billed_entry_is_skipped_before_anything_else() {
    let mut store = BilledStore::new();
    store.record(1, true);
    store.record(2, false);
    let entries = vec![
        TimeEntry::new(1, Some("A"), None, None),
        TimeEntry::new(2, Some("A"), Some(120), Some(10)),
    ];
    let mut run = acme_run(entries, store);
    drive(&mut run, &mut Service::new()).unwrap();
    assert_eq!(run.outcomes(), &vec![Outcome::AlreadyBilled, Outcome::Billed]);
    assert_eq!(run.to_bill(), &vec![2]);
}

#[test]
fn entries_of_another_client_are_read_and_left_out() {
    let entries = vec![
        TimeEntry::new(1, Some("A"), Some(60), Some(20)),
        TimeEntry::new(2, Some("A"), Some(120), Some(10)),
    ];
    let mut run = acme_run(entries, BilledStore::new());
    drive(&mut run, &mut Service::new()).unwrap();
    assert_eq!(run.outcomes(), &vec![Outcome::OtherClient, Outcome::Billed]);
    assert_eq!(run.to_bill(), &vec![2]);
    assert_eq!(total(&run, "A"), Some(120));
}

#[test]
fn target_name_must_match_exactly() {
    let entries = vec![TimeEntry::new(1, Some("A"), Some(60), Some(10))];
    let mut run = Aggregator::new(entries, "Acme".to_string(), BilledStore::new());
    drive(&mut run, &mut Service::new()).unwrap();
    assert_eq!(run.outcomes(), &vec![Outcome::OtherClient]);
    assert_eq!(run.to_bill(), &Vec::<i64>::new());
}

#[test]
fn entries_sharing_a_project_cause_one_fetch() {
    let entries = (1..=25).map(|id| TimeEntry::new(id, Some("A"), Some(60), Some(10))).collect();
    let mut run = acme_run(entries, BilledStore::new());
    let mut service = Service::new();
    drive(&mut run, &mut service).unwrap();
    assert_eq!(service.project_fetches, vec![10]);
    assert_eq!(service.client_fetches, vec![5]);
    assert_eq!(run.to_bill().len(), 25);
    assert_eq!(total(&run, "A"), Some(25 * 60));
}

#[test]
fn each_project_and_client_is_fetched_once() {
    let entries = vec![
        TimeEntry::new(1, Some("A"), Some(60), Some(10)),
        TimeEntry::new(2, Some("B"), Some(60), Some(20)),
        TimeEntry::new(3, Some("C"), Some(60), Some(10)),
        TimeEntry::new(4, Some("D"), Some(60), Some(20)),
    ];
    let mut run = acme_run(entries, BilledStore::new());
    let mut service = Service::new();
    drive(&mut run, &mut service).unwrap();
    assert_eq!(service.project_fetches, vec![10, 20]);
    assert_eq!(service.client_fetches, vec![5, 6]);
    assert_eq!(run.to_bill(), &vec![1, 3]);
}

#[test]
fn project_without_client_is_skipped_and_not_remembered() {
    let entries = vec![
        TimeEntry::new(1, Some("A"), Some(60), Some(30)),
        TimeEntry::new(2, Some("A"), Some(60), Some(30)),
        TimeEntry::new(3, Some("A"), Some(60), Some(10)),
    ];
    let mut run = acme_run(entries, BilledStore::new());
    let mut service = Service::new();
    drive(&mut run, &mut service).unwrap();
    assert_eq!(
        run.outcomes(),
        &vec![Outcome::ProjectWithoutClient, Outcome::ProjectWithoutClient, Outcome::Billed]
    );
    assert_eq!(service.project_fetches, vec![30, 30, 10]);
    assert_eq!(run.to_bill(), &vec![3]);
}

#[test]
fn missing_duration_ends_the_run() {
    let entries = vec![
        TimeEntry::new(1, Some("A"), Some(60), Some(10)),
        TimeEntry::new(2, Some("A"), None, Some(10)),
        TimeEntry::new(3, Some("A"), Some(60), Some(10)),
    ];
    let mut run = acme_run(entries, BilledStore::new());
    let error = AggregateError::MissingDuration { entry_id: 2 };
    assert_eq!(drive(&mut run, &mut Service::new()), Err(error));
    assert!(!run.is_finished());
    assert_eq!(run.next_request(), Err(error));
    assert_eq!(run.outcomes().len(), 1);
}

#[test]
fn client_without_name_ends_the_run() {
    let entries = vec![
        TimeEntry::new(1, Some("A"), Some(60), Some(40)),
        TimeEntry::new(2, Some("A"), Some(60), Some(10)),
    ];
    let mut run = acme_run(entries, BilledStore::new());
    let error = AggregateError::ClientWithoutName { client_id: 7 };
    assert_eq!(drive(&mut run, &mut Service::new()), Err(error));
    assert!(!run.is_finished());
    assert_eq!(run.next_request(), Err(error));
    assert_eq!(run.supply(Response::Client { name: Some("ACME".to_string()) }), Err(error));
    assert_eq!(run.to_bill(), &Vec::<i64>::new());
}

#[test]
fn total_beyond_64_bits_ends_the_run() {
    let entries = vec![
        TimeEntry::new(1, Some("A"), Some(i64::MAX), Some(10)),
        TimeEntry::new(2, Some("B"), Some(i64::MAX), Some(10)),
        TimeEntry::new(3, Some("A"), Some(1), Some(10)),
    ];
    let mut run = acme_run(entries, BilledStore::new());
    let error = AggregateError::TotalOverflow { entry_id: 3 };
    assert_eq!(drive(&mut run, &mut Service::new()), Err(error));
    assert_eq!(run.outcomes(), &vec![Outcome::Billed, Outcome::Billed]);
    assert_eq!(total(&run, "A"), Some(i64::MAX));
}

#[test]
fn answer_that_was_not_asked_for_is_refused() {
    let entries = vec![TimeEntry::new(1, Some("A"), Some(60), Some(10))];
    let mut run = acme_run(entries, BilledStore::new());
    assert_eq!(run.next_request(), Ok(Request::FetchProject { project_id: 10 }));
    assert_eq!(
        run.supply(Response::Client { name: Some("ACME".to_string()) }),
        Err(AggregateError::UnexpectedResponse)
    );
    assert_eq!(run.next_request(), Ok(Request::FetchProject { project_id: 10 }));
    assert_eq!(run.supply(Response::Project { client_id: Some(5) }), Ok(()));
    assert_eq!(
        run.supply(Response::Project { client_id: Some(5) }),
        Err(AggregateError::UnexpectedResponse)
    );
    assert_eq!(run.next_request(), Ok(Request::FetchClient { client_id: 5 }));
}

#[test]
fn answer_after_the_end_is_refused() {
    let mut run = acme_run(Vec::new(), BilledStore::new());
    assert_eq!(run.next_request(), Ok(Request::Finished));
    assert!(run.is_finished());
    assert_eq!(
        run.supply(Response::Project { client_id: Some(5) }),
        Err(AggregateError::UnexpectedResponse)
    );
    assert_eq!(run.next_request(), Ok(Request::Finished));
}

#[test]
fn asking_twice_gives_the_same_request() {
    let entries = vec![
        TimeEntry::new(1, Some("A"), Some(-5), Some(10)),
        TimeEntry::new(2, Some("A"), Some(60), Some(10)),
    ];
    let mut run = acme_run(entries, BilledStore::new());
    assert_eq!(run.next_request(), Ok(Request::FetchProject { project_id: 10 }));
    assert_eq!(run.outcomes(), &vec![Outcome::NegativeDuration]);
    assert_eq!(run.next_request(), Ok(Request::FetchProject { project_id: 10 }));
    assert_eq!(run.outcomes(), &vec![Outcome::NegativeDuration]);
}

#[test]
fn descriptions_are_trimmed_and_merged() {
    let entries = vec![
        TimeEntry::new(1, Some("  Design "), Some(60), Some(10)),
        TimeEntry::new(2, Some("Design"), Some(30), Some(10)),
        TimeEntry::new(3, Some("\tDesign\n"), Some(10), Some(10)),
    ];
    let mut run = acme_run(entries, BilledStore::new());
    drive(&mut run, &mut Service::new()).unwrap();
    assert_eq!(run.summary().len(), 1);
    assert_eq!(total(&run, "Design"), Some(100));
}

#[test]
fn missing_or_blank_description_becomes_other() {
    assert_eq!(TimeEntry::new(1, None, Some(1), None).description(), "Other");
    assert_eq!(TimeEntry::new(1, Some(""), Some(1), None).description(), "Other");
    assert_eq!(TimeEntry::new(1, Some("   "), Some(1), None).description(), "Other");
    assert_eq!(TimeEntry::new(1, Some(" x "), Some(1), None).description(), "x");
    let entries = vec![
        TimeEntry::new(1, None, Some(60), Some(10)),
        TimeEntry::new(2, Some(" "), Some(30), Some(10)),
        TimeEntry::new(3, Some("Other"), Some(10), Some(10)),
    ];
    let mut run = acme_run(entries, BilledStore::new());
    drive(&mut run, &mut Service::new()).unwrap();
    assert_eq!(run.summary().len(), 1);
    assert_eq!(total(&run, "Other"), Some(100));
}

#[test]
fn entry_keeps_its_fields() {
    let entry = TimeEntry::new(42, Some("A"), Some(-7), Some(10));
    assert_eq!(entry.id(), 42);
    assert_eq!(entry.description(), "A");
    assert_eq!(entry.duration(), Some(-7));
    assert_eq!(entry.project_id(), Some(10));
}

fn month_of_entries() -> Vec<TimeEntry> {
    vec![
        TimeEntry::new(1, Some("A"), Some(3600), Some(10)),
        TimeEntry::new(2, Some("B"), Some(1800), Some(20)),
        TimeEntry::new(3, Some("A"), Some(-30), Some(10)),
        TimeEntry::new(4, Some("C"), Some(900), None),
        TimeEntry::new(5, Some("C"), Some(900), Some(10)),
        TimeEntry::new(6, Some("D"), Some(900), Some(30)),
    ]
}

#[test]
fn second_run_after_a_commit_bills_nothing() {
    let mut first = acme_run(month_of_entries(), BilledStore::new());
    drive(&mut first, &mut Service::new()).unwrap();
    assert_eq!(first.to_bill(), &vec![1, 5]);
    let (_, to_bill, mut store) = first.into_parts();
    store.conclude(&to_bill, WriteOutcome::Committed);

    let mut second = acme_run(month_of_entries(), store);
    drive(&mut second, &mut Service::new()).unwrap();
    assert!(second.is_finished());
    assert_eq!(second.to_bill(), &Vec::<i64>::new());
    assert_eq!(second.summary().len(), 0);
    assert_eq!(second.outcomes()[0], Outcome::AlreadyBilled);
    assert_eq!(second.outcomes()[4], Outcome::AlreadyBilled);
}

#[test]
fn second_run_after_an_interrupted_commit_bills_the_same() {
    let mut first = acme_run(month_of_entries(), BilledStore::new());
    drive(&mut first, &mut Service::new()).unwrap();
    let (_, to_bill, mut store) = first.into_parts();
    store.conclude(&to_bill, WriteOutcome::Interrupted);
    for id in &to_bill {
        assert!(!store.is_billed(*id));
    }

    let mut second = acme_run(month_of_entries(), store);
    drive(&mut second, &mut Service::new()).unwrap();
    assert_eq!(second.to_bill(), &vec![1, 5]);
    assert_eq!(total(&second, "A"), Some(3600));
    assert_eq!(total(&second, "C"), Some(900));
}

#[test]
fn second_run_bills_only_what_is_new() {
    let mut first = acme_run(month_of_entries(), BilledStore::new());
    drive(&mut first, &mut Service::new()).unwrap();
    let (_, to_bill, mut store) = first.into_parts();
    store.commit(&to_bill);

    let mut entries = month_of_entries();
    entries.push(TimeEntry::new(7, Some("A"), Some(120), Some(10)));
    let mut second = acme_run(entries, store);
    drive(&mut second, &mut Service::new()).unwrap();
    assert_eq!(second.to_bill(), &vec![7]);
    assert_eq!(second.summary().len(), 1);
    assert_eq!(total(&second, "A"), Some(120));
}

#[test]
fn into_parts_hands_out_summary_batch_and_store() {
    let mut store = BilledStore::new();
    store.record(9, true);
    let entries = vec![TimeEntry::new(1, Some("A"), Some(60), Some(10))];
    let mut run = acme_run(entries, store);
    drive(&mut run, &mut Service::new()).unwrap();
    let (summary, to_bill, store) = run.into_parts();
    assert_eq!(summary.len(), 1);
    assert_eq!(summary.total_for(&"A".to_string()), Some(60));
    assert_eq!(to_bill, vec![1]);
    assert!(store.is_billed(9));
    assert!(!store.is_billed(1));
}

#[test]
fn skipped_entries_warn_and_the_others_do_not() {
    assert!(Outcome::NegativeDuration.is_warning());
    assert!(Outcome::MissingProject.is_warning());
    assert!(Outcome::ProjectWithoutClient.is_warning());
    assert!(!Outcome::AlreadyBilled.is_warning());
    assert!(!Outcome::OtherClient.is_warning());
    assert!(!Outcome::Billed.is_warning());
}

#[test]
fn every_fetch_waits_a_second() {
    assert_eq!(FETCH_PAUSE_SECONDS, 1);
    assert_eq!(Request::FetchProject { project_id: 10 }.pause_seconds(), 1);
    assert_eq!(Request::FetchClient { client_id: 5 }.pause_seconds(), 1);
    assert_eq!(Request::Finished.pause_seconds(), 0);
}

#[test]
fn one_description_in_two_projects_makes_one_line() {
    let entries = vec![
        TimeEntry::new(1, Some("Meeting"), Some(600), Some(10)),
        TimeEntry::new(2, Some("Meeting"), Some(300), Some(11)),
        TimeEntry::new(3, Some("Meeting"), Some(100), Some(20)),
    ];
    let mut run = acme_run(entries, BilledStore::new());
    let mut service = Service::new();
    drive(&mut run, &mut service).unwrap();
    assert_eq!(run.summary().len(), 1);
    assert_eq!(total(&run, "Meeting"), Some(900));
    assert_eq!(run.to_bill(), &vec![1, 2]);
    assert_eq!(service.project_fetches, vec![10, 11, 20]);
    assert_eq!(service.client_fetches, vec![5, 6]);
}

#[test]
fn summary_lines_come_in_the_order_of_first_use() {
    let entries = vec![
        TimeEntry::new(1, Some("B"), Some(1), Some(10)),
        TimeEntry::new(2, Some("A"), Some(2), Some(10)),
        TimeEntry::new(3, Some("B"), Some(4), Some(10)),
    ];
    let mut run = acme_run(entries, BilledStore::new());
    drive(&mut run, &mut Service::new()).unwrap();
    let summary = run.summary();
    assert_eq!(summary.len(), 2);
    assert_eq!((summary.line(0).description().as_str(), summary.line(0).total_seconds()), ("B", 5));
    assert_eq!((summary.line(1).description().as_str(), summary.line(1).total_seconds()), ("A", 2));
}
