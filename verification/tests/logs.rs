use pipelight::error::PipelineError;
use pipelight::logs::{instant, sort_by_date_asc, sort_by_instants, Logs};
use pipelight::pipeline::{Event, Pipeline};
use pipelight::trigger::Trigger;

fn logged(name: &str, date: &str) -> Pipeline {
    let mut p = Pipeline::named(name.to_owned(), vec![]);
    p.event = Some(Event { trigger: Trigger::new(), date: date.to_owned(), pid: Some(1) });
    p
}

fn dates(list: &[Pipeline]) -> Vec<&str> {
    list.iter().map(|p| p.event.as_ref().unwrap().date.as_str()).collect()
}

#[test]
fn instant_reads_the_date() {
    assert_eq!(instant(&logged("a", "1970-01-01T00:00:01Z")), Some((1, 0)));
    assert_eq!(instant(&logged("a", "2015-05-15 00:00:00 UTC")), Some((1431648000, 0)));
    assert_eq!(instant(&logged("a", "2015-05-15 02:00:00.5+02:00")), Some((1431648000, 500000000)));
    assert_eq!(instant(&logged("a", "yesterday")), None);
    assert_eq!(instant(&logged("a", "")), None);
    assert_eq!(instant(&Pipeline::named("a".to_owned(), vec![])), None);
}

#[test]
fn event_dates_can_be_read_back() {
    let event = Event::new(Trigger::new(), 1);
    let mut p = Pipeline::named("a".to_owned(), vec![]);
    p.event = Some(event);
    let (seconds, nanos) = instant(&p).unwrap();
    assert!(seconds > 1_600_000_000);
    assert!(nanos < 2_000_000_000);
}

#[test]
fn sort_is_by_instant_not_by_text() {
    let sorted = sort_by_date_asc(vec![
        logged("a", "2024-01-01T12:00:00+02:00"),
        logged("b", "2024-01-01T09:30:00Z"),
        logged("c", "2023-12-31 23:00:00 UTC"),
        logged("d", "2024-01-01T10:00:00.000000001Z"),
    ])
    .unwrap();
    assert_eq!(
        dates(&sorted),
        vec![
            "2023-12-31 23:00:00 UTC",
            "2024-01-01T09:30:00Z",
            "2024-01-01T12:00:00+02:00",
            "2024-01-01T10:00:00.000000001Z",
        ]
    );
}

#[test]
fn sort_is_stable() {
    let sorted = sort_by_date_asc(vec![
        logged("first", "2024-01-01T10:00:00Z"),
        logged("early", "2020-01-01T10:00:00Z"),
        logged("second", "2024-01-01 10:00:00 UTC"),
        logged("third", "2024-01-01T11:00:00+01:00"),
    ])
    .unwrap();
    let names: Vec<&str> = sorted.iter().map(|p| p.name.as_str()).collect();
    assert_eq!(names, vec!["early", "first", "second", "third"]);
}

#[test]
fn sort_rejects_an_unreadable_date() {
    let res = sort_by_date_asc(vec![logged("a", "2024-01-01T10:00:00Z"), logged("b", "n/a")]);
    assert_eq!(res.err(), Some(PipelineError::UnreadableDate));
    let res = sort_by_date_asc(vec![Pipeline::named("a".to_owned(), vec![])]);
    assert_eq!(res.err(), Some(PipelineError::UnreadableDate));
    assert_eq!(sort_by_date_asc(vec![]).unwrap().len(), 0);
    assert!(Logs::hydrate(vec![logged("b", "n/a")]).is_err());
    assert_eq!(
        PipelineError::UnreadableDate.message(),
        "Couldn't read the date of a logged pipeline"
    );
}

#[test]
fn getters_by_name() {
    let logs = Logs::hydrate(vec![
        logged("x", "2024-01-03T10:00:00Z"),
        logged("y", "2024-01-02T10:00:00Z"),
        logged("x", "2024-01-01T10:00:00Z"),
    ])
    .unwrap();
    assert_eq!(logs.get().len(), 3);
    assert_eq!(
        dates(logs.get()),
        vec!["2024-01-01T10:00:00Z", "2024-01-02T10:00:00Z", "2024-01-03T10:00:00Z"]
    );
    let many = logs.get_many_by_name("x").unwrap();
    assert_eq!(many.len(), 2);
    assert_eq!(many[0].event.as_ref().unwrap().date, "2024-01-01T10:00:00Z");
    assert_eq!(many[1].event.as_ref().unwrap().date, "2024-01-03T10:00:00Z");
    let last = logs.get_by_name("x").unwrap();
    assert_eq!(last.event.as_ref().unwrap().date, "2024-01-03T10:00:00Z");
    assert_eq!(logs.get_by_name("y").unwrap().name, "y");
    assert_eq!(logs.get_many_by_name("z").err(), Some(PipelineError::NotFound));
    assert_eq!(logs.get_by_name("z").err(), Some(PipelineError::NotFound));
    assert_eq!(Logs::new().get().len(), 0);
    assert_eq!(Logs::new().get_by_name("x").err(), Some(PipelineError::NotFound));
    assert_eq!(
        PipelineError::NotFound.message(),
        "Couldn't find a pipeline with that name in logs"
    );
}

#[test]
fn sort_by_given_instants() {
    let list = || vec![logged("a", "-"), logged("b", "-"), logged("c", "-"), logged("d", "-")];
    let names = |sorted: Vec<Pipeline>| -> Vec<String> {
        sorted.into_iter().map(|p| p.name).collect()
    };
    let sorted = sort_by_instants(list(), vec![(5, 0), (1, 9), (5, 0), (1, 3)]).unwrap();
    assert_eq!(names(sorted), vec!["d", "b", "a", "c"]);
    let sorted = sort_by_instants(list(), vec![(-1, 0), (i64::MIN, 0), (i64::MAX, u32::MAX), (0, 0)])
        .unwrap();
    assert_eq!(names(sorted), vec!["b", "a", "d", "c"]);
    let sorted = sort_by_instants(list(), vec![(7, 7), (7, 7), (7, 7), (7, 7)]).unwrap();
    assert_eq!(names(sorted), vec!["a", "b", "c", "d"]);
    assert!(sort_by_instants(list(), vec![(1, 1)]).is_none());
    assert_eq!(sort_by_instants(vec![], vec![]).unwrap().len(), 0);
}
