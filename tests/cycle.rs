use nomad_vmonitor::events::{next_index, take_record, wakes_waiters};
use nomad_vmonitor::freshness::UpdatedVersion;
use nomad_vmonitor::nomad::{ReadJobConfig, ReadJobResponse, ReadJobTask, ReadJobTaskGroup};
use nomad_vmonitor::reconcile::{
    cycle_updates, finish_lookup, plan_task, publish_commands, tasks_of_jobs, SinkCommand, TaskPlan,
};
use nomad_vmonitor::version::Version;

fn docker(image: &str) -> ReadJobConfig {
    ReadJobConfig::Docker { image: image.to_string() }
}

fn job(name: &str, parent: &str, tasks: Vec<(&str, ReadJobConfig)>) -> ReadJobResponse {
    ReadJobResponse {
        id: name.to_string(),
        name: name.to_string(),
        parent_id: parent.to_string(),
        task_groups: vec![ReadJobTaskGroup {
            name: "g".to_string(),
            count: 1,
            tasks: tasks
                .into_iter()
                .map(|(n, c)| ReadJobTask { name: n.to_string(), config: c })
                .collect(),
        }],
    }
}

#[test]
fn child_jobs_are_left_out() {
    let jobs = vec![
        job("web", "", vec![("a", docker("nginx:1.0.0")), ("b", ReadJobConfig::RawExec {})]),
        job("web/dispatch-1", "web", vec![("c", docker("nginx:1.0.0"))]),
        job("db", "", vec![("d", docker("postgres:16.1.0"))]),
    ];
    let tasks = tasks_of_jobs(&jobs);
    let names: Vec<(String, String, String)> = tasks
        .iter()
        .map(|t| (t.job.clone(), t.group.clone(), t.task.clone()))
        .collect();
    assert_eq!(
        names,
        vec![
            ("web".to_string(), "g".to_string(), "a".to_string()),
            ("web".to_string(), "g".to_string(), "b".to_string()),
            ("db".to_string(), "g".to_string(), "d".to_string()),
        ]
    );
}

#[test]
fn plans_of_tasks() {
    assert!(matches!(plan_task(&docker("app:$VAR")), TaskPlan::Skip));
    assert!(matches!(plan_task(&docker("a/b/c:1.0.0")), TaskPlan::Skip));
    assert!(matches!(plan_task(&docker("app:edge")), TaskPlan::Skip));
    assert!(matches!(
        plan_task(&docker("app")),
        TaskPlan::Publish(UpdatedVersion::UpToDate { version }) if version == "latest"
    ));
    assert!(matches!(
        plan_task(&ReadJobConfig::RawExec {}),
        TaskPlan::Publish(UpdatedVersion::UpToDate { version }) if version.is_empty()
    ));
    match plan_task(&docker("user/app:v1.2.3")) {
        TaskPlan::LookUp { image, version } => {
            assert_eq!(image.name, "app");
            assert_eq!(version, Version::Semantic { major: 1, minor: Some(2), patch: Some(3) });
        }
        other => panic!("unexpected plan {:?}", other),
    }
}

#[test]
fn unparsable_image_does_not_hold_back_siblings() {
    let jobs = vec![
        job("web", "", vec![("bad", docker("app:$VAR")), ("good", docker("nginx:latest"))]),
        job("db", "", vec![("x", ReadJobConfig::RawExec {})]),
    ];
    let tasks = tasks_of_jobs(&jobs);
    let outcomes: Vec<Option<UpdatedVersion>> = tasks
        .iter()
        .map(|t| match plan_task(&t.config) {
            TaskPlan::Publish(u) => Some(u),
            _ => None,
        })
        .collect();
    let updates = cycle_updates(&tasks, &outcomes);
    let names: Vec<&str> = updates.iter().map(|u| u.task.as_str()).collect();
    assert_eq!(names, vec!["good", "x"]);
    assert_eq!(updates[0].job, "web");
    assert_eq!(updates[0].version, UpdatedVersion::UpToDate { version: "latest".to_string() });
}

#[test]
fn records_are_split_at_newlines() {
    let mut pending = b"{\"Index\":3}\n{\"Ind".to_vec();
    assert_eq!(take_record(&mut pending), Some(b"{\"Index\":3}".to_vec()));
    assert_eq!(pending, b"{\"Ind".to_vec());
    assert_eq!(take_record(&mut pending), None);
    assert_eq!(pending, b"{\"Ind".to_vec());
    let mut empty = b"\n".to_vec();
    assert_eq!(take_record(&mut empty), Some(vec![]));
    assert!(empty.is_empty());
}

#[test]
fn stream_index_only_grows() {
    assert_eq!(next_index(5, Some(9)), 9);
    assert_eq!(next_index(5, Some(2)), 5);
    assert_eq!(next_index(5, None), 5);
}

#[test]
fn waiters_wake_only_on_a_higher_index() {
    assert!(wakes_waiters(5, Some(9)));
    assert!(!wakes_waiters(5, Some(5)));
    assert!(!wakes_waiters(5, Some(2)));
    assert!(!wakes_waiters(5, None));
}

#[test]
fn cycle_publishes_out_of_date_task() {
    let jobs = vec![job("J", "", vec![("T", docker("user/app:1.2.3"))])];
    let tasks = tasks_of_jobs(&jobs);
    let outcomes: Vec<Option<UpdatedVersion>> = tasks
        .iter()
        .map(|t| match plan_task(&t.config) {
            TaskPlan::LookUp { image, version } => {
                assert_eq!(image.namespace, Some("user".to_string()));
                assert_eq!(image.name, "app");
                let listed = Ok(vec!["1.2.3".to_string(), "1.3.0".to_string(), "1.2".to_string()]);
                finish_lookup(&version, &listed)
            }
            other => panic!("unexpected plan {:?}", other),
        })
        .collect();
    let updates = cycle_updates(&tasks, &outcomes);
    assert_eq!(updates.len(), 1);
    assert_eq!(updates[0].job, "J");
    assert_eq!(updates[0].group, "g");
    assert_eq!(updates[0].task, "T");
    assert_eq!(
        updates[0].version,
        UpdatedVersion::OutOfDate { current: "1.2.3".to_string(), newest: "1.3.0".to_string() }
    );
    let commands = publish_commands(&updates);
    assert_eq!(commands.len(), 2);
    assert!(matches!(commands[0], SinkCommand::Clear));
    assert!(matches!(&commands[1], SinkCommand::Update(u) if u.task == "T"
        && u.version == UpdatedVersion::OutOfDate { current: "1.2.3".to_string(), newest: "1.3.0".to_string() }));
}
