//! The per-plate poll task: cache check, idempotent found recording,
//! notification batches, and deprovisioning.

use tu_coche_dana_bot::db::model::vehicle::Vehicle;
use tu_coche_dana_bot::db::repo::Repo;
use tu_coche_dana_bot::tasks::fetch::{CacheDecision, FetchTask};
use tu_coche_dana_bot::BotError;

fn active_chat(repo: &mut Repo, id: i64) {
    repo.find_or_create_chat(&id, 900 + id as u64, "user", &None)
        .unwrap();
    repo.modify_active_chat(&id, true).unwrap();
}

#[test]
fn test_fetch_task() {
    let mut repo = Repo::new();
    let testing_plate = String::from("MATRICULA1");
    let testing_plate_found = String::from("MATRICULA2");
    let testing_chat = 1334_i64;

    active_chat(&mut repo, testing_chat);
    repo.insert_vehicle(Vehicle {
        plate: testing_plate.clone(),
        subscribers_ids: Some(format!("{},1,3,", testing_chat)),
        found_at: Some(1731662400),
    })
    .unwrap();
    repo.insert_vehicle(Vehicle {
        plate: testing_plate_found.clone(),
        subscribers_ids: Some(format!("{},", testing_chat)),
        found_at: None,
    })
    .unwrap();

    let found_task = FetchTask::new(testing_plate);
    assert!(matches!(
        found_task.check_cache(&repo),
        Ok(CacheDecision::FoundCached)
    ));
    let batch = found_task.notify_batch(&repo).unwrap();
    assert_eq!(batch.len(), 1);
    assert_eq!(batch[0].chat_id, testing_chat);

    let pending_task = FetchTask::new(testing_plate_found);
    assert!(matches!(
        pending_task.check_cache(&repo),
        Ok(CacheDecision::QueryExternal)
    ));
}

#[test]
fn task_without_subscribers_is_a_configuration_error() {
    let mut repo = Repo::new();
    repo.insert_vehicle_plate("EMPTY1").unwrap();
    let task = FetchTask::new("EMPTY1".to_string());
    match task.check_cache(&repo) {
        Err(BotError::FetchTaskError(msg)) => {
            assert_eq!(msg, "Running tasks for plate EMPTY1 with no subscribers");
        }
        other => panic!("expected a configuration error, got {:?}", other),
    }

    // a column that is present but decodes to the empty set is the same
    // configuration error: deprovisioning was missed
    let mut repo = Repo::new();
    repo.insert_vehicle(Vehicle {
        plate: "EMPTY2".to_string(),
        subscribers_ids: Some(String::new()),
        found_at: None,
    })
    .unwrap();
    let task = FetchTask::new("EMPTY2".to_string());
    assert!(matches!(task.check_cache(&repo), Err(BotError::FetchTaskError(_))));
}

#[test]
fn found_at_never_moves_once_set() {
    let mut repo = Repo::new();
    active_chat(&mut repo, 7);
    repo.insert_vehicle(Vehicle {
        plate: "MOV111".to_string(),
        subscribers_ids: Some("7,".to_string()),
        found_at: None,
    })
    .unwrap();

    let task = FetchTask::new("MOV111".to_string());
    task.record_found(&mut repo, 1000).unwrap();
    assert_eq!(repo.get_vehicle("MOV111").unwrap().found_at, Some(1000));

    // replaying the invocation must not change the recorded state
    task.record_found(&mut repo, 2000).unwrap();
    assert_eq!(repo.get_vehicle("MOV111").unwrap().found_at, Some(1000));
}

#[test]
fn notify_batch_has_one_message_per_active_subscriber() {
    let mut repo = Repo::new();
    active_chat(&mut repo, 1);
    active_chat(&mut repo, 2);
    repo.find_or_create_chat(&3, 903, "paused", &None).unwrap();
    repo.insert_vehicle(Vehicle {
        plate: "BATCH1".to_string(),
        subscribers_ids: Some("1,2,3,".to_string()),
        found_at: Some(1431648000),
    })
    .unwrap();

    let task = FetchTask::new("BATCH1".to_string());
    let batch = task.notify_batch(&repo).unwrap();
    let ids: Vec<i64> = batch.iter().map(|n| n.chat_id).collect();
    assert_eq!(ids, vec![1, 2]);

    // running the same invocation again sends the same single batch
    let again = task.notify_batch(&repo).unwrap();
    assert_eq!(again.len(), 2);
}

#[test]
fn deprovision_removes_only_this_plate() {
    let mut repo = Repo::new();
    repo.schedule_task("KEEP11").unwrap();
    repo.schedule_task("DROP11").unwrap();
    let task = FetchTask::new("DROP11".to_string());
    task.deprovision(&mut repo).unwrap();
    assert!(repo.has_task_for("KEEP11"));
    assert!(!repo.has_task_for("DROP11"));
}

#[test]
fn found_report_renders_the_spanish_date() {
    let vehicle = Vehicle {
        plate: "ABC123".to_string(),
        subscribers_ids: Some("42,".to_string()),
        found_at: Some(1431648000),
    };
    assert_eq!(
        vehicle.found_at_to_text(),
        "El vehículo ABC123 fue encontrado el viernes, 15 de mayo de 2015, 00:00 🙌🏼"
    );

    let pending = Vehicle {
        plate: "ABC123".to_string(),
        subscribers_ids: None,
        found_at: None,
    };
    assert_eq!(
        pending.found_at_to_text(),
        "El vehículo ABC123 no ha sido encontrado todavía"
    );
}

#[test]
fn task_shape() {
    let task = FetchTask::new("SHAPE1".to_string());
    assert!(task.uniq());
    assert_eq!(task.task_type(), "scheduled_fetch");
    assert_eq!(task.cron(5), "* */5 * * * * *");
    assert_eq!(task.backoff(0), 1);
    assert_eq!(task.backoff(3), 8);
    assert_eq!(task.backoff(10), 1024);
}

#[test]
fn out_of_range_found_timestamp_still_reports() {
    let vehicle = Vehicle {
        plate: "FAR111".to_string(),
        subscribers_ids: Some("1,".to_string()),
        found_at: Some(i64::MAX),
    };
    assert_eq!(
        vehicle.found_at_to_text(),
        "El vehículo FAR111 fue encontrado 🙌🏼"
    );
}

#[test]
fn found_report_pads_hours_and_minutes() {
    let vehicle = Vehicle {
        plate: "PAD111".to_string(),
        subscribers_ids: None,
        // 2015-05-15 05:07:00 UTC
        found_at: Some(1431666420),
    };
    assert_eq!(
        vehicle.found_at_to_text(),
        "El vehículo PAD111 fue encontrado el viernes, 15 de mayo de 2015, 05:07 🙌🏼"
    );
}

#[test]
fn found_report_renders_every_month() {
    // the first day of each month of 2024, 12:30 UTC
    let cases: Vec<(i64, &str)> = vec![
        (1704112200, "enero"),
        (1706790600, "febrero"),
        (1709296200, "marzo"),
        (1711974600, "abril"),
        (1714566600, "mayo"),
        (1717245000, "junio"),
        (1719837000, "julio"),
        (1722515400, "agosto"),
        (1725193800, "septiembre"),
        (1727785800, "octubre"),
        (1730464200, "noviembre"),
        (1733056200, "diciembre"),
    ];
    for (ts, month) in cases {
        let vehicle = Vehicle {
            plate: "MES111".to_string(),
            subscribers_ids: None,
            found_at: Some(ts),
        };
        let text = vehicle.found_at_to_text();
        assert!(text.contains(month), "{} missing in {}", month, text);
    }
}

#[test]
fn query_result_is_a_no_op_until_found_then_persists_before_notifying() {
    let mut repo = Repo::new();
    active_chat(&mut repo, 5);
    repo.insert_vehicle(Vehicle {
        plate: "QR1111".to_string(),
        subscribers_ids: Some("5,".to_string()),
        found_at: None,
    })
    .unwrap();
    let task = FetchTask::new("QR1111".to_string());

    // registry error or "not found": nothing changes this cycle
    assert!(matches!(task.on_query_result(&mut repo, None), Ok(None)));
    assert!(repo.get_vehicle("QR1111").unwrap().found_at.is_none());

    // found at T: persisted, then one message per active subscriber
    let batch = task
        .on_query_result(&mut repo, Some(1431648000))
        .unwrap()
        .unwrap();
    assert_eq!(repo.get_vehicle("QR1111").unwrap().found_at, Some(1431648000));
    assert_eq!(batch.len(), 1);
    assert_eq!(batch[0].chat_id, 5);
    assert!(batch[0].text.contains("QR1111"));
}
