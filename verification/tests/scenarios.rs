//! End-to-end scenarios over the ledger, the poll task and the task
//! lifecycle rules.

use tu_coche_dana_bot::codec::{decode_ids, decode_tokens, ids_contain, tokens_contain};
use tu_coche_dana_bot::db::model::vehicle::Vehicle;
use tu_coche_dana_bot::db::repo::Repo;
use tu_coche_dana_bot::db::BotDbError;
use tu_coche_dana_bot::tasks::fetch::{CacheDecision, FetchTask};
use tu_coche_dana_bot::update_handler::process_update::{
    manage_task, remove_vehicle, RemoveVehicleOutcome, TaskToManage,
};

#[test]
fn active_chat_subscribes_polls_and_is_notified_once() {
    let mut repo = Repo::new();
    let chat_id = 42_i64;
    let plate = "ABC123";

    repo.find_or_create_chat(&chat_id, 4242, "interested", &None)
        .unwrap();
    repo.modify_active_chat(&chat_id, true).unwrap();
    repo.insert_vehicle_plate(plate).unwrap();

    // the subscribing action registers interest and schedules the task
    repo.create_subscription(plate, chat_id).unwrap();
    let vehicle = repo.get_vehicle(plate).unwrap();
    assert!(ids_contain(&vehicle.subscribers_ids, chat_id));
    let chat = repo.get_chat(&chat_id).unwrap();
    assert!(tokens_contain(&chat.subscribed_vehicles, plate));
    manage_task(
        &mut repo,
        TaskToManage::FetchTask(FetchTask::new(plate.to_string())),
    )
    .unwrap();
    assert!(repo.has_task_for(plate));

    // first poll cycle: the registry says "not found", nothing changes
    let task = FetchTask::new(plate.to_string());
    assert!(matches!(
        task.check_cache(&repo),
        Ok(CacheDecision::QueryExternal)
    ));
    assert!(repo.get_vehicle(plate).unwrap().found_at.is_none());
    assert!(repo.has_task_for(plate));

    // later cycle: found at time T; persist, notify, deprovision
    let found_at = 1431648000_i64;
    task.record_found(&mut repo, found_at).unwrap();
    assert_eq!(repo.get_vehicle(plate).unwrap().found_at, Some(found_at));
    let batch = task.notify_batch(&repo).unwrap();
    assert_eq!(batch.len(), 1);
    assert_eq!(batch[0].chat_id, chat_id);
    assert!(batch[0].text.contains(plate));
    assert!(batch[0].text.contains("15 de mayo de 2015"));
    task.deprovision(&mut repo).unwrap();
    assert!(!repo.has_task_for(plate));
}

#[test]
fn second_subscriber_keeps_the_task_alive() {
    let mut repo = Repo::new();
    let plate = "DEF456";
    for id in [1_i64, 2] {
        repo.find_or_create_chat(&id, 100 + id as u64, "subscriber", &None)
            .unwrap();
    }
    repo.insert_vehicle_plate(plate).unwrap();
    repo.create_subscription(plate, 1).unwrap();
    repo.create_subscription(plate, 2).unwrap();
    repo.schedule_task(plate).unwrap();

    let (task, outcome) = remove_vehicle(&mut repo, 1, plate).unwrap();
    assert!(matches!(
        outcome,
        RemoveVehicleOutcome::Removed { deactivated: true }
    ));
    assert!(matches!(task, TaskToManage::NoTask));

    let vehicle = repo.get_vehicle(plate).unwrap();
    assert!(ids_contain(&vehicle.subscribers_ids, 2));
    assert!(!ids_contain(&vehicle.subscribers_ids, 1));

    manage_task(&mut repo, task).unwrap();
    assert!(repo.has_task_for(plate));
}

#[test]
fn no_double_subscribe() {
    let mut repo = Repo::new();
    let plate = "GHI789";
    let chat_id = 9_i64;
    repo.find_or_create_chat(&chat_id, 909, "eager", &None).unwrap();
    repo.insert_vehicle_plate(plate).unwrap();

    assert!(repo.create_subscription(plate, chat_id).is_ok());
    let second = repo.create_subscription(plate, chat_id);
    assert!(matches!(
        second,
        Err(BotDbError::AlreadySubscribedError(id, p)) if id == chat_id && p == plate
    ));

    let vehicle = repo.get_vehicle(plate).unwrap();
    let subscribers = decode_ids(&vehicle.subscribers_ids);
    assert_eq!(subscribers, vec![chat_id]);
}

#[test]
fn ending_the_last_subscription_empties_the_plate_and_removes_the_task() {
    let mut repo = Repo::new();
    let plate = "JKL012";
    let chat_id = 5_i64;
    repo.find_or_create_chat(&chat_id, 505, "last", &None).unwrap();
    repo.insert_vehicle_plate(plate).unwrap();
    repo.create_subscription(plate, chat_id).unwrap();
    repo.schedule_task(plate).unwrap();

    let (n_subscribers, n_subscriptions) = repo.end_subscription(plate, chat_id).unwrap();
    assert_eq!(n_subscribers, 1);
    assert_eq!(n_subscriptions, 1);

    let subscribers = repo
        .get_subscriptions_from_vehicle_as_string(plate)
        .unwrap();
    assert_eq!(subscribers, Some(String::new()));
    assert_eq!(repo.get_n_subscribers_by_plate(plate).unwrap(), 0);

    // the caller observes the zeroed-out plate and deprovisions
    let mut repo2 = Repo::new();
    repo2.find_or_create_chat(&chat_id, 505, "last", &None).unwrap();
    repo2.insert_vehicle_plate(plate).unwrap();
    repo2.create_subscription(plate, chat_id).unwrap();
    repo2.schedule_task(plate).unwrap();
    let (task, _) = remove_vehicle(&mut repo2, chat_id, plate).unwrap();
    assert!(matches!(task, TaskToManage::RemoveTask(ref p) if p == plate));
    manage_task(&mut repo2, task).unwrap();
    assert!(!repo2.has_task_for(plate));
}

#[test]
fn ending_a_subscription_that_never_existed_is_refused_with_a_reason() {
    let mut repo = Repo::new();
    repo.find_or_create_chat(&1, 101, "watcher", &None).unwrap();
    repo.insert_vehicle_plate("MNO345").unwrap();

    match repo.end_subscription("MNO345", 1) {
        Err(BotDbError::CouldNotEndSubscription(1, plate, reason)) => {
            assert_eq!(plate, "MNO345");
            assert_eq!(reason, "The vehicle MNO345 doesn't have any subscribers");
        }
        other => panic!("expected CouldNotEndSubscription, got {:?}", other),
    }

    // the other side of the guard: the plate lists the chat, but the
    // chat's own subscription list never did
    let mut repo = Repo::new();
    repo.find_or_create_chat(&1, 101, "watcher", &None).unwrap();
    repo.insert_vehicle(Vehicle {
        plate: "MNO345".to_string(),
        subscribers_ids: Some("1,".to_string()),
        found_at: None,
    })
    .unwrap();
    match repo.end_subscription("MNO345", 1) {
        Err(BotDbError::CouldNotEndSubscription(1, _, reason)) => {
            assert_eq!(
                reason,
                "User 1 doesn't have any subscription at the moment"
            );
        }
        other => panic!("expected CouldNotEndSubscription, got {:?}", other),
    }
}

#[test]
fn the_relation_stays_mirrored_through_a_busy_sequence() {
    let mut repo = Repo::new();
    for id in [1_i64, 2, 3] {
        repo.find_or_create_chat(&id, 200 + id as u64, "subscriber", &None)
            .unwrap();
    }
    for plate in ["AAA111", "BBB222"] {
        repo.insert_vehicle_plate(plate).unwrap();
    }
    repo.create_subscription("AAA111", 1).unwrap();
    repo.create_subscription("AAA111", 2).unwrap();
    repo.create_subscription("BBB222", 2).unwrap();
    repo.create_subscription("BBB222", 3).unwrap();
    repo.end_subscription("AAA111", 2).unwrap();
    repo.create_subscription("AAA111", 3).unwrap();
    repo.end_subscription("BBB222", 3).unwrap();

    for id in [1_i64, 2, 3] {
        let chat = repo.get_chat(&id).unwrap();
        for plate in ["AAA111", "BBB222"] {
            let vehicle = repo.get_vehicle(plate).unwrap();
            let chat_side = decode_tokens(&chat.subscribed_vehicles)
                .iter()
                .any(|t| t == plate);
            let vehicle_side = decode_ids(&vehicle.subscribers_ids).contains(&id);
            assert_eq!(chat_side, vehicle_side, "chat {} plate {}", id, plate);
        }
    }
}
