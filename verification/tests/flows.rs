//! Command parsing and the lifecycle decisions taken after a command.

use tu_coche_dana_bot::db::model::vehicle::Vehicle;
use tu_coche_dana_bot::db::repo::Repo;
use tu_coche_dana_bot::update_handler::command::Command;
use tu_coche_dana_bot::update_handler::process_update::{
    add_vehicle, manage_task, remove_tasks, start_fetch, stop_fetch, AddVehicleOutcome,
    FetchToggleOutcome, TaskToManage,
};

#[test]
fn commands_parse_from_their_slash_forms() {
    assert!(matches!(Command::from_str("/start"), Ok(Command::Start)));
    assert!(matches!(Command::from_str(" /help "), Ok(Command::Help)));
    assert!(matches!(Command::from_str("/cancel"), Ok(Command::Cancel)));
    assert!(matches!(
        Command::from_str("/start_back"),
        Ok(Command::StartBack)
    ));
    assert!(matches!(
        Command::from_str("/add_vehicle"),
        Ok(Command::AddVehicle)
    ));
    assert!(matches!(
        Command::from_str("/check_vehicle"),
        Ok(Command::VehicleInfo)
    ));
    assert!(matches!(
        Command::from_str("/delete_vehicle"),
        Ok(Command::RemoveVehicle)
    ));
    assert!(matches!(
        Command::from_str("/add_vehicle_message"),
        Ok(Command::AddVehicleMessage)
    ));
    assert!(matches!(
        Command::from_str("/get_my_vehicles"),
        Ok(Command::MyAddedVehicles)
    ));
    assert!(matches!(
        Command::from_str("/start_fetch"),
        Ok(Command::StartFetch)
    ));
    assert!(matches!(
        Command::from_str("/stop_fetch"),
        Ok(Command::StopFetch)
    ));
    match Command::from_str("something else") {
        Ok(Command::UnknownCommand(text)) => assert_eq!(text, "something else"),
        other => panic!("expected UnknownCommand, got {:?}", other),
    }
}

fn active_chat(repo: &mut Repo, id: i64) -> tu_coche_dana_bot::db::model::chat::Chat {
    repo.find_or_create_chat(&id, 700 + id as u64, "user", &None)
        .unwrap();
    repo.modify_active_chat(&id, true).unwrap();
    repo.get_chat(&id).unwrap()
}

#[test]
fn adding_a_vehicle_subscribes_and_requests_a_task() {
    let mut repo = Repo::new();
    let chat = active_chat(&mut repo, 2);

    let (task, outcome) = add_vehicle(&mut repo, &chat, "NUEVA789", None).unwrap();
    assert!(matches!(outcome, AddVehicleOutcome::Added));
    match &task {
        TaskToManage::FetchTask(t) => assert_eq!(t.plate(), "NUEVA789"),
        other => panic!("expected a fetch task, got {:?}", other),
    }
    manage_task(&mut repo, task).unwrap();
    assert!(repo.has_task_for("NUEVA789"));

    let again = add_vehicle(&mut repo, &chat, "NUEVA789", None).unwrap();
    assert!(matches!(again.1, AddVehicleOutcome::AlreadyAdded));
    assert!(matches!(again.0, TaskToManage::NoTask));
}

#[test]
fn adding_rejects_bad_plates_and_already_found_ones() {
    let mut repo = Repo::new();
    let chat = active_chat(&mut repo, 2);

    let (task, outcome) = add_vehicle(&mut repo, &chat, "A,B", None).unwrap();
    assert!(matches!(outcome, AddVehicleOutcome::InvalidFormat));
    assert!(matches!(task, TaskToManage::NoTask));

    let (task, outcome) = add_vehicle(&mut repo, &chat, "FOUND1", Some(1000)).unwrap();
    assert!(matches!(outcome, AddVehicleOutcome::AlreadyFound));
    assert!(matches!(task, TaskToManage::NoTask));
    assert!(repo.get_vehicle("FOUND1").is_err());
}

#[test]
fn start_fetch_activates_and_schedules_every_subscription() {
    let mut repo = Repo::new();
    repo.find_or_create_chat(&4, 704, "user", &None).unwrap();
    repo.insert_vehicle_plate("ONE111").unwrap();
    repo.insert_vehicle_plate("TWO222").unwrap();
    repo.create_subscription("ONE111", 4).unwrap();
    repo.create_subscription("TWO222", 4).unwrap();

    let (task, outcome) = start_fetch(&mut repo, 4).unwrap();
    assert!(matches!(outcome, FetchToggleOutcome::Toggled));
    assert!(repo.get_chat(&4).unwrap().active);
    match &task {
        TaskToManage::FetchTasks(tasks) => {
            let plates: Vec<&str> = tasks.iter().map(|t| t.plate().as_str()).collect();
            assert_eq!(plates, vec!["ONE111", "TWO222"]);
        }
        other => panic!("expected fetch tasks, got {:?}", other),
    }
    manage_task(&mut repo, task).unwrap();
    assert!(repo.has_task_for("ONE111"));
    assert!(repo.has_task_for("TWO222"));

    let (task, outcome) = start_fetch(&mut repo, 4).unwrap();
    assert!(matches!(outcome, FetchToggleOutcome::AlreadySet));
    assert!(matches!(task, TaskToManage::NoTask));
}

#[test]
fn start_fetch_without_vehicles_only_activates() {
    let mut repo = Repo::new();
    repo.find_or_create_chat(&6, 706, "user", &None).unwrap();
    let (task, outcome) = start_fetch(&mut repo, 6).unwrap();
    assert!(matches!(outcome, FetchToggleOutcome::NoVehicles));
    assert!(matches!(task, TaskToManage::NoTask));
    assert!(repo.get_chat(&6).unwrap().active);

    // a subscription column emptied by the last removal behaves the same
    let mut repo = Repo::new();
    repo.find_or_create_chat(&7, 707, "user", &None).unwrap();
    repo.insert_vehicle_plate("GONE33").unwrap();
    repo.create_subscription("GONE33", 7).unwrap();
    repo.end_subscription("GONE33", 7).unwrap();
    assert_eq!(
        repo.get_chat(&7).unwrap().subscribed_vehicles,
        Some(String::new())
    );
    let (task, outcome) = start_fetch(&mut repo, 7).unwrap();
    assert!(matches!(outcome, FetchToggleOutcome::NoVehicles));
    assert!(matches!(task, TaskToManage::NoTask));
}

#[test]
fn stop_fetch_removes_tasks_where_the_chat_was_the_only_subscriber() {
    let mut repo = Repo::new();
    let _solo = active_chat(&mut repo, 8);
    let _shared = active_chat(&mut repo, 9);
    repo.insert_vehicle_plate("SOLO11").unwrap();
    repo.insert_vehicle_plate("SHARED2").unwrap();
    repo.create_subscription("SOLO11", 8).unwrap();
    repo.create_subscription("SHARED2", 8).unwrap();
    repo.create_subscription("SHARED2", 9).unwrap();
    repo.schedule_task("SOLO11").unwrap();
    repo.schedule_task("SHARED2").unwrap();

    let (task, outcome) = stop_fetch(&mut repo, 8).unwrap();
    assert!(matches!(outcome, FetchToggleOutcome::Toggled));
    assert!(!repo.get_chat(&8).unwrap().active);
    match &task {
        TaskToManage::RemoveTasks(subs) => assert_eq!(subs, "SOLO11,SHARED2,"),
        other => panic!("expected a removal list, got {:?}", other),
    }
    manage_task(&mut repo, task).unwrap();
    assert!(!repo.has_task_for("SOLO11"));
    assert!(repo.has_task_for("SHARED2"));

    let (task, outcome) = stop_fetch(&mut repo, 8).unwrap();
    assert!(matches!(outcome, FetchToggleOutcome::AlreadySet));
    assert!(matches!(task, TaskToManage::NoTask));
}

#[test]
fn remove_tasks_checks_the_subscriber_count_per_plate() {
    let mut repo = Repo::new();
    repo.insert_vehicle(Vehicle {
        plate: "LONE11".to_string(),
        subscribers_ids: Some("3,".to_string()),
        found_at: None,
    })
    .unwrap();
    repo.insert_vehicle(Vehicle {
        plate: "BUSY22".to_string(),
        subscribers_ids: Some("3,4,".to_string()),
        found_at: None,
    })
    .unwrap();
    repo.schedule_task("LONE11").unwrap();
    repo.schedule_task("BUSY22").unwrap();

    remove_tasks(&mut repo, "LONE11,BUSY22,".to_string()).unwrap();
    assert!(!repo.has_task_for("LONE11"));
    assert!(repo.has_task_for("BUSY22"));
}

#[test]
fn calculate_next_delivery_accepts_only_well_formed_expressions() {
    let ts = Repo::calculate_next_delivery("* */5 * * * * *").unwrap();
    assert!(ts > 0);
    assert!(matches!(
        Repo::calculate_next_delivery("not a cron line"),
        Err(tu_coche_dana_bot::db::BotDbError::CronError)
    ));
}

#[test]
fn commands_parse_with_the_bot_name_attached() {
    assert!(matches!(
        Command::from_str_with_bot_name("/start@plate_bot", "@plate_bot"),
        Ok(Command::Start)
    ));
    assert!(matches!(
        Command::from_str_with_bot_name(" /start_fetch@plate_bot ", "@plate_bot"),
        Ok(Command::StartFetch)
    ));
    assert!(matches!(
        Command::from_str_with_bot_name("/stop_fetch", "@plate_bot"),
        Ok(Command::StopFetch)
    ));
    match Command::from_str_with_bot_name("hola@plate_bot", "@plate_bot") {
        Ok(Command::UnknownCommand(text)) => assert_eq!(text, "hola"),
        other => panic!("expected UnknownCommand, got {:?}", other),
    }
}
