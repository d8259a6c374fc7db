//! The subscription ledger over an explicitly constructed storage handle.

use tu_coche_dana_bot::db::model::client_state::ClientState;
use tu_coche_dana_bot::db::model::vehicle::Vehicle;
use tu_coche_dana_bot::db::repo::Repo;
use tu_coche_dana_bot::db::BotDbError;

fn chat(repo: &mut Repo, id: i64) {
    repo.find_or_create_chat(&id, 1000 + id as u64, "user", &Some("es".to_string()))
        .unwrap();
}

#[test]
fn test_get_user_id() {
    let user_1 = 12356_u64;
    let user_2 = 12388456_u64;
    let user_3 = 1235996_u64;

    let bytes_1 = user_1.to_le_bytes().to_vec();
    let bytes_2 = user_2.to_le_bytes().to_vec();
    let bytes_3 = user_3.to_le_bytes().to_vec();

    println!("{:?}", bytes_1);
    println!("{:?}", bytes_2);
    println!("{:?}", bytes_3);
}

#[test]
fn as_u64_le_inverts_to_le_bytes() {
    for value in [0u64, 1, 12356, 12388456, 1235996, u64::MAX] {
        assert_eq!(Repo::as_u64_le(&value.to_le_bytes()), value);
    }
}

#[test]
fn test_modify_state() {
    let mut db_controller = Repo::new();

    let (chat, created) = db_controller
        .find_or_create_chat(&999, 1111111, "hello", &Some("en".to_string()))
        .unwrap();
    assert!(created);
    assert_eq!(chat.id, 999_i64);
    assert_eq!(chat.user_id, 1111111_u64);

    let n = db_controller
        .modify_state(&999, ClientState::AddVehicle)
        .unwrap();
    assert_eq!(n, 1_u64);

    let chat = db_controller.get_chat(&999).unwrap();
    assert_eq!(chat.state, ClientState::AddVehicle);

    let n = db_controller
        .modify_state(&999, ClientState::Initial)
        .unwrap();
    assert_eq!(n, 1_u64);

    let chat = db_controller.get_chat(&999).unwrap();
    assert_eq!(chat.state, ClientState::Initial);

    let n = db_controller.delete_chat(&999).unwrap();
    assert_eq!(n, 1_u64);
}

#[test]
fn test_subscribe_to_first_empty_vehicle() {
    let testing_plate = "GHI789";
    let testing_chat = 3;

    let mut db_controller = Repo::new();
    chat(&mut db_controller, testing_chat);
    db_controller.insert_vehicle_plate(testing_plate).unwrap();

    db_controller
        .create_subscription(testing_plate, testing_chat)
        .unwrap();

    let chat = db_controller.get_chat(&testing_chat).unwrap();
    let vehicle = db_controller.get_vehicle(testing_plate).unwrap();

    let subscribers =
        tu_coche_dana_bot::codec::decode_ids(&vehicle.subscribers_ids);
    let subscriptions =
        tu_coche_dana_bot::codec::decode_tokens(&chat.subscribed_vehicles);

    assert!(subscribers.len() == 1, "subscribers -> {}", subscribers.len());
    assert!(
        subscriptions.len() == 1,
        "subscriptions -> {}",
        subscriptions.len()
    );
}

#[test]
fn test_subscribe_to_first_vehicle() {
    let testing_plate = "DEF456";
    let testing_chat = 3;

    let mut db_controller = Repo::new();
    chat(&mut db_controller, 1);
    chat(&mut db_controller, 2);
    chat(&mut db_controller, testing_chat);
    db_controller
        .insert_vehicle(Vehicle {
            plate: testing_plate.to_string(),
            subscribers_ids: Some("1,2,".to_string()),
            found_at: None,
        })
        .unwrap();

    db_controller
        .create_subscription(testing_plate, testing_chat)
        .unwrap();

    let chat = db_controller.get_chat(&testing_chat).unwrap();
    let vehicle = db_controller.get_vehicle(testing_plate).unwrap();

    let subscribers =
        tu_coche_dana_bot::codec::decode_ids(&vehicle.subscribers_ids);
    let subscriptions =
        tu_coche_dana_bot::codec::decode_tokens(&chat.subscribed_vehicles);

    assert!(subscribers.len() == 3, "subscribers -> {}", subscribers.len());
    assert!(
        subscriptions.len() == 1,
        "subscriptions -> {}",
        subscriptions.len()
    );
}

#[test]
fn test_end_subscription() {
    let mut db_controller = Repo::new();

    let testing_plate = "GHI789";
    let testing_chat = 3;

    chat(&mut db_controller, testing_chat);
    db_controller.insert_vehicle_plate(testing_plate).unwrap();
    db_controller
        .create_subscription(testing_plate, testing_chat)
        .expect("Failed to create initial subscription");

    let chat = db_controller.get_chat(&testing_chat).unwrap();
    assert!(tu_coche_dana_bot::codec::tokens_contain(
        &chat.subscribed_vehicles,
        testing_plate
    ));

    let vehicle = db_controller.get_vehicle(testing_plate).unwrap();
    assert!(tu_coche_dana_bot::codec::ids_contain(
        &vehicle.subscribers_ids,
        testing_chat
    ));

    let (n_subscribers, n_subscriptions) = db_controller
        .end_subscription(testing_plate, testing_chat)
        .expect("Failed to end subscription");

    assert_eq!(
        n_subscribers, 1,
        "Expected one subscriber to be removed from vehicle"
    );
    assert_eq!(
        n_subscriptions, 1,
        "Expected one subscription to be removed from chat"
    );

    let updated_chat = db_controller.get_chat(&testing_chat).unwrap();
    assert!(!tu_coche_dana_bot::codec::tokens_contain(
        &updated_chat.subscribed_vehicles,
        testing_plate
    ));

    let updated_vehicle = db_controller.get_vehicle(testing_plate).unwrap();
    assert!(!tu_coche_dana_bot::codec::ids_contain(
        &updated_vehicle.subscribers_ids,
        testing_chat
    ));
}

#[test]
fn list_my_vehicles() {
    let mut db_controller = Repo::new();
    chat(&mut db_controller, 1);
    chat(&mut db_controller, 2);
    db_controller.insert_vehicle_plate("ABC123").unwrap();
    db_controller.insert_vehicle_plate("DEF456").unwrap();
    db_controller.create_subscription("ABC123", 1).unwrap();
    db_controller.create_subscription("DEF456", 1).unwrap();
    db_controller.create_subscription("DEF456", 2).unwrap();

    let expected_subscriptions = vec![
        Vehicle {
            plate: "ABC123".to_string(),
            subscribers_ids: Some(String::from("1,")),
            found_at: None,
        },
        Vehicle {
            plate: "DEF456".to_string(),
            subscribers_ids: Some(String::from("1,2,")),
            found_at: None,
        },
    ];
    let testing_chat = 1;

    let chat = db_controller.get_chat(&testing_chat).unwrap();
    let subbed = db_controller.get_vehicles_by_chat_id(&chat.id).unwrap();

    for element in expected_subscriptions {
        assert!(subbed.contains(&element));
    }
}

#[test]
fn test_modify_found_at_vehicle() {
    let mut db_controller = Repo::new();
    db_controller.insert_vehicle_plate("ABC123").unwrap();

    let test_datetime = 1731662400_i64;
    let n = db_controller
        .modify_found_at_vehicle("ABC123", test_datetime)
        .unwrap();

    let vehicle = db_controller.get_vehicle("ABC123").unwrap();
    assert_eq!(vehicle.found_at, Some(test_datetime));
    assert_eq!(n, 1);
}

#[test]
fn test_modify_active_chat() {
    let mut db_controller = Repo::new();
    chat(&mut db_controller, 1);

    let n = db_controller.modify_active_chat(&1_i64, true).unwrap();
    assert!(db_controller.get_chat(&1).unwrap().active);
    assert_eq!(n, 1);

    let n = db_controller.modify_active_chat(&1_i64, false).unwrap();
    assert!(!db_controller.get_chat(&1).unwrap().active);
    assert_eq!(n, 1);
}

#[test]
fn test_get_active_subscriptions_from_vehicle() {
    let mut db_controller = Repo::new();
    for id in 1..=4 {
        chat(&mut db_controller, id);
    }

    let vehicle_plate = "XYZ987";
    let subscribers_ids = "1,2,3,4,";
    db_controller
        .insert_vehicle(Vehicle {
            plate: vehicle_plate.to_string(),
            subscribers_ids: Some(subscribers_ids.to_string()),
            found_at: None,
        })
        .unwrap();

    db_controller.modify_active_chat(&1_i64, true).unwrap();
    db_controller.modify_active_chat(&2_i64, false).unwrap();
    db_controller.modify_active_chat(&3_i64, true).unwrap();
    db_controller.modify_active_chat(&4_i64, false).unwrap();

    let active_chats = db_controller
        .get_active_subscriptions_from_vehicle(vehicle_plate)
        .unwrap();
    let active_chat_ids: Vec<i64> = active_chats.into_iter().map(|chat| chat.id).collect();

    assert_eq!(active_chat_ids, vec![1, 3]);
}

#[test]
fn test_insert_vehicle() {
    let mut db_controller = Repo::new();

    let test_vehicle = Vehicle {
        plate: "TEST123".to_string(),
        subscribers_ids: Some("123,".to_string()),
        found_at: None,
    };

    match db_controller.insert_vehicle(test_vehicle.clone()) {
        Ok(vehicle) => {
            assert_eq!(vehicle.plate, test_vehicle.plate);
            assert_eq!(vehicle.subscribers_ids, test_vehicle.subscribers_ids);
            assert!(vehicle.found_at.is_none());
        }
        Err(e) => panic!("Failed to insert vehicle: {:?}", e),
    };
}

#[test]
fn test_insert_vehicle_by_plate() {
    let mut db_controller = Repo::new();

    let plate = "PLATE123";
    match db_controller.insert_vehicle_plate(plate) {
        Ok(vehicle) => {
            assert_eq!(vehicle.plate, plate);
        }
        Err(e) => panic!("Failed to insert vehicle by plate: {:?}", e),
    }
}

#[test]
fn duplicate_plate_is_a_duplicate_key_error() {
    let mut repo = Repo::new();
    repo.insert_vehicle_plate("AAA111").unwrap();
    let second = repo.insert_vehicle_plate("AAA111");
    assert!(matches!(second, Err(BotDbError::DuplicateKeyError)));
}

#[test]
fn missing_rows_are_row_not_found() {
    let repo = Repo::new();
    assert!(matches!(
        repo.get_chat(&1),
        Err(BotDbError::RowNotFoundError)
    ));
    assert!(matches!(
        repo.get_vehicle("NOPE"),
        Err(BotDbError::RowNotFoundError)
    ));
    let mut repo = Repo::new();
    assert!(matches!(
        repo.create_subscription("NOPE", 1),
        Err(BotDbError::RowNotFoundError)
    ));
}

#[test]
fn subscription_counts_by_plate() {
    let mut repo = Repo::new();
    assert_eq!(repo.get_n_subscribers_by_plate("GONE").unwrap(), 0);
    repo.insert_vehicle(Vehicle {
        plate: "JKL111".to_string(),
        subscribers_ids: Some("5,6,junk,".to_string()),
        found_at: None,
    })
    .unwrap();
    assert_eq!(repo.get_n_subscribers_by_plate("JKL111").unwrap(), 2);
}

#[test]
fn construct_test_db_url_swaps_database_name() {
    let url = tu_coche_dana_bot::db::repo::construct_test_db_url(
        "postgres://user@localhost:5432/bot",
        "test_db_bot_1",
    );
    assert_eq!(url, "postgres://user@localhost:5432/test_db_bot_1");
}

#[test]
fn vanished_plates_are_skipped_in_a_chat_listing() {
    let mut repo = Repo::new();
    chat(&mut repo, 1);
    repo.insert_vehicle_plate("HERE11").unwrap();
    repo.create_subscription("HERE11", 1).unwrap();
    // the chat also lists a plate whose vehicle row never made it
    repo.append_subscription_to_chat("GONE22", &1).unwrap();

    let listed = repo.get_vehicles_by_chat_id(&1).unwrap();
    assert_eq!(listed.len(), 1);
    assert_eq!(listed[0].plate, "HERE11");
}
