//! Decisions taken after a subscriber's command: which ledger operations
//! to run and which poll tasks to ask the scheduler for. The transport
//! that carries the commands in and the messages out is the caller's
//! work; it performs the returned task management through `manage_task`.

use vstd::prelude::*;
use crate::BotError;
use crate::codec::{
    clean_token_check, ids_of_opt, is_clean_token, tokens_of, tokens_of_opt,
};
use crate::db::BotDbError;
use crate::digits::dec_int;
use crate::db::model::chat::Chat;
use crate::db::repo::Repo;
use crate::tasks::fetch::FetchTask;

verus! {

/// What the scheduler must be asked to do after a handled update.
#[derive(Debug, Clone)]
pub enum TaskToManage {
    FetchTask(FetchTask),
    FetchTasks(Vec<FetchTask>),
    RemoveTask(String),
    RemoveTasks(String),
    NoTask,
}

/// The user-facing outcome of adding a vehicle; the caller picks the
/// wording.
#[derive(Debug, Clone, Copy, PartialEq, Eq, Structural)]
pub enum AddVehicleOutcome {
    InvalidFormat,
    AlreadyFound,
    Added,
    AlreadyAdded,
}

/// The user-facing outcome of a subscription removal.
#[derive(Debug, Clone)]
pub enum RemoveVehicleOutcome {
    Removed { deactivated: bool },
    CouldNotEnd(String),
}

/// The user-facing outcome of toggling live notifications.
#[derive(Debug, Clone, Copy, PartialEq, Eq, Structural)]
pub enum FetchToggleOutcome {
    AlreadySet,
    NoVehicles,
    Toggled,
}

/// Registers interest in a plate typed by a chat. The external registry
/// was already asked by the caller; a plate it reports found is not
/// tracked at all. Otherwise the vehicle row is found or created, the
/// subscription ledger registers the chat, and an active chat gets a
/// poll task requested.
pub fn add_vehicle(repo: &mut Repo, chat: &Chat, text: &str, found_at: Option<i64>) -> (r:
    Result<(TaskToManage, AddVehicleOutcome), BotError>)
    requires
        old(repo).wf(),
    ensures
        final(repo).wf(),
        final(repo).task_keys() == old(repo).task_keys(),
        r is Ok,
        !is_clean_token(text@) ==> (r matches Ok(p) && p.0 is NoTask && p.1 is InvalidFormat)
            && final(repo).chat_rows() == old(repo).chat_rows() && final(repo).vehicle_rows()
            == old(repo).vehicle_rows(),
        is_clean_token(text@) && found_at is Some ==> (r matches Ok(p) && p.0 is NoTask && p.1
            is AlreadyFound) && final(repo).chat_rows() == old(repo).chat_rows() && final(repo).vehicle_rows() == old(repo).vehicle_rows(),
        is_clean_token(text@) && found_at is None ==> ({
            let subscribed = old(repo).has_vehicle(text@) && ids_of_opt(
                old(repo).vehicle_at(text@).subscribers_ids,
            ).contains(chat.id as int);
            &&& final(repo).has_vehicle(text@)
            &&& (subscribed || !old(repo).has_chat(chat.id)) ==> (r matches Ok(p) && p.0
                is NoTask && p.1 is AlreadyAdded) && final(repo).chat_rows() == old(repo).chat_rows()
            &&& ((subscribed || !old(repo).has_chat(chat.id)) && old(repo).has_vehicle(text@))
                ==> final(repo).vehicle_rows() == old(repo).vehicle_rows()
            &&& ((subscribed || !old(repo).has_chat(chat.id)) && !old(repo).has_vehicle(text@))
                ==> (final(repo).vehicle_rows() == old(repo).vehicle_rows().push(
                final(repo).vehicle_at(text@),
            ) && final(repo).vehicle_at(text@).subscribers_ids is None && final(repo).vehicle_at(
                text@,
            ).found_at is None)
            &&& (!subscribed && old(repo).has_chat(chat.id)) ==> (r matches Ok(p) && p.1
                is Added && (if chat.active {
                p.0 matches TaskToManage::FetchTask(t) && t.plate_key() == text@
            } else {
                p.0 is NoTask
            }) && ids_of_opt(final(repo).vehicle_at(text@).subscribers_ids) == (if old(repo).has_vehicle(text@) {
                ids_of_opt(old(repo).vehicle_at(text@).subscribers_ids)
            } else {
                Seq::<int>::empty()
            }).push(chat.id as int) && tokens_of_opt(
                final(repo).chat_at(chat.id).subscribed_vehicles,
            ) == tokens_of_opt(old(repo).chat_at(chat.id).subscribed_vehicles).push(text@))
        }),
        (old(repo).mirrored() && (old(repo).has_vehicle(text@) || (forall|i: int|
            0 <= i < old(repo).chat_rows().len() ==> !tokens_of_opt(
                #[trigger] old(repo).chat_rows()[i].subscribed_vehicles,
            ).contains(text@)))) ==> final(repo).mirrored(),
{
    if !clean_token_check(text) {
        return Ok((TaskToManage::NoTask, AddVehicleOutcome::InvalidFormat));
    }
    if found_at.is_some() {
        return Ok((TaskToManage::NoTask, AddVehicleOutcome::AlreadyFound));
    }
    let ghost pre = *repo;
    match repo.find_or_create_vehicle(text) {
        Ok(_) => (),
        Err(_) => {
            proof {
                assert(false);
            }
        },
    }
    let ghost mid = *repo;
    proof {
        if !pre.has_vehicle(text@) {
            mid.lemma_vehicle_index_is(text@, mid.vehicle_rows().len() - 1);
            crate::codec::lemma_tokens_empty();
        }
        assert(mid.has_vehicle(text@));
        let unlisted = forall|i: int|
            0 <= i < pre.chat_rows().len() ==> !tokens_of_opt(
                #[trigger] pre.chat_rows()[i].subscribed_vehicles,
            ).contains(text@);
        if pre.mirrored() && (pre.has_vehicle(text@) || unlisted) {
            if pre.has_vehicle(text@) {
                assert(mid.mirrored());
            } else {
                // a fresh row subscribes nobody, and by assumption no
                // chat lists the new plate either
                assert forall|a: int, b: int|
                    0 <= a < mid.chat_rows().len() && 0 <= b
                        < mid.vehicle_rows().len() implies (tokens_of_opt(
                    #[trigger] mid.chat_rows()[a].subscribed_vehicles,
                ).contains(mid.vehicle_rows()[b].plate@) <==> ids_of_opt(
                    #[trigger] mid.vehicle_rows()[b].subscribers_ids,
                ).contains(mid.chat_rows()[a].id as int)) by {
                    assert(mid.chat_rows()[a] == pre.chat_rows()[a]);
                    if b < pre.vehicle_rows().len() {
                        assert(mid.vehicle_rows()[b] == pre.vehicle_rows()[b]);
                        assert(tokens_of_opt(pre.chat_rows()[a].subscribed_vehicles).contains(
                            pre.vehicle_rows()[b].plate@,
                        ) <==> ids_of_opt(pre.vehicle_rows()[b].subscribers_ids).contains(
                            pre.chat_rows()[a].id as int,
                        ));
                    } else {
                        assert(mid.vehicle_rows()[b].plate@ == text@);
                        assert(mid.vehicle_rows()[b].subscribers_ids is None);
                        crate::codec::lemma_tokens_empty();
                        assert(!tokens_of_opt(pre.chat_rows()[a].subscribed_vehicles).contains(
                            text@,
                        ));
                    }
                }
                assert(mid.mirrored());
            }
        }
    }
    match repo.create_subscription(text, chat.id) {
        Ok(()) => {
            proof {
                assert(repo.has_vehicle(text@)) by {
                    assert(repo.vehicle_rows()[mid.vehicle_index(text@)].plate@ == text@);
                }
            }
            if chat.active {
                let task = FetchTask::new(text.to_owned());
                Ok((TaskToManage::FetchTask(task), AddVehicleOutcome::Added))
            } else {
                Ok((TaskToManage::NoTask, AddVehicleOutcome::Added))
            }
        },
        Err(_) => {
            proof {
                Repo::lemma_same_vehicle_lookup(mid, *repo);
                Repo::lemma_same_rows_same_mirrored(mid, *repo);
                assert(repo.has_vehicle(text@));
            }
            Ok((TaskToManage::NoTask, AddVehicleOutcome::AlreadyAdded))
        },
    }
}

/// Ends a chat's subscription to a plate. When the chat keeps no other
/// subscription its live notifications are switched off; when the plate
/// keeps no other subscriber its poll task must be removed — the
/// returned request says so.
pub fn remove_vehicle(repo: &mut Repo, chat_id: i64, plate: &str) -> (r: Result<
    (TaskToManage, RemoveVehicleOutcome),
    BotError,
>)
    requires
        old(repo).wf(),
    ensures
        final(repo).wf(),
        final(repo).task_keys() == old(repo).task_keys(),
        (!old(repo).has_vehicle(plate@) || !old(repo).has_chat(chat_id)) ==> (r matches Err(e)
            && e matches BotError::DbError(d) && d is RowNotFoundError) && final(repo).chat_rows()
            == old(repo).chat_rows() && final(repo).vehicle_rows() == old(repo).vehicle_rows(),
        old(repo).has_vehicle(plate@) && old(repo).has_chat(chat_id) ==> ({
            let removed_subscribers = ids_of_opt(
                old(repo).vehicle_at(plate@).subscribers_ids,
            ).filter(|v: int| v == chat_id as int).len();
            let removed_subscriptions = tokens_of_opt(
                old(repo).chat_at(chat_id).subscribed_vehicles,
            ).filter(|t: Seq<char>| t == plate@).len();
            &&& (removed_subscribers == 0 || removed_subscriptions == 0) ==> (r matches Ok(p)
                && p.0 is NoTask && (p.1 matches RemoveVehicleOutcome::CouldNotEnd(reason)
                && reason@ == (if removed_subscribers == 0 {
                    "The vehicle "@ + plate@ + " doesn't have any subscribers"@
                } else {
                    "User "@ + dec_int(chat_id as int)
                        + " doesn't have any subscription at the moment"@
                }))) && final(repo).chat_rows() == old(repo).chat_rows() && final(repo).vehicle_rows() == old(repo).vehicle_rows()
            &&& (removed_subscribers > 0 && removed_subscriptions > 0) ==> (r matches Ok(p) && ({
                let remaining = ids_of_opt(final(repo).vehicle_at(plate@).subscribers_ids).len();
                &&& ids_of_opt(final(repo).vehicle_at(plate@).subscribers_ids) == ids_of_opt(
                    old(repo).vehicle_at(plate@).subscribers_ids,
                ).filter(|v: int| v != chat_id as int)
                &&& tokens_of_opt(final(repo).chat_at(chat_id).subscribed_vehicles)
                    == tokens_of_opt(old(repo).chat_at(chat_id).subscribed_vehicles).filter(
                    |t: Seq<char>| t != plate@,
                )
                &&& (if remaining == 0 {
                    p.0 matches TaskToManage::RemoveTask(s) && s@ == plate@
                } else {
                    p.0 is NoTask
                })
                &&& p.1 matches RemoveVehicleOutcome::Removed { deactivated } && deactivated == (
                tokens_of_opt(final(repo).chat_at(chat_id).subscribed_vehicles).len() == 0)
                &&& final(repo).chat_at(chat_id).active == (if tokens_of_opt(
                    final(repo).chat_at(chat_id).subscribed_vehicles,
                ).len() == 0 {
                    false
                } else {
                    old(repo).chat_at(chat_id).active
                })
            }))
        }),
        old(repo).mirrored() ==> final(repo).mirrored(),
{
    let ghost pre = *repo;
    match repo.end_subscription(plate, chat_id) {
        Ok(counts) => {
            let ghost post_end = *repo;
            let ghost ci = pre.chat_index(chat_id);
            let ghost nc = post_end.chat_at(chat_id);
            proof {
                assert(post_end.chat_rows()[ci] == nc);
                assert(post_end.chat_rows()[ci].id == chat_id);
                post_end.lemma_chat_index_is(chat_id, ci);
            }
            // decide deactivation from the remaining subscriptions
            let chat = match repo.get_chat(&chat_id) {
                Ok(c) => c,
                Err(_) => {
                    proof {
                        assert(false);
                    }
                    return Err(BotError::DbError(BotDbError::RowNotFoundError));
                },
            };
            let remaining_subscriptions = crate::codec::decode_tokens(&chat.subscribed_vehicles);
            let deactivated = remaining_subscriptions.len() == 0;
            if deactivated {
                match repo.modify_active_chat(&chat_id, false) {
                    Ok(_) => (),
                    Err(_) => {
                        proof {
                            assert(false);
                        }
                    },
                }
                proof {
                    assert(repo.chat_rows()[ci] == (Chat {
                        active: false,
                        ..post_end.chat_at(chat_id)
                    }));
                    repo.lemma_chat_index_is(chat_id, ci);
                    assert(repo.chat_at(chat_id).subscribed_vehicles == nc.subscribed_vehicles);
                    assert(repo.chat_at(chat_id).active == false);
                }
            }
            proof {
                assert(post_end.has_vehicle(plate@)) by {
                    assert(post_end.vehicle_rows()[pre.vehicle_index(plate@)].plate@ == plate@);
                }
                Repo::lemma_same_vehicle_lookup(post_end, *repo);
                assert(repo.has_vehicle(plate@));
            }
            // decide deprovisioning from the remaining subscribers
            let remaining_subscribers = match repo.get_n_subscribers_by_plate(plate) {
                Ok(n) => n,
                Err(_) => {
                    proof {
                        assert(false);
                    }
                    0
                },
            };
            let task = if remaining_subscribers == 0 {
                TaskToManage::RemoveTask(plate.to_owned())
            } else {
                TaskToManage::NoTask
            };
            Ok((task, RemoveVehicleOutcome::Removed { deactivated }))
        },
        Err(BotDbError::RowNotFoundError) => Err(
            BotError::DbError(BotDbError::RowNotFoundError),
        ),
        Err(BotDbError::CouldNotEndSubscription(_, _, reason)) => Ok(
            (TaskToManage::NoTask, RemoveVehicleOutcome::CouldNotEnd(reason)),
        ),
        Err(_) => {
            proof {
                assert(false);
            }
            Err(BotError::DbError(BotDbError::RowNotFoundError))
        },
    }
}

/// Switches live notifications on and asks for one poll task per plate
/// in the chat's decoded subscription set; a set that decodes to nothing
/// only gets the no-vehicles answer.
pub fn start_fetch(repo: &mut Repo, chat_id: i64) -> (r: Result<
    (TaskToManage, FetchToggleOutcome),
    BotError,
>)
    requires
        old(repo).wf(),
    ensures
        final(repo).wf(),
        final(repo).task_keys() == old(repo).task_keys(),
        final(repo).vehicle_rows() == old(repo).vehicle_rows(),
        !old(repo).has_chat(chat_id) ==> (r matches Err(e) && e matches BotError::DbError(d) && d
            is RowNotFoundError) && final(repo).chat_rows() == old(repo).chat_rows(),
        old(repo).has_chat(chat_id) && old(repo).chat_at(chat_id).active ==> (r matches Ok(p)
            && p.0 is NoTask && p.1 is AlreadySet) && final(repo).chat_rows() == old(repo).chat_rows(),
        old(repo).has_chat(chat_id) && !old(repo).chat_at(chat_id).active ==> ({
            let subs = tokens_of_opt(old(repo).chat_at(chat_id).subscribed_vehicles);
            &&& final(repo).chat_at(chat_id).active == true
            &&& final(repo).chat_rows() == old(repo).chat_rows().update(
                old(repo).chat_index(chat_id),
                (Chat { active: true, ..old(repo).chat_at(chat_id) }),
            )
            &&& (subs.len() == 0 ==> (r matches Ok(p) && p.0 is NoTask && p.1 is NoVehicles))
            &&& (subs.len() > 0 ==> (r matches Ok(p) && p.1 is Toggled && (p.0 matches
                TaskToManage::FetchTasks(tasks) && tasks@.len() == subs.len() && (forall|i: int|
                0 <= i < subs.len() ==> (#[trigger] tasks@[i]).plate_key() == subs[i]))))
        }),
        old(repo).mirrored() ==> final(repo).mirrored(),
{
    let chat = match repo.get_chat(&chat_id) {
        Ok(c) => c,
        Err(e) => {
            return Err(BotError::DbError(e));
        },
    };
    if chat.active {
        return Ok((TaskToManage::NoTask, FetchToggleOutcome::AlreadySet));
    }
    match repo.modify_active_chat(&chat_id, true) {
        Ok(_) => (),
        Err(_) => {
            proof {
                assert(false);
            }
        },
    }
    proof {
        repo.lemma_chat_index_is(chat_id, old(repo).chat_index(chat_id));
    }
    let plates = crate::codec::decode_tokens(&chat.subscribed_vehicles);
    if plates.is_empty() {
        return Ok((TaskToManage::NoTask, FetchToggleOutcome::NoVehicles));
    }
    let ghost subs = tokens_of_opt(chat.subscribed_vehicles);
    let mut tasks: Vec<FetchTask> = Vec::new();
    let mut i: usize = 0;
    while i < plates.len()
        invariant
            i <= plates@.len(),
            plates@.map_values(|t: String| t@) == subs,
            tasks@.len() == i,
            forall|k: int| 0 <= k < i ==> (#[trigger] tasks@[k]).plate_key() == subs[k],
        decreases plates.len() - i,
    {
        let task = FetchTask::new(plates[i].clone());
        tasks.push(task);
        i += 1;
    }
    Ok((TaskToManage::FetchTasks(tasks), FetchToggleOutcome::Toggled))
}

/// Switches live notifications off and hands back the chat's raw
/// subscription list so the caller can ask for task removal where this
/// chat was the only subscriber.
pub fn stop_fetch(repo: &mut Repo, chat_id: i64) -> (r: Result<
    (TaskToManage, FetchToggleOutcome),
    BotError,
>)
    requires
        old(repo).wf(),
    ensures
        final(repo).wf(),
        final(repo).task_keys() == old(repo).task_keys(),
        final(repo).vehicle_rows() == old(repo).vehicle_rows(),
        !old(repo).has_chat(chat_id) ==> (r matches Err(e) && e matches BotError::DbError(d) && d
            is RowNotFoundError) && final(repo).chat_rows() == old(repo).chat_rows(),
        old(repo).has_chat(chat_id) && !old(repo).chat_at(chat_id).active ==> (r matches Ok(p)
            && p.0 is NoTask && p.1 is AlreadySet) && final(repo).chat_rows() == old(repo).chat_rows(),
        old(repo).has_chat(chat_id) && old(repo).chat_at(chat_id).active ==> ({
            &&& final(repo).chat_at(chat_id).active == false
            &&& final(repo).chat_rows() == old(repo).chat_rows().update(
                old(repo).chat_index(chat_id),
                (Chat { active: false, ..old(repo).chat_at(chat_id) }),
            )
            &&& (old(repo).chat_at(chat_id).subscribed_vehicles is None ==> (r matches Ok(p)
                && p.0 is NoTask && p.1 is Toggled))
            &&& (old(repo).chat_at(chat_id).subscribed_vehicles matches Some(subs) ==> (
            r matches Ok(p) && p.1 is Toggled && (p.0 matches TaskToManage::RemoveTasks(s) && s@
                == subs@)))
        }),
        old(repo).mirrored() ==> final(repo).mirrored(),
{
    let chat = match repo.get_chat(&chat_id) {
        Ok(c) => c,
        Err(e) => {
            return Err(BotError::DbError(e));
        },
    };
    if !chat.active {
        return Ok((TaskToManage::NoTask, FetchToggleOutcome::AlreadySet));
    }
    match repo.modify_active_chat(&chat_id, false) {
        Ok(_) => (),
        Err(_) => {
            proof {
                assert(false);
            }
        },
    }
    proof {
        repo.lemma_chat_index_is(chat_id, old(repo).chat_index(chat_id));
    }
    match chat.subscribed_vehicles {
        None => Ok((TaskToManage::NoTask, FetchToggleOutcome::Toggled)),
        Some(subs) => Ok((TaskToManage::RemoveTasks(subs), FetchToggleOutcome::Toggled)),
    }
}

/// Walks a raw subscription list and removes the poll task of every
/// plate whose only subscriber is the chat that just opted out.
pub fn remove_tasks(repo: &mut Repo, subscriptions: String) -> (r: Result<(), BotError>)
    requires
        old(repo).wf(),
    ensures
        final(repo).wf(),
        r is Ok,
        final(repo).chat_rows() == old(repo).chat_rows(),
        final(repo).vehicle_rows() == old(repo).vehicle_rows(),
        forall|t: Seq<char>|
            final(repo).has_task(t) <==> (old(repo).has_task(t) && !(tokens_of(
                subscriptions@,
            ).contains(t) && old(repo).has_vehicle(t) && ids_of_opt(
                old(repo).vehicle_at(t).subscribers_ids,
            ).len() == 1)),
        old(repo).mirrored() ==> final(repo).mirrored(),
{
    let opt = Some(subscriptions);
    let plates = crate::codec::decode_tokens(&opt);
    let ghost toks = tokens_of_opt(opt);
    let ghost pre = *repo;
    let mut i: usize = 0;
    proof {
        assert(toks.take(0) =~~= Seq::<Seq<char>>::empty());
    }
    while i < plates.len()
        invariant
            i <= plates@.len(),
            plates@.map_values(|t: String| t@) == toks,
            repo.wf(),
            pre.wf(),
            repo.chat_rows() == pre.chat_rows(),
            repo.vehicle_rows() == pre.vehicle_rows(),
            pre.mirrored() ==> repo.mirrored(),
            forall|t: Seq<char>|
                #[trigger] repo.has_task(t) <==> (pre.has_task(t) && !(toks.take(
                    i as int,
                ).contains(t) && pre.has_vehicle(t) && ids_of_opt(
                    pre.vehicle_at(t).subscribers_ids,
                ).len() == 1)),
        decreases plates.len() - i,
    {
        let ghost cur = *repo;
        let ghost tok = toks[i as int];
        let n = match repo.get_n_subscribers_by_plate(plates[i].as_str()) {
            Ok(n) => n,
            Err(_) => {
                proof {
                    assert(false);
                }
                0
            },
        };
        if n == 1 {
            match repo.delete_tasks_by_plate(plates[i].as_str()) {
                Ok(_) => (),
                Err(_) => (),
            }
        }
        proof {
            Repo::lemma_same_rows_same_mirrored(cur, *repo);
            assert(toks.take(i + 1) =~~= toks.take(i as int).push(tok));
            assert forall|t: Seq<char>|
                #[trigger] repo.has_task(t) <==> (pre.has_task(t) && !(toks.take(
                    i + 1,
                ).contains(t) && pre.has_vehicle(t) && ids_of_opt(
                    pre.vehicle_at(t).subscribers_ids,
                ).len() == 1)) by {
                assert(cur.has_task(t) <==> (pre.has_task(t) && !(toks.take(
                    i as int,
                ).contains(t) && pre.has_vehicle(t) && ids_of_opt(
                    pre.vehicle_at(t).subscribers_ids,
                ).len() == 1)));
                crate::codec::lemma_push_contains(toks.take(i as int), tok, t);
                if n == 1 {
                    crate::codec::lemma_filter_contains_iff(
                        cur.task_keys(),
                        |x: Seq<char>| x != tok,
                        t,
                    );
                    assert(repo.task_keys() == cur.task_keys().filter(
                        |x: Seq<char>| x != tok,
                    )) by {
                        crate::codec::lemma_filter_ext(
                            cur.task_keys(),
                            |x: Seq<char>| x != plates@[i as int]@,
                            |x: Seq<char>| x != tok,
                        );
                    }
                }
            }
        }
        i += 1;
    }
    proof {
        assert(toks.take(plates@.len() as int) =~~= toks);
    }
    Ok(())
}

/// Performs the task management a handled update asked for.
pub fn manage_task(repo: &mut Repo, task: TaskToManage) -> (r: Result<(), BotError>)
    requires
        old(repo).wf(),
    ensures
        final(repo).wf(),
        r is Ok,
        final(repo).chat_rows() == old(repo).chat_rows(),
        final(repo).vehicle_rows() == old(repo).vehicle_rows(),
        task is NoTask ==> final(repo).task_keys() == old(repo).task_keys(),
        task matches TaskToManage::FetchTask(t) ==> (forall|p: Seq<char>|
            final(repo).has_task(p) <==> (old(repo).has_task(p) || p == t.plate_key())),
        task matches TaskToManage::FetchTasks(ts) ==> (forall|p: Seq<char>|
            final(repo).has_task(p) <==> (old(repo).has_task(p) || ts@.map_values(
                |x: FetchTask| x.plate_key(),
            ).contains(p))),
        task matches TaskToManage::RemoveTask(plate) ==> final(repo).task_keys() == old(repo).task_keys().filter(|t: Seq<char>| t != plate@),
        task matches TaskToManage::RemoveTasks(subs) ==> (forall|t: Seq<char>|
            final(repo).has_task(t) <==> (old(repo).has_task(t) && !(tokens_of(subs@).contains(
                t,
            ) && old(repo).has_vehicle(t) && ids_of_opt(
                old(repo).vehicle_at(t).subscribers_ids,
            ).len() == 1))),
        old(repo).mirrored() ==> final(repo).mirrored(),
{
    match task {
        TaskToManage::NoTask => Ok(()),
        TaskToManage::FetchTask(t) => {
            let ghost pre = *repo;
            match repo.schedule_task(t.plate().as_str()) {
                Ok(()) => (),
                Err(_) => {
                    proof {
                        assert(false);
                    }
                },
            }
            proof {
                Repo::lemma_same_rows_same_mirrored(pre, *repo);
                assert forall|p: Seq<char>|
                    repo.has_task(p) <==> (pre.has_task(p) || p == t.plate_key()) by {
                    if !pre.has_task(t.plate_key()) {
                        crate::codec::lemma_push_contains(pre.task_keys(), t.plate_key(), p);
                    }
                }
            }
            Ok(())
        },
        TaskToManage::FetchTasks(ts) => {
            let ghost pre = *repo;
            let ghost plates = ts@.map_values(|x: FetchTask| x.plate_key());
            let mut i: usize = 0;
            proof {
                assert(plates.take(0) =~~= Seq::<Seq<char>>::empty());
            }
            while i < ts.len()
                invariant
                    i <= ts@.len(),
                    repo.wf(),
                    pre.wf(),
                    plates == ts@.map_values(|x: FetchTask| x.plate_key()),
                    repo.chat_rows() == pre.chat_rows(),
                    repo.vehicle_rows() == pre.vehicle_rows(),
                    pre.mirrored() ==> repo.mirrored(),
                    forall|p: Seq<char>|
                        #[trigger] repo.has_task(p) <==> (pre.has_task(p) || plates.take(
                            i as int,
                        ).contains(p)),
                decreases ts.len() - i,
            {
                let ghost cur = *repo;
                match repo.schedule_task(ts[i].plate().as_str()) {
                    Ok(()) => (),
                    Err(_) => {
                        proof {
                            assert(false);
                        }
                    },
                }
                proof {
                    Repo::lemma_same_rows_same_mirrored(cur, *repo);
                    assert(ts@[i as int].plate_key() == plates[i as int]);
                    assert(plates.take(i + 1) =~~= plates.take(i as int).push(
                        plates[i as int],
                    ));
                    if !cur.has_task(plates[i as int]) {
                        assert(repo.task_keys() == cur.task_keys().push(plates[i as int]));
                    } else {
                        assert(repo.task_keys() == cur.task_keys());
                    }
                    assert forall|p: Seq<char>|
                        #[trigger] repo.has_task(p) <==> (pre.has_task(p) || plates.take(
                            i + 1,
                        ).contains(p)) by {
                        assert(cur.has_task(p) <==> (pre.has_task(p) || plates.take(
                            i as int,
                        ).contains(p)));
                        crate::codec::lemma_push_contains(
                            plates.take(i as int),
                            plates[i as int],
                            p,
                        );
                        if !cur.has_task(plates[i as int]) {
                            crate::codec::lemma_push_contains(
                                cur.task_keys(),
                                plates[i as int],
                                p,
                            );
                        }
                    }
                }
                i += 1;
            }
            proof {
                assert(plates.take(ts@.len() as int) =~~= plates);
            }
            Ok(())
        },
        TaskToManage::RemoveTask(plate) => {
            match repo.delete_tasks_by_plate(plate.as_str()) {
                Ok(_) => (),
                Err(_) => (),
            }
            proof {
                crate::codec::lemma_filter_ext(
                    old(repo).task_keys(),
                    |t: Seq<char>| t != plate@,
                    |t: Seq<char>| t != plate@,
                );
            }
            Ok(())
        },
        TaskToManage::RemoveTasks(subs) => remove_tasks(repo, subs),
    }
}

} // verus!
