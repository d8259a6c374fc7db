//! The poll task bound to one plate. Each scheduled invocation walks the
//! same state machine: check the cached found state, otherwise ask the
//! external registry, persist the result, notify the active subscribers,
//! and deprovision once the plate is resolved. The external call itself
//! and message delivery are the collaborators' work; the decisions and
//! the row updates are here.

use vstd::prelude::*;
use vstd::arithmetic::power2::pow2;
use crate::BotError;
use crate::codec::ids_of_opt;
use crate::db::model::chat::Chat;
use crate::db::model::vehicle::{vehicle_report, Vehicle};
use crate::db::repo::Repo;
use crate::digits::dec_digits;

verus! {

/// The scheduled unit of work for one plate; the plate is the task's
/// identity and dedupe key.
#[derive(Debug)]
pub struct FetchTask {
    plate: String,
}

/// What the cache check decided: the plate is already resolved, or the
/// external registry must be asked this cycle.
#[derive(Debug, Clone, Copy, PartialEq, Eq, Structural)]
pub enum CacheDecision {
    FoundCached,
    QueryExternal,
}

/// One message for one subscriber, ready for the messaging collaborator.
#[derive(Debug)]
pub struct Notification {
    pub chat_id: i64,
    pub text: String,
}

impl Clone for FetchTask {
    fn clone(&self) -> (r: Self)
        ensures
            r == *self,
    {
        FetchTask { plate: self.plate.clone() }
    }
}

impl PartialEq for FetchTask {
    fn eq(&self, other: &Self) -> (r: bool) {
        self.plate == other.plate
    }
}

impl vstd::std_specs::cmp::PartialEqSpecImpl for FetchTask {
    open spec fn obeys_eq_spec() -> bool {
        true
    }

    open spec fn eq_spec(&self, other: &Self) -> bool {
        self.plate_key() == other.plate_key()
    }
}

/// Chats with pairwise distinct identifiers keep them distinct after a
/// filter.
proof fn lemma_filter_chats_distinct_ids(s: Seq<Chat>, pred: spec_fn(Chat) -> bool)
    requires
        forall|i: int, j: int|
            0 <= i < j < s.len() ==> #[trigger] s[i].id != #[trigger] s[j].id,
    ensures
        forall|i: int, j: int|
            0 <= i < j < s.filter(pred).len() ==> #[trigger] s.filter(pred)[i].id
                != #[trigger] s.filter(pred)[j].id,
    decreases s.len(),
{
    reveal(Seq::filter);
    if s.len() > 0 {
        assert forall|i: int, j: int|
            0 <= i < j < s.drop_last().len() implies #[trigger] s.drop_last()[i].id
            != #[trigger] s.drop_last()[j].id by {
            assert(s[i].id != s[j].id);
        }
        lemma_filter_chats_distinct_ids(s.drop_last(), pred);
        crate::codec::lemma_filter_subset(s.drop_last(), pred);
        let out = s.filter(pred);
        let prev = s.drop_last().filter(pred);
        assert forall|i: int, j: int|
            0 <= i < j < out.len() implies #[trigger] out[i].id != #[trigger] out[j].id by {
            if j < prev.len() {
                assert(out[i] == prev[i] && out[j] == prev[j]);
            } else {
                assert(out[j] == s.last());
                assert(out[i] == prev[i]);
                assert(s.drop_last().contains(prev[i]));
                let w = choose|w: int|
                    0 <= w < s.drop_last().len() && s.drop_last()[w] == prev[i];
                assert(s[w] == prev[i]);
                assert(s[w].id != s[s.len() - 1].id);
            }
        }
    }
}

impl FetchTask {
    pub closed spec fn plate_key(self) -> Seq<char> {
        self.plate@
    }

    pub fn new(plate: String) -> (r: FetchTask)
        ensures
            r.plate_key() == plate@,
    {
        FetchTask { plate }
    }

    pub fn plate(&self) -> (r: &String)
        ensures
            r@ == self.plate_key(),
    {
        &self.plate
    }

    /// The plate's current active subscribers, filtered at call time.
    pub open spec fn active_subscribers(self, repo: Repo) -> Seq<Chat> {
        repo.chat_rows().filter(
            |c: Chat| c.active && ids_of_opt(
                repo.vehicle_at(self.plate_key()).subscribers_ids,
            ).contains(c.id as int),
        )
    }

    /// Entry of every invocation: a missing row is a storage failure; a
    /// row whose subscriber list decodes to the empty set is a
    /// configuration error, since the deprovisioning step was missed
    /// somewhere; otherwise the cached found state decides whether the
    /// external registry is asked at all.
    pub fn check_cache(&self, repo: &Repo) -> (r: Result<CacheDecision, BotError>)
        requires
            repo.wf(),
        ensures
            !repo.has_vehicle(self.plate_key()) ==> (r matches Err(e) && e matches
                BotError::DbError(d) && d is RowNotFoundError),
            repo.has_vehicle(self.plate_key()) && ids_of_opt(
                repo.vehicle_at(self.plate_key()).subscribers_ids,
            ).len() == 0 ==> (r matches Err(e) && e matches BotError::FetchTaskError(msg)
                && msg@ == "Running tasks for plate "@ + self.plate_key()
                + " with no subscribers"@),
            repo.has_vehicle(self.plate_key()) && ids_of_opt(
                repo.vehicle_at(self.plate_key()).subscribers_ids,
            ).len() > 0 ==> r == Ok::<CacheDecision, BotError>(
                if repo.vehicle_at(self.plate_key()).found_at is Some {
                    CacheDecision::FoundCached
                } else {
                    CacheDecision::QueryExternal
                },
            ),
    {
        let vehicle = match repo.get_vehicle(self.plate.as_str()) {
            Ok(v) => v,
            Err(e) => {
                return Err(BotError::DbError(e));
            },
        };
        let subscribers = crate::codec::decode_ids(&vehicle.subscribers_ids);
        if subscribers.is_empty() {
            let mut msg = String::new();
            msg.append("Running tasks for plate ");
            msg.append(self.plate.as_str());
            msg.append(" with no subscribers");
            proof {
                assert(msg@ =~= "Running tasks for plate "@ + self.plate_key()
                    + " with no subscribers"@);
            }
            return Err(BotError::FetchTaskError(msg));
        }
        if vehicle.found_at.is_some() {
            Ok(CacheDecision::FoundCached)
        } else {
            Ok(CacheDecision::QueryExternal)
        }
    }

    /// Persists the found timestamp; a no-op when one is already cached,
    /// so a found state never moves once set.
    pub fn record_found(&self, repo: &mut Repo, found_at: i64) -> (r: Result<(), BotError>)
        requires
            old(repo).wf(),
        ensures
            final(repo).wf(),
            final(repo).chat_rows() == old(repo).chat_rows(),
            final(repo).task_keys() == old(repo).task_keys(),
            r is Ok <==> old(repo).has_vehicle(self.plate_key()),
            r is Err ==> (r matches Err(e) && e matches BotError::DbError(d) && d
                is RowNotFoundError) && final(repo).vehicle_rows() == old(repo).vehicle_rows(),
            old(repo).has_vehicle(self.plate_key()) && old(repo).vehicle_at(
                self.plate_key(),
            ).found_at is Some ==> final(repo).vehicle_rows() == old(repo).vehicle_rows(),
            old(repo).has_vehicle(self.plate_key()) && old(repo).vehicle_at(
                self.plate_key(),
            ).found_at is None ==> final(repo).vehicle_rows() == old(repo).vehicle_rows().update(
                old(repo).vehicle_index(self.plate_key()),
                (Vehicle { found_at: Some(found_at), ..old(repo).vehicle_at(self.plate_key()) }),
            ),
            old(repo).mirrored() ==> final(repo).mirrored(),
    {
        let vehicle = match repo.get_vehicle(self.plate.as_str()) {
            Ok(v) => v,
            Err(e) => {
                return Err(BotError::DbError(e));
            },
        };
        if vehicle.found_at.is_some() {
            return Ok(());
        }
        match repo.modify_found_at_vehicle(self.plate.as_str(), found_at) {
            Ok(_) => Ok(()),
            Err(e) => Err(BotError::DbError(e)),
        }
    }

    /// Builds the notification batch from the current active-subscriber
    /// list: one message per active subscriber, each holding the
    /// vehicle's report, and no subscriber twice within one batch.
    pub fn notify_batch(&self, repo: &Repo) -> (r: Result<Vec<Notification>, BotError>)
        requires
            repo.wf(),
        ensures
            r is Ok <==> repo.has_vehicle(self.plate_key()),
            r is Err ==> (r matches Err(e) && e matches BotError::DbError(d) && d
                is RowNotFoundError),
            r matches Ok(batch) ==> {
                let subs = self.active_subscribers(*repo);
                &&& batch@.len() == subs.len()
                &&& forall|i: int|
                    0 <= i < batch@.len() ==> #[trigger] batch@[i].chat_id == subs[i].id
                        && batch@[i].text@ == vehicle_report(
                        repo.vehicle_at(self.plate_key()),
                    )
                &&& forall|i: int, j: int|
                    0 <= i < j < batch@.len() ==> #[trigger] batch@[i].chat_id
                        != #[trigger] batch@[j].chat_id
            },
    {
        let vehicle = match repo.get_vehicle(self.plate.as_str()) {
            Ok(v) => v,
            Err(e) => {
                return Err(BotError::DbError(e));
            },
        };
        let subscribers = match repo.get_active_subscriptions_from_vehicle(self.plate.as_str()) {
            Ok(s) => s,
            Err(e) => {
                return Err(BotError::DbError(e));
            },
        };
        let ghost subs = self.active_subscribers(*repo);
        proof {
            assert(subscribers@ == subs);
        }
        let mut batch: Vec<Notification> = Vec::new();
        let mut i: usize = 0;
        while i < subscribers.len()
            invariant
                i <= subscribers@.len(),
                subscribers@ == subs,
                vehicle == repo.vehicle_at(self.plate_key()),
                batch@.len() == i,
                forall|k: int|
                    0 <= k < i ==> #[trigger] batch@[k].chat_id == subs[k].id
                        && batch@[k].text@ == vehicle_report(vehicle),
            decreases subscribers.len() - i,
        {
            let text = vehicle.found_at_to_text();
            batch.push(Notification { chat_id: subscribers[i].id, text });
            i += 1;
        }
        proof {
            lemma_filter_chats_distinct_ids(
                repo.chat_rows(),
                |c: Chat| c.active && ids_of_opt(
                    repo.vehicle_at(self.plate_key()).subscribers_ids,
                ).contains(c.id as int),
            );
        }
        Ok(batch)
    }

    /// Completes one QUERY_EXTERNAL cycle once the registry has
    /// answered. An error or "not found" answer arrives as `None` and is
    /// a no-op this cycle — it never marks the plate found and never
    /// fails the task. A found timestamp is persisted *before* the
    /// notification batch is built, so a crash between the two is
    /// recovered by re-notifying on the next invocation.
    pub fn on_query_result(&self, repo: &mut Repo, found_at: Option<i64>) -> (r: Result<
        Option<Vec<Notification>>,
        BotError,
    >)
        requires
            old(repo).wf(),
        ensures
            final(repo).wf(),
            final(repo).chat_rows() == old(repo).chat_rows(),
            final(repo).task_keys() == old(repo).task_keys(),
            found_at is None ==> (r matches Ok(b) && b is None) && final(repo).vehicle_rows()
                == old(repo).vehicle_rows(),
            found_at is Some && !old(repo).has_vehicle(self.plate_key()) ==> (r matches Err(e)
                && e matches BotError::DbError(d) && d is RowNotFoundError) && final(repo).vehicle_rows() == old(repo).vehicle_rows(),
            found_at is Some && old(repo).has_vehicle(self.plate_key()) ==> ({
                let ts = found_at.unwrap();
                &&& final(repo).vehicle_rows() == (if old(repo).vehicle_at(
                    self.plate_key(),
                ).found_at is Some {
                    old(repo).vehicle_rows()
                } else {
                    old(repo).vehicle_rows().update(
                        old(repo).vehicle_index(self.plate_key()),
                        (Vehicle {
                            found_at: Some(ts),
                            ..old(repo).vehicle_at(self.plate_key())
                        }),
                    )
                })
                &&& r matches Ok(b) && b matches Some(batch) && ({
                    let subs = self.active_subscribers(*final(repo));
                    &&& batch@.len() == subs.len()
                    &&& forall|i: int|
                        0 <= i < batch@.len() ==> #[trigger] batch@[i].chat_id == subs[i].id
                            && batch@[i].text@ == vehicle_report(
                            final(repo).vehicle_at(self.plate_key()),
                        )
                    &&& forall|i: int, j: int|
                        0 <= i < j < batch@.len() ==> #[trigger] batch@[i].chat_id
                            != #[trigger] batch@[j].chat_id
                })
            }),
            old(repo).mirrored() ==> final(repo).mirrored(),
    {
        let ts = match found_at {
            None => {
                return Ok(None);
            },
            Some(ts) => ts,
        };
        match self.record_found(repo, ts) {
            Ok(()) => (),
            Err(e) => {
                return Err(e);
            },
        }
        proof {
            assert(repo.has_vehicle(self.plate_key())) by {
                assert(repo.vehicle_rows()[old(repo).vehicle_index(self.plate_key())].plate@
                    == self.plate_key());
            }
        }
        match self.notify_batch(repo) {
            Ok(batch) => Ok(Some(batch)),
            Err(e) => {
                proof {
                    assert(false);
                }
                Err(e)
            },
        }
    }

    /// Removes this plate's poll tasks; the only path that ends the cron
    /// cycle for a resolved plate.
    pub fn deprovision(&self, repo: &mut Repo) -> (r: Result<u64, BotError>)
        requires
            old(repo).wf(),
        ensures
            final(repo).wf(),
            final(repo).chat_rows() == old(repo).chat_rows(),
            final(repo).vehicle_rows() == old(repo).vehicle_rows(),
            final(repo).task_keys() == old(repo).task_keys().filter(
                |t: Seq<char>| t != self.plate_key(),
            ),
            r is Ok,
            old(repo).mirrored() ==> final(repo).mirrored(),
    {
        let pstr = self.plate.as_str();
        let r = match repo.delete_tasks_by_plate(pstr) {
            Ok(n) => Ok(n),
            Err(e) => Err(BotError::DbError(e)),
        };
        proof {
            crate::codec::lemma_filter_ext(
                old(repo).task_keys(),
                |t: Seq<char>| t != pstr@,
                |t: Seq<char>| t != self.plate_key(),
            );
        }
        r
    }

    /// A poll task is unique per plate: scheduling it again never makes a
    /// duplicate.
    pub fn uniq(&self) -> (r: bool)
        ensures
            r == true,
    {
        true
    }

    /// The cron expression that fires the task every given number of
    /// minutes.
    pub fn cron(&self, fetch_in_minutes: u8) -> (r: String)
        ensures
            r@ == "* */"@ + dec_digits(fetch_in_minutes as nat) + " * * * * *"@,
    {
        let mut r = String::new();
        r.append("* */");
        let minutes = crate::digits::u64_to_string(fetch_in_minutes as u64);
        r.append(minutes.as_str());
        r.append(" * * * * *");
        proof {
            assert(r@ =~= "* */"@ + dec_digits(fetch_in_minutes as nat) + " * * * * *"@);
        }
        r
    }

    /// The scheduler queue name for poll tasks.
    pub fn task_type(&self) -> (r: String)
        ensures
            r@ == "scheduled_fetch"@,
    {
        let mut r = String::new();
        r.append("scheduled_fetch");
        proof {
            assert(r@ =~= "scheduled_fetch"@);
        }
        r
    }

    /// Exponential backoff for transient execution failures.
    pub fn backoff(&self, attempt: u32) -> (r: u32)
        requires
            attempt < 32,
        ensures
            r as nat == pow2(attempt as nat),
    {
        let mut r: u32 = 1;
        let mut k: u32 = 0;
        proof {
            vstd::arithmetic::power2::lemma2_to64();
        }
        while k < attempt
            invariant
                k <= attempt < 32,
                r as nat == pow2(k as nat),
            decreases attempt - k,
        {
            proof {
                vstd::arithmetic::power2::lemma_pow2_strictly_increases(
                    k as nat,
                    32,
                );
                vstd::arithmetic::power2::lemma2_to64();
                assert(pow2((k + 1) as nat) == 2 * pow2(k as nat)) by {
                    vstd::arithmetic::power2::lemma_pow2_unfold((k + 1) as nat);
                }
            }
            r = r * 2;
            k += 1;
        }
        r
    }
}

} // verus!
