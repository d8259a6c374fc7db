//! The subscription ledger over its storage rows: chats, vehicles, and
//! the scheduled poll tasks. The storage engine itself is an external
//! collaborator; a `Repo` value is the ledger's view of its rows, handed
//! in explicitly rather than through an ambient global.

use vstd::prelude::*;
use crate::codec::{
    append_token, ids_contain, ids_of_opt, is_clean_token, joined, text_of, tokens_contain,
    tokens_of_opt,
};
use crate::digits::{dec_int, parses_i64, i64_val};
use super::BotDbError;
use super::model::chat::Chat;
use super::model::client_state::ClientState;
use super::model::vehicle::Vehicle;

verus! {

/// The rows the ledger owns. Chat identifiers, plates and task keys are
/// each unique, as the storage engine's keys would make them.
pub struct Repo {
    chats: Vec<Chat>,
    vehicles: Vec<Vehicle>,
    tasks: Vec<String>,
}

impl Repo {
    pub closed spec fn chat_rows(self) -> Seq<Chat> {
        self.chats@
    }

    pub closed spec fn vehicle_rows(self) -> Seq<Vehicle> {
        self.vehicles@
    }

    /// The plates that currently have a scheduled poll task.
    pub closed spec fn task_keys(self) -> Seq<Seq<char>> {
        self.tasks@.map_values(|s: String| s@)
    }

    /// Key uniqueness, as the storage engine guarantees it.
    pub open spec fn wf(self) -> bool {
        &&& forall|i: int, j: int|
            0 <= i < j < self.chat_rows().len() ==> #[trigger] self.chat_rows()[i].id
                != #[trigger] self.chat_rows()[j].id
        &&& forall|i: int, j: int|
            0 <= i < j < self.vehicle_rows().len() ==> #[trigger] self.vehicle_rows()[i].plate@
                != #[trigger] self.vehicle_rows()[j].plate@
        &&& forall|i: int, j: int|
            0 <= i < j < self.task_keys().len() ==> #[trigger] self.task_keys()[i]
                != #[trigger] self.task_keys()[j]
    }

    pub open spec fn has_chat(self, id: i64) -> bool {
        exists|i: int| 0 <= i < self.chat_rows().len() && #[trigger] self.chat_rows()[i].id == id
    }

    pub open spec fn chat_index(self, id: i64) -> int {
        choose|i: int| 0 <= i < self.chat_rows().len() && #[trigger] self.chat_rows()[i].id == id
    }

    pub open spec fn chat_at(self, id: i64) -> Chat {
        self.chat_rows()[self.chat_index(id)]
    }

    pub open spec fn has_vehicle(self, plate: Seq<char>) -> bool {
        exists|i: int|
            0 <= i < self.vehicle_rows().len() && #[trigger] self.vehicle_rows()[i].plate@
                == plate
    }

    pub open spec fn vehicle_index(self, plate: Seq<char>) -> int {
        choose|i: int|
            0 <= i < self.vehicle_rows().len() && #[trigger] self.vehicle_rows()[i].plate@
                == plate
    }

    pub open spec fn vehicle_at(self, plate: Seq<char>) -> Vehicle {
        self.vehicle_rows()[self.vehicle_index(plate)]
    }

    pub open spec fn has_task(self, plate: Seq<char>) -> bool {
        self.task_keys().contains(plate)
    }

    /// The relation invariant: a plate stands in a chat's subscription
    /// list exactly when the chat's identifier stands in the plate's
    /// subscriber list.
    pub open spec fn mirrored(self) -> bool {
        forall|i: int, j: int|
            0 <= i < self.chat_rows().len() && 0 <= j < self.vehicle_rows().len()
                ==> (tokens_of_opt(#[trigger] self.chat_rows()[i].subscribed_vehicles).contains(
                self.vehicle_rows()[j].plate@,
            ) <==> ids_of_opt(#[trigger] self.vehicle_rows()[j].subscribers_ids).contains(
                self.chat_rows()[i].id as int,
            ))
    }

    /// An explicitly constructed, empty storage handle.
    pub fn new() -> (r: Repo)
        ensures
            r.chat_rows() == Seq::<Chat>::empty(),
            r.vehicle_rows() == Seq::<Vehicle>::empty(),
            r.task_keys() == Seq::<Seq<char>>::empty(),
            r.wf(),
            r.mirrored(),
    {
        let r = Repo { chats: Vec::new(), vehicles: Vec::new(), tasks: Vec::new() };
        proof {
            assert(r.task_keys() =~~= Seq::<Seq<char>>::empty());
        }
        r
    }

    fn find_chat(&self, chat_id: i64) -> (r: Option<usize>)
        ensures
            match r {
                Some(i) => i < self.chat_rows().len() && self.chat_rows()[i as int].id
                    == chat_id,
                None => !self.has_chat(chat_id),
            },
    {
        let mut i: usize = 0;
        while i < self.chats.len()
            invariant
                i <= self.chat_rows().len(),
                self.chat_rows() == self.chats@,
                forall|j: int| 0 <= j < i ==> #[trigger] self.chat_rows()[j].id != chat_id,
            decreases self.chats.len() - i,
        {
            if self.chats[i].id == chat_id {
                return Some(i);
            }
            i += 1;
        }
        None
    }

    fn find_vehicle(&self, plate: &str) -> (r: Option<usize>)
        ensures
            match r {
                Some(i) => i < self.vehicle_rows().len() && self.vehicle_rows()[i as int].plate@
                    == plate@,
                None => !self.has_vehicle(plate@),
            },
    {
        let mut i: usize = 0;
        let target = plate.to_owned();
        while i < self.vehicles.len()
            invariant
                i <= self.vehicle_rows().len(),
                self.vehicle_rows() == self.vehicles@,
                target@ == plate@,
                forall|j: int| 0 <= j < i ==> #[trigger] self.vehicle_rows()[j].plate@ != plate@,
            decreases self.vehicles.len() - i,
        {
            if self.vehicles[i].plate == target {
                return Some(i);
            }
            i += 1;
        }
        None
    }

    /// With unique keys, any index holding the key is the key's index.
    pub proof fn lemma_chat_index_is(self, id: i64, i: int)
        requires
            self.wf(),
            0 <= i < self.chat_rows().len(),
            self.chat_rows()[i].id == id,
        ensures
            self.has_chat(id),
            self.chat_index(id) == i,
            self.chat_at(id) == self.chat_rows()[i],
    {
        assert(self.has_chat(id));
        let j = self.chat_index(id);
        if i < j {
            assert(self.chat_rows()[i].id != self.chat_rows()[j].id);
        } else if j < i {
            assert(self.chat_rows()[j].id != self.chat_rows()[i].id);
        }
    }

    pub proof fn lemma_vehicle_index_is(self, plate: Seq<char>, i: int)
        requires
            self.wf(),
            0 <= i < self.vehicle_rows().len(),
            self.vehicle_rows()[i].plate@ == plate,
        ensures
            self.has_vehicle(plate),
            self.vehicle_index(plate) == i,
            self.vehicle_at(plate) == self.vehicle_rows()[i],
    {
        assert(self.has_vehicle(plate));
        let j = self.vehicle_index(plate);
        if i < j {
            assert(self.vehicle_rows()[i].plate@ != self.vehicle_rows()[j].plate@);
        } else if j < i {
            assert(self.vehicle_rows()[j].plate@ != self.vehicle_rows()[i].plate@);
        }
    }

    /// Two ledger states over the same chat rows answer chat lookups
    /// alike.
    pub proof fn lemma_same_chat_lookup(a: Repo, b: Repo)
        requires
            a.wf(),
            b.wf(),
            b.chat_rows() == a.chat_rows(),
        ensures
            forall|id: i64| #[trigger] a.has_chat(id) == b.has_chat(id),
            forall|id: i64|
                a.has_chat(id) ==> #[trigger] a.chat_at(id) == b.chat_at(id) && a.chat_index(id)
                    == b.chat_index(id),
    {
        assert forall|id: i64| #[trigger] a.has_chat(id) == b.has_chat(id) by {
            if a.has_chat(id) {
                let i = a.chat_index(id);
                assert(b.chat_rows()[i].id == id);
            }
            if b.has_chat(id) {
                let i = b.chat_index(id);
                assert(a.chat_rows()[i].id == id);
            }
        }
        assert forall|id: i64| a.has_chat(id) implies #[trigger] a.chat_at(id) == b.chat_at(id)
            && a.chat_index(id) == b.chat_index(id) by {
            let i = a.chat_index(id);
            assert(b.chat_rows()[i].id == id);
            b.lemma_chat_index_is(id, i);
        }
    }

    /// Two ledger states over the same vehicle rows answer vehicle
    /// lookups alike.
    pub proof fn lemma_same_vehicle_lookup(a: Repo, b: Repo)
        requires
            a.wf(),
            b.wf(),
            b.vehicle_rows() == a.vehicle_rows(),
        ensures
            forall|p: Seq<char>| #[trigger] a.has_vehicle(p) == b.has_vehicle(p),
            forall|p: Seq<char>|
                a.has_vehicle(p) ==> #[trigger] a.vehicle_at(p) == b.vehicle_at(p)
                    && a.vehicle_index(p) == b.vehicle_index(p),
    {
        assert forall|p: Seq<char>| #[trigger] a.has_vehicle(p) == b.has_vehicle(p) by {
            if a.has_vehicle(p) {
                let i = a.vehicle_index(p);
                assert(b.vehicle_rows()[i].plate@ == p);
            }
            if b.has_vehicle(p) {
                let i = b.vehicle_index(p);
                assert(a.vehicle_rows()[i].plate@ == p);
            }
        }
        assert forall|p: Seq<char>| a.has_vehicle(p) implies #[trigger] a.vehicle_at(p)
            == b.vehicle_at(p) && a.vehicle_index(p) == b.vehicle_index(p) by {
            let i = a.vehicle_index(p);
            assert(b.vehicle_rows()[i].plate@ == p);
            b.lemma_vehicle_index_is(p, i);
        }
    }

    /// The relation invariant only looks at the rows, so two states over
    /// the same rows agree on it.
    pub proof fn lemma_same_rows_same_mirrored(a: Repo, b: Repo)
        requires
            b.chat_rows() == a.chat_rows(),
            b.vehicle_rows() == a.vehicle_rows(),
        ensures
            a.mirrored() == b.mirrored(),
    {
        if a.mirrored() {
            assert forall|i: int, j: int|
                0 <= i < b.chat_rows().len() && 0 <= j < b.vehicle_rows().len() implies (
            tokens_of_opt(#[trigger] b.chat_rows()[i].subscribed_vehicles).contains(
                b.vehicle_rows()[j].plate@,
            ) <==> ids_of_opt(#[trigger] b.vehicle_rows()[j].subscribers_ids).contains(
                b.chat_rows()[i].id as int,
            )) by {
                assert(b.chat_rows()[i] == a.chat_rows()[i]);
                assert(b.vehicle_rows()[j] == a.vehicle_rows()[j]);
                assert(tokens_of_opt(a.chat_rows()[i].subscribed_vehicles).contains(
                    a.vehicle_rows()[j].plate@,
                ) <==> ids_of_opt(a.vehicle_rows()[j].subscribers_ids).contains(
                    a.chat_rows()[i].id as int,
                ));
            }
        }
        if b.mirrored() {
            assert forall|i: int, j: int|
                0 <= i < a.chat_rows().len() && 0 <= j < a.vehicle_rows().len() implies (
            tokens_of_opt(#[trigger] a.chat_rows()[i].subscribed_vehicles).contains(
                a.vehicle_rows()[j].plate@,
            ) <==> ids_of_opt(#[trigger] a.vehicle_rows()[j].subscribers_ids).contains(
                a.chat_rows()[i].id as int,
            )) by {
                assert(a.chat_rows()[i] == b.chat_rows()[i]);
                assert(a.vehicle_rows()[j] == b.vehicle_rows()[j]);
                assert(tokens_of_opt(b.chat_rows()[i].subscribed_vehicles).contains(
                    b.vehicle_rows()[j].plate@,
                ) <==> ids_of_opt(b.vehicle_rows()[j].subscribers_ids).contains(
                    b.chat_rows()[i].id as int,
                ));
            }
        }
    }

    /// Reads one chat row; the row's absence is the storage failure a
    /// caller sees.
    pub fn get_chat(&self, chat_id: &i64) -> (r: Result<Chat, BotDbError>)
        requires
            self.wf(),
        ensures
            r is Ok <==> self.has_chat(*chat_id),
            r matches Ok(c) ==> c == self.chat_at(*chat_id),
            r is Err ==> (r matches Err(e) && e is RowNotFoundError),
    {
        match self.find_chat(*chat_id) {
            Some(i) => {
                proof {
                    self.lemma_chat_index_is(*chat_id, i as int);
                }
                Ok(self.chats[i].clone())
            },
            None => Err(BotDbError::RowNotFoundError),
        }
    }

    /// Reads one vehicle row.
    pub fn get_vehicle(&self, plate: &str) -> (r: Result<Vehicle, BotDbError>)
        requires
            self.wf(),
        ensures
            r is Ok <==> self.has_vehicle(plate@),
            r matches Ok(v) ==> v == self.vehicle_at(plate@),
            r is Err ==> (r matches Err(e) && e is RowNotFoundError),
    {
        match self.find_vehicle(plate) {
            Some(i) => {
                proof {
                    self.lemma_vehicle_index_is(plate@, i as int);
                }
                Ok(self.vehicles[i].clone())
            },
            None => Err(BotDbError::RowNotFoundError),
        }
    }

    /// Read path of the poll task: the raw subscriber list of a plate.
    pub fn get_subscriptions_from_vehicle_as_string(&self, plate: &str) -> (r: Result<
        Option<String>,
        BotDbError,
    >)
        requires
            self.wf(),
        ensures
            r is Ok <==> self.has_vehicle(plate@),
            r matches Ok(o) ==> o == self.vehicle_at(plate@).subscribers_ids,
            r is Err ==> (r matches Err(e) && e is RowNotFoundError),
    {
        match self.get_vehicle(plate) {
            Ok(v) => Ok(v.subscribers_ids),
            Err(e) => Err(e),
        }
    }

    fn insert_chat(
        &mut self,
        chat_id: &i64,
        user_id: u64,
        username: &str,
        language_code: &Option<String>,
    ) -> (r: Chat)
        requires
            old(self).wf(),
            !old(self).has_chat(*chat_id),
        ensures
            final(self).wf(),
            final(self).chat_rows() == old(self).chat_rows().push(r),
            final(self).vehicle_rows() == old(self).vehicle_rows(),
            final(self).task_keys() == old(self).task_keys(),
            r.id == *chat_id,
            r.user_id == user_id,
            r.username@ == username@,
            r.state == ClientState::Initial,
            r.selected_text is None,
            r.subscribed_vehicles is None,
            r.active == false,
            r.language_code == *language_code,
    {
        let row = Chat {
            id: *chat_id,
            user_id,
            username: username.to_owned(),
            state: ClientState::Initial,
            selected_text: None,
            subscribed_vehicles: None,
            active: false,
            language_code: language_code.clone(),
        };
        let copy = row.clone();
        self.chats.push(row);
        proof {
            assert(self.chat_rows() == old(self).chat_rows().push(copy));
            assert forall|i: int, j: int|
                0 <= i < j < self.chat_rows().len() implies #[trigger] self.chat_rows()[i].id
                != #[trigger] self.chat_rows()[j].id by {
                if j == self.chat_rows().len() - 1 {
                    assert(self.chat_rows()[i] == old(self).chat_rows()[i]);
                    assert(old(self).chat_rows()[i].id != *chat_id);
                    assert(self.chat_rows()[j].id == *chat_id);
                } else {
                    assert(self.chat_rows()[i] == old(self).chat_rows()[i]);
                    assert(self.chat_rows()[j] == old(self).chat_rows()[j]);
                }
            }
            Self::lemma_wf_chats_changed(*old(self), *self);
        }
        copy
    }

    /// Fetches the chat row, creating it first when it is new; the flag
    /// says whether it was created.
    pub fn find_or_create_chat(
        &mut self,
        chat_id: &i64,
        user_id: u64,
        username: &str,
        language_code: &Option<String>,
    ) -> (r: Result<(Chat, bool), BotDbError>)
        requires
            old(self).wf(),
        ensures
            final(self).wf(),
            r is Ok,
            final(self).vehicle_rows() == old(self).vehicle_rows(),
            final(self).task_keys() == old(self).task_keys(),
            old(self).has_chat(*chat_id) ==> final(self).chat_rows() == old(self).chat_rows() && (
            r matches Ok(p) && p.0 == old(self).chat_at(*chat_id) && p.1 == false),
            !old(self).has_chat(*chat_id) ==> (r matches Ok(p) && final(self).chat_rows() == old(self).chat_rows().push(p.0) && p.1 == true && p.0.id == *chat_id && p.0.user_id == user_id
                && p.0.username@ == username@ && p.0.language_code == *language_code
                && p.0.state == ClientState::Initial && p.0.selected_text is None
                && p.0.subscribed_vehicles is None && p.0.active == false),
            (old(self).mirrored() && (forall|j: int|
                0 <= j < old(self).vehicle_rows().len() ==> !ids_of_opt(
                    #[trigger] old(self).vehicle_rows()[j].subscribers_ids,
                ).contains(*chat_id as int))) ==> final(self).mirrored(),
    {
        if let Some(i) = self.find_chat(*chat_id) {
            proof {
                self.lemma_chat_index_is(*chat_id, i as int);
            }
            Ok((self.chats[i].clone(), false))
        } else {
            let ghost pre = *self;
            let chat = self.insert_chat(chat_id, user_id, username, language_code);
            proof {
                let fresh = forall|j: int|
                    0 <= j < pre.vehicle_rows().len() ==> !ids_of_opt(
                        #[trigger] pre.vehicle_rows()[j].subscribers_ids,
                    ).contains(*chat_id as int);
                if pre.mirrored() && fresh {
                    assert forall|i: int, j: int|
                        0 <= i < self.chat_rows().len() && 0 <= j
                            < self.vehicle_rows().len() implies (tokens_of_opt(
                        #[trigger] self.chat_rows()[i].subscribed_vehicles,
                    ).contains(self.vehicle_rows()[j].plate@) <==> ids_of_opt(
                        #[trigger] self.vehicle_rows()[j].subscribers_ids,
                    ).contains(self.chat_rows()[i].id as int)) by {
                        assert(self.vehicle_rows()[j] == pre.vehicle_rows()[j]);
                        if i < pre.chat_rows().len() {
                            assert(self.chat_rows()[i] == pre.chat_rows()[i]);
                        } else {
                            assert(self.chat_rows()[i] == chat);
                            crate::codec::lemma_tokens_empty();
                            assert(tokens_of_opt(chat.subscribed_vehicles)
                                == Seq::<Seq<char>>::empty());
                            assert(!ids_of_opt(pre.vehicle_rows()[j].subscribers_ids).contains(
                                *chat_id as int,
                            ));
                        }
                    }
                }
            }
            Ok((chat, true))
        }
    }

    /// Only the chat rows changed, and their identifiers stay distinct.
    proof fn lemma_wf_chats_changed(pre: Repo, post: Repo)
        requires
            pre.wf(),
            post.vehicle_rows() == pre.vehicle_rows(),
            post.task_keys() == pre.task_keys(),
            forall|i: int, j: int|
                0 <= i < j < post.chat_rows().len() ==> #[trigger] post.chat_rows()[i].id
                    != #[trigger] post.chat_rows()[j].id,
        ensures
            post.wf(),
    {
        assert forall|i: int, j: int|
            0 <= i < j < post.vehicle_rows().len() implies #[trigger] post.vehicle_rows()[i].plate@
            != #[trigger] post.vehicle_rows()[j].plate@ by {
            assert(post.vehicle_rows()[i] == pre.vehicle_rows()[i]);
            assert(post.vehicle_rows()[j] == pre.vehicle_rows()[j]);
        }
        assert forall|i: int, j: int|
            0 <= i < j < post.task_keys().len() implies #[trigger] post.task_keys()[i]
            != #[trigger] post.task_keys()[j] by {
            assert(post.task_keys()[i] == pre.task_keys()[i]);
            assert(post.task_keys()[j] == pre.task_keys()[j]);
        }
    }

    /// Only the vehicle rows changed, and their plates stay distinct.
    proof fn lemma_wf_vehicles_changed(pre: Repo, post: Repo)
        requires
            pre.wf(),
            post.chat_rows() == pre.chat_rows(),
            post.task_keys() == pre.task_keys(),
            forall|i: int, j: int|
                0 <= i < j < post.vehicle_rows().len()
                    ==> #[trigger] post.vehicle_rows()[i].plate@
                    != #[trigger] post.vehicle_rows()[j].plate@,
        ensures
            post.wf(),
    {
        assert forall|i: int, j: int|
            0 <= i < j < post.chat_rows().len() implies #[trigger] post.chat_rows()[i].id
            != #[trigger] post.chat_rows()[j].id by {
            assert(post.chat_rows()[i] == pre.chat_rows()[i]);
            assert(post.chat_rows()[j] == pre.chat_rows()[j]);
        }
        assert forall|i: int, j: int|
            0 <= i < j < post.task_keys().len() implies #[trigger] post.task_keys()[i]
            != #[trigger] post.task_keys()[j] by {
            assert(post.task_keys()[i] == pre.task_keys()[i]);
            assert(post.task_keys()[j] == pre.task_keys()[j]);
        }
    }

    /// Only the task keys changed, and they stay distinct.
    proof fn lemma_wf_tasks_changed(pre: Repo, post: Repo)
        requires
            pre.wf(),
            post.chat_rows() == pre.chat_rows(),
            post.vehicle_rows() == pre.vehicle_rows(),
            forall|i: int, j: int|
                0 <= i < j < post.task_keys().len() ==> #[trigger] post.task_keys()[i]
                    != #[trigger] post.task_keys()[j],
        ensures
            post.wf(),
    {
        assert forall|i: int, j: int|
            0 <= i < j < post.chat_rows().len() implies #[trigger] post.chat_rows()[i].id
            != #[trigger] post.chat_rows()[j].id by {
            assert(post.chat_rows()[i] == pre.chat_rows()[i]);
            assert(post.chat_rows()[j] == pre.chat_rows()[j]);
        }
        assert forall|i: int, j: int|
            0 <= i < j < post.vehicle_rows().len() implies #[trigger] post.vehicle_rows()[i].plate@
            != #[trigger] post.vehicle_rows()[j].plate@ by {
            assert(post.vehicle_rows()[i] == pre.vehicle_rows()[i]);
            assert(post.vehicle_rows()[j] == pre.vehicle_rows()[j]);
        }
    }

    /// Row updates that keep every key keep the ledger well-formed.
    proof fn lemma_wf_same_keys(pre: Repo, post: Repo)
        requires
            pre.wf(),
            post.chat_rows().len() == pre.chat_rows().len(),
            forall|i: int|
                0 <= i < pre.chat_rows().len() ==> #[trigger] post.chat_rows()[i].id
                    == pre.chat_rows()[i].id,
            post.vehicle_rows().len() == pre.vehicle_rows().len(),
            forall|i: int|
                0 <= i < pre.vehicle_rows().len() ==> #[trigger] post.vehicle_rows()[i].plate@
                    == pre.vehicle_rows()[i].plate@,
            post.task_keys() == pre.task_keys(),
        ensures
            post.wf(),
    {
        assert forall|i: int, j: int|
            0 <= i < j < post.chat_rows().len() implies #[trigger] post.chat_rows()[i].id
            != #[trigger] post.chat_rows()[j].id by {
            assert(post.chat_rows()[i].id == pre.chat_rows()[i].id);
            assert(post.chat_rows()[j].id == pre.chat_rows()[j].id);
        }
        assert forall|i: int, j: int|
            0 <= i < j < post.vehicle_rows().len() implies #[trigger] post.vehicle_rows()[i].plate@
            != #[trigger] post.vehicle_rows()[j].plate@ by {
            assert(post.vehicle_rows()[i].plate@ == pre.vehicle_rows()[i].plate@);
            assert(post.vehicle_rows()[j].plate@ == pre.vehicle_rows()[j].plate@);
        }
        assert forall|i: int, j: int|
            0 <= i < j < post.task_keys().len() implies #[trigger] post.task_keys()[i]
            != #[trigger] post.task_keys()[j] by {
            assert(post.task_keys()[i] == pre.task_keys()[i]);
            assert(post.task_keys()[j] == pre.task_keys()[j]);
        }
    }

    /// Inserts a whole vehicle row; a plate that is already present is
    /// the duplicate-key failure the storage engine would raise, and
    /// nothing is written.
    pub fn insert_vehicle(&mut self, vehicle: Vehicle) -> (r: Result<Vehicle, BotDbError>)
        requires
            old(self).wf(),
        ensures
            final(self).wf(),
            final(self).chat_rows() == old(self).chat_rows(),
            final(self).task_keys() == old(self).task_keys(),
            old(self).has_vehicle(vehicle.plate@) ==> (r matches Err(e) && e
                is DuplicateKeyError) && final(self).vehicle_rows() == old(self).vehicle_rows(),
            !old(self).has_vehicle(vehicle.plate@) ==> (r matches Ok(v) && v == vehicle) && final(self).vehicle_rows() == old(self).vehicle_rows().push(vehicle),
    {
        match self.find_vehicle(vehicle.plate.as_str()) {
            Some(_) => Err(BotDbError::DuplicateKeyError),
            None => {
                let copy = vehicle.clone();
                self.vehicles.push(vehicle);
                proof {
                    assert(self.vehicle_rows() == old(self).vehicle_rows().push(copy));
                    assert forall|i: int, j: int|
                        0 <= i < j < self.vehicle_rows().len() implies #[trigger] self.vehicle_rows()[i].plate@
                        != #[trigger] self.vehicle_rows()[j].plate@ by {
                        if j == self.vehicle_rows().len() - 1 {
                            assert(self.vehicle_rows()[i] == old(self).vehicle_rows()[i]);
                            assert(old(self).vehicle_rows()[i].plate@ != copy.plate@);
                            assert(self.vehicle_rows()[j].plate@ == copy.plate@);
                        } else {
                            assert(self.vehicle_rows()[i] == old(self).vehicle_rows()[i]);
                            assert(self.vehicle_rows()[j] == old(self).vehicle_rows()[j]);
                            assert(old(self).vehicle_rows()[i].plate@ != old(
                                self,
                            ).vehicle_rows()[j].plate@);
                        }
                    }
                    Self::lemma_wf_vehicles_changed(*old(self), *self);
                }
                Ok(copy)
            },
        }
    }

    /// Inserts a fresh vehicle row holding only the plate.
    pub fn insert_vehicle_plate(&mut self, plate: &str) -> (r: Result<Vehicle, BotDbError>)
        requires
            old(self).wf(),
        ensures
            final(self).wf(),
            final(self).chat_rows() == old(self).chat_rows(),
            final(self).task_keys() == old(self).task_keys(),
            old(self).has_vehicle(plate@) ==> (r matches Err(e) && e is DuplicateKeyError)
                && final(self).vehicle_rows() == old(self).vehicle_rows(),
            !old(self).has_vehicle(plate@) ==> (r matches Ok(v) && v.plate@ == plate@
                && v.subscribers_ids is None && v.found_at is None && final(self).vehicle_rows()
                == old(self).vehicle_rows().push(v)),
    {
        let row = Vehicle { plate: plate.to_owned(), subscribers_ids: None, found_at: None };
        self.insert_vehicle(row)
    }

    /// Fetches the vehicle row, creating a bare one when the plate is new.
    pub fn find_or_create_vehicle(&mut self, plate: &str) -> (r: Result<Vehicle, BotDbError>)
        requires
            old(self).wf(),
        ensures
            final(self).wf(),
            r is Ok,
            final(self).chat_rows() == old(self).chat_rows(),
            final(self).task_keys() == old(self).task_keys(),
            old(self).has_vehicle(plate@) ==> final(self).vehicle_rows() == old(self).vehicle_rows() && (r matches Ok(v) && v == old(self).vehicle_at(plate@)),
            !old(self).has_vehicle(plate@) ==> (r matches Ok(v) && v.plate@ == plate@
                && v.subscribers_ids is None && v.found_at is None && final(self).vehicle_rows()
                == old(self).vehicle_rows().push(v)),
    {
        match self.get_vehicle(plate) {
            Ok(v) => Ok(v),
            Err(_) => self.insert_vehicle_plate(plate),
        }
    }

    /// Deletes one chat row; the count says whether a row was there.
    pub fn delete_chat(&mut self, chat_id: &i64) -> (r: Result<u64, BotDbError>)
        requires
            old(self).wf(),
        ensures
            final(self).wf(),
            final(self).vehicle_rows() == old(self).vehicle_rows(),
            final(self).task_keys() == old(self).task_keys(),
            old(self).has_chat(*chat_id) ==> r == Ok::<u64, BotDbError>(1u64) && final(self).chat_rows() == old(self).chat_rows().remove(old(self).chat_index(*chat_id)),
            !old(self).has_chat(*chat_id) ==> r == Ok::<u64, BotDbError>(0u64) && final(self).chat_rows() == old(self).chat_rows(),
    {
        match self.find_chat(*chat_id) {
            None => Ok(0),
            Some(i) => {
                proof {
                    self.lemma_chat_index_is(*chat_id, i as int);
                }
                self.chats.remove(i);
                proof {
                    assert forall|a: int, b: int|
                        0 <= a < b < self.chat_rows().len() implies #[trigger] self.chat_rows()[a].id
                        != #[trigger] self.chat_rows()[b].id by {
                        let oa = if a < i as int {
                            a
                        } else {
                            a + 1
                        };
                        let ob = if b < i as int {
                            b
                        } else {
                            b + 1
                        };
                        assert(self.chat_rows()[a] == old(self).chat_rows()[oa]);
                        assert(self.chat_rows()[b] == old(self).chat_rows()[ob]);
                    }
                    Self::lemma_wf_chats_changed(*old(self), *self);
                }
                Ok(1)
            },
        }
    }

    /// Records when a plate was found; overwrites, and reports how many
    /// rows matched.
    pub fn modify_found_at_vehicle(&mut self, plate: &str, found_at: i64) -> (r: Result<
        u64,
        BotDbError,
    >)
        requires
            old(self).wf(),
        ensures
            final(self).wf(),
            final(self).chat_rows() == old(self).chat_rows(),
            final(self).task_keys() == old(self).task_keys(),
            old(self).has_vehicle(plate@) ==> r == Ok::<u64, BotDbError>(1u64) && final(self).vehicle_rows() == old(self).vehicle_rows().update(
                old(self).vehicle_index(plate@),
                (Vehicle { found_at: Some(found_at), ..old(self).vehicle_at(plate@) }),
            ),
            !old(self).has_vehicle(plate@) ==> r == Ok::<u64, BotDbError>(0u64) && final(self).vehicle_rows() == old(self).vehicle_rows(),
            old(self).mirrored() ==> final(self).mirrored(),
    {
        let ghost pre = *self;
        match self.find_vehicle(plate) {
            None => Ok(0),
            Some(i) => {
                proof {
                    self.lemma_vehicle_index_is(plate@, i as int);
                }
                let mut row = self.vehicles[i].clone();
                row.found_at = Some(found_at);
                self.vehicles[i] = row;
                proof {
                    Self::lemma_wf_same_keys(pre, *self);
                    assert forall|a: int, b: int|
                        0 <= a < self.chat_rows().len() && 0 <= b
                            < self.vehicle_rows().len() implies (tokens_of_opt(
                        #[trigger] self.chat_rows()[a].subscribed_vehicles,
                    ).contains(self.vehicle_rows()[b].plate@) <==> ids_of_opt(
                        #[trigger] self.vehicle_rows()[b].subscribers_ids,
                    ).contains(self.chat_rows()[a].id as int)) || !pre.mirrored() by {
                        if pre.mirrored() {
                            assert(self.vehicle_rows()[b].plate@ == pre.vehicle_rows()[b].plate@
                                && self.vehicle_rows()[b].subscribers_ids
                                == pre.vehicle_rows()[b].subscribers_ids);
                        }
                    }
                }
                Ok(1)
            },
        }
    }

    /// Switches a chat's live-notification mode.
    pub fn modify_active_chat(&mut self, chat_id: &i64, new_state: bool) -> (r: Result<
        u64,
        BotDbError,
    >)
        requires
            old(self).wf(),
        ensures
            final(self).wf(),
            final(self).vehicle_rows() == old(self).vehicle_rows(),
            final(self).task_keys() == old(self).task_keys(),
            old(self).has_chat(*chat_id) ==> r == Ok::<u64, BotDbError>(1u64) && final(self).chat_rows() == old(self).chat_rows().update(
                old(self).chat_index(*chat_id),
                (Chat { active: new_state, ..old(self).chat_at(*chat_id) }),
            ),
            !old(self).has_chat(*chat_id) ==> r == Ok::<u64, BotDbError>(0u64) && final(self).chat_rows() == old(self).chat_rows(),
            old(self).mirrored() ==> final(self).mirrored(),
    {
        let ghost pre = *self;
        match self.find_chat(*chat_id) {
            None => Ok(0),
            Some(i) => {
                proof {
                    self.lemma_chat_index_is(*chat_id, i as int);
                }
                let mut row = self.chats[i].clone();
                row.active = new_state;
                self.chats[i] = row;
                proof {
                    Self::lemma_wf_same_keys(pre, *self);
                    assert forall|a: int, b: int|
                        0 <= a < self.chat_rows().len() && 0 <= b
                            < self.vehicle_rows().len() implies (tokens_of_opt(
                        #[trigger] self.chat_rows()[a].subscribed_vehicles,
                    ).contains(self.vehicle_rows()[b].plate@) <==> ids_of_opt(
                        #[trigger] self.vehicle_rows()[b].subscribers_ids,
                    ).contains(self.chat_rows()[a].id as int)) || !pre.mirrored() by {
                        if pre.mirrored() {
                            assert(self.chat_rows()[a].subscribed_vehicles
                                == pre.chat_rows()[a].subscribed_vehicles && self.chat_rows()[a].id
                                == pre.chat_rows()[a].id);
                        }
                    }
                }
                Ok(1)
            },
        }
    }

    /// Moves a chat to another conversation state.
    pub fn modify_state(&mut self, chat_id: &i64, new_state: ClientState) -> (r: Result<
        u64,
        BotDbError,
    >)
        requires
            old(self).wf(),
        ensures
            final(self).wf(),
            final(self).vehicle_rows() == old(self).vehicle_rows(),
            final(self).task_keys() == old(self).task_keys(),
            old(self).has_chat(*chat_id) ==> r == Ok::<u64, BotDbError>(1u64) && final(self).chat_rows() == old(self).chat_rows().update(
                old(self).chat_index(*chat_id),
                (Chat { state: new_state, ..old(self).chat_at(*chat_id) }),
            ),
            !old(self).has_chat(*chat_id) ==> r == Ok::<u64, BotDbError>(0u64) && final(self).chat_rows() == old(self).chat_rows(),
            old(self).mirrored() ==> final(self).mirrored(),
    {
        let ghost pre = *self;
        match self.find_chat(*chat_id) {
            None => Ok(0),
            Some(i) => {
                proof {
                    self.lemma_chat_index_is(*chat_id, i as int);
                }
                let mut row = self.chats[i].clone();
                row.state = new_state;
                self.chats[i] = row;
                proof {
                    Self::lemma_wf_same_keys(pre, *self);
                    assert forall|a: int, b: int|
                        0 <= a < self.chat_rows().len() && 0 <= b
                            < self.vehicle_rows().len() implies (tokens_of_opt(
                        #[trigger] self.chat_rows()[a].subscribed_vehicles,
                    ).contains(self.vehicle_rows()[b].plate@) <==> ids_of_opt(
                        #[trigger] self.vehicle_rows()[b].subscribers_ids,
                    ).contains(self.chat_rows()[a].id as int)) || !pre.mirrored() by {
                        if pre.mirrored() {
                            assert(self.chat_rows()[a].subscribed_vehicles
                                == pre.chat_rows()[a].subscribed_vehicles && self.chat_rows()[a].id
                                == pre.chat_rows()[a].id);
                        }
                    }
                }
                Ok(1)
            },
        }
    }

    /// How many identifiers stand in a plate's subscriber list; a missing
    /// plate counts as none.
    pub fn get_n_subscribers_by_plate(&self, plate: &str) -> (r: Result<u64, BotDbError>)
        requires
            self.wf(),
        ensures
            r matches Ok(n) && n as int == (if self.has_vehicle(plate@) {
                ids_of_opt(self.vehicle_at(plate@).subscribers_ids).len()
            } else {
                0
            }),
    {
        match self.find_vehicle(plate) {
            None => Ok(0),
            Some(i) => {
                proof {
                    self.lemma_vehicle_index_is(plate@, i as int);
                }
                let ids = crate::codec::decode_ids(&self.vehicles[i].subscribers_ids);
                proof {
                    assert(ids@.map_values(|v: i64| v as int).len() == ids@.len());
                }
                Ok(ids.len() as u64)
            },
        }
    }

    /// Appends one plate to a chat's subscription list; the missing row
    /// is surfaced the way the original transaction's empty update was.
    pub fn append_subscription_to_chat(&mut self, plate: &str, chat_id: &i64) -> (r: Result<
        (),
        BotDbError,
    >)
        requires
            old(self).wf(),
            is_clean_token(plate@),
        ensures
            final(self).wf(),
            final(self).vehicle_rows() == old(self).vehicle_rows(),
            final(self).task_keys() == old(self).task_keys(),
            r is Ok <==> old(self).has_chat(*chat_id),
            !old(self).has_chat(*chat_id) ==> (r matches Err(e) && e matches
                BotDbError::AlreadySubscribedError(c, p) && c == *chat_id && p@ == plate@)
                && final(self).chat_rows() == old(self).chat_rows(),
            old(self).has_chat(*chat_id) ==> ({
                let nc = final(self).chat_at(*chat_id);
                let c0 = old(self).chat_at(*chat_id);
                &&& final(self).chat_rows() == old(self).chat_rows().update(
                    old(self).chat_index(*chat_id),
                    nc,
                )
                &&& tokens_of_opt(nc.subscribed_vehicles) == tokens_of_opt(
                    c0.subscribed_vehicles,
                ).push(plate@)
                &&& nc.id == c0.id
                &&& nc.active == c0.active
                &&& nc.state == c0.state
                &&& nc.user_id == c0.user_id
            }),
    {
        match self.find_chat(*chat_id) {
            None => Err(BotDbError::AlreadySubscribedError(*chat_id, plate.to_owned())),
            Some(i) => {
                proof {
                    self.lemma_chat_index_is(*chat_id, i as int);
                }
                let ghost pre = *self;
                let appended = append_token(&self.chats[i].subscribed_vehicles, plate);
                let mut row = self.chats[i].clone();
                row.subscribed_vehicles = Some(appended);
                self.chats[i] = row;
                proof {
                    Self::lemma_wf_same_keys(pre, *self);
                    pre.lemma_chat_index_is(*chat_id, i as int);
                    self.lemma_chat_index_is(*chat_id, i as int);
                }
                Ok(())
            },
        }
    }

    /// Registers a chat's interest in a plate: checks the decoded
    /// subscriber set first, then applies both row updates of the
    /// transaction, or nothing at all.
    pub fn create_subscription(&mut self, plate: &str, chat_id: i64) -> (r: Result<
        (),
        BotDbError,
    >)
        requires
            old(self).wf(),
            is_clean_token(plate@),
        ensures
            final(self).wf(),
            final(self).task_keys() == old(self).task_keys(),
            r is Ok <==> (old(self).has_vehicle(plate@) && old(self).has_chat(chat_id)
                && !ids_of_opt(old(self).vehicle_at(plate@).subscribers_ids).contains(
                chat_id as int,
            )),
            !old(self).has_vehicle(plate@) ==> (r matches Err(e) && e is RowNotFoundError),
            old(self).has_vehicle(plate@) && (ids_of_opt(
                old(self).vehicle_at(plate@).subscribers_ids,
            ).contains(chat_id as int) || !old(self).has_chat(chat_id)) ==> (r matches Err(e)
                && e matches BotDbError::AlreadySubscribedError(c, p) && c == chat_id && p@
                == plate@),
            r is Err ==> final(self).chat_rows() == old(self).chat_rows() && final(self).vehicle_rows() == old(self).vehicle_rows(),
            r is Ok ==> ({
                let v0 = old(self).vehicle_at(plate@);
                let c0 = old(self).chat_at(chat_id);
                let nv = final(self).vehicle_at(plate@);
                let nc = final(self).chat_at(chat_id);
                &&& final(self).vehicle_rows() == old(self).vehicle_rows().update(
                    old(self).vehicle_index(plate@),
                    nv,
                )
                &&& final(self).chat_rows() == old(self).chat_rows().update(
                    old(self).chat_index(chat_id),
                    nc,
                )
                &&& nv.plate@ == plate@
                &&& nv.found_at == v0.found_at
                &&& ids_of_opt(nv.subscribers_ids) == ids_of_opt(v0.subscribers_ids).push(
                    chat_id as int,
                )
                &&& tokens_of_opt(nc.subscribed_vehicles) == tokens_of_opt(
                    c0.subscribed_vehicles,
                ).push(plate@)
                &&& nc.id == chat_id
                &&& nc.active == c0.active
                &&& nc.state == c0.state
                &&& nc.user_id == c0.user_id
            }),
            old(self).mirrored() ==> final(self).mirrored(),
    {
        let ghost pre = *self;
        let vi = match self.find_vehicle(plate) {
            None => {
                return Err(BotDbError::RowNotFoundError);
            },
            Some(i) => i,
        };
        proof {
            self.lemma_vehicle_index_is(plate@, vi as int);
        }
        if ids_contain(&self.vehicles[vi].subscribers_ids, chat_id) {
            return Err(BotDbError::AlreadySubscribedError(chat_id, plate.to_owned()));
        }
        let ci = match self.find_chat(chat_id) {
            None => {
                return Err(BotDbError::AlreadySubscribedError(chat_id, plate.to_owned()));
            },
            Some(i) => i,
        };
        proof {
            self.lemma_chat_index_is(chat_id, ci as int);
        }
        let id_str = crate::digits::i64_to_string(chat_id);
        proof {
            crate::codec::lemma_dec_int_clean(chat_id as int);
        }
        let new_subscribers = append_token(&self.vehicles[vi].subscribers_ids, id_str.as_str());
        let mut vrow = self.vehicles[vi].clone();
        vrow.subscribers_ids = Some(new_subscribers);
        self.vehicles[vi] = vrow;
        let new_subscriptions = append_token(&self.chats[ci].subscribed_vehicles, plate);
        let mut crow = self.chats[ci].clone();
        crow.subscribed_vehicles = Some(new_subscriptions);
        self.chats[ci] = crow;
        proof {
            Self::lemma_wf_same_keys(pre, *self);
            pre.lemma_vehicle_index_is(plate@, vi as int);
            pre.lemma_chat_index_is(chat_id, ci as int);
            self.lemma_vehicle_index_is(plate@, vi as int);
            self.lemma_chat_index_is(chat_id, ci as int);
            if pre.mirrored() {
                assert forall|a: int, b: int|
                    0 <= a < self.chat_rows().len() && 0 <= b
                        < self.vehicle_rows().len() implies (tokens_of_opt(
                    #[trigger] self.chat_rows()[a].subscribed_vehicles,
                ).contains(self.vehicle_rows()[b].plate@) <==> ids_of_opt(
                    #[trigger] self.vehicle_rows()[b].subscribers_ids,
                ).contains(self.chat_rows()[a].id as int)) by {
                    let ca = self.chat_rows()[a];
                    let vb = self.vehicle_rows()[b];
                    let pa = pre.chat_rows()[a];
                    let pb = pre.vehicle_rows()[b];
                    assert(tokens_of_opt(pa.subscribed_vehicles).contains(pb.plate@)
                        <==> ids_of_opt(pb.subscribers_ids).contains(pa.id as int));
                    assert(ca.id == pa.id);
                    assert(vb.plate@ == pb.plate@);
                    if a == ci as int {
                        assert(tokens_of_opt(ca.subscribed_vehicles) == tokens_of_opt(
                            pa.subscribed_vehicles,
                        ).push(plate@));
                        crate::codec::lemma_push_contains(
                            tokens_of_opt(pa.subscribed_vehicles),
                            plate@,
                            vb.plate@,
                        );
                        assert(ca.id == chat_id);
                    } else {
                        assert(ca == pa);
                        assert(ca.id != chat_id) by {
                            if a < ci as int {
                                assert(pre.chat_rows()[a].id != pre.chat_rows()[ci as int].id);
                            } else {
                                assert(pre.chat_rows()[ci as int].id != pre.chat_rows()[a].id);
                            }
                        }
                    }
                    if b == vi as int {
                        assert(ids_of_opt(vb.subscribers_ids) == ids_of_opt(
                            pb.subscribers_ids,
                        ).push(chat_id as int));
                        crate::codec::lemma_push_contains(
                            ids_of_opt(pb.subscribers_ids),
                            chat_id as int,
                            ca.id as int,
                        );
                        assert(vb.plate@ == plate@);
                    } else {
                        assert(vb == pb);
                        assert(vb.plate@ != plate@) by {
                            if b < vi as int {
                                assert(pre.vehicle_rows()[b].plate@
                                    != pre.vehicle_rows()[vi as int].plate@);
                            } else {
                                assert(pre.vehicle_rows()[vi as int].plate@
                                    != pre.vehicle_rows()[b].plate@);
                            }
                        }
                    }
                }
            }
        }
        Ok(())
    }

    /// Ends a chat's interest in a plate: removes the chat from the
    /// plate's decoded subscriber set and the plate from the chat's
    /// decoded subscription set, writing both rows or neither, and
    /// returns how many entries each removal took out.
    pub fn end_subscription(&mut self, plate: &str, chat_id: i64) -> (r: Result<
        (u64, u64),
        BotDbError,
    >)
        requires
            old(self).wf(),
        ensures
            final(self).wf(),
            final(self).task_keys() == old(self).task_keys(),
            r is Ok <==> (old(self).has_vehicle(plate@) && old(self).has_chat(chat_id) && ids_of_opt(old(self).vehicle_at(plate@).subscribers_ids).filter(|v: int| v == chat_id as int).len() > 0 && tokens_of_opt(old(self).chat_at(chat_id).subscribed_vehicles).filter(|t: Seq<char>| t == plate@).len() > 0),
            (!old(self).has_vehicle(plate@) || !old(self).has_chat(chat_id)) ==> (r matches Err(e) && e is RowNotFoundError),
            (old(self).has_vehicle(plate@) && old(self).has_chat(chat_id) && ids_of_opt(old(self).vehicle_at(plate@).subscribers_ids).filter(|v: int| v == chat_id as int).len() == 0) ==> (r matches Err(e) && e matches
                BotDbError::CouldNotEndSubscription(c, p, reason) && c == chat_id && p@ == plate@
                && reason@ == "The vehicle "@ + plate@ + " doesn't have any subscribers"@),
            (old(self).has_vehicle(plate@) && old(self).has_chat(chat_id) && ids_of_opt(old(self).vehicle_at(plate@).subscribers_ids).filter(|v: int| v == chat_id as int).len() > 0 && tokens_of_opt(old(self).chat_at(chat_id).subscribed_vehicles).filter(|t: Seq<char>| t == plate@).len() == 0) ==> (r matches Err(e) && e matches BotDbError::CouldNotEndSubscription(
                c,
                p,
                reason,
            ) && c == chat_id && p@ == plate@ && reason@ == "User "@ + dec_int(chat_id as int)
                + " doesn't have any subscription at the moment"@),
            r is Err ==> final(self).chat_rows() == old(self).chat_rows() && final(self).vehicle_rows() == old(self).vehicle_rows(),
            r is Ok ==> ({
                let v0 = old(self).vehicle_at(plate@);
                let c0 = old(self).chat_at(chat_id);
                let nv = final(self).vehicle_at(plate@);
                let nc = final(self).chat_at(chat_id);
                &&& r matches Ok(counts) && counts.0 as int == ids_of_opt(
                    old(self).vehicle_at(plate@).subscribers_ids,
                ).filter(|v: int| v == chat_id as int).len() && counts.1 as int == tokens_of_opt(
                    old(self).chat_at(chat_id).subscribed_vehicles,
                ).filter(|t: Seq<char>| t == plate@).len()
                &&& final(self).vehicle_rows() == old(self).vehicle_rows().update(
                    old(self).vehicle_index(plate@),
                    nv,
                )
                &&& final(self).chat_rows() == old(self).chat_rows().update(
                    old(self).chat_index(chat_id),
                    nc,
                )
                &&& nv.plate@ == plate@
                &&& nv.found_at == v0.found_at
                &&& ids_of_opt(nv.subscribers_ids) == ids_of_opt(v0.subscribers_ids).filter(
                    |v: int| v != chat_id as int,
                )
                &&& text_of(nv.subscribers_ids) == joined(
                    tokens_of_opt(v0.subscribers_ids).filter(
                        |t: Seq<char>| parses_i64(t) && i64_val(t) != chat_id as int,
                    ),
                )
                &&& tokens_of_opt(nc.subscribed_vehicles) == tokens_of_opt(
                    c0.subscribed_vehicles,
                ).filter(|t: Seq<char>| t != plate@)
                &&& text_of(nc.subscribed_vehicles) == joined(
                    tokens_of_opt(c0.subscribed_vehicles).filter(|t: Seq<char>| t != plate@),
                )
                &&& nc.id == chat_id
                &&& nc.active == c0.active
                &&& nc.state == c0.state
                &&& nc.user_id == c0.user_id
            }),
            old(self).mirrored() ==> final(self).mirrored(),
    {
        let ghost pre = *self;
        let vi = match self.find_vehicle(plate) {
            None => {
                return Err(BotDbError::RowNotFoundError);
            },
            Some(i) => i,
        };
        let ci = match self.find_chat(chat_id) {
            None => {
                return Err(BotDbError::RowNotFoundError);
            },
            Some(i) => i,
        };
        proof {
            self.lemma_vehicle_index_is(plate@, vi as int);
            self.lemma_chat_index_is(chat_id, ci as int);
        }
        let removed = crate::codec::remove_id(&self.vehicles[vi].subscribers_ids, chat_id);
        let n_subscribers = removed.0;
        let updated_subscribers = removed.1;
        let removed_subscriptions = crate::codec::remove_token(
            &self.chats[ci].subscribed_vehicles,
            plate,
        );
        let n_subscriptions = removed_subscriptions.0;
        let updated_subscriptions = removed_subscriptions.1;
        if n_subscribers == 0 {
            let mut reason = String::new();
            reason.append("The vehicle ");
            reason.append(plate);
            reason.append(" doesn't have any subscribers");
            proof {
                assert(reason@ =~= "The vehicle "@ + plate@
                    + " doesn't have any subscribers"@);
            }
            return Err(BotDbError::CouldNotEndSubscription(chat_id, plate.to_owned(), reason));
        }
        if n_subscriptions == 0 {
            let mut reason = String::new();
            reason.append("User ");
            let id_str = crate::digits::i64_to_string(chat_id);
            reason.append(id_str.as_str());
            reason.append(" doesn't have any subscription at the moment");
            proof {
                assert(reason@ =~= "User "@ + dec_int(chat_id as int)
                    + " doesn't have any subscription at the moment"@);
            }
            return Err(BotDbError::CouldNotEndSubscription(chat_id, plate.to_owned(), reason));
        }
        let mut vrow = self.vehicles[vi].clone();
        vrow.subscribers_ids = Some(updated_subscribers);
        self.vehicles[vi] = vrow;
        let mut crow = self.chats[ci].clone();
        crow.subscribed_vehicles = Some(updated_subscriptions);
        self.chats[ci] = crow;
        proof {
            Self::lemma_wf_same_keys(pre, *self);
            pre.lemma_vehicle_index_is(plate@, vi as int);
            pre.lemma_chat_index_is(chat_id, ci as int);
            self.lemma_vehicle_index_is(plate@, vi as int);
            self.lemma_chat_index_is(chat_id, ci as int);
            if pre.mirrored() {
                assert forall|a: int, b: int|
                    0 <= a < self.chat_rows().len() && 0 <= b
                        < self.vehicle_rows().len() implies (tokens_of_opt(
                    #[trigger] self.chat_rows()[a].subscribed_vehicles,
                ).contains(self.vehicle_rows()[b].plate@) <==> ids_of_opt(
                    #[trigger] self.vehicle_rows()[b].subscribers_ids,
                ).contains(self.chat_rows()[a].id as int)) by {
                    let ca = self.chat_rows()[a];
                    let vb = self.vehicle_rows()[b];
                    let pa = pre.chat_rows()[a];
                    let pb = pre.vehicle_rows()[b];
                    assert(tokens_of_opt(pa.subscribed_vehicles).contains(pb.plate@)
                        <==> ids_of_opt(pb.subscribers_ids).contains(pa.id as int));
                    assert(ca.id == pa.id);
                    assert(vb.plate@ == pb.plate@);
                    if a == ci as int {
                        assert(tokens_of_opt(ca.subscribed_vehicles) == tokens_of_opt(
                            pa.subscribed_vehicles,
                        ).filter(|t: Seq<char>| t != plate@));
                        crate::codec::lemma_filter_contains_iff(
                            tokens_of_opt(pa.subscribed_vehicles),
                            |t: Seq<char>| t != plate@,
                            vb.plate@,
                        );
                        assert(ca.id == chat_id);
                    } else {
                        assert(ca == pa);
                        assert(ca.id != chat_id) by {
                            if a < ci as int {
                                assert(pre.chat_rows()[a].id != pre.chat_rows()[ci as int].id);
                            } else {
                                assert(pre.chat_rows()[ci as int].id != pre.chat_rows()[a].id);
                            }
                        }
                    }
                    if b == vi as int {
                        assert(ids_of_opt(vb.subscribers_ids) == ids_of_opt(
                            pb.subscribers_ids,
                        ).filter(|v: int| v != chat_id as int));
                        crate::codec::lemma_filter_contains_iff(
                            ids_of_opt(pb.subscribers_ids),
                            |v: int| v != chat_id as int,
                            ca.id as int,
                        );
                        assert(vb.plate@ == plate@);
                    } else {
                        assert(vb == pb);
                        assert(vb.plate@ != plate@) by {
                            if b < vi as int {
                                assert(pre.vehicle_rows()[b].plate@
                                    != pre.vehicle_rows()[vi as int].plate@);
                            } else {
                                assert(pre.vehicle_rows()[vi as int].plate@
                                    != pre.vehicle_rows()[b].plate@);
                            }
                        }
                    }
                }
            }
        }
        Ok((n_subscribers, n_subscriptions))
    }

    /// Schedules a poll task for a plate; task identity is the plate, so
    /// scheduling an existing plate again is a no-op, not a duplicate.
    pub fn schedule_task(&mut self, plate: &str) -> (r: Result<(), BotDbError>)
        requires
            old(self).wf(),
        ensures
            final(self).wf(),
            r is Ok,
            final(self).chat_rows() == old(self).chat_rows(),
            final(self).vehicle_rows() == old(self).vehicle_rows(),
            old(self).has_task(plate@) ==> final(self).task_keys() == old(self).task_keys(),
            !old(self).has_task(plate@) ==> final(self).task_keys() == old(self).task_keys().push(
                plate@,
            ),
    {
        let target = plate.to_owned();
        let mut i: usize = 0;
        while i < self.tasks.len()
            invariant
                i <= self.tasks@.len(),
                target@ == plate@,
                *self == *old(self),
                self.wf(),
                self.task_keys() == self.tasks@.map_values(|s: String| s@),
                forall|j: int| 0 <= j < i ==> #[trigger] self.task_keys()[j] != plate@,
            decreases self.tasks.len() - i,
        {
            if self.tasks[i] == target {
                proof {
                    assert(self.task_keys()[i as int] == plate@);
                }
                return Ok(());
            }
            i += 1;
        }
        proof {
            assert(!self.has_task(plate@));
        }
        let ghost pre = *self;
        self.tasks.push(target);
        proof {
            assert(self.task_keys() =~~= pre.task_keys().push(plate@));
            assert forall|a: int, b: int|
                0 <= a < b < self.task_keys().len() implies #[trigger] self.task_keys()[a]
                != #[trigger] self.task_keys()[b] by {
                if b == self.task_keys().len() - 1 {
                    assert(self.task_keys()[a] == pre.task_keys()[a]);
                    assert(!pre.task_keys().contains(plate@));
                    assert(self.task_keys()[b] == plate@);
                } else {
                    assert(self.task_keys()[a] == pre.task_keys()[a]);
                    assert(self.task_keys()[b] == pre.task_keys()[b]);
                }
            }
            Self::lemma_wf_tasks_changed(pre, *self);
        }
        Ok(())
    }

    /// Removes the poll tasks bound to a plate; returns how many there
    /// were.
    pub fn delete_tasks_by_plate(&mut self, plate: &str) -> (r: Result<u64, BotDbError>)
        requires
            old(self).wf(),
        ensures
            final(self).wf(),
            final(self).chat_rows() == old(self).chat_rows(),
            final(self).vehicle_rows() == old(self).vehicle_rows(),
            final(self).task_keys() == old(self).task_keys().filter(
                |t: Seq<char>| t != plate@,
            ),
            r matches Ok(n) && n as int == old(self).task_keys().filter(
                |t: Seq<char>| t == plate@,
            ).len(),
            old(self).mirrored() ==> final(self).mirrored(),
    {
        broadcast use Seq::lemma_filter_push;
        broadcast use Seq::lemma_filter_len;

        let ghost pre = *self;
        let ghost pk = |t: Seq<char>| t != plate@;
        let ghost pe = |t: Seq<char>| t == plate@;
        let target = plate.to_owned();
        let mut kept: Vec<String> = Vec::new();
        let mut count: u64 = 0;
        let mut i: usize = 0;
        proof {
            assert(pre.task_keys().take(0) =~~= Seq::<Seq<char>>::empty());
            assert(kept@.map_values(|s: String| s@) =~~= pre.task_keys().take(0).filter(pk));
            assert(pre.task_keys().take(0).filter(pe) =~~= Seq::<Seq<char>>::empty());
        }
        while i < self.tasks.len()
            invariant
                i <= self.tasks@.len(),
                *self == pre,
                target@ == plate@,
                pk == (|t: Seq<char>| t != plate@),
                pe == (|t: Seq<char>| t == plate@),
                pre.task_keys() == pre.tasks@.map_values(|s: String| s@),
                pre.task_keys().len() == pre.tasks@.len(),
                kept@.map_values(|s: String| s@) == pre.task_keys().take(i as int).filter(pk),
                count as int == pre.task_keys().take(i as int).filter(pe).len(),
                count <= i,
            decreases self.tasks.len() - i,
        {
            proof {
                let prev = pre.task_keys().take(i as int);
                assert(pre.task_keys().take(i + 1) =~~= prev.push(
                    pre.task_keys()[i as int],
                ));
                prev.lemma_filter_push(pre.task_keys()[i as int], pk);
                prev.lemma_filter_push(pre.task_keys()[i as int], pe);
            }
            if self.tasks[i] == target {
                count = count + 1;
            } else {
                kept.push(self.tasks[i].clone());
                proof {
                    assert(kept@.map_values(|s: String| s@) =~~= pre.task_keys().take(
                        i as int,
                    ).filter(pk).push(pre.task_keys()[i as int]));
                }
            }
            i += 1;
        }
        proof {
            assert(pre.task_keys().take(pre.tasks@.len() as int) =~~= pre.task_keys());
        }
        self.tasks = kept;
        proof {
            crate::codec::lemma_filter_distinct(pre.task_keys(), pk);
            Self::lemma_wf_tasks_changed(pre, *self);
        }
        Ok(count)
    }

    /// Whether a poll task is currently scheduled for a plate.
    pub fn has_task_for(&self, plate: &str) -> (r: bool)
        ensures
            r == self.has_task(plate@),
    {
        let target = plate.to_owned();
        let mut i: usize = 0;
        while i < self.tasks.len()
            invariant
                i <= self.tasks@.len(),
                target@ == plate@,
                self.task_keys() == self.tasks@.map_values(|s: String| s@),
                forall|j: int| 0 <= j < i ==> #[trigger] self.task_keys()[j] != plate@,
            decreases self.tasks.len() - i,
        {
            if self.tasks[i] == target {
                proof {
                    assert(self.task_keys()[i as int] == plate@);
                }
                return true;
            }
            i += 1;
        }
        proof {
            assert(!self.has_task(plate@));
        }
        false
    }

    /// The vehicles a chat is subscribed to, in storage order; plates in
    /// the list that no longer have a row are silently skipped.
    pub fn get_vehicles_by_chat_id(&self, chat_id: &i64) -> (r: Result<Vec<Vehicle>, BotDbError>)
        requires
            self.wf(),
        ensures
            r is Ok <==> self.has_chat(*chat_id),
            r is Err ==> (r matches Err(e) && e is RowNotFoundError),
            r matches Ok(v) ==> v@ == self.vehicle_rows().filter(
                |veh: Vehicle| tokens_of_opt(self.chat_at(*chat_id).subscribed_vehicles).contains(
                    veh.plate@,
                ),
            ),
    {
        broadcast use Seq::lemma_filter_push;

        let chat = match self.get_chat(chat_id) {
            Ok(c) => c,
            Err(e) => {
                return Err(e);
            },
        };
        let ghost pred = |veh: Vehicle| tokens_of_opt(
            self.chat_at(*chat_id).subscribed_vehicles,
        ).contains(veh.plate@);
        let mut out: Vec<Vehicle> = Vec::new();
        let mut i: usize = 0;
        proof {
            assert(self.vehicle_rows().take(0) =~= Seq::<Vehicle>::empty());
            assert(out@ =~= self.vehicle_rows().take(0).filter(pred));
        }
        while i < self.vehicles.len()
            invariant
                i <= self.vehicle_rows().len(),
                self.wf(),
                self.vehicle_rows() == self.vehicles@,
                chat == self.chat_at(*chat_id),
                pred == (|veh: Vehicle| tokens_of_opt(
                    self.chat_at(*chat_id).subscribed_vehicles,
                ).contains(veh.plate@)),
                out@ == self.vehicle_rows().take(i as int).filter(pred),
            decreases self.vehicles.len() - i,
        {
            proof {
                let prev = self.vehicle_rows().take(i as int);
                assert(self.vehicle_rows().take(i + 1) =~= prev.push(
                    self.vehicle_rows()[i as int],
                ));
                prev.lemma_filter_push(self.vehicle_rows()[i as int], pred);
            }
            if tokens_contain(&chat.subscribed_vehicles, self.vehicles[i].plate.as_str()) {
                out.push(self.vehicles[i].clone());
            }
            i += 1;
        }
        proof {
            assert(self.vehicle_rows().take(self.vehicles@.len() as int)
                =~= self.vehicle_rows());
        }
        Ok(out)
    }

    /// The plate's subscribers that are active right now: the filter runs
    /// on the current chat rows, never on a cached list.
    pub fn get_active_subscriptions_from_vehicle(&self, plate: &str) -> (r: Result<
        Vec<Chat>,
        BotDbError,
    >)
        requires
            self.wf(),
        ensures
            r is Ok <==> self.has_vehicle(plate@),
            r is Err ==> (r matches Err(e) && e is RowNotFoundError),
            r matches Ok(v) ==> v@ == self.chat_rows().filter(
                |c: Chat| c.active && ids_of_opt(self.vehicle_at(plate@).subscribers_ids).contains(
                    c.id as int,
                ),
            ),
    {
        broadcast use Seq::lemma_filter_push;

        let vehicle = match self.get_vehicle(plate) {
            Ok(v) => v,
            Err(e) => {
                return Err(e);
            },
        };
        let ghost pred = |c: Chat| c.active && ids_of_opt(
            self.vehicle_at(plate@).subscribers_ids,
        ).contains(c.id as int);
        let mut out: Vec<Chat> = Vec::new();
        let mut i: usize = 0;
        proof {
            assert(self.chat_rows().take(0) =~= Seq::<Chat>::empty());
            assert(out@ =~= self.chat_rows().take(0).filter(pred));
        }
        while i < self.chats.len()
            invariant
                i <= self.chat_rows().len(),
                self.wf(),
                self.chat_rows() == self.chats@,
                vehicle == self.vehicle_at(plate@),
                pred == (|c: Chat| c.active && ids_of_opt(
                    self.vehicle_at(plate@).subscribers_ids,
                ).contains(c.id as int)),
                out@ == self.chat_rows().take(i as int).filter(pred),
            decreases self.chats.len() - i,
        {
            proof {
                let prev = self.chat_rows().take(i as int);
                assert(self.chat_rows().take(i + 1) =~= prev.push(self.chat_rows()[i as int]));
                prev.lemma_filter_push(self.chat_rows()[i as int], pred);
            }
            if self.chats[i].active && ids_contain(&vehicle.subscribers_ids, self.chats[i].id) {
                out.push(self.chats[i].clone());
            }
            i += 1;
        }
        proof {
            assert(self.chat_rows().take(self.chats@.len() as int) =~= self.chat_rows());
        }
        Ok(out)
    }

    /// The next instant a cron expression matches, as a UNIX timestamp;
    /// a malformed expression and an exhausted schedule each get their
    /// own error.
    pub fn calculate_next_delivery(cron_expression: &str) -> (r: Result<i64, BotDbError>)
        ensures
            r is Ok ==> crate::time::cron_parses(cron_expression@),
            r matches Err(e) ==> (if crate::time::cron_parses(cron_expression@) {
                e is NoTimestampsError
            } else {
                e is CronError
            }),
    {
        match crate::time::cron_next_timestamp(cron_expression) {
            Err(_) => Err(BotDbError::CronError),
            Ok(None) => Err(BotDbError::NoTimestampsError),
            Ok(Some(ts)) => Ok(ts),
        }
    }

    /// Reads a little-endian unsigned integer out of the eight raw bytes
    /// a user identifier is stored as.
    pub fn as_u64_le(array: &[u8; 8]) -> (r: u64)
        ensures
            r as int == u64_from_le(array@),
    {
        (array[0] as u64) + (array[1] as u64) * 0x100 + (array[2] as u64) * 0x1_0000 + (
        array[3] as u64) * 0x100_0000 + (array[4] as u64) * 0x1_0000_0000 + (array[5] as u64)
            * 0x100_0000_0000 + (array[6] as u64) * 0x1_0000_0000_0000 + (array[7] as u64)
            * 0x100_0000_0000_0000
    }

} // impl Repo

/// The value of eight bytes read as a little-endian unsigned integer.
pub open spec fn u64_from_le(s: Seq<u8>) -> int {
    s[0] + s[1] * 0x100 + s[2] * 0x1_0000 + s[3] * 0x100_0000 + s[4] * 0x1_0000_0000 + s[5]
        * 0x100_0000_0000 + s[6] * 0x1_0000_0000_0000 + s[7] * 0x100_0000_0000_0000
}

/// Swaps the database name at the end of a connection string for another,
/// keeping everything up to and including the last separator.
pub fn construct_test_db_url(base_url: &str, test_db_name: &str) -> (r: String)
    requires
        exists|i: int| 0 <= i < base_url@.len() && base_url@[i] == '/',
    ensures
        exists|p: int|
            0 <= p < base_url@.len() && base_url@[p] == '/' && (forall|j: int|
                p < j < base_url@.len() ==> base_url@[j] != '/') && r@ == base_url@.subrange(
                0,
                p + 1,
            ) + test_db_name@,
{
    let n = base_url.unicode_len();
    let mut i: usize = n;
    while i > 0
        invariant
            i <= n,
            n == base_url@.len(),
            forall|j: int| i <= j < base_url@.len() ==> base_url@[j] != '/',
            exists|k: int| 0 <= k < base_url@.len() && base_url@[k] == '/',
        decreases i,
    {
        if base_url.get_char(i - 1) == '/' {
            let prefix = base_url.substring_char(0, i);
            let mut r = prefix.to_owned();
            r.append(test_db_name);
            proof {
                assert(base_url@[i - 1] == '/');
                assert(r@ == base_url@.subrange(0, i as int) + test_db_name@);
            }
            return r;
        }
        i -= 1;
    }
    proof {
        assert(false);
    }
    String::new()
}

} // verus!
