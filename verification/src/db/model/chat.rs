use vstd::prelude::*;
use super::client_state::ClientState;

verus! {

/// A subscriber: one conversation that can subscribe to plates.
/// `subscribed_vehicles` is the delimiter-joined list of plates the chat
/// follows; `active` is whether it currently wants live notifications.
#[derive(Debug)]
pub struct Chat {
    pub id: i64,
    pub user_id: u64,
    pub username: String,
    pub state: ClientState,
    pub selected_text: Option<String>,
    pub subscribed_vehicles: Option<String>,
    pub active: bool,
    pub language_code: Option<String>,
}

fn clone_opt_string(o: &Option<String>) -> (r: Option<String>)
    ensures
        r == *o,
{
    match o {
        None => None,
        Some(s) => Some(s.clone()),
    }
}

impl Clone for Chat {
    fn clone(&self) -> (r: Self)
        ensures
            r == *self,
    {
        Chat {
            id: self.id,
            user_id: self.user_id,
            username: self.username.clone(),
            state: self.state,
            selected_text: clone_opt_string(&self.selected_text),
            subscribed_vehicles: clone_opt_string(&self.subscribed_vehicles),
            active: self.active,
            language_code: clone_opt_string(&self.language_code),
        }
    }
}

} // verus!
