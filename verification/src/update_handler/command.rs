use vstd::prelude::*;
use crate::codec::{trim_spec, trim_str};

verus! {

/// The commands a subscriber can issue; anything unrecognized is kept
/// verbatim for the caller's error message.
#[derive(Debug, Clone)]
pub enum Command {
    RemoveVehicle,
    AddVehicle,
    AddVehicleMessage,
    MyAddedVehicles,
    VehicleInfo,
    StartFetch,
    StopFetch,
    Help,
    Start,
    StartBack,
    Cancel,
    UnknownCommand(String),
}

/// The text with every occurrence of a pattern removed, scanning left to
/// right over non-overlapping matches; an empty pattern removes nothing.
pub open spec fn strip_all(s: Seq<char>, pat: Seq<char>) -> Seq<char>
    decreases s.len(),
{
    if pat.len() == 0 || s.len() < pat.len() {
        s
    } else if s.subrange(0, pat.len() as int) == pat {
        strip_all(s.subrange(pat.len() as int, s.len() as int), pat)
    } else {
        seq![s[0]] + strip_all(s.drop_first(), pat)
    }
}

fn window_matches(s: &str, at: usize, pat: &str) -> (r: bool)
    requires
        at + pat@.len() <= s@.len(),
    ensures
        r == (s@.subrange(at as int, at + pat@.len()) == pat@),
{
    let n = s.unicode_len();
    let m = pat.unicode_len();
    let mut j: usize = 0;
    while j < m
        invariant
            j <= m,
            n == s@.len(),
            m == pat@.len(),
            at + m <= n,
            forall|k: int| 0 <= k < j ==> s@[at + k] == pat@[k],
        decreases m - j,
    {
        if s.get_char(at + j) != pat.get_char(j) {
            proof {
                assert(s@.subrange(at as int, at + pat@.len())[j as int] != pat@[j as int]);
            }
            return false;
        }
        j += 1;
    }
    proof {
        assert(s@.subrange(at as int, at + pat@.len()) =~= pat@);
    }
    true
}

fn strip_bot_name(s: &str, pat: &str) -> (r: String)
    ensures
        r@ == strip_all(s@, pat@),
{
    let n = s.unicode_len();
    let m = pat.unicode_len();
    if m == 0 {
        return s.to_owned();
    }
    let mut out = String::new();
    let mut i: usize = 0;
    proof {
        assert(s@.subrange(0, n as int) =~= s@);
    }
    while i < n
        invariant
            i <= n,
            n == s@.len(),
            m == pat@.len(),
            m >= 1,
            strip_all(s@, pat@) == out@ + strip_all(s@.subrange(i as int, n as int), pat@),
        decreases n - i,
    {
        let ghost rem = s@.subrange(i as int, n as int);
        if m <= n - i && window_matches(s, i, pat) {
            proof {
                assert(rem.subrange(0, m as int) =~= s@.subrange(i as int, i + m));
                assert(rem.subrange(m as int, rem.len() as int) =~= s@.subrange(i + m, n as int));
                assert(strip_all(rem, pat@) == strip_all(s@.subrange(i + m, n as int), pat@));
            }
            i += m;
        } else {
            let piece = s.substring_char(i, i + 1);
            out.append(piece);
            proof {
                assert(piece@ =~= seq![rem[0]]);
                assert(rem.drop_first() =~= s@.subrange(i + 1, n as int));
                if rem.len() < m {
                    assert(rem.drop_first().len() < m);
                    assert(strip_all(rem, pat@) == rem);
                    assert(strip_all(rem.drop_first(), pat@) == rem.drop_first());
                    assert(rem =~= seq![rem[0]] + rem.drop_first());
                } else {
                    assert(rem.subrange(0, m as int) =~= s@.subrange(i as int, i + m));
                    assert(rem.subrange(0, m as int) != pat@);
                    assert(strip_all(rem, pat@) == seq![rem[0]] + strip_all(
                        rem.drop_first(),
                        pat@,
                    ));
                }
            }
            i += 1;
        }
    }
    proof {
        assert(s@.subrange(n as int, n as int) =~= Seq::<char>::empty());
        assert(strip_all(Seq::<char>::empty(), pat@) == Seq::<char>::empty());
        assert(out@ + Seq::<char>::empty() =~= out@);
    }
    out
}

impl Command {
    /// Parses a command out of a message text already stripped of the
    /// bot's own name; parsing never fails, an unknown text only falls
    /// through to `UnknownCommand`.
    pub fn from_str(s: &str) -> (r: Result<Command, ()>)
        ensures
            r is Ok,
            trim_spec(s@) == "/start"@ ==> r == Ok::<Command, ()>(Command::Start),
            trim_spec(s@) == "/help"@ ==> r == Ok::<Command, ()>(Command::Help),
            trim_spec(s@) == "/cancel"@ ==> r == Ok::<Command, ()>(Command::Cancel),
            trim_spec(s@) == "/start_back"@ ==> r == Ok::<Command, ()>(Command::StartBack),
            trim_spec(s@) == "/add_vehicle"@ ==> r == Ok::<Command, ()>(Command::AddVehicle),
            trim_spec(s@) == "/check_vehicle"@ ==> r == Ok::<Command, ()>(Command::VehicleInfo),
            trim_spec(s@) == "/delete_vehicle"@ ==> r == Ok::<Command, ()>(
                Command::RemoveVehicle,
            ),
            trim_spec(s@) == "/add_vehicle_message"@ ==> r == Ok::<Command, ()>(
                Command::AddVehicleMessage,
            ),
            trim_spec(s@) == "/get_my_vehicles"@ ==> r == Ok::<Command, ()>(
                Command::MyAddedVehicles,
            ),
            trim_spec(s@) == "/start_fetch"@ ==> r == Ok::<Command, ()>(Command::StartFetch),
            trim_spec(s@) == "/stop_fetch"@ ==> r == Ok::<Command, ()>(Command::StopFetch),
            (trim_spec(s@) != "/start"@ && trim_spec(s@) != "/help"@ && trim_spec(s@)
                != "/cancel"@ && trim_spec(s@) != "/start_back"@ && trim_spec(s@)
                != "/add_vehicle"@ && trim_spec(s@) != "/check_vehicle"@ && trim_spec(s@)
                != "/delete_vehicle"@ && trim_spec(s@) != "/add_vehicle_message"@ && trim_spec(
                s@,
            ) != "/get_my_vehicles"@ && trim_spec(s@) != "/start_fetch"@ && trim_spec(s@)
                != "/stop_fetch"@) ==> (r matches Ok(c) && c matches Command::UnknownCommand(u)
                && u@ == s@),
    {
        proof {
            reveal_strlit("/start");
            reveal_strlit("/help");
            reveal_strlit("/cancel");
            reveal_strlit("/start_back");
            reveal_strlit("/add_vehicle");
            reveal_strlit("/check_vehicle");
            reveal_strlit("/delete_vehicle");
            reveal_strlit("/add_vehicle_message");
            reveal_strlit("/get_my_vehicles");
            reveal_strlit("/start_fetch");
            reveal_strlit("/stop_fetch");
        }
        let t = trim_str(s);
        proof {
            assert("/start"@.len() == 6);
            assert("/help"@.len() == 5);
            assert("/cancel"@.len() == 7);
            assert("/start_back"@.len() == 11);
            assert("/add_vehicle"@.len() == 12);
            assert("/check_vehicle"@.len() == 14);
            assert("/delete_vehicle"@.len() == 15);
            assert("/add_vehicle_message"@.len() == 20);
            assert("/get_my_vehicles"@.len() == 16);
            assert("/start_fetch"@.len() == 12);
            assert("/stop_fetch"@.len() == 11);
            assert("/add_vehicle"@[1] == 'a' && "/start_fetch"@[1] == 's');
            assert("/start_back"@[3] == 'a' && "/stop_fetch"@[3] == 'o');
        }
        if t == "/start".to_owned() {
            Ok(Command::Start)
        } else if t == "/help".to_owned() {
            Ok(Command::Help)
        } else if t == "/cancel".to_owned() {
            Ok(Command::Cancel)
        } else if t == "/start_back".to_owned() {
            Ok(Command::StartBack)
        } else if t == "/add_vehicle".to_owned() {
            Ok(Command::AddVehicle)
        } else if t == "/check_vehicle".to_owned() {
            Ok(Command::VehicleInfo)
        } else if t == "/delete_vehicle".to_owned() {
            Ok(Command::RemoveVehicle)
        } else if t == "/add_vehicle_message".to_owned() {
            Ok(Command::AddVehicleMessage)
        } else if t == "/get_my_vehicles".to_owned() {
            Ok(Command::MyAddedVehicles)
        } else if t == "/start_fetch".to_owned() {
            Ok(Command::StartFetch)
        } else if t == "/stop_fetch".to_owned() {
            Ok(Command::StopFetch)
        } else {
            Ok(Command::UnknownCommand(s.to_owned()))
        }
    }

    /// Parses a command out of a raw message text: every occurrence of
    /// the bot's own name is removed first, as command texts may carry
    /// it, then the remainder is matched like `from_str`.
    pub fn from_str_with_bot_name(s: &str, bot_name: &str) -> (r: Result<Command, ()>)
        ensures
            r is Ok,
            trim_spec(strip_all(s@, bot_name@)) == "/start"@ ==> r == Ok::<Command, ()>(
                Command::Start,
            ),
            trim_spec(strip_all(s@, bot_name@)) == "/help"@ ==> r == Ok::<Command, ()>(
                Command::Help,
            ),
            trim_spec(strip_all(s@, bot_name@)) == "/cancel"@ ==> r == Ok::<Command, ()>(
                Command::Cancel,
            ),
            trim_spec(strip_all(s@, bot_name@)) == "/start_back"@ ==> r == Ok::<Command, ()>(
                Command::StartBack,
            ),
            trim_spec(strip_all(s@, bot_name@)) == "/add_vehicle"@ ==> r == Ok::<Command, ()>(
                Command::AddVehicle,
            ),
            trim_spec(strip_all(s@, bot_name@)) == "/check_vehicle"@ ==> r == Ok::<Command, ()>(
                Command::VehicleInfo,
            ),
            trim_spec(strip_all(s@, bot_name@)) == "/delete_vehicle"@ ==> r == Ok::<Command, ()>(
                Command::RemoveVehicle,
            ),
            trim_spec(strip_all(s@, bot_name@)) == "/add_vehicle_message"@ ==> r == Ok::<
                Command,
                (),
            >(Command::AddVehicleMessage),
            trim_spec(strip_all(s@, bot_name@)) == "/get_my_vehicles"@ ==> r == Ok::<Command, ()>(
                Command::MyAddedVehicles,
            ),
            trim_spec(strip_all(s@, bot_name@)) == "/start_fetch"@ ==> r == Ok::<Command, ()>(
                Command::StartFetch,
            ),
            trim_spec(strip_all(s@, bot_name@)) == "/stop_fetch"@ ==> r == Ok::<Command, ()>(
                Command::StopFetch,
            ),
            (trim_spec(strip_all(s@, bot_name@)) != "/start"@ && trim_spec(
                strip_all(s@, bot_name@),
            ) != "/help"@ && trim_spec(strip_all(s@, bot_name@)) != "/cancel"@ && trim_spec(
                strip_all(s@, bot_name@),
            ) != "/start_back"@ && trim_spec(strip_all(s@, bot_name@)) != "/add_vehicle"@
                && trim_spec(strip_all(s@, bot_name@)) != "/check_vehicle"@ && trim_spec(
                strip_all(s@, bot_name@),
            ) != "/delete_vehicle"@ && trim_spec(strip_all(s@, bot_name@))
                != "/add_vehicle_message"@ && trim_spec(strip_all(s@, bot_name@))
                != "/get_my_vehicles"@ && trim_spec(strip_all(s@, bot_name@)) != "/start_fetch"@
                && trim_spec(strip_all(s@, bot_name@)) != "/stop_fetch"@) ==> (r matches Ok(c)
                && c matches Command::UnknownCommand(u) && u@ == strip_all(s@, bot_name@)),
    {
        let stripped = strip_bot_name(s, bot_name);
        Command::from_str(stripped.as_str())
    }
}

} // verus!
