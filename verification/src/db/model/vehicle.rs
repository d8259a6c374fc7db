use vstd::prelude::*;
use crate::codec::ids_of_opt;
use crate::digits::{dec_digits, dec_int};
use crate::time::{civil_parts, spec_civil_parts, ts_in_civil_range};

verus! {

/// A tracked plate. `subscribers_ids` is the delimiter-joined list of
/// chat identifiers interested in it; `found_at`, a UNIX timestamp, is
/// set once the external registry reports the vehicle, and that is the
/// terminal state for polling.
#[derive(Debug)]
pub struct Vehicle {
    pub plate: String,
    pub subscribers_ids: Option<String>,
    pub found_at: Option<i64>,
}

impl Vehicle {
    /// A plate is polled while somebody subscribes to it and it has not
    /// been found yet.
    pub open spec fn polling_active(self) -> bool {
        ids_of_opt(self.subscribers_ids).len() > 0 && self.found_at is None
    }
}

impl Clone for Vehicle {
    fn clone(&self) -> (r: Self)
        ensures
            r == *self,
    {
        Vehicle {
            plate: self.plate.clone(),
            subscribers_ids: match &self.subscribers_ids {
                None => None,
                Some(s) => Some(s.clone()),
            },
            found_at: self.found_at,
        }
    }
}

impl PartialEq for Vehicle {
    fn eq(&self, other: &Self) -> (r: bool) {
        let plates_eq = self.plate == other.plate;
        let subs_eq = match (&self.subscribers_ids, &other.subscribers_ids) {
            (None, None) => true,
            (Some(a), Some(b)) => *a == *b,
            _ => false,
        };
        let found_eq = match (&self.found_at, &other.found_at) {
            (None, None) => true,
            (Some(a), Some(b)) => *a == *b,
            _ => false,
        };
        plates_eq && subs_eq && found_eq
    }
}

impl vstd::std_specs::cmp::PartialEqSpecImpl for Vehicle {
    open spec fn obeys_eq_spec() -> bool {
        true
    }

    open spec fn eq_spec(&self, other: &Self) -> bool {
        &&& self.plate@ == other.plate@
        &&& match (self.subscribers_ids, other.subscribers_ids) {
            (Option::None, Option::None) => true,
            (Option::Some(a), Option::Some(b)) => a@ == b@,
            _ => false,
        }
        &&& self.found_at == other.found_at
    }
}

/// Spanish name of a weekday, counted from Sunday.
pub open spec fn day_name_spec(w: int) -> Seq<char> {
    if w == 0 {
        "domingo"@
    } else if w == 1 {
        "lunes"@
    } else if w == 2 {
        "martes"@
    } else if w == 3 {
        "miércoles"@
    } else if w == 4 {
        "jueves"@
    } else if w == 5 {
        "viernes"@
    } else {
        "sábado"@
    }
}

/// Spanish name of a month, counted from 1.
pub open spec fn month_name_spec(m: int) -> Seq<char> {
    if m == 1 {
        "enero"@
    } else if m == 2 {
        "febrero"@
    } else if m == 3 {
        "marzo"@
    } else if m == 4 {
        "abril"@
    } else if m == 5 {
        "mayo"@
    } else if m == 6 {
        "junio"@
    } else if m == 7 {
        "julio"@
    } else if m == 8 {
        "agosto"@
    } else if m == 9 {
        "septiembre"@
    } else if m == 10 {
        "octubre"@
    } else if m == 11 {
        "noviembre"@
    } else {
        "diciembre"@
    }
}

/// A number padded to two digits with a leading zero.
pub open spec fn two_digit_spec(n: nat) -> Seq<char> {
    if n < 10 {
        seq!['0'] + dec_digits(n)
    } else {
        dec_digits(n)
    }
}

/// The message sent while a plate has not been found.
pub open spec fn not_found_message(plate: Seq<char>) -> Seq<char> {
    "El vehículo "@ + plate + " no ha sido encontrado todavía"@
}

/// The message sent once a plate was found at an in-range timestamp.
pub open spec fn found_message_at(plate: Seq<char>, ts: int) -> Seq<char> {
    let p = spec_civil_parts(ts);
    "El vehículo "@ + plate + " fue encontrado el "@ + day_name_spec(p.weekday as int) + ", "@
        + dec_digits(p.day as nat) + " de "@ + month_name_spec(p.month as int) + " de "@
        + dec_int(p.year as int) + ", "@ + two_digit_spec(p.hour as nat) + ":"@
        + two_digit_spec(p.minute as nat) + " 🙌🏼"@
}

/// The message sent for a found timestamp that the calendar conversion
/// does not accept.
pub open spec fn found_raw_message(plate: Seq<char>) -> Seq<char> {
    "El vehículo "@ + plate + " fue encontrado 🙌🏼"@
}

/// The report a vehicle's subscribers receive, by the vehicle's state.
pub open spec fn vehicle_report(v: Vehicle) -> Seq<char> {
    match v.found_at {
        Option::None => not_found_message(v.plate@),
        Option::Some(ts) => if ts_in_civil_range(ts as int) {
            found_message_at(v.plate@, ts as int)
        } else {
            found_raw_message(v.plate@)
        },
    }
}

fn day_name(w: u8) -> (r: &'static str)
    requires
        w < 7,
    ensures
        r@ == day_name_spec(w as int),
{
    if w == 0 {
        "domingo"
    } else if w == 1 {
        "lunes"
    } else if w == 2 {
        "martes"
    } else if w == 3 {
        "miércoles"
    } else if w == 4 {
        "jueves"
    } else if w == 5 {
        "viernes"
    } else {
        "sábado"
    }
}

fn month_name(m: u8) -> (r: &'static str)
    requires
        1 <= m <= 12,
    ensures
        r@ == month_name_spec(m as int),
{
    if m == 1 {
        "enero"
    } else if m == 2 {
        "febrero"
    } else if m == 3 {
        "marzo"
    } else if m == 4 {
        "abril"
    } else if m == 5 {
        "mayo"
    } else if m == 6 {
        "junio"
    } else if m == 7 {
        "julio"
    } else if m == 8 {
        "agosto"
    } else if m == 9 {
        "septiembre"
    } else if m == 10 {
        "octubre"
    } else if m == 11 {
        "noviembre"
    } else {
        "diciembre"
    }
}

fn two_digits(n: u8) -> (r: String)
    ensures
        r@ == two_digit_spec(n as nat),
{
    let mut r = String::new();
    if n < 10 {
        proof {
            reveal_strlit("0");
        }
        r.append("0");
    }
    let digits = crate::digits::u64_to_string(n as u64);
    r.append(digits.as_str());
    proof {
        assert(r@ =~= two_digit_spec(n as nat));
    }
    r
}

impl Vehicle {
    /// The human-readable report on this vehicle, in Spanish: either that
    /// it has not been found yet, or when it was found.
    pub fn found_at_to_text(&self) -> (r: String)
        ensures
            r@ == vehicle_report(*self),
    {
        match &self.found_at {
            None => {
                let mut r = String::new();
                r.append("El vehículo ");
                r.append(self.plate.as_str());
                r.append(" no ha sido encontrado todavía");
                proof {
                    assert(r@ =~= not_found_message(self.plate@));
                }
                r
            },
            Some(ts) => {
                match civil_parts(*ts) {
                    None => {
                        let mut r = String::new();
                        r.append("El vehículo ");
                        r.append(self.plate.as_str());
                        r.append(" fue encontrado 🙌🏼");
                        proof {
                            assert(r@ =~= found_raw_message(self.plate@));
                        }
                        r
                    },
                    Some(p) => {
                        let mut r = String::new();
                        r.append("El vehículo ");
                        r.append(self.plate.as_str());
                        r.append(" fue encontrado el ");
                        r.append(day_name(p.weekday));
                        r.append(", ");
                        let day = crate::digits::u64_to_string(p.day as u64);
                        r.append(day.as_str());
                        r.append(" de ");
                        r.append(month_name(p.month));
                        r.append(" de ");
                        let year = crate::digits::i64_to_string(p.year as i64);
                        r.append(year.as_str());
                        r.append(", ");
                        let hour = two_digits(p.hour);
                        r.append(hour.as_str());
                        r.append(":");
                        let minute = two_digits(p.minute);
                        r.append(minute.as_str());
                        r.append(" 🙌🏼");
                        proof {
                            assert(p == spec_civil_parts(*ts as int));
                            assert(r@ =~= found_message_at(self.plate@, *ts as int));
                        }
                        r
                    },
                }
            },
        }
    }
}

} // verus!
