//! Two sample handlers: a greeting task with a required parameter, and a
//! dice-rolling task that chains a turn counter through results.

use vstd::prelude::*;
use vstd::string::StringExecFns;

use rand::Rng;

use crate::codec::{enc_int, int_to_string};
use crate::errors::ErrorInfo;
use crate::messages::{Message, MessageV};
use crate::task::{first_missing, Task};
use crate::value::{seq_as_map, Value, ValueV};

verus! {

/// Relies on hostname::get: the machine's host name; which name comes back
/// depends on the machine, so nothing is promised of it.
#[verifier::external_body]
fn machine_hostname() -> (r: Option<String>) {
    hostname::get().ok().map(|h| h.to_string_lossy().into_owned())
}

/// Relies on rand::thread_rng and Rng::gen_range over `1..6`: a die roll
/// drawn at random; the bounds are all its documentation promises.
#[verifier::external_body]
fn roll_die() -> (r: i64)
    ensures
        1 <= r < 6,
{
    rand::thread_rng().gen_range(1..6)
}

/// The greeting a [`Hello`] execution writes: `Hello <user> from <host>`.
pub open spec fn hello_text(user: Seq<char>, host: Seq<char>) -> Seq<char> {
    "Hello "@ + user + " from "@ + host
}

/// The user a [`Hello`] execution greets: the string parameter `user`, or a
/// placeholder when it is not a string.
pub open spec fn hello_user(params: Map<Seq<char>, ValueV>) -> Seq<char> {
    if params.contains_key("user"@) {
        match params["user"@] {
            ValueV::Str(s) => s,
            _ => "John Smith"@,
        }
    } else {
        "John Smith"@
    }
}

/// Builds the greeting line for the given user and host.
pub fn hello_stdout(user: &str, host: &str) -> (r: String)
    ensures
        r@ == hello_text(user@, host@),
{
    let mut out = "Hello ".to_owned();
    out.append(user);
    out.append(" from ");
    out.append(host);
    out
}

/// Greets the user named by the `user` parameter.
pub struct Hello;

impl Task for Hello {
    open spec fn spec_required() -> Seq<Seq<char>> {
        seq!["user"@]
    }

    fn required_fields() -> (r: Option<Vec<String>>)
        ensures
            (match r {
                Some(v) => v.deep_view() == Self::spec_required(),
                None => Self::spec_required() == Seq::<Seq<char>>::empty(),
            }),
    {
        let mut v: Vec<String> = Vec::new();
        v.push("user".to_owned());
        proof {
            assert(v.deep_view() =~= seq!["user"@]);
        }
        Some(v)
    }

    fn run(msg: &mut Message) -> (r: Result<(), ErrorInfo>)
        ensures
            (r is Ok),
            final(msg)@.result.retval == old(msg)@.result.retval,
            final(msg)@.result.error == old(msg)@.result.error,
            (exists|host: Seq<char>|
                final(msg)@.result.stdout == Some(
                    hello_text(hello_user(seq_as_map(old(msg)@.params)), host),
                )),
    {
        let host = match machine_hostname() {
            Some(h) => h,
            None => "localhost".to_owned(),
        };
        let user: String = match msg.params().get("user") {
            Some(v) => match v {
                Value::Str(s) => s.clone(),
                _ => "John Smith".to_owned(),
            },
            None => "John Smith".to_owned(),
        };
        let text = hello_stdout(user.as_str(), host.as_str());
        let ghost hostv = host@;
        msg.set_stdout(text);
        proof {
            assert(final(msg)@.result.stdout == Some(
                hello_text(hello_user(seq_as_map(old(msg)@.params)), hostv),
            ));
        }
        Ok(())
    }

    fn post_init(msg: &Message) -> (r: Result<(), ErrorInfo>)
        ensures
            (r is Ok),
    {
        Ok(())
    }

    fn pre_run(msg: &Message) -> (r: Result<(), ErrorInfo>)
        ensures
            (r is Ok),
    {
        Ok(())
    }

    fn post_run(msg: &Message) -> (r: Result<(), ErrorInfo>)
        ensures
            (r is Ok),
    {
        Ok(())
    }

    fn on_success(msg: &mut Message) -> (r: Result<(), ErrorInfo>)
        ensures
            (r is Ok),
    {
        Ok(())
    }

    fn on_error(msg: &mut Message) -> (r: Result<(), ErrorInfo>)
        ensures
            (r is Ok),
    {
        Ok(())
    }

    /// Restates the pipeline so this handler's effect stands in the
    /// contract: with `user` present, the greeting is written and nothing
    /// else of the result changes.
    fn unsafe_execute(msg: &mut Message) -> (r: Result<(), ErrorInfo>)
        ensures
            ({
                let k = first_missing(Self::spec_required(), seq_as_map(old(msg)@.params));
                k == -1 ==> (r is Ok) && final(msg)@.result.retval == old(msg)@.result.retval
                    && final(msg)@.result.error == old(msg)@.result.error && (exists|
                    host: Seq<char>,
                |
                    final(msg)@.result.stdout == Some(
                        hello_text(hello_user(seq_as_map(old(msg)@.params)), host),
                    ))
            }),
    {
        match Self::check_required_params(msg) {
            Err(e) => {
                return Err(e);
            },
            Ok(_) => {},
        }
        match Self::post_init(msg) {
            Err(e) => {
                return Err(e);
            },
            Ok(_) => {},
        }
        match Self::pre_run(msg) {
            Err(e) => {
                return Err(e);
            },
            Ok(_) => {},
        }
        match Self::run(msg) {
            Err(e) => {
                return Err(e);
            },
            Ok(_) => {},
        }
        match Self::post_run(msg) {
            Err(e) => {
                return Err(e);
            },
            Ok(_) => {},
        }
        Ok(())
    }

    /// Restates the lifecycle so this handler's effect stands in the
    /// contract of a full execution.
    fn execute(msg: &mut Message) -> (r: Result<(), ErrorInfo>)
        ensures
            ({
                let k = first_missing(Self::spec_required(), seq_as_map(old(msg)@.params));
                k == -1 ==> (r is Ok) && final(msg)@.result.retval == old(msg)@.result.retval
                    && final(msg)@.result.error == old(msg)@.result.error && (exists|
                    host: Seq<char>,
                |
                    final(msg)@.result.stdout == Some(
                        hello_text(hello_user(seq_as_map(old(msg)@.params)), host),
                    ))
            }),
    {
        match Self::unsafe_execute(msg) {
            Ok(_) => Self::on_success(msg),
            Err(e) => {
                msg.record_error(e);
                Self::on_error(msg)
            },
        }
    }
}

/// The integer bound to `turn` in a map, if that binding is an integer.
pub open spec fn spec_turn_of(m: Map<Seq<char>, ValueV>) -> Option<int> {
    if m.contains_key("turn"@) {
        match m["turn"@] {
            ValueV::Int(i) => Some(i),
            _ => None,
        }
    } else {
        None
    }
}

/// The turn a [`DiceRoll`] execution continues from: the integer parameter
/// `turn`, else the integer binding `turn` of the seeded result, else zero.
pub open spec fn dice_prev_turn(m: MessageV) -> int {
    match spec_turn_of(seq_as_map(m.params)) {
        Some(i) => i,
        None => match spec_turn_of(seq_as_map(m.result.retval)) {
            Some(i) => i,
            None => 0,
        },
    }
}

/// The turn after `prev`, saturating at the machine limit.
pub open spec fn next_turn(prev: int) -> int {
    if prev == i64::MAX {
        prev
    } else {
        prev + 1
    }
}

/// Rolls a die, chaining the turn counter through `params` or the seeded
/// result, and binds the roll under `turn-<n>`.
pub struct DiceRoll;

impl Task for DiceRoll {
    open spec fn spec_required() -> Seq<Seq<char>> {
        Seq::empty()
    }

    fn required_fields() -> (r: Option<Vec<String>>)
        ensures
            (match r {
                Some(v) => v.deep_view() == Self::spec_required(),
                None => Self::spec_required() == Seq::<Seq<char>>::empty(),
            }),
    {
        None
    }

    fn run(msg: &mut Message) -> (r: Result<(), ErrorInfo>)
        ensures
            (r is Ok),
            ({
                let t = next_turn(dice_prev_turn(old(msg)@));
                exists|n: int|
                    1 <= n < 6 && final(msg).result.retval.as_map()
                        == old(msg).result.retval.as_map().insert("turn"@, ValueV::Int(t)).insert(
                        "turn-"@ + enc_int(t),
                        ValueV::Int(n),
                    ) && final(msg)@.result.stdout == Some(
                        "Turn "@ + enc_int(t) + ", you made a "@ + enc_int(n),
                    )
            }),
    {
        let prev: i64 = {
            let from_params: Option<i64> = match msg.params().get("turn") {
                Some(v) => match v {
                    Value::Int(i) => Some(*i),
                    _ => None,
                },
                None => None,
            };
            match from_params {
                Some(i) => i,
                None => match msg.result().search_value("turn") {
                    Some(v) => match v {
                        Value::Int(i) => *i,
                        _ => 0,
                    },
                    None => 0,
                },
            }
        };
        let turn: i64 = if prev == i64::MAX {
            prev
        } else {
            prev + 1
        };
        let num = roll_die();
        let turn_text = int_to_string(turn);
        let num_text = int_to_string(num);
        let mut text = "Turn ".to_owned();
        text.append(turn_text.as_str());
        text.append(", you made a ");
        text.append(num_text.as_str());
        msg.set_stdout(text);
        msg.insert_retval("turn".to_owned(), Value::Int(turn));
        let mut key = "turn-".to_owned();
        key.append(turn_text.as_str());
        proof {
            assert(key@ =~= "turn-"@ + enc_int(turn as int));
        }
        msg.insert_retval(key, Value::Int(num));
        proof {
            let t = next_turn(dice_prev_turn(old(msg)@));
            assert(turn as int == t);
            assert(final(msg).result.retval.as_map() =~= old(
                msg,
            ).result.retval.as_map().insert("turn"@, ValueV::Int(t)).insert(
                "turn-"@ + enc_int(t),
                ValueV::Int(num as int),
            ));
        }
        Ok(())
    }

    fn post_init(msg: &Message) -> (r: Result<(), ErrorInfo>)
        ensures
            (r is Ok),
    {
        Ok(())
    }

    fn pre_run(msg: &Message) -> (r: Result<(), ErrorInfo>)
        ensures
            (r is Ok),
    {
        Ok(())
    }

    fn post_run(msg: &Message) -> (r: Result<(), ErrorInfo>)
        ensures
            (r is Ok),
    {
        Ok(())
    }

    fn on_success(msg: &mut Message) -> (r: Result<(), ErrorInfo>)
        ensures
            (r is Ok),
    {
        Ok(())
    }

    fn on_error(msg: &mut Message) -> (r: Result<(), ErrorInfo>)
        ensures
            (r is Ok),
    {
        Ok(())
    }

    /// Restates the pipeline so this handler's effect stands in the
    /// contract: the turn counter advances and the roll is bound.
    fn unsafe_execute(msg: &mut Message) -> (r: Result<(), ErrorInfo>)
        ensures
            (r is Ok),
            ({
                let t = next_turn(dice_prev_turn(old(msg)@));
                exists|n: int|
                    1 <= n < 6 && final(msg).result.retval.as_map() == old(
                        msg,
                    ).result.retval.as_map().insert("turn"@, ValueV::Int(t)).insert(
                        "turn-"@ + enc_int(t),
                        ValueV::Int(n),
                    ) && final(msg)@.result.stdout == Some(
                        "Turn "@ + enc_int(t) + ", you made a "@ + enc_int(n),
                    )
            }),
    {
        match Self::check_required_params(msg) {
            Err(e) => {
                return Err(e);
            },
            Ok(_) => {},
        }
        match Self::post_init(msg) {
            Err(e) => {
                return Err(e);
            },
            Ok(_) => {},
        }
        match Self::pre_run(msg) {
            Err(e) => {
                return Err(e);
            },
            Ok(_) => {},
        }
        match Self::run(msg) {
            Err(e) => {
                return Err(e);
            },
            Ok(_) => {},
        }
        match Self::post_run(msg) {
            Err(e) => {
                return Err(e);
            },
            Ok(_) => {},
        }
        Ok(())
    }

    /// Restates the lifecycle so this handler's effect stands in the
    /// contract of a full execution.
    fn execute(msg: &mut Message) -> (r: Result<(), ErrorInfo>)
        ensures
            (r is Ok),
            ({
                let t = next_turn(dice_prev_turn(old(msg)@));
                exists|n: int|
                    1 <= n < 6 && final(msg).result.retval.as_map() == old(
                        msg,
                    ).result.retval.as_map().insert("turn"@, ValueV::Int(t)).insert(
                        "turn-"@ + enc_int(t),
                        ValueV::Int(n),
                    ) && final(msg)@.result.stdout == Some(
                        "Turn "@ + enc_int(t) + ", you made a "@ + enc_int(n),
                    )
            }),
    {
        match Self::unsafe_execute(msg) {
            Ok(_) => Self::on_success(msg),
            Err(e) => {
                msg.record_error(e);
                Self::on_error(msg)
            },
        }
    }
}

} // verus!
