//! The task lifecycle engine: a fixed hook pipeline executed against a
//! message, with failures captured as data in the message's result.

use vstd::prelude::*;
use vstd::string::StringExecFns;

use crate::errors::{ErrorInfo, ErrorKind};
use crate::messages::Message;
use crate::value::{seq_as_map, ValueV};

verus! {

/// Index of the first required field absent from `params`, starting the
/// search at `i`; `-1` when every field from `i` on is present.
pub open spec fn first_missing_from(
    req: Seq<Seq<char>>,
    params: Map<Seq<char>, ValueV>,
    i: int,
) -> int
    decreases req.len() - i,
{
    if i < 0 || i >= req.len() {
        -1
    } else if !params.contains_key(req[i]) {
        i
    } else {
        first_missing_from(req, params, i + 1)
    }
}

/// Index of the first required field absent from `params`, or `-1`.
pub open spec fn first_missing(req: Seq<Seq<char>>, params: Map<Seq<char>, ValueV>) -> int {
    first_missing_from(req, params, 0)
}

/// The human message of a validation failure naming the missing field.
pub open spec fn missing_field_message(field: Seq<char>) -> Seq<char> {
    "required field '"@ + field + "' not set!"@
}

/// The label under which a message's progress is reported:
/// `entrypoint[uuid]`, optionally followed by ` - action`.
pub fn label(msg: &Message, action: Option<&str>) -> (r: String)
    ensures
        r@ == msg@.entrypoint + "["@ + msg@.uuid + "]"@ + (match action {
            Some(a) => " - "@ + a@,
            None => Seq::<char>::empty(),
        }),
{
    let mut out = msg.entrypoint().clone();
    out.append("[");
    out.append(msg.uuid().as_str());
    out.append("]");
    match action {
        Some(a) => {
            out.append(" - ");
            out.append(a);
        },
        None => {
            proof {
                assert(out@ =~= msg@.entrypoint + "["@ + msg@.uuid + "]"@ + Seq::<char>::empty());
            }
        },
    }
    out
}

/// A handler: the business logic run against a message, with optional
/// declared required fields and overridable extension hooks.
///
/// Hooks other than `run` must leave the envelope unchanged: they exist for
/// outside effects such as metrics or notification.
pub trait Task {
    /// The required parameter keys this handler declares.
    spec fn spec_required() -> Seq<Seq<char>>;

    /// The required parameter keys, as a list; `None` declares none.
    fn required_fields() -> (r: Option<Vec<String>>)
        ensures
            (match r {
                Some(v) => v.deep_view() == Self::spec_required(),
                None => Self::spec_required() == Seq::<Seq<char>>::empty(),
            }),
    ;

    /// The handler's business logic. It may only change the embedded
    /// result; unoverridden, it fails with a not-implemented error.
    fn run(msg: &mut Message) -> (r: Result<(), ErrorInfo>)
        requires
            old(msg).wf(),
        ensures
            final(msg).wf(),
            final(msg)@.uuid == old(msg)@.uuid,
            final(msg)@.entrypoint == old(msg)@.entrypoint,
            final(msg)@.metadata == old(msg)@.metadata,
            final(msg)@.params == old(msg)@.params,
            (match r {
                Err(e) => e.wf(),
                Ok(_) => true,
            }),
    {
        Err(ErrorInfo::new(ErrorKind::NotImplemented, "Task not implemented".to_owned()))
    }

    /// Extension point after construction checks; default does nothing.
    fn post_init(msg: &Message) -> (r: Result<(), ErrorInfo>)
        ensures
            (match r {
                Err(e) => e.wf(),
                Ok(_) => true,
            }),
    {
        Ok(())
    }

    /// Extension point before `run`; default does nothing.
    fn pre_run(msg: &Message) -> (r: Result<(), ErrorInfo>)
        ensures
            (match r {
                Err(e) => e.wf(),
                Ok(_) => true,
            }),
    {
        Ok(())
    }

    /// Extension point after `run`; default does nothing.
    fn post_run(msg: &Message) -> (r: Result<(), ErrorInfo>)
        ensures
            (match r {
                Err(e) => e.wf(),
                Ok(_) => true,
            }),
    {
        Ok(())
    }

    /// Terminal hook after a successful pipeline; default does nothing.
    fn on_success(msg: &mut Message) -> (r: Result<(), ErrorInfo>)
        requires
            old(msg).wf(),
        ensures
            final(msg)@ == old(msg)@,
            final(msg).wf(),
            (match r {
                Err(e) => e.wf(),
                Ok(_) => true,
            }),
    {
        Ok(())
    }

    /// Terminal hook after a captured failure; default does nothing.
    fn on_error(msg: &mut Message) -> (r: Result<(), ErrorInfo>)
        requires
            old(msg).wf(),
        ensures
            final(msg)@ == old(msg)@,
            final(msg).wf(),
            (match r {
                Err(e) => e.wf(),
                Ok(_) => true,
            }),
    {
        Ok(())
    }

    /// Validates the declared required fields against the message's
    /// parameters. Fails with a validation error naming the first missing
    /// field; runs no further phase.
    fn check_required_params(msg: &Message) -> (r: Result<(), ErrorInfo>)
        ensures
            ({
                let k = first_missing(Self::spec_required(), seq_as_map(msg@.params));
                match r {
                    Ok(_) => k == -1,
                    Err(e) => k >= 0 && e.wf() && e.code == ErrorKind::Validation.spec_code()
                        && e.msgid@ == ErrorKind::Validation.spec_msgid() && e.message@
                        == missing_field_message(Self::spec_required()[k]),
                }
            }),
    {
        let req = match Self::required_fields() {
            None => {
                return Ok(());
            },
            Some(req) => req,
        };
        let ghost reqv = Self::spec_required();
        let ghost pm = seq_as_map(msg@.params);
        let n = req.len();
        let mut i: usize = 0;
        while i < n
            invariant
                i <= n,
                n == reqv.len(),
                req.deep_view() == reqv,
                reqv == Self::spec_required(),
                pm == seq_as_map(msg@.params),
                first_missing(reqv, pm) == first_missing_from(reqv, pm, i as int),
            decreases n - i,
        {
            proof {
                assert(req.deep_view()[i as int] == req@[i as int]@);
            }
            if !msg.params().contains_key(req[i].as_str()) {
                let mut text = "required field '".to_owned();
                text.append(req[i].as_str());
                text.append("' not set!");
                proof {
                    assert(first_missing(reqv, pm) == i as int);
                    assert(text@ =~= missing_field_message(reqv[i as int]));
                }
                return Err(ErrorInfo::new(ErrorKind::Validation, text));
            }
            i += 1;
        }
        Ok(())
    }

    /// The pipeline without its terminal hooks: validate, then the
    /// `post_init`, `pre_run`, `run` and `post_run` phases in order. The
    /// first failing phase short-circuits the rest and its error is
    /// returned; nothing is captured into the message here.
    fn unsafe_execute(msg: &mut Message) -> (r: Result<(), ErrorInfo>)
        requires
            old(msg).wf(),
        ensures
            final(msg).wf(),
            final(msg)@.uuid == old(msg)@.uuid,
            final(msg)@.entrypoint == old(msg)@.entrypoint,
            final(msg)@.metadata == old(msg)@.metadata,
            final(msg)@.params == old(msg)@.params,
            (match r {
                Err(e) => e.wf(),
                Ok(_) => true,
            }),
            ({
                let k = first_missing(Self::spec_required(), seq_as_map(old(msg)@.params));
                k >= 0 ==> final(msg)@ == old(msg)@ && (match r {
                    Err(e) => e.code == ErrorKind::Validation.spec_code() && e.msgid@
                        == ErrorKind::Validation.spec_msgid() && e.message@
                        == missing_field_message(Self::spec_required()[k]),
                    Ok(_) => false,
                })
            }),
    {
        match Self::check_required_params(msg) {
            Err(e) => {
                return Err(e);
            },
            Ok(_) => {},
        }
        match Self::post_init(msg) {
            Err(e) => {
                return Err(e);
            },
            Ok(_) => {},
        }
        match Self::pre_run(msg) {
            Err(e) => {
                return Err(e);
            },
            Ok(_) => {},
        }
        match Self::run(msg) {
            Err(e) => {
                return Err(e);
            },
            Ok(_) => {},
        }
        match Self::post_run(msg) {
            Err(e) => {
                return Err(e);
            },
            Ok(_) => {},
        }
        Ok(())
    }

    /// Executes the full lifecycle. A failure of any phase up to `post_run`
    /// is captured into the message's result — keeping the bindings and text
    /// already accumulated — and the error hook runs; the call itself then
    /// still succeeds. Only a failure of the terminal `on_success` /
    /// `on_error` hook is returned to the caller.
    fn execute(msg: &mut Message) -> (r: Result<(), ErrorInfo>)
        requires
            old(msg).wf(),
        ensures
            final(msg).wf(),
            final(msg)@.uuid == old(msg)@.uuid,
            final(msg)@.entrypoint == old(msg)@.entrypoint,
            final(msg)@.metadata == old(msg)@.metadata,
            final(msg)@.params == old(msg)@.params,
            final(msg)@.result.uuid == final(msg)@.uuid,
            (match r {
                Err(e) => e.wf(),
                Ok(_) => true,
            }),
            ({
                let k = first_missing(Self::spec_required(), seq_as_map(old(msg)@.params));
                k >= 0 ==> final(msg)@.result.stdout == old(msg)@.result.stdout
                    && final(msg).result.retval.as_map() == old(msg).result.retval.as_map()
                    && (match final(msg)@.result.error {
                    Some(e) => e.code == ErrorKind::Validation.spec_code() && e.msgid
                        == ErrorKind::Validation.spec_msgid() && e.message
                        == missing_field_message(Self::spec_required()[k]),
                    None => false,
                })
            }),
    {
        match Self::unsafe_execute(msg) {
            Ok(_) => Self::on_success(msg),
            Err(e) => {
                msg.record_error(e);
                Self::on_error(msg)
            },
        }
    }
}

} // verus!
