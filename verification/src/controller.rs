//! The registry: entrypoint-name dispatch to a handler, populated explicitly
//! at startup. A miss is an error recorded in the message, never a panic.

use vstd::prelude::*;
use vstd::string::StringExecFns;

use crate::codec::enc_int;
use crate::errors::{ErrorInfo, ErrorKind};
use crate::messages::{Message, MessageV};
use crate::results::ExecResult;
use crate::samples::{dice_prev_turn, hello_text, hello_user, next_turn, DiceRoll, Hello};
use crate::task::{first_missing, missing_field_message, Task};
use crate::value::{seq_as_map, ValueV};

verus! {

/// The handlers a registry can dispatch to.
#[derive(Clone, Copy, Debug, PartialEq, Eq, Structural)]
pub enum Handler {
    Hello,
    DiceRoll,
}

/// The required parameter keys a handler declares.
pub open spec fn required_of(h: Handler) -> Seq<Seq<char>> {
    match h {
        Handler::Hello => Hello::spec_required(),
        Handler::DiceRoll => DiceRoll::spec_required(),
    }
}

/// One registration: an entrypoint name bound to a handler.
#[derive(Debug)]
pub struct Registration {
    pub name: String,
    pub handler: Handler,
}

/// The handler the first registration of `name` binds, if any.
pub open spec fn handler_for(s: Seq<(Seq<char>, Handler)>, name: Seq<char>) -> Option<Handler>
    decreases s.len(),
{
    if s.len() == 0 {
        None
    } else if s[0].0 == name {
        Some(s[0].1)
    } else {
        handler_for(s.drop_first(), name)
    }
}

/// The human message of a dispatch miss naming the entrypoint.
pub open spec fn not_found_message(entrypoint: Seq<char>) -> Seq<char> {
    "Entrypoint '"@ + entrypoint + "' is not registered"@
}

/// The observable effect of running a handler's lifecycle on a message
/// whose required parameters are present.
pub open spec fn handler_effect(h: Handler, pre: MessageV, post: MessageV) -> bool {
    match h {
        Handler::Hello => {
            &&& post.result.retval == pre.result.retval
            &&& post.result.error == pre.result.error
            &&& (exists|host: Seq<char>|
                post.result.stdout == Some(hello_text(hello_user(seq_as_map(pre.params)), host)))
        },
        Handler::DiceRoll => {
            let t = next_turn(dice_prev_turn(pre));
            exists|n: int|
                1 <= n < 6 && seq_as_map(post.result.retval) == seq_as_map(
                    pre.result.retval,
                ).insert("turn"@, ValueV::Int(t)).insert("turn-"@ + enc_int(t), ValueV::Int(n))
                    && post.result.stdout == Some(
                    "Turn "@ + enc_int(t) + ", you made a "@ + enc_int(n),
                )
        },
    }
}

/// What a dispatch guarantees, over the registrations it was given: a miss
/// is recorded as a not-found error; a hit with a missing required field is
/// recorded as a validation error; a hit with every required field present
/// delegates to the handler's lifecycle, whose effect shows in the result.
pub open spec fn dispatch_post(
    reg: Seq<(Seq<char>, Handler)>,
    pre: MessageV,
    post: MessageV,
    ok: bool,
) -> bool {
    match handler_for(reg, pre.entrypoint) {
        None => {
            &&& ok
            &&& post.result.stdout == pre.result.stdout
            &&& seq_as_map(post.result.retval) == seq_as_map(pre.result.retval)
            &&& match post.result.error {
                Some(e) => {
                    &&& e.code == ErrorKind::NotFound.spec_code()
                    &&& e.msgid == ErrorKind::NotFound.spec_msgid()
                    &&& e.message == not_found_message(pre.entrypoint)
                },
                None => false,
            }
        },
        Some(h) => {
            let k = first_missing(required_of(h), seq_as_map(pre.params));
            &&& (k >= 0 ==> {
                &&& post.result.stdout == pre.result.stdout
                &&& seq_as_map(post.result.retval) == seq_as_map(pre.result.retval)
                &&& match post.result.error {
                    Some(e) => {
                        &&& e.code == ErrorKind::Validation.spec_code()
                        &&& e.msgid == ErrorKind::Validation.spec_msgid()
                        &&& e.message == missing_field_message(required_of(h)[k])
                    },
                    None => false,
                }
            })
            &&& (k == -1 ==> ok && handler_effect(h, pre, post))
        },
    }
}

/// The registrations the samples of this crate populate at startup.
pub open spec fn default_registrations() -> Seq<(Seq<char>, Handler)> {
    seq![("hello"@, Handler::Hello), ("roll"@, Handler::DiceRoll)]
}

/// An object dispatching messages to registered handlers.
pub trait Registry {
    /// Executes the message's lifecycle under the handler its entrypoint
    /// names; a miss is recorded in the message's result as data.
    fn execute(&self, msg: &mut Message) -> (r: Result<ExecResult, ErrorInfo>)
        requires
            old(msg).wf(),
        ensures
            final(msg).wf(),
            final(msg)@.uuid == old(msg)@.uuid,
            final(msg)@.entrypoint == old(msg)@.entrypoint,
            final(msg)@.metadata == old(msg)@.metadata,
            final(msg)@.params == old(msg)@.params,
            (match r {
                Ok(res) => res@ == final(msg)@.result,
                Err(e) => e.wf(),
            }),
    ;
}

/// The registry populated at startup, holding entrypoint registrations in
/// order; the first registration of a name wins.
#[derive(Debug)]
pub struct BaseRegistry {
    pub entries: Vec<Registration>,
}

impl View for BaseRegistry {
    type V = Seq<(Seq<char>, Handler)>;

    open spec fn view(&self) -> Seq<(Seq<char>, Handler)> {
        Seq::new(self.entries@.len(), |i: int| (self.entries@[i].name@, self.entries@[i].handler))
    }
}

impl BaseRegistry {
    /// An empty registry.
    pub fn new() -> (r: BaseRegistry)
        ensures
            r@ =~= Seq::<(Seq<char>, Handler)>::empty(),
    {
        BaseRegistry { entries: Vec::new() }
    }

    /// Binds `name` to `handler`; earlier registrations of the same name
    /// keep precedence.
    pub fn register(&mut self, name: String, handler: Handler)
        ensures
            final(self)@ =~= old(self)@.push((name@, handler)),
    {
        self.entries.push(Registration { name, handler });
    }

    /// The registry the samples of this crate populate at startup: `hello`
    /// and `roll`.
    pub fn with_defaults() -> (r: BaseRegistry)
        ensures
            r@ =~= default_registrations(),
    {
        let mut r = BaseRegistry::new();
        r.register("hello".to_owned(), Handler::Hello);
        r.register("roll".to_owned(), Handler::DiceRoll);
        r
    }

    /// The handler registered under `name`, if any. The lookup never
    /// panics: a miss is an ordinary `None`.
    pub fn lookup(&self, name: &str) -> (r: Option<Handler>)
        ensures
            r == handler_for(self@, name@),
    {
        let n = self.entries.len();
        let mut i: usize = 0;
        proof {
            assert(self@.skip(0) =~= self@);
        }
        while i < n
            invariant
                i <= n,
                n == self@.len(),
                self@.len() == self.entries@.len(),
                forall|j: int| 0 <= j < n ==> self@[j] == (
                    self.entries@[j].name@,
                    self.entries@[j].handler,
                ),
                handler_for(self@, name@) == handler_for(self@.skip(i as int), name@),
            decreases n - i,
        {
            if crate::value::str_eq(self.entries[i].name.as_str(), name) {
                proof {
                    assert(self@.skip(i as int)[0] == self@[i as int]);
                }
                return Some(self.entries[i].handler);
            }
            proof {
                assert(self@.skip(i as int)[0] == self@[i as int]);
                assert(self@.skip(i as int).drop_first() =~= self@.skip(i + 1));
            }
            i += 1;
        }
        proof {
            assert(self@.skip(n as int) =~= Seq::<(Seq<char>, Handler)>::empty());
        }
        None
    }
}

impl Registry for BaseRegistry {
    fn execute(&self, msg: &mut Message) -> (r: Result<ExecResult, ErrorInfo>)
        ensures
            dispatch_post(self@, old(msg)@, final(msg)@, (r is Ok)),
    {
        let name = msg.entrypoint().clone();
        match self.lookup(name.as_str()) {
            Some(Handler::Hello) => {
                match Hello::execute(msg) {
                    Ok(_) => Ok(msg.result().duplicate()),
                    Err(e) => Err(e),
                }
            },
            Some(Handler::DiceRoll) => {
                match DiceRoll::execute(msg) {
                    Ok(_) => Ok(msg.result().duplicate()),
                    Err(e) => Err(e),
                }
            },
            None => {
                let mut text = "Entrypoint '".to_owned();
                text.append(name.as_str());
                text.append("' is not registered");
                proof {
                    assert(text@ =~= not_found_message(old(msg)@.entrypoint));
                }
                let e = ErrorInfo::new(ErrorKind::NotFound, text);
                msg.record_error(e);
                Ok(msg.result().duplicate())
            },
        }
    }
}

/// Startup-time dispatch through the default registrations.
pub trait Register {
    /// Executes `msg` against the default registry.
    fn execute(msg: &mut Message) -> (r: Result<(), ErrorInfo>)
        requires
            old(msg).wf(),
        ensures
            final(msg).wf(),
            final(msg)@.uuid == old(msg)@.uuid,
            (match r {
                Err(e) => e.wf(),
                Ok(_) => true,
            }),
            dispatch_post(default_registrations(), old(msg)@, final(msg)@, (r is Ok)),
    ;
}

impl Register for BaseRegistry {
    fn execute(msg: &mut Message) -> (r: Result<(), ErrorInfo>) {
        let registry = BaseRegistry::with_defaults();
        match Registry::execute(&registry, msg) {
            Ok(_) => Ok(()),
            Err(e) => Err(e),
        }
    }
}

} // verus!
