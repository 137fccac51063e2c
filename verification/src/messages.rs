//! The request envelope: a message selects a handler by entrypoint, carries
//! parameters and passthrough metadata, and embeds the result of its own
//! execution.

use vstd::prelude::*;

use crate::errors::ErrorInfo;
use crate::results::{ExecResult, ExecResultV};
use crate::value::{KvMap, Value, ValueV};

verus! {

/// Relies on uuid::Uuid::new_v4 and its hyphenated text form: a fresh random
/// identifier rendered as 36 characters.
#[verifier::external_body]
fn fresh_uuid() -> (r: String)
    ensures
        r@.len() == 36,
{
    uuid::Uuid::new_v4().to_string()
}

/// A task-request envelope.
#[derive(Debug, PartialEq)]
pub struct Message {
    pub uuid: String,
    pub entrypoint: String,
    pub metadata: KvMap,
    pub params: KvMap,
    pub result: ExecResult,
}

/// The mathematical model of a [`Message`].
pub struct MessageV {
    pub uuid: Seq<char>,
    pub entrypoint: Seq<char>,
    pub metadata: Seq<(Seq<char>, ValueV)>,
    pub params: Seq<(Seq<char>, ValueV)>,
    pub result: ExecResultV,
}

impl View for Message {
    type V = MessageV;

    open spec fn view(&self) -> MessageV {
        MessageV {
            uuid: self.uuid@,
            entrypoint: self.entrypoint@,
            metadata: self.metadata@,
            params: self.params@,
            result: self.result@,
        }
    }
}

impl MessageV {
    /// The envelope invariant at the level of the model: the embedded
    /// result belongs to this message, and every map has distinct keys.
    pub open spec fn wf(&self) -> bool {
        &&& self.result.uuid == self.uuid
        &&& crate::value::keys_distinct(self.metadata)
        &&& crate::value::keys_distinct(self.params)
        &&& self.result.wf()
    }
}

impl Message {
    /// The envelope invariant: the embedded result belongs to this message,
    /// and every map is well formed.
    pub open spec fn wf(&self) -> bool {
        self@.wf()
    }

    /// Builds a message. A missing identifier is generated fresh; missing
    /// maps are empty; a supplied result is adopted with its identifier
    /// overridden by the message's, so the invariant holds from the start.
    pub fn new(
        uuid: Option<String>,
        entrypoint: &str,
        params: Option<KvMap>,
        result: Option<ExecResult>,
        metadata: Option<KvMap>,
    ) -> (r: Message)
        requires
            match params {
                Some(ref p) => p.wf(),
                None => true,
            },
            match result {
                Some(ref res) => res.wf(),
                None => true,
            },
            match metadata {
                Some(ref m) => m.wf(),
                None => true,
            },
        ensures
            r.wf(),
            r@.entrypoint == entrypoint@,
            match uuid {
                Some(u) => r@.uuid == u@,
                None => r@.uuid.len() == 36,
            },
            r@.params == match params {
                Some(p) => p@,
                None => Seq::<(Seq<char>, ValueV)>::empty(),
            },
            r@.metadata == match metadata {
                Some(m) => m@,
                None => Seq::<(Seq<char>, ValueV)>::empty(),
            },
            r@.result.uuid == r@.uuid,
            match result {
                Some(res) => r@.result.stdout == res@.stdout && r@.result.retval == res@.retval
                    && r@.result.error == res@.error,
                None => r@.result.stdout.is_none() && r@.result.retval == Seq::<
                    (Seq<char>, ValueV),
                >::empty() && r@.result.error.is_none(),
            },
    {
        let muuid = match uuid {
            Some(u) => u,
            None => fresh_uuid(),
        };
        let mut res = match result {
            Some(res) => res,
            None => ExecResult::new(muuid.clone()),
        };
        res.uuid = muuid.clone();
        let r = Message {
            uuid: muuid,
            entrypoint: entrypoint.to_owned(),
            metadata: match metadata {
                Some(m) => m,
                None => KvMap::new(),
            },
            params: match params {
                Some(p) => p,
                None => KvMap::new(),
            },
            result: res,
        };
        proof {
            assert(r@.params =~= r@.params);
        }
        r
    }

    /// The identifier of this message.
    pub fn uuid(&self) -> (r: &String)
        ensures
            r@ == self@.uuid,
    {
        &self.uuid
    }

    /// The entrypoint selecting this message's handler.
    pub fn entrypoint(&self) -> (r: &String)
        ensures
            r@ == self@.entrypoint,
    {
        &self.entrypoint
    }

    /// The passthrough context of this message.
    pub fn metadata(&self) -> (r: &KvMap)
        ensures
            r@ == self@.metadata,
    {
        &self.metadata
    }

    /// The handler input of this message.
    pub fn params(&self) -> (r: &KvMap)
        ensures
            r@ == self@.params,
    {
        &self.params
    }

    /// The embedded result of this message.
    pub fn result(&self) -> (r: &ExecResult)
        ensures
            r@ == self@.result,
    {
        &self.result
    }

    /// A minimal result carrying only this message's identifier and output
    /// bindings, suitable for seeding a follow-up message.
    pub fn as_result(&self) -> (r: ExecResult)
        ensures
            r.uuid@ == self@.uuid,
            r@.retval == self@.result.retval,
            r@.stdout.is_none(),
            r@.error.is_none(),
            self.wf() ==> r.wf(),
    {
        ExecResult {
            uuid: self.uuid.clone(),
            stdout: None,
            retval: self.result.retval.duplicate(),
            error: None,
        }
    }

    /// Sets the human-readable text of the embedded result.
    pub fn set_stdout(&mut self, text: String)
        ensures
            final(self)@ == (MessageV {
                result: ExecResultV { stdout: Some(text@), ..old(self)@.result },
                ..old(self)@
            }),
            old(self).wf() ==> final(self).wf(),
    {
        self.result.stdout = Some(text);
    }

    /// Binds `k` to `v` among the embedded result's output bindings.
    pub fn insert_retval(&mut self, k: String, v: Value)
        requires
            old(self).wf(),
        ensures
            final(self).wf(),
            final(self)@.uuid == old(self)@.uuid,
            final(self)@.entrypoint == old(self)@.entrypoint,
            final(self)@.metadata == old(self)@.metadata,
            final(self)@.params == old(self)@.params,
            final(self)@.result.stdout == old(self)@.result.stdout,
            final(self)@.result.error == old(self)@.result.error,
            final(self).result.retval.as_map() =~= old(self).result.retval.as_map().insert(
                k@,
                v@,
            ),
    {
        self.result.retval.insert(k, v);
    }

    /// Records a failure as data: merges an error into the embedded result,
    /// keeping the bindings and text already accumulated there.
    pub fn record_error(&mut self, err: ErrorInfo)
        requires
            old(self).wf(),
            err.wf(),
        ensures
            final(self).wf(),
            final(self)@.uuid == old(self)@.uuid,
            final(self)@.entrypoint == old(self)@.entrypoint,
            final(self)@.metadata == old(self)@.metadata,
            final(self)@.params == old(self)@.params,
            final(self)@.result.stdout == old(self)@.result.stdout,
            final(self).result.retval.as_map() =~= old(self).result.retval.as_map(),
            final(self)@.result.error == Some(err@),
            final(self)@.result.uuid == old(self)@.result.uuid,
    {
        let fail = ExecResult {
            uuid: self.uuid.clone(),
            stdout: None,
            retval: KvMap::new(),
            error: Some(err),
        };
        let merged = self.result.merge(&fail);
        self.result = merged;
    }
}

impl Default for Message {
    /// A blank message: a fresh identifier, an empty entrypoint, empty maps
    /// and an empty result carrying the same identifier.
    fn default() -> (r: Message)
        ensures
            r.wf(),
            r@.entrypoint == Seq::<char>::empty(),
            r@.uuid.len() == 36,
            r@.metadata == Seq::<(Seq<char>, ValueV)>::empty(),
            r@.params == Seq::<(Seq<char>, ValueV)>::empty(),
            r@.result.uuid == r@.uuid,
            r@.result.stdout.is_none(),
            r@.result.retval == Seq::<(Seq<char>, ValueV)>::empty(),
            r@.result.error.is_none(),
    {
        let r = Message::new(None, "", None, None, None);
        proof {
            reveal_strlit("");
        }
        r
    }
}

impl Clone for Message {
    fn clone(&self) -> (r: Message)
        ensures
            r@ == self@,
    {
        Message {
            uuid: self.uuid.clone(),
            entrypoint: self.entrypoint.clone(),
            metadata: self.metadata.duplicate(),
            params: self.params.duplicate(),
            result: self.result.duplicate(),
        }
    }
}

} // verus!
