//! The result envelope embedded in every message, and the merge operation
//! that combines two results.

use vstd::prelude::*;

use crate::errors::{ErrorInfo, ErrorInfoV};
use crate::value::{KvMap, Value, ValueV};

verus! {

/// The outcome of executing a message: optional human-readable text, output
/// bindings, and an optional structured error.
#[derive(Debug, PartialEq)]
pub struct ExecResult {
    pub uuid: String,
    pub stdout: Option<String>,
    pub retval: KvMap,
    pub error: Option<ErrorInfo>,
}

/// The mathematical model of an [`ExecResult`].
pub struct ExecResultV {
    pub uuid: Seq<char>,
    pub stdout: Option<Seq<char>>,
    pub retval: Seq<(Seq<char>, ValueV)>,
    pub error: Option<ErrorInfoV>,
}

impl View for ExecResult {
    type V = ExecResultV;

    open spec fn view(&self) -> ExecResultV {
        ExecResultV {
            uuid: self.uuid@,
            stdout: match self.stdout {
                Some(ref s) => Some(s@),
                None => None,
            },
            retval: self.retval@,
            error: match self.error {
                Some(ref e) => Some(e@),
                None => None,
            },
        }
    }
}

impl ExecResultV {
    /// Every map this result carries has distinct keys.
    pub open spec fn wf(&self) -> bool {
        &&& crate::value::keys_distinct(self.retval)
        &&& match self.error {
            Some(e) => e.wf(),
            None => true,
        }
    }
}

impl ExecResult {
    /// Every map this result carries is well formed.
    pub open spec fn wf(&self) -> bool {
        self@.wf()
    }

    /// An empty result for the execution identified by `uuid`.
    pub fn new(uuid: String) -> (r: ExecResult)
        ensures
            r.uuid@ == uuid@,
            r.stdout.is_none(),
            r.retval@ =~= Seq::<(Seq<char>, ValueV)>::empty(),
            r.error.is_none(),
            r.wf(),
    {
        ExecResult { uuid, stdout: None, retval: KvMap::new(), error: None }
    }

    /// Whether this result records a failure.
    pub fn is_error(&self) -> (r: bool)
        ensures
            r == self.error.is_some(),
    {
        self.error.is_some()
    }

    /// The value bound to `k` among the output bindings, if any.
    pub fn search_value(&self, k: &str) -> (r: Option<&Value>)
        ensures
            match r {
                Some(v) => self.retval.as_map().contains_key(k@) && v@ == self.retval.as_map()[k@],
                None => !self.retval.as_map().contains_key(k@),
            },
    {
        self.retval.get(k)
    }

    /// A deep copy with the same model.
    pub fn duplicate(&self) -> (r: ExecResult)
        ensures
            r@ == self@,
    {
        ExecResult {
            uuid: self.uuid.clone(),
            stdout: match self.stdout {
                Some(ref s) => Some(s.clone()),
                None => None,
            },
            retval: self.retval.duplicate(),
            error: match self.error {
                Some(ref e) => Some(e.duplicate()),
                None => None,
            },
        }
    }

    /// Combines two results. The output bindings are the union of both maps
    /// and on a shared key the binding of `other` wins; `stdout` and `error`
    /// of `other` take precedence when present. The identifier of `self` is
    /// kept, so that a result merged into a message keeps that message's
    /// identifier.
    pub fn merge(&self, other: &ExecResult) -> (r: ExecResult)
        requires
            self.wf(),
            other.wf(),
        ensures
            r.wf(),
            r.uuid@ == self.uuid@,
            r.retval.as_map() =~= self.retval.as_map().union_prefer_right(
                other.retval.as_map(),
            ),
            r@.stdout == if other@.stdout.is_some() {
                other@.stdout
            } else {
                self@.stdout
            },
            r@.error == if other@.error.is_some() {
                other@.error
            } else {
                self@.error
            },
    {
        ExecResult {
            uuid: self.uuid.clone(),
            stdout: match other.stdout {
                Some(ref s) => Some(s.clone()),
                None => match self.stdout {
                    Some(ref s) => Some(s.clone()),
                    None => None,
                },
            },
            retval: self.retval.merged(&other.retval),
            error: match other.error {
                Some(ref e) => Some(e.duplicate()),
                None => match self.error {
                    Some(ref e) => Some(e.duplicate()),
                    None => None,
                },
            },
        }
    }
}

impl Clone for ExecResult {
    fn clone(&self) -> (r: ExecResult)
        ensures
            r@ == self@,
    {
        self.duplicate()
    }
}

} // verus!
