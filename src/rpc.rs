use vstd::prelude::*;
use std::sync::Arc;
use crate::error::Error;
use crate::registry::VerifierRegistry;
use crate::types::{AccountId, H256};

verus! {

/// The node-side handle that serves verifiers their assignments: it holds a
/// shared reference to the client it queries.
pub struct ValidatorRpcImpl<C> {
    pub client: Arc<C>,
}

impl<C> ValidatorRpcImpl<C> {
    pub fn new(client: Arc<C>) -> (r: Self)
        ensures
            r.client == client,
    {
        ValidatorRpcImpl { client }
    }
}

impl ValidatorRpcImpl<VerifierRegistry> {
    /// The claims assigned to `validator`, as the registry holds them.
    pub fn get_assigned_submissions(&self, validator: AccountId) -> (r: Vec<H256>)
        ensures
            r@ == (*self.client).assigned(validator),
    {
        self.client.assigned_submissions(&validator)
    }

    /// Whether the registry would accept `validator`'s judgement of `hash`,
    /// checked against the current state without changing it.
    pub fn submit_validation(&self, validator: AccountId, hash: H256, _is_valid: bool) -> (r: Result<
        bool,
        Error,
    >)
        requires
            (*self.client).wf(),
        ensures
            r == (if !(*self.client).verifiers@.contains_key(validator) {
                Err(Error::VerifierNotRegistered)
            } else if !(*self.client).assigned(validator).contains(hash) {
                Err(Error::SubmissionNotAssigned)
            } else {
                Ok(true)
            }),
    {
        match self.client.check_assigned(&validator, &hash) {
            Ok(()) => Ok(true),
            Err(e) => Err(e),
        }
    }
}

} // verus!
