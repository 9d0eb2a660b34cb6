//! The addresses of a remote log.

use vstd::prelude::*;
use vstd::string::StringExecFns;
use crate::values::{hyphenated_text, Uuid};

verus! {

/// The client of a remote log: the address of the server and the user
/// whose log it is.
#[derive(Debug, PartialEq, Eq)]
pub struct RemoteClient {
    base_uri: String,
    user_uuid: Uuid,
}

/// What a [`RemoteClient`] holds.
pub struct RemoteClientView {
    pub base_uri: Seq<char>,
    pub user_uuid: Seq<u8>,
}

impl RemoteClientView {
    /// The address of the user's log: the address of the server, a slash,
    /// and the user's identifier in the hyphenated form.
    pub open spec fn bound_base_uri(self) -> Seq<char> {
        self.base_uri + seq!['/'] + hyphenated_text(self.user_uuid)
    }
}

impl View for RemoteClient {
    type V = RemoteClientView;

    closed spec fn view(&self) -> RemoteClientView {
        RemoteClientView { base_uri: self.base_uri@, user_uuid: self.user_uuid@ }
    }
}

impl RemoteClient {
    pub fn new(base_uri: String, user_uuid: Uuid) -> (r: Self)
        ensures
            r@ == (RemoteClientView { base_uri: base_uri@, user_uuid: user_uuid@ }),
    {
        RemoteClient { base_uri, user_uuid }
    }

    /// The address of the user's log.
    pub fn bound_base_uri(&self) -> (r: String)
        ensures
            r@ == self@.bound_base_uri(),
    {
        let mut uri = self.base_uri.clone();
        uri.push('/');
        uri.append(self.user_uuid.to_hyphenated_string().as_str());
        uri
    }

    /// The address of the head of the log.
    pub fn head_uri(&self) -> (r: String)
        ensures
            r@ == self@.bound_base_uri() + "/head"@,
    {
        let mut uri = self.bound_base_uri();
        uri.append("/head");
        uri
    }

    /// The address of the list of transactions that follow `parent`.
    pub fn transactions_uri(&self, parent: &Uuid) -> (r: String)
        ensures
            r@ == self@.bound_base_uri() + "/transactions?from="@ + hyphenated_text(parent@),
    {
        let mut uri = self.bound_base_uri();
        uri.append("/transactions?from=");
        uri.append(parent.to_hyphenated_string().as_str());
        uri
    }

    /// The address of one transaction.
    pub fn transaction_uri(&self, transaction: &Uuid) -> (r: String)
        ensures
            r@ == self@.bound_base_uri() + "/transactions/"@ + hyphenated_text(transaction@),
    {
        let mut uri = self.bound_base_uri();
        uri.append("/transactions/");
        uri.append(transaction.to_hyphenated_string().as_str());
        uri
    }

    /// The address of one chunk of a transaction.
    pub fn chunk_uri(&self, chunk: &Uuid) -> (r: String)
        ensures
            r@ == self@.bound_base_uri() + "/chunks/"@ + hyphenated_text(chunk@),
    {
        let mut uri = self.bound_base_uri();
        uri.append("/chunks/");
        uri.append(chunk.to_hyphenated_string().as_str());
        uri
    }
}

} // verus!
