//! Counter entries: a key, its creating account, an optional
//! idempotency token, and the counter value. Increments are modelled by
//! [`Entry::next`] and [`Entry::next_with_token`]; the latter is the
//! optimistic-concurrency step that refuses to count the same token
//! twice.

use vstd::prelude::*;
use crate::text;

verus! {

/// One counter entry.
#[derive(Debug, Clone)]
pub struct Entry {
    pub key: String,
    pub creator_id: i64,
    pub token: Option<String>,
    pub value: i64,
}

impl PartialEq for Entry {
    fn eq(&self, other: &Entry) -> (r: bool) {
        if self.creator_id != other.creator_id || self.value != other.value {
            return false;
        }
        if !text::str_eq(self.key.as_str(), other.key.as_str()) {
            return false;
        }
        match (&self.token, &other.token) {
            (Some(a), Some(b)) => text::str_eq(a.as_str(), b.as_str()),
            (None, None) => true,
            _ => false,
        }
    }
}

impl vstd::std_specs::cmp::PartialEqSpecImpl for Entry {
    open spec fn obeys_eq_spec() -> bool {
        true
    }

    open spec fn eq_spec(&self, other: &Entry) -> bool {
        &&& self.key@ == other.key@
        &&& self.creator_id == other.creator_id
        &&& match (self.token, other.token) {
            (Some(a), Some(b)) => a@ == b@,
            (None, None) => true,
            _ => false,
        }
        &&& self.value == other.value
    }
}

impl Entry {
    /// An entry with the given fields.
    pub fn new(key: &str, creator_id: i64, token: Option<String>, value: i64) -> (r: Entry)
        ensures
            r.key@ == key@,
            r.creator_id == creator_id,
            r.token == token,
            r.value == value,
    {
        Entry { key: key.to_owned(), creator_id, token, value }
    }

    /// The same entry counted one step further, token untouched.
    pub fn next(&self) -> (r: Entry)
        requires
            self.value < i64::MAX,
        ensures
            r.key@ == self.key@,
            r.creator_id == self.creator_id,
            r.token == self.token,
            r.value == self.value + 1,
    {
        Entry {
            key: self.key.clone(),
            creator_id: self.creator_id,
            token: match &self.token {
                Some(tok) => Some(tok.clone()),
                None => None,
            },
            value: self.value + 1,
        }
    }

    /// The optimistic increment: counting under a token the entry already
    /// carries is a no-op (`None`); any other token counts one step and
    /// is recorded.
    pub fn next_with_token(&self, token: &str) -> (r: Option<Entry>)
        requires
            self.value < i64::MAX,
        ensures
            (self.token matches Some(t) && t@ == token@) ==> r is None,
            !(self.token matches Some(t) && t@ == token@) ==> (r matches Some(e) && e.key@
                == self.key@ && e.creator_id == self.creator_id && (e.token matches Some(t2) && t2@
                == token@) && e.value == self.value + 1),
    {
        if let Some(tok) = &self.token {
            if text::str_eq(tok.as_str(), token) {
                return None;
            }
        }
        Some(
            Entry {
                key: self.key.clone(),
                creator_id: self.creator_id,
                token: Some(token.to_owned()),
                value: self.value + 1,
            },
        )
    }
}

} // verus!
