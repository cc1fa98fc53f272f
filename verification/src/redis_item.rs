//! A stored value: a byte string plus an optional absolute expiration
//! instant in milliseconds since the Unix epoch.

use vstd::prelude::*;

verus! {

/// Mathematical model of a stored value.
pub struct ItemModel {
    pub data: Seq<u8>,
    pub expires_at: Option<u64>,
}

/// True when an item is still visible at time `now_ms`: an item with no
/// expiration is always visible; one with expiration `t` is visible while
/// `now_ms <= t` and behaves as absent strictly after `t`.
pub open spec fn item_live(item: ItemModel, now_ms: u64) -> bool {
    match item.expires_at {
        None => true,
        Some(t) => now_ms <= t,
    }
}

/// A value stored in the keyspace, with optional millisecond expiry.
pub struct RedisItem {
    data: Vec<u8>,
    expiration: Option<u64>,
}

impl View for RedisItem {
    type V = ItemModel;

    closed spec fn view(&self) -> ItemModel {
        ItemModel { data: self.data@, expires_at: self.expiration }
    }
}

impl RedisItem {
    /// Creates an item with no expiration.
    pub fn new(data: Vec<u8>) -> (r: Self)
        ensures
            r@ == (ItemModel { data: data@, expires_at: None }),
    {
        RedisItem { data, expiration: None }
    }

    /// Creates an item that expires at `expiration` (milliseconds since
    /// the Unix epoch).
    pub fn new_with_expiration(data: Vec<u8>, expiration: u64) -> (r: Self)
        ensures
            r@ == (ItemModel { data: data@, expires_at: Some(expiration) }),
    {
        RedisItem { data, expiration: Some(expiration) }
    }

    /// True exactly when the item carries an expiration that lies strictly
    /// in the past at time `now_ms`.
    pub fn is_expired(&self, now_ms: u64) -> (r: bool)
        ensures
            r == !item_live(self@, now_ms),
    {
        match self.expiration {
            Some(t) => now_ms > t,
            None => false,
        }
    }

    /// The stored byte string.
    pub fn get_data(&self) -> (r: &Vec<u8>)
        ensures
            r@ == self@.data,
    {
        &self.data
    }
}

} // verus!
