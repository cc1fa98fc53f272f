//! Laws relating SET and GET on the keyspace.
//!
//! `lemma_write_then_read`: a value just SET is what GET sees, as long as
//! no expiry has passed. `lemma_overwrite_clears_expiry`: a plain SET
//! replaces both the value and any earlier expiration. `lemma_lazy_expiry`:
//! an entry SET with `PX` is visible up to and including its expiration
//! instant, and absent strictly after it.

use vstd::prelude::*;
use crate::keyspace::lookup_model;
use crate::redis_item::ItemModel;
use crate::resp_response::Frame;
use crate::command::{spec_arg_value, spec_expiry, spec_set_map};

verus! {

/// Write-then-read: after a SET of `k` to `v`, looking `k` up returns
/// `v` at every instant not past the expiry the SET asked for (always,
/// when it asked for none).
pub proof fn lemma_write_then_read(
    args: Seq<Frame>,
    m: Map<Seq<u8>, ItemModel>,
    k: Seq<u8>,
    v: Seq<u8>,
    set_now: u64,
    get_now: u64,
)
    requires
        spec_arg_value(args, 1) == Some(k),
        spec_arg_value(args, 2) == Some(v),
        match spec_expiry(args, set_now) {
            Some(t) => get_now <= t,
            None => true,
        },
    ensures
        lookup_model(spec_set_map(args, m, set_now), k, get_now) == Some(v),
{
}

/// Overwrite clears expiry: a second SET of the same key, with no `PX`
/// clause, leaves the key holding the new value with no expiration, so a
/// lookup succeeds at every instant.
pub proof fn lemma_overwrite_clears_expiry(
    args1: Seq<Frame>,
    args2: Seq<Frame>,
    m: Map<Seq<u8>, ItemModel>,
    k: Seq<u8>,
    v1: Seq<u8>,
    v2: Seq<u8>,
    now1: u64,
    now2: u64,
    get_now: u64,
)
    requires
        spec_arg_value(args1, 1) == Some(k),
        spec_arg_value(args1, 2) == Some(v1),
        spec_arg_value(args2, 1) == Some(k),
        spec_arg_value(args2, 2) == Some(v2),
        spec_expiry(args2, now2) is None,
    ensures
        ({
            let m2 = spec_set_map(args2, spec_set_map(args1, m, now1), now2);
            m2[k] == (ItemModel { data: v2, expires_at: None })
                && lookup_model(m2, k, get_now) == Some(v2)
        }),
{
}

/// Lazy expiry: an entry SET with a `PX` expiry at instant `t` is
/// returned by lookups while `now <= t` and reported absent strictly
/// after `t`.
pub proof fn lemma_lazy_expiry(
    args: Seq<Frame>,
    m: Map<Seq<u8>, ItemModel>,
    k: Seq<u8>,
    v: Seq<u8>,
    t: u64,
    set_now: u64,
    get_now: u64,
)
    requires
        spec_arg_value(args, 1) == Some(k),
        spec_arg_value(args, 2) == Some(v),
        spec_expiry(args, set_now) == Some(t),
    ensures
        get_now <= t ==> lookup_model(spec_set_map(args, m, set_now), k, get_now) == Some(v),
        get_now > t ==> lookup_model(spec_set_map(args, m, set_now), k, get_now) is None,
{
}

} // verus!
