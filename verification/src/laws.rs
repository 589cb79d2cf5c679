//! The guarantees the library makes across calls, stated and proved over the
//! store model.
//!
//! Each operation's own contract pins down one transition; the proofs here
//! chain those transitions: an email never gains a second credential row, a
//! stored credential is found by exactly its own material, and serialized
//! increments lose no update and create no duplicate row.

use vstd::prelude::*;

use crate::db::{
    counter_matches, counter_value, find_key, has_email, inc_transition, lemma_counter_unique,
    lemma_find_key_first, lemma_find_key_none, wf_counters, wf_keys, CounterRec, KeyRec,
};
use crate::token::sha256_of;

verus! {

/// Uniqueness: under the store invariant an email names at most one
/// credential row, so once an issue for `email` has succeeded there is
/// exactly one row for it — and the issue operation's own contract refuses
/// every later issue for the same email with the duplicate-identity failure.
pub proof fn lemma_email_unique(keys: Seq<KeyRec>, email: Seq<char>)
    requires
        wf_keys(keys),
        has_email(keys, email),
    ensures
        exists|i: int| 0 <= i < keys.len() && #[trigger] keys[i].email == email,
        forall|i: int, j: int|
            0 <= i < keys.len() && 0 <= j < keys.len() && #[trigger] keys[i].email == email
                && #[trigger] keys[j].email == email ==> i == j,
{
    assert forall|i: int, j: int|
        0 <= i < keys.len() && 0 <= j < keys.len() && #[trigger] keys[i].email == email
            && #[trigger] keys[j].email == email implies i == j by {
        if i < j {
            assert(keys[i].email != keys[j].email);
        } else if j < i {
            assert(keys[j].email != keys[i].email);
        }
    }
}

/// Verification correctness: a stored credential row whose material — the
/// prefix and verifier pair — no earlier row duplicates is the one the
/// lookup returns for exactly that material, and the authenticated owner is
/// that row's identifier.
pub proof fn lemma_verify_finds_owner(keys: Seq<KeyRec>, i: int)
    requires
        0 <= i < keys.len(),
        forall|j: int|
            0 <= j < i ==> !(#[trigger] keys[j].prefix == keys[i].prefix && keys[j].verifier
                == keys[i].verifier),
    ensures
        find_key(keys, keys[i].prefix, keys[i].verifier) == Some(keys[i].id),
{
    lemma_find_key_first(keys, i);
}

/// Secret non-recoverability, the verifying half: presenting the stored
/// verifier in place of the raw secret does not authenticate, whenever the
/// verifier's own digest differs from the stored verifier and is not by
/// chance some other credential's verifier — each verifier comes from an
/// independently drawn secret, so no credential is expected to carry it.
pub proof fn lemma_stored_verifier_does_not_authenticate(
    keys: Seq<KeyRec>,
    i: int,
    secret: Seq<u8>,
)
    requires
        0 <= i < keys.len(),
        keys[i].verifier == sha256_of(secret),
        sha256_of(keys[i].verifier) != sha256_of(secret),
        forall|j: int|
            0 <= j < keys.len() && j != i ==> #[trigger] keys[j].verifier != sha256_of(
                keys[i].verifier,
            ),
    ensures
        find_key(keys, keys[i].prefix, sha256_of(keys[i].verifier)) is None,
{
    assert forall|j: int|
        0 <= j < keys.len() implies !(#[trigger] keys[j].prefix == keys[i].prefix
        && keys[j].verifier == sha256_of(keys[i].verifier)) by {
        if j == i {
            assert(keys[i].verifier != sha256_of(keys[i].verifier));
        }
    }
    lemma_find_key_none(keys, keys[i].prefix, sha256_of(keys[i].verifier));
}

/// Verification correctness, the refusing half: a presented secret whose
/// digest differs from the stored one — a secret with a single flipped bit
/// included, whenever the digests differ — is refused, as long as that
/// digest is not by chance some other credential's verifier.
pub proof fn lemma_differing_secret_unauthorized(
    keys: Seq<KeyRec>,
    i: int,
    secret: Seq<u8>,
    other: Seq<u8>,
)
    requires
        0 <= i < keys.len(),
        keys[i].verifier == sha256_of(secret),
        sha256_of(other) != sha256_of(secret),
        forall|j: int|
            0 <= j < keys.len() && j != i ==> #[trigger] keys[j].verifier != sha256_of(other),
    ensures
        find_key(keys, keys[i].prefix, sha256_of(other)) is None,
{
    assert forall|j: int|
        0 <= j < keys.len() implies !(#[trigger] keys[j].prefix == keys[i].prefix
        && keys[j].verifier == sha256_of(other)) by {
        if j == i {
            assert(keys[i].verifier != sha256_of(other));
        }
    }
    lemma_find_key_none(keys, keys[i].prefix, sha256_of(other));
}

/// No lost updates: a chain of serialized increment steps on one key,
/// starting from a fresh counter, ends with the stored value equal to the
/// number of steps, and the returned values are exactly 1, 2, ..., n — each
/// caller observes its own position in the serialization order, none twice.
pub proof fn lemma_no_lost_updates(
    chain: Seq<Seq<CounterRec>>,
    results: Seq<int>,
    owner: u128,
    tag: Seq<char>,
)
    requires
        chain.len() == results.len() + 1,
        counter_value(chain[0], owner, tag) == 0,
        forall|i: int|
            0 <= i < results.len() ==> #[trigger] inc_transition(
                chain[i],
                chain[i + 1],
                owner,
                tag,
                results[i],
            ),
    ensures
        counter_value(chain[chain.len() - 1], owner, tag) == results.len(),
        forall|i: int| 0 <= i < results.len() ==> #[trigger] results[i] == i + 1,
        forall|v: int| 1 <= v <= results.len() <==> results.contains(v),
    decreases results.len(),
{
    let n = results.len() as int;
    if n > 0 {
        let chain0 = chain.drop_last();
        let results0 = results.drop_last();
        assert forall|i: int| 0 <= i < results0.len() implies #[trigger] inc_transition(
            chain0[i],
            chain0[i + 1],
            owner,
            tag,
            results0[i],
        ) by {
            assert(chain0[i] == chain[i] && chain0[i + 1] == chain[i + 1] && results0[i]
                == results[i]);
            assert(inc_transition(chain[i], chain[i + 1], owner, tag, results[i]));
        }
        assert(chain0[0] == chain[0]);
        lemma_no_lost_updates(chain0, results0, owner, tag);
        assert(counter_value(chain0[chain0.len() - 1], owner, tag) == n - 1);
        assert(chain0[chain0.len() - 1] == chain[n - 1]);
        assert(inc_transition(chain[n - 1], chain[n], owner, tag, results[n - 1]));
        assert(results[n - 1] == n);
        assert forall|i: int| 0 <= i < n implies #[trigger] results[i] == i + 1 by {
            if i < n - 1 {
                assert(results0[i] == i + 1);
            }
        }
    }
    assert forall|v: int| 1 <= v <= results.len() implies results.contains(v) by {
        assert(results[v - 1] == v);
    }
    assert forall|v: int| #[trigger] results.contains(v) implies 1 <= v <= results.len() by {
        let i = choose|i: int| 0 <= i < results.len() && results[i] == v;
        assert(results[i] == i + 1);
    }
}

/// Creation race safety: two serialized first-time increments for one fresh
/// key return 1 and 2 in their serialization order, leave the stored value
/// at 2, and the store holds exactly one row for that key — the losing
/// creator increments the winner's row instead of making a second one.
pub proof fn lemma_creation_race(
    pre: Seq<CounterRec>,
    mid: Seq<CounterRec>,
    post: Seq<CounterRec>,
    owner: u128,
    tag: Seq<char>,
    r1: int,
    r2: int,
)
    requires
        wf_counters(post),
        !crate::db::counter_exists(pre, owner, tag),
        inc_transition(pre, mid, owner, tag, r1),
        inc_transition(mid, post, owner, tag, r2),
    ensures
        r1 == 1,
        r2 == 2,
        counter_value(post, owner, tag) == 2,
        crate::db::counter_exists(post, owner, tag),
        forall|i: int, j: int|
            #[trigger] counter_matches(post, i, owner, tag) && #[trigger] counter_matches(
                post,
                j,
                owner,
                tag,
            ) ==> i == j,
{
    assert forall|i: int, j: int|
        #[trigger] counter_matches(post, i, owner, tag) && #[trigger] counter_matches(
            post,
            j,
            owner,
            tag,
        ) implies i == j by {
        lemma_counter_unique(post, i, j, owner, tag);
    }
}

} // verus!
