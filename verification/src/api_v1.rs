//! The operations behind the service's routes: credential issuance, counter
//! read, counter increment.
//!
//! Each operation opens exactly one transaction on the store, performs its
//! logic, and either commits fully or leaves the committed state untouched.
//! The transport layer around the library hands in plain strings and renders
//! the typed results.

use vstd::prelude::*;

use crate::db::{
    counter_exists, counter_matches, counter_value, find_key, has_email, inc_transition,
    key_id_used, lemma_counter_id_unique, lemma_counter_value_at, lemma_find_key_mem,
    lemma_push_preserves_others, lemma_update_preserves_others, lemma_wf_counters_push,
    lemma_wf_counters_update, lemma_wf_keys_push, CounterRec, DataAccess, Error, IntoTxError,
    KeyRec, Tx, TxError,
};
use crate::token::{
    b64_decode, base64_of, build_token, hash, lemma_first_dot, lemma_token_parts, random_bytes,
    sha256_of, token_shape, PREFIX_LEN, SECRET_LEN,
};

verus! {

/// A business-rule failure: the caller can recover only by changing the
/// request.  The transport layer collapses the two credential failures into
/// one undistinguishing client error.
#[derive(Debug, Clone, Copy, PartialEq, Eq)]
pub enum ApiError {
    /// The email already holds a credential.
    DuplicateIdentity,
    /// The presented credential deviates from the wire format.
    MalformedCredential,
    /// The presented credential is missing or matches no identity.
    Unauthorized,
}

impl IntoTxError for ApiError {

}

/// How many times one increment call retries its insert after losing a
/// conflicting-key race; one retry suffices in practice, the cap only guards
/// against an unbounded loop under a store bug.
pub const CREATE_RETRY_LIMIT: u64 = 8;

/// Parses a presented credential: split on the single `'.'`, decode both
/// parts, digest the secret part.  A missing credential is `Unauthorized`;
/// any format deviation is `MalformedCredential`.  On success the returned
/// pair is the decoded prefix and the digest of the decoded secret.
pub fn extract_key(auth: Option<&str>) -> (r: Result<(Vec<u8>, Vec<u8>), ApiError>)
    ensures
        auth is None ==> r == Err::<(Vec<u8>, Vec<u8>), ApiError>(ApiError::Unauthorized),
        auth is Some ==> (r is Ok || r == Err::<(Vec<u8>, Vec<u8>), ApiError>(
            ApiError::MalformedCredential,
        )),
        r is Ok ==> auth is Some && (exists|k: Seq<u8>|
            token_shape(auth->0@, r->Ok_0.0@, k) && #[trigger] sha256_of(k) == r->Ok_0.1@),
        forall|p: Seq<u8>, k: Seq<u8>|
            auth is Some && #[trigger] token_shape(auth->0@, p, k) ==> r is Ok && r->Ok_0.0@ == p
                && r->Ok_0.1@ == sha256_of(k),
{
    let s = match auth {
        None => {
            return Err(ApiError::Unauthorized);
        },
        Some(s) => s,
    };
    let n = s.unicode_len();
    let mut dot: usize = n;
    let mut second = false;
    let mut i: usize = 0;
    while i < n
        invariant
            i <= n,
            dot <= n,
            n == s@.len(),
            dot == n ==> !second && (forall|j: int| 0 <= j < i ==> s@[j] != '.'),
            dot < n ==> dot < i && s@[dot as int] == '.' && (forall|j: int|
                0 <= j < dot ==> s@[j] != '.') && (second <==> (exists|j: int|
                dot < j < i && s@[j] == '.')),
        decreases n - i,
    {
        let c = s.get_char(i);
        if c == '.' {
            if dot == n {
                dot = i;
            } else {
                assert(dot < i && s@[i as int] == '.');
                second = true;
            }
        }
        i = i + 1;
    }
    if dot == n {
        proof {
            assert forall|p: Seq<u8>, k: Seq<u8>| !#[trigger] token_shape(s@, p, k) by {
                if token_shape(s@, p, k) {
                    lemma_token_parts(s@, p, k);
                    assert(s@[base64_of(p).len() as int] == '.');
                }
            }
        }
        return Err(ApiError::MalformedCredential);
    }
    if second {
        proof {
            let jj = choose|j: int| dot < j < n && s@[j] == '.';
            assert forall|p: Seq<u8>, k: Seq<u8>| !#[trigger] token_shape(s@, p, k) by {
                if token_shape(s@, p, k) {
                    lemma_first_dot(s@, p, k, dot as int);
                    lemma_token_parts(s@, p, k);
                    assert(s@[jj] != '.');
                }
            }
        }
        return Err(ApiError::MalformedCredential);
    }
    if dot == 0 || dot + 1 == n {
        proof {
            assert forall|p: Seq<u8>, k: Seq<u8>| !#[trigger] token_shape(s@, p, k) by {
                if token_shape(s@, p, k) {
                    lemma_first_dot(s@, p, k, dot as int);
                    lemma_token_parts(s@, p, k);
                }
            }
        }
        return Err(ApiError::MalformedCredential);
    }
    let p_str = s.substring_char(0, dot);
    let k_str = s.substring_char(dot + 1, n);
    let pb = match b64_decode(p_str) {
        Some(v) => v,
        None => {
            proof {
                assert forall|p: Seq<u8>, k: Seq<u8>| !#[trigger] token_shape(s@, p, k) by {
                    if token_shape(s@, p, k) {
                        lemma_first_dot(s@, p, k, dot as int);
                        lemma_token_parts(s@, p, k);
                        assert(p_str@ == base64_of(p));
                    }
                }
            }
            return Err(ApiError::MalformedCredential);
        },
    };
    let kb = match b64_decode(k_str) {
        Some(v) => v,
        None => {
            proof {
                assert forall|p: Seq<u8>, k: Seq<u8>| !#[trigger] token_shape(s@, p, k) by {
                    if token_shape(s@, p, k) {
                        lemma_first_dot(s@, p, k, dot as int);
                        lemma_token_parts(s@, p, k);
                        assert(k_str@ == base64_of(k));
                    }
                }
            }
            return Err(ApiError::MalformedCredential);
        },
    };
    let hashed = hash(kb.as_slice());
    proof {
        let a = base64_of(pb@);
        let bb = base64_of(kb@);
        assert(a == p_str@ && bb == k_str@);
        assert(a.len() == dot && bb.len() == n - dot - 1);
        assert forall|j: int| 0 <= j < n implies (a + seq!['.'] + bb)[j] == s@[j] by {
            if j < dot {
                assert((a + seq!['.'] + bb)[j] == (a + seq!['.'])[j]);
                assert((a + seq!['.'])[j] == a[j]);
                assert(a[j] == s@.subrange(0, dot as int)[j]);
            } else if j == dot {
                assert((a + seq!['.'] + bb)[j] == (a + seq!['.'])[j]);
                assert((a + seq!['.'])[j] == seq!['.'][0]);
            } else {
                assert((a + seq!['.'] + bb)[j] == bb[j - dot - 1]);
                assert(bb[j - dot - 1] == s@.subrange(dot as int + 1, n as int)[j - dot - 1]);
            }
        }
        assert(s@ =~= a + seq!['.'] + bb);
        assert forall|j: int| 0 <= j < a.len() implies a[j] != '.' by {
            assert(a[j] == s@.subrange(0, dot as int)[j]);
            assert(s@[j] != '.');
        }
        assert forall|j: int| 0 <= j < bb.len() implies bb[j] != '.' by {
            assert(bb[j] == s@.subrange(dot as int + 1, n as int)[j]);
            assert(s@[dot + 1 + j] != '.');
        }
        assert(token_shape(s@, pb@, kb@));
        assert(auth->0@ == s@);
        assert(token_shape(auth->0@, pb@, kb@));
        assert(sha256_of(kb@) == hashed@);
        assert forall|p: Seq<u8>, k: Seq<u8>| #[trigger] token_shape(s@, p, k) implies pb@ == p
            && hashed@ == sha256_of(k) by {
            lemma_first_dot(s@, p, k, dot as int);
            lemma_token_parts(s@, p, k);
            assert(p_str@ == base64_of(p));
            assert(k_str@ == base64_of(k));
        }
    }
    Ok((pb, hashed))
}

/// Authenticates a presented credential against the store: parse, digest,
/// find the row carrying both the prefix and the digest.  For every
/// well-shaped token the result is exactly what the store lookup says; any
/// mismatch is `Unauthorized`, and a returned owner is the identifier of a
/// stored credential row carrying the presented material.
pub fn verify(tx: &Tx, auth: Option<&str>) -> (r: Result<u128, ApiError>)
    ensures
        auth is None ==> r == Err::<u128, ApiError>(ApiError::Unauthorized),
        forall|p: Seq<u8>, k: Seq<u8>|
            auth is Some && #[trigger] token_shape(auth->0@, p, k) ==> r == (match find_key(
                tx@.api_keys,
                p,
                sha256_of(k),
            ) {
                Some(id) => Ok::<u128, ApiError>(id),
                None => Err::<u128, ApiError>(ApiError::Unauthorized),
            }),
        r is Ok ==> exists|i: int|
            0 <= i < tx@.api_keys.len() && #[trigger] tx@.api_keys[i].id == r->Ok_0,
        r is Ok ==> (exists|p: Seq<u8>, k: Seq<u8>|
            auth is Some && token_shape(auth->0@, p, k) && #[trigger] find_key(
                tx@.api_keys,
                p,
                sha256_of(k),
            ) == Some(r->Ok_0)),
{
    let parsed = match extract_key(auth) {
        Ok(t) => t,
        Err(e) => {
            return Err(e);
        },
    };
    let (pb, hashed) = parsed;
    let found = match tx.get_user_id_by_key(pb.as_slice(), hashed.as_slice()) {
        Ok(f) => f,
        Err(_) => None,
    };
    match found {
        Some(id) => {
            proof {
                lemma_find_key_mem(tx@.api_keys, pb@, hashed@);
                let i = choose|i: int|
                    0 <= i < tx@.api_keys.len() && #[trigger] tx@.api_keys[i].id == find_key(
                        tx@.api_keys,
                        pb@,
                        hashed@,
                    )->0 && tx@.api_keys[i].prefix == pb@ && tx@.api_keys[i].verifier == hashed@;
                assert(tx@.api_keys[i].id == id);
                let k = choose|k: Seq<u8>|
                    token_shape(auth->0@, pb@, k) && #[trigger] sha256_of(k) == hashed@;
                assert(find_key(tx@.api_keys, pb@, sha256_of(k)) == Some(id));
            }
            Ok(id)
        },
        None => Err(ApiError::Unauthorized),
    }
}

/// The outcome one increment call owes once its caller is authenticated as
/// `owner`: on success, one increment step and the new value returned; on a
/// store fault, the store untouched, a fault only where the row was at its
/// ceiling or the insert kept conflicting; never a business failure.
pub open spec fn inc_outcome(
    pre: Seq<CounterRec>,
    post: Seq<CounterRec>,
    owner: u128,
    tag: Seq<char>,
    r: Result<i64, TxError<ApiError>>,
) -> bool {
    match r {
        Ok(v) => inc_transition(pre, post, owner, tag, v as int),
        Err(TxError::DbError(e)) => {
            &&& post == pre
            &&& (counter_exists(pre, owner, tag) ==> e == Error::Overflow && counter_value(
                pre,
                owner,
                tag,
            ) == i64::MAX)
            &&& (!counter_exists(pre, owner, tag) ==> e == Error::UniqueViolation)
        },
        Err(TxError::InnerError(_)) => false,
    }
}

/// The action one increment step takes, decided from the locked row the
/// store returned.
#[derive(Debug, Clone, Copy, PartialEq, Eq)]
pub enum IncStep {
    /// A row exists: store this new value.
    Update { new_value: i64 },
    /// No row exists: insert one with this initial value.
    Create { initial: i64 },
    /// The row is at the ceiling and cannot grow.
    Fail,
}

/// Decides one step of the increment algorithm from the observed locked
/// value: an existing value below the ceiling moves up by one, a missing row
/// is created at `1`, a value at the ceiling is a fault.
pub fn inc_decide(observed: Option<i64>) -> (s: IncStep)
    ensures
        (match observed {
            Some(v) => if v < i64::MAX {
                s == (IncStep::Update { new_value: (v + 1) as i64 })
            } else {
                s == IncStep::Fail
            },
            None => s == (IncStep::Create { initial: 1 }),
        }),
{
    match observed {
        Some(v) => {
            if v < i64::MAX {
                IncStep::Update { new_value: v + 1 }
            } else {
                IncStep::Fail
            }
        },
        None => IncStep::Create { initial: 1 },
    }
}

/// Issues a credential for `email`: within one transaction, refuse an email
/// that already holds one, then generate the prefix and the secret, persist
/// the prefix with the digest of the secret, and hand back the one-time
/// token.  The token is never persisted; a duplicate email changes nothing
/// and is refused exactly when a row for it exists.
pub fn gen_key(data: &mut DataAccess, email: &str, now: i64) -> (r: Result<
    String,
    TxError<ApiError>,
>)
    requires
        old(data).inv(),
    ensures
        final(data).inv(),
        final(data).db@.counters == old(data).db@.counters,
        has_email(old(data).db@.api_keys, email@) <==> r == Err::<String, TxError<ApiError>>(
            TxError::InnerError(ApiError::DuplicateIdentity),
        ),
        r is Err ==> final(data).db@ == old(data).db@,
        r is Err ==> has_email(old(data).db@.api_keys, email@) || old(data).db@.api_keys.len() > 0,
        (match r {
            Err(TxError::DbError(e)) => e == Error::UniqueViolation,
            Err(TxError::InnerError(e)) => e == ApiError::DuplicateIdentity,
            Ok(_) => true,
        }),
        r is Ok ==> (exists|prefix: Seq<u8>, secret: Seq<u8>, id: u128|
            {
                &&& prefix.len() == PREFIX_LEN
                &&& secret.len() == SECRET_LEN
                &&& !key_id_used(old(data).db@.api_keys, id)
                &&& final(data).db@.api_keys == old(data).db@.api_keys.push(
                    (KeyRec {
                        id,
                        email: email@,
                        prefix,
                        verifier: sha256_of(secret),
                        created_at: now,
                    }),
                )
                &&& r->Ok_0@ == base64_of(prefix) + seq!['.'] + base64_of(secret)
                &&& token_shape(r->Ok_0@, prefix, secret)
            }),
{
    let dup = match data.db.email_exists(email) {
        Ok(b) => b,
        Err(_) => true,
    };
    if dup {
        return Err(TxError::InnerError(ApiError::DuplicateIdentity));
    }
    let key = random_bytes(SECRET_LEN);
    let prefix = random_bytes(PREFIX_LEN);
    let hashed = hash(key.as_slice());
    let id = match data.db.insert_api_key(email, prefix.as_slice(), hashed.as_slice(), now) {
        Ok(id) => id,
        Err(e) => {
            return Err(TxError::DbError(e));
        },
    };
    proof {
        lemma_wf_keys_push(
            old(data).db@.api_keys,
            KeyRec {
                id,
                email: email@,
                prefix: prefix@,
                verifier: sha256_of(key@),
                created_at: now,
            },
        );
    }
    let token = build_token(prefix.as_slice(), key.as_slice());
    proof {
        assert(prefix@.len() == PREFIX_LEN && key@.len() == SECRET_LEN && !key_id_used(
            old(data).db@.api_keys,
            id,
        ) && final(data).db@.api_keys == old(data).db@.api_keys.push(
            (KeyRec {
                id,
                email: email@,
                prefix: prefix@,
                verifier: sha256_of(key@),
                created_at: now,
            }),
        ) && token@ == base64_of(prefix@) + seq!['.'] + base64_of(key@) && token_shape(
            token@,
            prefix@,
            key@,
        ));
    }
    Ok(token)
}

/// Reads the counter named `tag` for the authenticated owner, taking the
/// row's lock; an absent row is not an error but the defined default `0`.
/// For every well-shaped token the result is exactly the store lookup: the
/// counter's value for a matching credential, `Unauthorized` otherwise.
pub fn get_counter(data: &DataAccess, auth: Option<&str>, tag: &str) -> (r: Result<
    i64,
    TxError<ApiError>,
>)
    requires
        data.inv(),
    ensures
        auth is None ==> r == Err::<i64, TxError<ApiError>>(
            TxError::InnerError(ApiError::Unauthorized),
        ),
        r is Err ==> r == Err::<i64, TxError<ApiError>>(
            TxError::InnerError(ApiError::Unauthorized),
        ),
        forall|p: Seq<u8>, k: Seq<u8>|
            auth is Some && #[trigger] token_shape(auth->0@, p, k) ==> r == (match find_key(
                data.db@.api_keys,
                p,
                sha256_of(k),
            ) {
                Some(owner) => Ok::<i64, TxError<ApiError>>(
                    counter_value(data.db@.counters, owner, tag@) as i64,
                ),
                None => Err::<i64, TxError<ApiError>>(TxError::InnerError(ApiError::Unauthorized)),
            }),
        r is Ok ==> (exists|p: Seq<u8>, k: Seq<u8>, owner: u128|
            #![trigger find_key(data.db@.api_keys, p, sha256_of(k)), counter_value(
                data.db@.counters,
                owner,
                tag@,
            )]
            auth is Some && token_shape(auth->0@, p, k) && find_key(
                data.db@.api_keys,
                p,
                sha256_of(k),
            ) == Some(owner) && r->Ok_0 as int == counter_value(data.db@.counters, owner, tag@)),
{
    let owner_id = match verify(&data.db, auth) {
        Ok(o) => o,
        Err(_) => {
            return Err(TxError::InnerError(ApiError::Unauthorized));
        },
    };
    let found = match data.db.get_counter_by_tag_locking(owner_id, tag) {
        Ok(f) => f,
        Err(_) => None,
    };
    match found {
        Some(cv) => {
            proof {
                let i = choose|i: int|
                    #[trigger] counter_matches(data.db@.counters, i, owner_id, tag@)
                        && data.db@.counters[i].id == cv.0 && data.db@.counters[i].value == cv.1;
                lemma_counter_value_at(data.db@.counters, i, owner_id, tag@);
                let (p, k) = choose|p: Seq<u8>, k: Seq<u8>|
                    auth is Some && token_shape(auth->0@, p, k) && #[trigger] find_key(
                        data.db@.api_keys,
                        p,
                        sha256_of(k),
                    ) == Some(owner_id);
                assert(cv.1 as int == counter_value(data.db@.counters, owner_id, tag@));
            }
            Ok(cv.1)
        },
        None => {
            proof {
                let (p, k) = choose|p: Seq<u8>, k: Seq<u8>|
                    auth is Some && token_shape(auth->0@, p, k) && #[trigger] find_key(
                        data.db@.api_keys,
                        p,
                        sha256_of(k),
                    ) == Some(owner_id);
                assert(counter_value(data.db@.counters, owner_id, tag@) == 0);
            }
            Ok(0)
        },
    }
}

/// Atomically increments the counter named `tag` for the authenticated
/// owner: lock the row and add one, or create it at `1`; a lost creation
/// race is retried within the same transaction, never surfaced.  Concurrent
/// increments serialize in lock order, so the value each caller gets is its
/// position in that order; an existing row below the ceiling is always
/// incremented.
pub fn inc_counter(data: &mut DataAccess, auth: Option<&str>, tag: &str, now: i64) -> (r: Result<
    i64,
    TxError<ApiError>,
>)
    requires
        old(data).inv(),
    ensures
        final(data).inv(),
        final(data).db@.api_keys == old(data).db@.api_keys,
        auth is None ==> r == Err::<i64, TxError<ApiError>>(
            TxError::InnerError(ApiError::Unauthorized),
        ),
        r is Err ==> final(data).db@ == old(data).db@,
        (match r {
            Err(TxError::InnerError(e)) => e == ApiError::Unauthorized,
            _ => true,
        }),
        forall|p: Seq<u8>, k: Seq<u8>|
            auth is Some && #[trigger] token_shape(auth->0@, p, k) ==> (match find_key(
                old(data).db@.api_keys,
                p,
                sha256_of(k),
            ) {
                Some(owner) => inc_outcome(
                    old(data).db@.counters,
                    final(data).db@.counters,
                    owner,
                    tag@,
                    r,
                ),
                None => r == Err::<i64, TxError<ApiError>>(
                    TxError::InnerError(ApiError::Unauthorized),
                ) && final(data).db@ == old(data).db@,
            }),
        auth is Some && (forall|p: Seq<u8>, k: Seq<u8>| !#[trigger] token_shape(auth->0@, p, k))
            ==> r == Err::<i64, TxError<ApiError>>(TxError::InnerError(ApiError::Unauthorized)),
        r == Err::<i64, TxError<ApiError>>(TxError::DbError(Error::UniqueViolation)) ==> old(
            data,
        ).db@.counters.len() > 0,
        r is Ok ==> (exists|p: Seq<u8>, k: Seq<u8>, owner: u128|
            #![trigger find_key(old(data).db@.api_keys, p, sha256_of(k)), counter_value(
                old(data).db@.counters,
                owner,
                tag@,
            )]
            auth is Some && token_shape(auth->0@, p, k) && find_key(
                old(data).db@.api_keys,
                p,
                sha256_of(k),
            ) == Some(owner) && inc_outcome(
                old(data).db@.counters,
                final(data).db@.counters,
                owner,
                tag@,
                r,
            )),
{
    let owner_id = match verify(&data.db, auth) {
        Ok(o) => o,
        Err(_) => {
            return Err(TxError::InnerError(ApiError::Unauthorized));
        },
    };
    let mut attempts: u64 = 0;
    while attempts < CREATE_RETRY_LIMIT
        invariant
            data.inv(),
            data.db@ == old(data).db@,
            attempts <= CREATE_RETRY_LIMIT,
            auth is Some,
            forall|p: Seq<u8>, k: Seq<u8>|
                #[trigger] token_shape(auth->0@, p, k) ==> find_key(
                    old(data).db@.api_keys,
                    p,
                    sha256_of(k),
                ) == Some(owner_id),
            exists|p: Seq<u8>, k: Seq<u8>|
                auth is Some && token_shape(auth->0@, p, k) && #[trigger] find_key(
                    old(data).db@.api_keys,
                    p,
                    sha256_of(k),
                ) == Some(owner_id),
            attempts > 0 ==> !counter_exists(old(data).db@.counters, owner_id, tag@),
            attempts > 0 ==> old(data).db@.counters.len() > 0,
        decreases CREATE_RETRY_LIMIT - attempts,
    {
        let found = match data.db.get_counter_by_tag_locking(owner_id, tag) {
            Ok(f) => f,
            Err(_) => None,
        };
        match found {
            Some(cv) => {
                let ghost pre = data.db@.counters;
                proof {
                    let i = choose|i: int|
                        #[trigger] counter_matches(pre, i, owner_id, tag@) && pre[i].id == cv.0
                            && pre[i].value == cv.1;
                    lemma_counter_value_at(pre, i, owner_id, tag@);
                }
                let nv = match inc_decide(Some(cv.1)) {
                    IncStep::Update { new_value } => new_value,
                    _ => {
                        return Err(TxError::DbError(Error::Overflow));
                    },
                };
                let _ = data.db.update_counter(cv.0, nv, now);
                proof {
                    let i = choose|i: int|
                        #[trigger] counter_matches(pre, i, owner_id, tag@) && pre[i].id == cv.0
                            && pre[i].value == cv.1;
                    assert(0 <= i < pre.len() && pre[i].id == cv.0);
                    assert(crate::db::counter_id_used(pre, cv.0));
                    let j = choose|j: int|
                        0 <= j < pre.len() && #[trigger] pre[j].id == cv.0 && data.db@.counters
                            == pre.update(
                            j,
                            (CounterRec {
                                id: pre[j].id,
                                owner_id: pre[j].owner_id,
                                tag: pre[j].tag,
                                value: nv,
                                last_updated: now,
                            }),
                        );
                    lemma_counter_id_unique(pre, i, j);
                    let rec = CounterRec {
                        id: pre[i].id,
                        owner_id: pre[i].owner_id,
                        tag: pre[i].tag,
                        value: nv,
                        last_updated: now,
                    };
                    lemma_counter_value_at(pre, i, owner_id, tag@);
                    lemma_wf_counters_update(pre, i, rec);
                    let post = data.db@.counters;
                    assert(counter_matches(post, i, owner_id, tag@));
                    lemma_counter_value_at(post, i, owner_id, tag@);
                    lemma_update_preserves_others(pre, post, i, owner_id, tag@);
                    assert(inc_transition(pre, post, owner_id, tag@, nv as int));
                    let (p, k) = choose|p: Seq<u8>, k: Seq<u8>|
                        auth is Some && token_shape(auth->0@, p, k) && #[trigger] find_key(
                            old(data).db@.api_keys,
                            p,
                            sha256_of(k),
                        ) == Some(owner_id);
                    assert(inc_outcome(
                        old(data).db@.counters,
                        post,
                        owner_id,
                        tag@,
                        Ok::<i64, TxError<ApiError>>(nv),
                    ));
                }
                return Ok(nv);
            },
            None => {
                let initial = match inc_decide(None) {
                    IncStep::Create { initial } => initial,
                    _ => 1,
                };
                let created = match data.db.create_counter(owner_id, tag, initial, now) {
                    Ok(b) => b,
                    Err(e) => {
                        return Err(TxError::DbError(e));
                    },
                };
                if created {
                    proof {
                        let ghost pre = old(data).db@.counters;
                        let id = choose|id: u128|
                            !#[trigger] crate::db::counter_id_used(pre, id) && data.db@.counters
                                == pre.push(
                                (CounterRec {
                                    id,
                                    owner_id,
                                    tag: tag@,
                                    value: 1,
                                    last_updated: now,
                                }),
                            );
                        let rec = CounterRec {
                            id,
                            owner_id,
                            tag: tag@,
                            value: 1,
                            last_updated: now,
                        };
                        lemma_wf_counters_push(pre, rec);
                        let post = data.db@.counters;
                        assert(post[pre.len() as int] == rec);
                        assert(counter_matches(post, pre.len() as int, owner_id, tag@));
                        lemma_counter_value_at(post, pre.len() as int, owner_id, tag@);
                        lemma_push_preserves_others(pre, rec);
                        assert(inc_transition(pre, post, owner_id, tag@, 1));
                        let (p, k) = choose|p: Seq<u8>, k: Seq<u8>|
                            auth is Some && token_shape(auth->0@, p, k) && #[trigger] find_key(
                                old(data).db@.api_keys,
                                p,
                                sha256_of(k),
                            ) == Some(owner_id);
                        assert(counter_value(pre, owner_id, tag@) == 0);
                        assert(inc_outcome(
                            pre,
                            post,
                            owner_id,
                            tag@,
                            Ok::<i64, TxError<ApiError>>(1),
                        ));
                    }
                    return Ok(1);
                }
                attempts = attempts + 1;
            },
        }
    }
    Err(TxError::DbError(Error::UniqueViolation))
}

} // verus!
