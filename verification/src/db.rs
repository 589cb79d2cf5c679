//! The persistent store, modeled.
//!
//! The production store is a relational database reached over a connection
//! pool; the library models its committed rows and verifies every operation
//! against that model.  A [`Tx`] holds the rows with exclusive (`&mut`)
//! access, mirroring the row locks a transaction holds: within one call no
//! other transaction can interleave, which is exactly the serialization the
//! row-lock wait queue provides.  [`DataAccess`] owns the committed state;
//! each operation borrows it for exactly one transaction.

use vstd::prelude::*;

verus! {

/// A persisted credential row.  The `verifier` is the one-way digest of the
/// secret; the secret itself is never stored.
pub struct ApiKeyRow {
    pub id: u128,
    pub email: String,
    pub prefix: Vec<u8>,
    pub verifier: Vec<u8>,
    pub created_at: i64,
}

/// A persisted counter row, keyed by `(owner_id, tag)`.
pub struct CounterRow {
    pub id: u128,
    pub owner_id: u128,
    pub tag: String,
    pub value: i64,
    pub last_updated: i64,
}

/// The mathematical image of a credential row.
pub ghost struct KeyRec {
    pub id: u128,
    pub email: Seq<char>,
    pub prefix: Seq<u8>,
    pub verifier: Seq<u8>,
    pub created_at: i64,
}

/// The mathematical image of a counter row.
pub ghost struct CounterRec {
    pub id: u128,
    pub owner_id: u128,
    pub tag: Seq<char>,
    pub value: i64,
    pub last_updated: i64,
}

/// The mathematical image of the whole store.
pub ghost struct StoreView {
    pub api_keys: Seq<KeyRec>,
    pub counters: Seq<CounterRec>,
}

impl View for ApiKeyRow {
    type V = KeyRec;

    open spec fn view(&self) -> KeyRec {
        KeyRec {
            id: self.id,
            email: self.email@,
            prefix: self.prefix@,
            verifier: self.verifier@,
            created_at: self.created_at,
        }
    }
}

impl View for CounterRow {
    type V = CounterRec;

    open spec fn view(&self) -> CounterRec {
        CounterRec {
            id: self.id,
            owner_id: self.owner_id,
            tag: self.tag@,
            value: self.value,
            last_updated: self.last_updated,
        }
    }
}

/// Whether some credential row carries `email`.
pub open spec fn has_email(keys: Seq<KeyRec>, email: Seq<char>) -> bool {
    exists|i: int| 0 <= i < keys.len() && keys[i].email == email
}

/// Whether some credential row carries `id`.
pub open spec fn key_id_used(keys: Seq<KeyRec>, id: u128) -> bool {
    exists|i: int| 0 <= i < keys.len() && keys[i].id == id
}

/// The authenticated owner for a presented `(prefix, verifier)` pair: the
/// identifier of the first credential row carrying both the presented lookup
/// prefix and the presented verifier, if any row does.
pub open spec fn find_key(keys: Seq<KeyRec>, prefix: Seq<u8>, verifier: Seq<u8>) -> Option<u128>
    decreases keys.len(),
{
    if keys.len() == 0 {
        None
    } else if keys[0].prefix == prefix && keys[0].verifier == verifier {
        Some(keys[0].id)
    } else {
        find_key(keys.skip(1), prefix, verifier)
    }
}

/// Whether row `i` of `cs` is the counter row for `(owner, tag)`.
pub open spec fn counter_matches(cs: Seq<CounterRec>, i: int, owner: u128, tag: Seq<char>) -> bool {
    0 <= i < cs.len() && cs[i].owner_id == owner && cs[i].tag == tag
}

/// Whether a counter row for `(owner, tag)` exists.
pub open spec fn counter_exists(cs: Seq<CounterRec>, owner: u128, tag: Seq<char>) -> bool {
    exists|i: int| counter_matches(cs, i, owner, tag)
}

/// Whether some counter row carries `id`.
pub open spec fn counter_id_used(cs: Seq<CounterRec>, id: u128) -> bool {
    exists|i: int| 0 <= i < cs.len() && cs[i].id == id
}

/// The index of the counter row for `(owner, tag)`; meaningful only when one
/// exists, and unique under the store invariant.
pub open spec fn counter_index(cs: Seq<CounterRec>, owner: u128, tag: Seq<char>) -> int {
    choose|i: int| counter_matches(cs, i, owner, tag)
}

/// The value of the counter `(owner, tag)`: the stored value if a row exists,
/// and the defined default `0` otherwise.
pub open spec fn counter_value(cs: Seq<CounterRec>, owner: u128, tag: Seq<char>) -> int {
    if counter_exists(cs, owner, tag) {
        cs[counter_index(cs, owner, tag)].value as int
    } else {
        0
    }
}

/// The credential rows are unique per email and per identifier.
pub open spec fn wf_keys(keys: Seq<KeyRec>) -> bool {
    forall|i: int, j: int| #![trigger keys[i], keys[j]]
        0 <= i < j < keys.len() ==> keys[i].email != keys[j].email && keys[i].id != keys[j].id
}

/// The counter rows are unique per `(owner_id, tag)` and per identifier, and
/// every stored value is at least the initial value `1`.
pub open spec fn wf_counters(cs: Seq<CounterRec>) -> bool {
    &&& forall|i: int, j: int| #![trigger cs[i], cs[j]]
        0 <= i < j < cs.len() ==> !(cs[i].owner_id == cs[j].owner_id && cs[i].tag == cs[j].tag)
            && cs[i].id != cs[j].id
    &&& forall|i: int| #![trigger cs[i]] 0 <= i < cs.len() ==> cs[i].value >= 1
}

/// A fault of the store itself, as opposed to a business-rule failure: the
/// model analogue of a constraint violation or an impossible update.
#[derive(Debug, Clone, Copy, PartialEq, Eq)]
pub enum Error {
    /// An insert hit an already-used unique value (a drawn identifier, or a
    /// uniquely-constrained column).
    UniqueViolation,
    /// A counter cannot grow past the largest representable value.
    Overflow,
}

/// The two-level failure of a store-facing operation: either a fault of the
/// store, or a business-rule failure of type `E`.  Either one rolls the
/// transaction back; only the reporting differs.
#[derive(Debug, PartialEq, Eq)]
pub enum TxError<E> {
    DbError(Error),
    InnerError(E),
}

/// Marks the business-error types that may ride inside a [`TxError`].
pub trait IntoTxError {}

impl IntoTxError for () {}

/// Connection parameters for the production store; the library only carries
/// them, the surrounding program opens the connections.
pub struct Config {
    pub host: String,
    pub port: u16,
    pub database: String,
    pub username: String,
    pub password: String,
}

impl Config {
    pub fn new(host: &str, port: u16, database: &str, username: &str, password: &str) -> (c:
        Config)
        ensures
            c.host@ == host@,
            c.port == port,
            c.database@ == database@,
            c.username@ == username@,
            c.password@ == password@,
    {
        Config {
            host: String::from_str(host),
            port,
            database: String::from_str(database),
            username: String::from_str(username),
            password: String::from_str(password),
        }
    }
}

/// Relies on uuid::Uuid::new_v4 for server-side row identifiers; the draw is
/// random, so nothing is assumed of the returned value.
#[verifier::external_body]
pub(crate) fn fresh_uuid() -> u128 {
    uuid::Uuid::new_v4().as_u128()
}

/// The store as seen from within a transaction.  Holding it `&mut` mirrors
/// the exclusive row locks of the production store: no other operation can
/// observe or change the rows until the call returns.
pub struct Tx {
    pub api_keys: Vec<ApiKeyRow>,
    pub counters: Vec<CounterRow>,
}

impl View for Tx {
    type V = StoreView;

    open spec fn view(&self) -> StoreView {
        StoreView {
            api_keys: self.api_keys@.map_values(|r: ApiKeyRow| r@),
            counters: self.counters@.map_values(|r: CounterRow| r@),
        }
    }
}

impl Tx {
    /// The store invariant: both tables are well formed.
    pub open spec fn inv(&self) -> bool {
        wf_keys(self@.api_keys) && wf_counters(self@.counters)
    }

    /// Whether a credential row for `email` exists.
    pub fn email_exists(&self, email: &str) -> (r: Result<bool, Error>)
        ensures
            r == Ok::<bool, Error>(has_email(self@.api_keys, email@)),
    {
        let n = self.api_keys.len();
        let mut i: usize = 0;
        while i < n
            invariant
                n == self@.api_keys.len(),
                i <= n,
                forall|j: int| 0 <= j < i ==> self@.api_keys[j].email != email@,
            decreases n - i,
        {
            if crate::text::str_eq(self.api_keys[i].email.as_str(), email) {
                assert(self@.api_keys[i as int].email == email@);
                return Ok(true);
            }
            i = i + 1;
        }
        Ok(false)
    }

    /// Inserts a credential row under a caller-supplied identifier.  Succeeds
    /// exactly when neither the email nor the identifier is already used, as
    /// the store's unique constraints demand.
    pub fn insert_api_key_with_id(
        &mut self,
        id: u128,
        email: &str,
        prefix: &[u8],
        hashed_key: &[u8],
        now: i64,
    ) -> (r: Result<(), Error>)
        ensures
            r is Ok <==> (!has_email(old(self)@.api_keys, email@) && !key_id_used(
                old(self)@.api_keys,
                id,
            )),
            r is Ok ==> final(self)@.api_keys == old(self)@.api_keys.push(
                KeyRec {
                    id,
                    email: email@,
                    prefix: prefix@,
                    verifier: hashed_key@,
                    created_at: now,
                },
            ) && final(self)@.counters == old(self)@.counters,
            r is Err ==> final(self)@ == old(self)@ && r == Err::<(), Error>(
                Error::UniqueViolation,
            ),
    {
        let dup_email = match self.email_exists(email) {
            Ok(b) => b,
            Err(_) => true,
        };
        if dup_email {
            return Err(Error::UniqueViolation);
        }
        let n = self.api_keys.len();
        let mut i: usize = 0;
        while i < n
            invariant
                n == self@.api_keys.len(),
                i <= n,
                forall|j: int| 0 <= j < i ==> self@.api_keys[j].id != id,
            decreases n - i,
        {
            if self.api_keys[i].id == id {
                assert(self@.api_keys[i as int].id == id);
                return Err(Error::UniqueViolation);
            }
            i = i + 1;
        }
        let row = ApiKeyRow {
            id,
            email: String::from_str(email),
            prefix: vstd::slice::slice_to_vec(prefix),
            verifier: vstd::slice::slice_to_vec(hashed_key),
            created_at: now,
        };
        let ghost pre = self@.api_keys;
        self.api_keys.push(row);
        proof {
            assert(final(self)@.api_keys =~= pre.push(
                KeyRec {
                    id,
                    email: email@,
                    prefix: prefix@,
                    verifier: hashed_key@,
                    created_at: now,
                },
            ));
            assert(final(self)@.counters =~= old(self)@.counters);
        }
        Ok(())
    }

    /// Inserts a credential row under a freshly drawn identifier, as the
    /// production store does.  The draw is random, so a clash with an
    /// existing identifier — like a duplicate email — surfaces as the store's
    /// unique-constraint fault.
    pub fn insert_api_key(&mut self, email: &str, prefix: &[u8], hashed_key: &[u8], now: i64) -> (r:
        Result<u128, Error>)
        ensures
            match r {
                Ok(id) => !has_email(old(self)@.api_keys, email@) && !key_id_used(
                    old(self)@.api_keys,
                    id,
                ) && final(self)@.api_keys == old(self)@.api_keys.push(
                    KeyRec {
                        id,
                        email: email@,
                        prefix: prefix@,
                        verifier: hashed_key@,
                        created_at: now,
                    },
                ) && final(self)@.counters == old(self)@.counters,
                Err(e) => final(self)@ == old(self)@ && e == Error::UniqueViolation,
            },
            has_email(old(self)@.api_keys, email@) ==> r is Err,
            r is Err ==> has_email(old(self)@.api_keys, email@) || old(self)@.api_keys.len() > 0,
    {
        let id = fresh_uuid();
        let r = self.insert_api_key_with_id(id, email, prefix, hashed_key, now);
        proof {
            if r is Err && !has_email(old(self)@.api_keys, email@) {
                assert(key_id_used(old(self)@.api_keys, id));
                let i = choose|i: int|
                    0 <= i < old(self)@.api_keys.len() && old(self)@.api_keys[i].id == id;
                assert(old(self)@.api_keys.len() > 0);
            }
        }
        match r {
            Ok(()) => Ok(id),
            Err(e) => Err(e),
        }
    }

    /// Looks an owner up by the presented credential material: a row
    /// authenticates only if it carries both the presented lookup prefix and
    /// exactly the presented verifier, the verifier compared without an
    /// early exit.
    pub fn get_user_id_by_key(&self, prefix: &[u8], hashed_key: &[u8]) -> (r: Result<
        Option<u128>,
        Error,
    >)
        ensures
            r == Ok::<Option<u128>, Error>(find_key(self@.api_keys, prefix@, hashed_key@)),
    {
        let n = self.api_keys.len();
        let mut i: usize = 0;
        proof {
            assert(self@.api_keys.skip(0) =~= self@.api_keys);
        }
        while i < n
            invariant
                n == self@.api_keys.len(),
                i <= n,
                find_key(self@.api_keys, prefix@, hashed_key@) == find_key(
                    self@.api_keys.skip(i as int),
                    prefix@,
                    hashed_key@,
                ),
            decreases n - i,
        {
            let row = &self.api_keys[i];
            proof {
                assert(self@.api_keys.skip(i as int)[0] == self@.api_keys[i as int]);
            }
            if crate::token::ct_eq(row.prefix.as_slice(), prefix) {
                if crate::token::ct_eq(row.verifier.as_slice(), hashed_key) {
                    return Ok(Some(row.id));
                }
            }
            proof {
                assert(self@.api_keys.skip(i as int).skip(1) =~= self@.api_keys.skip(i as int + 1));
            }
            i = i + 1;
        }
        proof {
            assert(self@.api_keys.skip(n as int).len() == 0);
        }
        Ok(None)
    }

    /// Reads the counter row for `(owner_id, tag)` and takes its row lock;
    /// absence is not an error.  Holding `self` exclusively already gives
    /// this call the read-for-update semantics.
    pub fn get_counter_by_tag_locking(&self, owner_id: u128, tag: &str) -> (r: Result<
        Option<(u128, i64)>,
        Error,
    >)
        ensures
            r is Ok,
            match r->Ok_0 {
                Some(cv) => exists|i: int|
                    #[trigger] counter_matches(self@.counters, i, owner_id, tag@)
                        && self@.counters[i].id == cv.0 && self@.counters[i].value == cv.1,
                None => !counter_exists(self@.counters, owner_id, tag@),
            },
    {
        let n = self.counters.len();
        let mut i: usize = 0;
        while i < n
            invariant
                n == self@.counters.len(),
                i <= n,
                forall|j: int| 0 <= j < i ==> !counter_matches(self@.counters, j, owner_id, tag@),
            decreases n - i,
        {
            let row = &self.counters[i];
            if row.owner_id == owner_id && crate::text::str_eq(row.tag.as_str(), tag) {
                assert(counter_matches(self@.counters, i as int, owner_id, tag@));
                return Ok(Some((row.id, row.value)));
            }
            i = i + 1;
        }
        Ok(None)
    }

    /// Creates the counter row for `(owner_id, tag)` under a caller-supplied
    /// identifier.  A conflicting row — same key, or same identifier — makes
    /// the insert a no-op affecting zero rows, never a fault.
    pub fn create_counter_with_id(
        &mut self,
        id: u128,
        owner_id: u128,
        tag: &str,
        initial: i64,
        now: i64,
    ) -> (r: Result<bool, Error>)
        requires
            initial >= 1,
        ensures
            r is Ok,
            r == Ok::<bool, Error>(true) <==> (!counter_exists(
                old(self)@.counters,
                owner_id,
                tag@,
            ) && !counter_id_used(old(self)@.counters, id)),
            r == Ok::<bool, Error>(true) ==> final(self)@.counters == old(self)@.counters.push(
                CounterRec { id, owner_id, tag: tag@, value: initial, last_updated: now },
            ) && final(self)@.api_keys == old(self)@.api_keys,
            r == Ok::<bool, Error>(false) ==> final(self)@ == old(self)@,
    {
        let n = self.counters.len();
        let mut i: usize = 0;
        while i < n
            invariant
                n == self@.counters.len(),
                i <= n,
                forall|j: int| 0 <= j < i ==> !counter_matches(self@.counters, j, owner_id, tag@),
                forall|j: int| 0 <= j < i ==> self@.counters[j].id != id,
            decreases n - i,
        {
            let row = &self.counters[i];
            if row.id == id {
                assert(self@.counters[i as int].id == id);
                return Ok(false);
            }
            if row.owner_id == owner_id && crate::text::str_eq(row.tag.as_str(), tag) {
                assert(counter_matches(self@.counters, i as int, owner_id, tag@));
                return Ok(false);
            }
            i = i + 1;
        }
        let row = CounterRow {
            id,
            owner_id,
            tag: String::from_str(tag),
            value: initial,
            last_updated: now,
        };
        let ghost pre = self@.counters;
        self.counters.push(row);
        proof {
            assert(final(self)@.counters =~= pre.push(
                CounterRec { id, owner_id, tag: tag@, value: initial, last_updated: now },
            ));
            assert(final(self)@.api_keys =~= old(self)@.api_keys);
        }
        Ok(true)
    }

    /// Creates the counter row for `(owner_id, tag)` under a freshly drawn
    /// identifier, reporting whether a row was actually inserted.
    pub fn create_counter(&mut self, owner_id: u128, tag: &str, initial: i64, now: i64) -> (r:
        Result<bool, Error>)
        requires
            initial >= 1,
        ensures
            r is Ok,
            r == Ok::<bool, Error>(true) ==> !counter_exists(old(self)@.counters, owner_id, tag@)
                && exists|id: u128|
                !counter_id_used(old(self)@.counters, id) && final(self)@.counters == old(
                    self,
                )@.counters.push(
                    CounterRec { id, owner_id, tag: tag@, value: initial, last_updated: now },
                ),
            r == Ok::<bool, Error>(true) ==> final(self)@.api_keys == old(self)@.api_keys,
            r == Ok::<bool, Error>(false) ==> final(self)@ == old(self)@,
            counter_exists(old(self)@.counters, owner_id, tag@) ==> r == Ok::<bool, Error>(false),
            r == Ok::<bool, Error>(false) ==> counter_exists(old(self)@.counters, owner_id, tag@)
                || old(self)@.counters.len() > 0,
    {
        let id = fresh_uuid();
        let r = self.create_counter_with_id(id, owner_id, tag, initial, now);
        proof {
            if counter_exists(old(self)@.counters, owner_id, tag@) {
                assert(r != Ok::<bool, Error>(true));
                assert(r is Ok && r == Ok::<bool, Error>(r->Ok_0));
                assert(r == Ok::<bool, Error>(false));
            }
            if r == Ok::<bool, Error>(false) && !counter_exists(old(self)@.counters, owner_id, tag@) {
                assert(counter_id_used(old(self)@.counters, id));
                let i = choose|i: int|
                    0 <= i < old(self)@.counters.len() && old(self)@.counters[i].id == id;
                assert(old(self)@.counters.len() > 0);
            }
        }
        r
    }

    /// Updates the counter row carrying `counter_id` to `value`, refreshing
    /// its timestamp; an absent row makes the update affect zero rows.
    pub fn update_counter(&mut self, counter_id: u128, value: i64, now: i64) -> (r: Result<
        (),
        Error,
    >)
        requires
            value >= 1,
        ensures
            r == Ok::<(), Error>(()),
            final(self)@.api_keys == old(self)@.api_keys,
            counter_id_used(old(self)@.counters, counter_id) ==> exists|j: int|
                0 <= j < old(self)@.counters.len() && #[trigger] old(self)@.counters[j].id
                    == counter_id && final(self)@.counters == old(self)@.counters.update(
                    j,
                    CounterRec {
                        id: old(self)@.counters[j].id,
                        owner_id: old(self)@.counters[j].owner_id,
                        tag: old(self)@.counters[j].tag,
                        value,
                        last_updated: now,
                    },
                ),
            !counter_id_used(old(self)@.counters, counter_id) ==> final(self)@ == old(self)@,
    {
        let n = self.counters.len();
        let mut i: usize = 0;
        while i < n
            invariant
                n == self@.counters.len(),
                i <= n,
                self@ == old(self)@,
                forall|j: int| 0 <= j < i ==> self@.counters[j].id != counter_id,
            decreases n - i,
        {
            if self.counters[i].id == counter_id {
                let ghost pre = self@.counters;
                let ghost jj = i as int;
                self.counters[i].value = value;
                self.counters[i].last_updated = now;
                proof {
                    assert(final(self)@.counters =~= pre.update(
                        jj,
                        CounterRec {
                            id: pre[jj].id,
                            owner_id: pre[jj].owner_id,
                            tag: pre[jj].tag,
                            value,
                            last_updated: now,
                        },
                    ));
                    assert(final(self)@.api_keys =~= old(self)@.api_keys);
                }
                return Ok(());
            }
            i = i + 1;
        }
        Ok(())
    }
}

/// One increment step on the counter table: the named counter moves up by
/// one from its prior value (`0` if it had no row), the returned value is the
/// new stored value, and every other counter is untouched.
pub open spec fn inc_transition(
    pre: Seq<CounterRec>,
    post: Seq<CounterRec>,
    owner: u128,
    tag: Seq<char>,
    returned: int,
) -> bool {
    &&& returned == counter_value(pre, owner, tag) + 1
    &&& counter_exists(post, owner, tag)
    &&& counter_value(post, owner, tag) == returned
    &&& forall|o2: u128, t2: Seq<char>|
        !(o2 == owner && t2 == tag) ==> #[trigger] counter_value(post, o2, t2) == counter_value(
            pre,
            o2,
            t2,
        ) && (counter_exists(post, o2, t2) <==> counter_exists(pre, o2, t2))
}

/// Appending a credential row with a fresh email and a fresh identifier
/// keeps the credential table well formed.
pub proof fn lemma_wf_keys_push(keys: Seq<KeyRec>, rec: KeyRec)
    requires
        wf_keys(keys),
        !has_email(keys, rec.email),
        !key_id_used(keys, rec.id),
    ensures
        wf_keys(keys.push(rec)),
{
    let post = keys.push(rec);
    assert forall|i: int, j: int| #![trigger post[i], post[j]] 0 <= i < j < post.len() implies post[i].email
        != post[j].email && post[i].id != post[j].id by {
        if j < keys.len() {
            assert(post[i] == keys[i] && post[j] == keys[j]);
            assert(keys[i].email != keys[j].email && keys[i].id != keys[j].id);
        } else {
            assert(post[j] == rec && post[i] == keys[i]);
            assert(!(0 <= i < keys.len() && keys[i].email == rec.email));
            assert(!(0 <= i < keys.len() && keys[i].id == rec.id));
        }
    }
}

/// Appending a counter row with a fresh key and a fresh identifier keeps the
/// counter table well formed.
pub proof fn lemma_wf_counters_push(cs: Seq<CounterRec>, rec: CounterRec)
    requires
        wf_counters(cs),
        !counter_exists(cs, rec.owner_id, rec.tag),
        !counter_id_used(cs, rec.id),
        rec.value >= 1,
    ensures
        wf_counters(cs.push(rec)),
{
    let post = cs.push(rec);
    assert forall|i: int, j: int| #![trigger post[i], post[j]] 0 <= i < j < post.len() implies !(post[i].owner_id
        == post[j].owner_id && post[i].tag == post[j].tag) && post[i].id != post[j].id by {
        if j < cs.len() {
            assert(post[i] == cs[i] && post[j] == cs[j]);
            assert(!(cs[i].owner_id == cs[j].owner_id && cs[i].tag == cs[j].tag) && cs[i].id
                != cs[j].id);
        } else {
            assert(post[j] == rec && post[i] == cs[i]);
            assert(!counter_matches(cs, i, rec.owner_id, rec.tag));
            assert(!(0 <= i < cs.len() && cs[i].id == rec.id));
        }
    }
    assert forall|i: int| #![trigger post[i]] 0 <= i < post.len() implies post[i].value >= 1 by {
        if i < cs.len() {
            assert(post[i] == cs[i]);
        }
    }
}

/// Rewriting one counter row in place — same key, same identifier, a value of
/// at least one — keeps the counter table well formed.
pub proof fn lemma_wf_counters_update(cs: Seq<CounterRec>, j: int, rec: CounterRec)
    requires
        wf_counters(cs),
        0 <= j < cs.len(),
        rec.owner_id == cs[j].owner_id,
        rec.tag == cs[j].tag,
        rec.id == cs[j].id,
        rec.value >= 1,
    ensures
        wf_counters(cs.update(j, rec)),
{
    let post = cs.update(j, rec);
    assert forall|a: int, b: int| #![trigger post[a], post[b]] 0 <= a < b < post.len() implies !(post[a].owner_id
        == post[b].owner_id && post[a].tag == post[b].tag) && post[a].id != post[b].id by {
        assert(!(cs[a].owner_id == cs[b].owner_id && cs[a].tag == cs[b].tag) && cs[a].id
            != cs[b].id);
    }
    assert forall|a: int| #![trigger post[a]] 0 <= a < post.len() implies post[a].value >= 1 by {
        if a != j {
            assert(post[a] == cs[a]);
        }
    }
}

/// Under the store invariant the counter row for a key is unique.
pub proof fn lemma_counter_unique(cs: Seq<CounterRec>, i: int, j: int, owner: u128, tag: Seq<char>)
    requires
        wf_counters(cs),
        counter_matches(cs, i, owner, tag),
        counter_matches(cs, j, owner, tag),
    ensures
        i == j,
{
    if i < j {
        assert(!(cs[i].owner_id == cs[j].owner_id && cs[i].tag == cs[j].tag));
    } else if j < i {
        assert(!(cs[j].owner_id == cs[i].owner_id && cs[j].tag == cs[i].tag));
    }
}

/// Under the store invariant a counter identifier names at most one row.
pub proof fn lemma_counter_id_unique(cs: Seq<CounterRec>, i: int, j: int)
    requires
        wf_counters(cs),
        0 <= i < cs.len(),
        0 <= j < cs.len(),
        cs[i].id == cs[j].id,
    ensures
        i == j,
{
    if i < j {
        assert(!(cs[i].owner_id == cs[j].owner_id && cs[i].tag == cs[j].tag) && cs[i].id
            != cs[j].id);
    } else if j < i {
        assert(!(cs[j].owner_id == cs[i].owner_id && cs[j].tag == cs[i].tag) && cs[j].id
            != cs[i].id);
    }
}

/// A matching row pins down the counter's value: under the store invariant
/// the chosen index is the matching one.
pub proof fn lemma_counter_value_at(cs: Seq<CounterRec>, i: int, owner: u128, tag: Seq<char>)
    requires
        wf_counters(cs),
        counter_matches(cs, i, owner, tag),
    ensures
        counter_exists(cs, owner, tag),
        counter_index(cs, owner, tag) == i,
        counter_value(cs, owner, tag) == cs[i].value as int,
{
    assert(counter_exists(cs, owner, tag));
    let j = counter_index(cs, owner, tag);
    assert(counter_matches(cs, j, owner, tag));
    lemma_counter_unique(cs, i, j, owner, tag);
}

/// Rewriting the row of one key in place leaves every other counter's
/// existence and value unchanged.
pub proof fn lemma_update_preserves_others(
    pre: Seq<CounterRec>,
    post: Seq<CounterRec>,
    i: int,
    owner: u128,
    tag: Seq<char>,
)
    requires
        wf_counters(pre),
        wf_counters(post),
        0 <= i < pre.len(),
        post.len() == pre.len(),
        pre[i].owner_id == owner,
        pre[i].tag == tag,
        post[i].owner_id == owner,
        post[i].tag == tag,
        forall|m: int| 0 <= m < pre.len() && m != i ==> post[m] == pre[m],
    ensures
        forall|o2: u128, t2: Seq<char>|
            !(o2 == owner && t2 == tag) ==> #[trigger] counter_value(post, o2, t2)
                == counter_value(pre, o2, t2) && (counter_exists(post, o2, t2) <==> counter_exists(
                pre,
                o2,
                t2,
            )),
{
    assert forall|o2: u128, t2: Seq<char>| !(o2 == owner && t2 == tag) implies #[trigger] counter_value(
        post,
        o2,
        t2,
    ) == counter_value(pre, o2, t2) && (counter_exists(post, o2, t2) <==> counter_exists(
        pre,
        o2,
        t2,
    )) by {
        if counter_exists(pre, o2, t2) {
            let m = counter_index(pre, o2, t2);
            assert(counter_matches(pre, m, o2, t2));
            assert(m != i);
            assert(counter_matches(post, m, o2, t2));
            lemma_counter_value_at(pre, m, o2, t2);
            lemma_counter_value_at(post, m, o2, t2);
        } else if counter_exists(post, o2, t2) {
            let m = counter_index(post, o2, t2);
            assert(counter_matches(post, m, o2, t2));
            assert(m != i);
            assert(counter_matches(pre, m, o2, t2));
        }
    }
}

/// Appending the row of a new key leaves every other counter's existence and
/// value unchanged.
pub proof fn lemma_push_preserves_others(pre: Seq<CounterRec>, rec: CounterRec)
    requires
        wf_counters(pre),
        wf_counters(pre.push(rec)),
    ensures
        forall|o2: u128, t2: Seq<char>|
            !(o2 == rec.owner_id && t2 == rec.tag) ==> #[trigger] counter_value(
                pre.push(rec),
                o2,
                t2,
            ) == counter_value(pre, o2, t2) && (counter_exists(pre.push(rec), o2, t2)
                <==> counter_exists(pre, o2, t2)),
{
    let post = pre.push(rec);
    assert forall|o2: u128, t2: Seq<char>| !(o2 == rec.owner_id && t2 == rec.tag) implies #[trigger] counter_value(
        post,
        o2,
        t2,
    ) == counter_value(pre, o2, t2) && (counter_exists(post, o2, t2) <==> counter_exists(
        pre,
        o2,
        t2,
    )) by {
        if counter_exists(pre, o2, t2) {
            let m = counter_index(pre, o2, t2);
            assert(counter_matches(pre, m, o2, t2));
            assert(post[m] == pre[m]);
            assert(counter_matches(post, m, o2, t2));
            lemma_counter_value_at(pre, m, o2, t2);
            lemma_counter_value_at(post, m, o2, t2);
        } else if counter_exists(post, o2, t2) {
            let m = counter_index(post, o2, t2);
            assert(counter_matches(post, m, o2, t2));
            assert(m != pre.len());
            assert(post[m] == pre[m]);
            assert(counter_matches(pre, m, o2, t2));
        }
    }
}

/// An owner the lookup returns is the identifier of a row carrying exactly
/// the presented material.
pub proof fn lemma_find_key_mem(keys: Seq<KeyRec>, prefix: Seq<u8>, verifier: Seq<u8>)
    requires
        find_key(keys, prefix, verifier) is Some,
    ensures
        exists|i: int|
            0 <= i < keys.len() && #[trigger] keys[i].id == find_key(keys, prefix, verifier)->0
                && keys[i].prefix == prefix && keys[i].verifier == verifier,
    decreases keys.len(),
{
    if keys.len() == 0 {
    } else if keys[0].prefix == prefix && keys[0].verifier == verifier {
        assert(keys[0].id == find_key(keys, prefix, verifier)->0);
    } else {
        lemma_find_key_mem(keys.skip(1), prefix, verifier);
        let i = choose|i: int|
            0 <= i < keys.skip(1).len() && #[trigger] keys.skip(1)[i].id == find_key(
                keys.skip(1),
                prefix,
                verifier,
            )->0 && keys.skip(1)[i].prefix == prefix && keys.skip(1)[i].verifier == verifier;
        assert(keys[i + 1] == keys.skip(1)[i]);
        assert(keys[i + 1].id == find_key(keys, prefix, verifier)->0);
    }
}

/// A row carrying the presented material which no earlier row duplicates is
/// the one the lookup returns.
pub proof fn lemma_find_key_first(keys: Seq<KeyRec>, i: int)
    requires
        0 <= i < keys.len(),
        forall|j: int|
            0 <= j < i ==> !(#[trigger] keys[j].prefix == keys[i].prefix && keys[j].verifier
                == keys[i].verifier),
    ensures
        find_key(keys, keys[i].prefix, keys[i].verifier) == Some(keys[i].id),
    decreases i,
{
    if i == 0 {
    } else {
        assert(!(keys[0].prefix == keys[i].prefix && keys[0].verifier == keys[i].verifier));
        assert(keys.skip(1)[i - 1] == keys[i]);
        assert forall|j: int|
            0 <= j < i - 1 implies !(#[trigger] keys.skip(1)[j].prefix == keys.skip(1)[i
                - 1].prefix && keys.skip(1)[j].verifier == keys.skip(1)[i - 1].verifier) by {
            assert(keys.skip(1)[j] == keys[j + 1]);
        }
        lemma_find_key_first(keys.skip(1), i - 1);
    }
}

/// When no row carries the presented material, the lookup refuses.
pub proof fn lemma_find_key_none(keys: Seq<KeyRec>, prefix: Seq<u8>, verifier: Seq<u8>)
    requires
        forall|j: int|
            0 <= j < keys.len() ==> !(#[trigger] keys[j].prefix == prefix && keys[j].verifier
                == verifier),
    ensures
        find_key(keys, prefix, verifier) is None,
    decreases keys.len(),
{
    if keys.len() > 0 {
        assert(!(keys[0].prefix == prefix && keys[0].verifier == verifier));
        assert forall|j: int|
            0 <= j < keys.skip(1).len() implies !(#[trigger] keys.skip(1)[j].prefix == prefix
                && keys.skip(1)[j].verifier == verifier) by {
            assert(keys.skip(1)[j] == keys[j + 1]);
        }
        lemma_find_key_none(keys.skip(1), prefix, verifier);
    }
}

/// The committed store, as the rest of the program sees it: operations open a
/// transaction on it, and either commit fully or leave it untouched.
pub struct DataAccess {
    pub db: Tx,
}

impl DataAccess {
    /// The store invariant, established at creation and preserved by every
    /// operation.
    pub open spec fn inv(&self) -> bool {
        self.db.inv()
    }

    /// A fresh, empty store.
    pub fn new() -> (d: DataAccess)
        ensures
            d.inv(),
            d.db@.api_keys.len() == 0,
            d.db@.counters.len() == 0,
    {
        DataAccess { db: Tx { api_keys: Vec::new(), counters: Vec::new() } }
    }
}

} // verus!
