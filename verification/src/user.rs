//! User lookup: which NFC card belongs to which member, and each member's name

use crate::nfc::{spec_parse_uid, InvalidUid, Uid};
use crate::text::has_infix;
use crate::vereinsflieger::proto_user::{keys_with_prefix, lowercase, str_views};
use crate::vereinsflieger::proto_user::User as VereinsfliegerUser;
use std::collections::BTreeMap;
use vstd::prelude::*;
use vstd::string::StringSliceAdditionalSpecFns;
use vstd::utf8::encode_utf8;

verus! {

// ---------------------------------------------------------------------------------------------
// Association lists: a sequence of pairs with distinct keys, read as a map
// ---------------------------------------------------------------------------------------------

/// Map of a sequence of pairs (a later pair wins over an earlier one with the same key)
pub open spec fn pairs_map<K, V>(ps: Seq<(K, V)>) -> Map<K, V>
    decreases ps.len(),
{
    if ps.len() == 0 {
        Map::empty()
    } else {
        pairs_map(ps.drop_last()).insert(ps.last().0, ps.last().1)
    }
}

/// No key occurs twice
pub open spec fn distinct_keys<K, V>(ps: Seq<(K, V)>) -> bool {
    forall|i: int, j: int| 0 <= i < j < ps.len() ==> #[trigger] ps[i].0 != #[trigger] ps[j].0
}

pub proof fn lemma_pairs_map_lookup<K, V>(ps: Seq<(K, V)>)
    requires
        distinct_keys(ps),
    ensures
        pairs_map(ps).dom().finite(),
        pairs_map(ps).dom().len() == ps.len(),
        forall|i: int|
            0 <= i < ps.len() ==> pairs_map(ps).dom().contains(#[trigger] ps[i].0) && pairs_map(
                ps,
            )[ps[i].0] == ps[i].1,
        forall|k: K|
            pairs_map(ps).dom().contains(k) ==> exists|i: int| 0 <= i < ps.len() && #[trigger] ps[i].0 == k,
    decreases ps.len(),
{
    if ps.len() > 0 {
        let init = ps.drop_last();
        assert(distinct_keys(init)) by {
            assert forall|i: int, j: int| 0 <= i < j < init.len() implies #[trigger] init[i].0
                != #[trigger] init[j].0 by {
                assert(init[i] == ps[i] && init[j] == ps[j]);
            }
        }
        lemma_pairs_map_lookup(init);
        let last = ps.last();
        assert(!pairs_map(init).dom().contains(last.0)) by {
            if pairs_map(init).dom().contains(last.0) {
                let i = choose|i: int| 0 <= i < init.len() && #[trigger] init[i].0 == last.0;
                assert(ps[i].0 == ps[ps.len() - 1].0);
            }
        }
        assert forall|i: int| 0 <= i < ps.len() implies pairs_map(ps).dom().contains(
            #[trigger] ps[i].0,
        ) && pairs_map(ps)[ps[i].0] == ps[i].1 by {
            if i < ps.len() - 1 {
                assert(init[i] == ps[i]);
                assert(ps[i].0 != last.0);
            }
        }
        assert forall|k: K| pairs_map(ps).dom().contains(k) implies exists|i: int|
            0 <= i < ps.len() && #[trigger] ps[i].0 == k by {
            if k != last.0 {
                let i = choose|i: int| 0 <= i < init.len() && #[trigger] init[i].0 == k;
                assert(ps[i] == init[i]);
            } else {
                assert(ps[ps.len() - 1].0 == k);
            }
        }
    }
}

/// The map of a sequence of pairs is finite
pub proof fn lemma_pairs_map_finite<K, V>(ps: Seq<(K, V)>)
    ensures
        pairs_map(ps).dom().finite(),
    decreases ps.len(),
{
    if ps.len() > 0 {
        lemma_pairs_map_finite(ps.drop_last());
    }
}

/// Adding a key to a finite map's domain grows it by one exactly when the key is new
pub proof fn lemma_insert_len<K, V>(m: Map<K, V>, k: K, v: V)
    requires
        m.dom().finite(),
    ensures
        m.insert(k, v).dom().finite(),
        m.insert(k, v).dom().len() == m.dom().len() + if m.dom().contains(k) {
            0int
        } else {
            1int
        },
{
    if m.dom().contains(k) {
        assert(m.insert(k, v).dom() =~= m.dom());
    }
}

pub proof fn lemma_pairs_map_update<K, V>(ps: Seq<(K, V)>, i: int, v: V)
    requires
        distinct_keys(ps),
        0 <= i < ps.len(),
    ensures
        distinct_keys(ps.update(i, (ps[i].0, v))),
        pairs_map(ps.update(i, (ps[i].0, v))) == pairs_map(ps).insert(ps[i].0, v),
    decreases ps.len(),
{
    let k = ps[i].0;
    let qs = ps.update(i, (k, v));
    assert forall|a: int, b: int| 0 <= a < b < qs.len() implies #[trigger] qs[a].0
        != #[trigger] qs[b].0 by {
        assert(qs[a].0 == ps[a].0 && qs[b].0 == ps[b].0);
    }
    if i == ps.len() - 1 {
        assert(qs.drop_last() =~= ps.drop_last());
        assert(pairs_map(qs) =~= pairs_map(ps).insert(k, v));
    } else {
        let init = ps.drop_last();
        assert(distinct_keys(init)) by {
            assert forall|a: int, b: int| 0 <= a < b < init.len() implies #[trigger] init[a].0
                != #[trigger] init[b].0 by {
                assert(init[a] == ps[a] && init[b] == ps[b]);
            }
        }
        lemma_pairs_map_update(init, i, v);
        assert(qs.drop_last() =~= init.update(i, (k, v)));
        assert(ps.last().0 != k);
        assert(pairs_map(qs) =~= pairs_map(ps).insert(k, v));
    }
}

pub proof fn lemma_distinct_push<K, V>(ps: Seq<(K, V)>, k: K, v: V)
    requires
        distinct_keys(ps),
        !pairs_map(ps).dom().contains(k),
    ensures
        distinct_keys(ps.push((k, v))),
{
    lemma_pairs_map_lookup(ps);
    let qs = ps.push((k, v));
    assert forall|a: int, b: int| 0 <= a < b < qs.len() implies #[trigger] qs[a].0
        != #[trigger] qs[b].0 by {
        if b == ps.len() {
            assert(qs[a] == ps[a]);
            assert(pairs_map(ps).dom().contains(ps[a].0));
        } else {
            assert(qs[a] == ps[a] && qs[b] == ps[b]);
        }
    }
}

// ---------------------------------------------------------------------------------------------
// Users
// ---------------------------------------------------------------------------------------------

/// User id, the Vereinsflieger `memberid` attribute
pub type UserId = u32;

/// User information
#[derive(Debug)]
pub struct User {
    pub name: String,
}

/// Label prefix of the keys that hold NFC card UIDs
pub open spec fn nfc_key_prefix() -> Seq<char> {
    "NFC Transponder"@
}

/// Name of the user that the test cards belong to
pub open spec fn test_user_name() -> Seq<char> {
    "Test-User"@
}

/// User id of the test cards
pub open spec fn test_user_id() -> u32 {
    3
}

/// Card UIDs that are always known: a test card and a test token (Mifare Classic 1k)
pub open spec fn extra_uids() -> Map<Seq<u8>, u32> {
    map![
        seq![0x13u8, 0xbdu8, 0x5bu8, 0x2au8] => test_user_id(),
        seq![0xb7u8, 0xd3u8, 0x65u8, 0x26u8] => test_user_id(),
    ]
}

/// Users that are always known: the user of the test cards
pub open spec fn extra_users() -> Map<u32, Seq<char>> {
    map![test_user_id() => test_user_name()]
}

/// Card UIDs after adding those parsed from the given key numbers, in order, for a user id
pub open spec fn uids_from_keys(m: Map<Seq<u8>, u32>, keys: Seq<Seq<char>>, id: u32) -> Map<
    Seq<u8>,
    u32,
>
    decreases keys.len(),
{
    if keys.len() == 0 {
        m
    } else {
        let init = uids_from_keys(m, keys.drop_last(), id);
        match spec_parse_uid(encode_utf8(keys.last())) {
            Ok(b) => init.insert(b, id),
            Err(_) => init,
        }
    }
}

/// Some key number parses as a card UID
pub open spec fn has_valid_key(keys: Seq<Seq<char>>) -> bool {
    exists|i: int| 0 <= i < keys.len() && #[trigger] spec_parse_uid(encode_utf8(keys[i])) is Ok
}

/// Whether a Vereinsflieger user has retired, as `is_retired` decides
pub open spec fn retired(user: VereinsfliegerUser) -> bool {
    has_infix(lowercase(user.memberstatus@), "ausgeschieden"@)
}

/// User lookup table: look up user information (member id and name) by NFC uid
#[derive(Debug)]
pub struct Users {
    /// NFC uid to user id
    uids: Vec<(Uid, UserId)>,
    /// User id to user information
    users: BTreeMap<UserId, User>,
}

/// Pairs of card UID bytes and user ids
pub open spec fn uid_pairs(es: Seq<(Uid, UserId)>) -> Seq<(Seq<u8>, u32)> {
    es.map_values(|e: (Uid, UserId)| (e.0@, e.1))
}

impl Users {
    #[verifier::type_invariant]
    closed spec fn inv(self) -> bool {
        distinct_keys(uid_pairs(self.uids@))
    }

    /// Which card UID belongs to which user id
    pub closed spec fn uid_map(&self) -> Map<Seq<u8>, u32> {
        pairs_map(uid_pairs(self.uids@))
    }

    /// Which user id has which name
    pub closed spec fn user_map(&self) -> Map<u32, Seq<char>> {
        self.users@.map_values(|u: User| u.name@)
    }

    /// The card and user tables are finite
    pub open spec fn tables_finite(&self) -> bool {
        &&& self.uid_map().dom().finite()
        &&& self.user_map().dom().finite()
    }

    /// The card and user tables of every user lookup table are finite
    pub proof fn lemma_tables_finite(&self)
        ensures
            self.tables_finite(),
    {
        lemma_pairs_map_finite(uid_pairs(self.uids@));
        assert(self.user_map().dom() =~= self.users@.dom());
    }

    /// Create new user lookup table, knowing only the test cards and their user
    pub fn new() -> (r: Self)
        ensures
            r.uid_map() == extra_uids(),
            r.user_map() == extra_users(),
            r.tables_finite(),
    {
        let mut this = Users { uids: Vec::new(), users: BTreeMap::new() };
        this.clear();
        this
    }

    /// Clear all user information, keeping only the test cards and their user
    pub fn clear(&mut self)
        ensures
            final(self).uid_map() == extra_uids(),
            final(self).user_map() == extra_users(),
            final(self).tables_finite(),
    {
        proof {
            use_type_invariant(&*self);
        }
        let mut uids: Vec<(Uid, UserId)> = Vec::new();
        uids.push((Uid::Single([0x13u8, 0xbdu8, 0x5bu8, 0x2au8]), 3));
        uids.push((Uid::Single([0xb7u8, 0xd3u8, 0x65u8, 0x26u8]), 3));
        let mut users: BTreeMap<UserId, User> = BTreeMap::new();
        let _ = users.insert(3, User { name: String::from_str("Test-User") });
        let ghost up = uid_pairs(uids@);
        proof {
            let a = seq![0x13u8, 0xbdu8, 0x5bu8, 0x2au8];
            let b = seq![0xb7u8, 0xd3u8, 0x65u8, 0x26u8];
            assert(uids@[0].0@ =~= a);
            assert(uids@[1].0@ =~= b);
            assert(up =~= seq![(a, 3u32), (b, 3u32)]);
            assert(a[0] != b[0]);
            assert(up.drop_last() =~= seq![(a, 3u32)]);
            assert(seq![(a, 3u32)].drop_last() =~= Seq::<(Seq<u8>, u32)>::empty());
            reveal_with_fuel(pairs_map, 3);
            assert(pairs_map(up) =~= extra_uids());
            assert(users@.map_values(|u: User| u.name@) =~= extra_users());
            assert(distinct_keys(up));
        }
        self.uids = uids;
        self.users = users;
    }

    /// Add/update NFC uid to point to given user id
    pub fn update_uid(&mut self, uid: Uid, id: UserId)
        ensures
            final(self).uid_map() == old(self).uid_map().insert(uid@, id),
            final(self).user_map() == old(self).user_map(),
            final(self).tables_finite(),
    {
        proof {
            old(self).lemma_tables_finite();
            crate::user::lemma_insert_len(old(self).uid_map(), uid@, id);
        }
        proof {
            use_type_invariant(&*self);
        }
        let ghost k = uid@;
        let mut uids: Vec<(Uid, UserId)> = Vec::new();
        std::mem::swap(&mut uids, &mut self.uids);
        let ghost ps = uid_pairs(uids@);
        let mut i: usize = 0;
        while i < uids.len()
            invariant
                i <= uids@.len(),
                ps == uid_pairs(uids@),
                distinct_keys(ps),
                pairs_map(ps) == old(self).uid_map(),
                self.users@ == old(self).users@,
                self.uids@.len() == 0,
                k == uid@,
                old(self).tables_finite(),
                old(self).uid_map().insert(k, id).dom().finite(),
                forall|j: int| 0 <= j < i ==> #[trigger] uids@[j].0@ != k,
            decreases uids.len() - i,
        {
            if uids[i].0.same(&uid) {
                proof {
                    assert(ps[i as int].0 == k);
                    lemma_pairs_map_update(ps, i as int, id);
                }
                uids.set(i, (uid, id));
                assert(uid_pairs(uids@) =~= ps.update(i as int, (k, id)));
                self.uids = uids;
                return;
            }
            i = i + 1;
        }
        proof {
            lemma_pairs_map_lookup(ps);
            if pairs_map(ps).dom().contains(k) {
                let j = choose|j: int| 0 <= j < ps.len() && #[trigger] ps[j].0 == k;
                assert(uids@[j].0@ == k);
            }
            lemma_distinct_push(ps, k, id);
        }
        uids.push((uid, id));
        assert(uid_pairs(uids@) =~= ps.push((k, id)));
        assert(ps.push((k, id)).drop_last() =~= ps);
        self.uids = uids;
    }

    /// Add/update user with given user id
    pub fn update_user(&mut self, id: UserId, name: String)
        ensures
            final(self).user_map() == old(self).user_map().insert(id, name@),
            final(self).uid_map() == old(self).uid_map(),
            final(self).tables_finite(),
    {
        let ghost nm = name@;
        proof {
            use_type_invariant(&*self);
        }
        let mut users: BTreeMap<UserId, User> = BTreeMap::new();
        std::mem::swap(&mut users, &mut self.users);
        let _ = users.insert(id, User { name });
        self.users = users;
        proof {
            assert(self.user_map() =~= old(self).user_map().insert(id, nm));
            self.lemma_tables_finite();
        }
    }

    /// Add/update NFC uids and user using the given Vereinsflieger user: unless the user has
    /// retired, each key labelled as NFC transponder whose number is a valid UID points to the
    /// user, and the user is added with its first name if it has any such key
    pub fn update_vereinsflieger_user(&mut self, user: &VereinsfliegerUser)
        ensures
            retired(*user) ==> final(self).uid_map() == old(self).uid_map(),
            retired(*user) ==> final(self).user_map() == old(self).user_map(),
            !retired(*user) ==> final(self).uid_map() == uids_from_keys(
                old(self).uid_map(),
                keys_with_prefix(user.keymanagement@, nfc_key_prefix()),
                user.memberid,
            ),
            !retired(*user) ==> final(self).user_map() == if has_valid_key(
                keys_with_prefix(user.keymanagement@, nfc_key_prefix()),
            ) {
                old(self).user_map().insert(user.memberid, user.firstname@)
            } else {
                old(self).user_map()
            },
            forall|b: Seq<u8>|
                !retired(*user) && #[trigger] member_card_uids(*user).contains(b)
                    ==> final(self).uid_map().dom().contains(b)
                    && final(self).uid_map()[b] == user.memberid,
            forall|b: Seq<u8>|
                !(!retired(*user) && #[trigger] member_card_uids(*user).contains(b))
                    ==> (final(self).uid_map().dom().contains(b)
                    == old(self).uid_map().dom().contains(b))
                    && (old(self).uid_map().dom().contains(b)
                    ==> final(self).uid_map()[b] == old(self).uid_map()[b]),
            !retired(*user) && !member_card_uids(*user).is_empty()
                ==> final(self).user_map()
                == old(self).user_map().insert(user.memberid, user.firstname@),
            retired(*user) || member_card_uids(*user).is_empty()
                ==> final(self).user_map() == old(self).user_map(),
            final(self).tables_finite(),
    {
        proof {
            self.lemma_tables_finite();
            law_user_update(self.uid_map(), self.user_map(), *user);
        }
        if user.is_retired() {
            return;
        }
        let keys = user.keys_named_with_prefix("NFC Transponder");
        let ghost ks = keys_with_prefix(user.keymanagement@, nfc_key_prefix());
        let ghost m0 = self.uid_map();
        let ghost u0 = self.user_map();
        let mut has_valid_keys = false;
        let mut i: usize = 0;
        assert(str_views(keys@) == ks);
        assert(ks.take(0) =~= Seq::<Seq<char>>::empty());
        while i < keys.len()
            invariant
                i <= keys@.len(),
                str_views(keys@) == ks,
                self.uid_map() == uids_from_keys(m0, ks.take(i as int), user.memberid),
                self.user_map() == u0,
                self.tables_finite(),
                has_valid_keys == has_valid_key(ks.take(i as int)),
            decreases keys.len() - i,
        {
            let ghost t = ks.take(i + 1);
            assert(t.drop_last() =~= ks.take(i as int));
            assert(t.last() == keys@[i as int]@);
            match Uid::from_str(keys[i]) {
                Ok(uid) => {
                    self.update_uid(uid, user.memberid);
                    has_valid_keys = true;
                    assert(t[i as int] == t.last());
                },
                Err(_) => {
                    assert forall|j: int| 0 <= j < t.len() && #[trigger] spec_parse_uid(
                        encode_utf8(t[j]),
                    ) is Ok implies j < i by {}
                    assert(has_valid_key(t) == has_valid_key(ks.take(i as int))) by {
                        if has_valid_key(t) {
                            let j = choose|j: int| 0 <= j < t.len() && #[trigger] spec_parse_uid(
                                encode_utf8(t[j]),
                            ) is Ok;
                            assert(ks.take(i as int)[j] == t[j]);
                        }
                        if has_valid_key(ks.take(i as int)) {
                            let j = choose|j: int| 0 <= j < i && #[trigger] spec_parse_uid(
                                encode_utf8(ks.take(i as int)[j]),
                            ) is Ok;
                            assert(ks.take(i as int)[j] == t[j]);
                        }
                    }
                },
            }
            proof {
                if has_valid_key(ks.take(i as int)) {
                    let j = choose|j: int| 0 <= j < i && #[trigger] spec_parse_uid(
                        encode_utf8(ks.take(i as int)[j]),
                    ) is Ok;
                    assert(ks.take(i as int)[j] == t[j]);
                }
            }
            i = i + 1;
        }
        assert(ks.take(i as int) =~= ks);
        if has_valid_keys {
            let name = user.firstname.clone();
            self.update_user(user.memberid, name);
        }
    }

    /// Number of uids
    pub fn count_uids(&self) -> (r: usize)
        ensures
            self.uid_map().dom().finite(),
            r == self.uid_map().dom().len(),
    {
        proof {
            use_type_invariant(self);
            lemma_pairs_map_lookup(uid_pairs(self.uids@));
        }
        self.uids.len()
    }

    /// Number of users
    pub fn count(&self) -> (r: usize)
        ensures
            self.user_map().dom().finite(),
            r == self.user_map().dom().len(),
    {
        proof {
            self.lemma_tables_finite();
            assert(self.user_map().dom() =~= self.users@.dom());
        }
        self.users.len()
    }

    /// Look up user by user id
    pub fn get(&self, id: UserId) -> (r: Option<&User>)
        ensures
            match r {
                Some(u) => self.user_map().dom().contains(id) && u.name@ == self.user_map()[id],
                None => !self.user_map().dom().contains(id),
            },
    {
        self.users.get(&id)
    }

    /// Look up user by NFC uid
    pub fn get_by_uid(&self, uid: &Uid) -> (r: Option<(UserId, &User)>)
        ensures
            match r {
                Some((id, u)) => self.uid_map().dom().contains(uid@) && id == self.uid_map()[uid@]
                    && self.user_map().dom().contains(id) && u.name@ == self.user_map()[id],
                None => !self.uid_map().dom().contains(uid@) || !self.user_map().dom().contains(
                    self.uid_map()[uid@],
                ),
            },
    {
        proof {
            use_type_invariant(self);
            lemma_pairs_map_lookup(uid_pairs(self.uids@));
        }
        let ghost ps = uid_pairs(self.uids@);
        let mut i: usize = 0;
        while i < self.uids.len()
            invariant
                i <= self.uids@.len(),
                ps == uid_pairs(self.uids@),
                forall|j: int| 0 <= j < i ==> #[trigger] self.uids@[j].0@ != uid@,
            decreases self.uids.len() - i,
        {
            if self.uids[i].0.same(uid) {
                proof {
                    use_type_invariant(self);
                    lemma_pairs_map_lookup(ps);
                    assert(ps[i as int].0 == uid@);
                }
                let id = self.uids[i].1;
                return match self.get(id) {
                    Some(u) => Some((id, u)),
                    None => None,
                };
            }
            i = i + 1;
        }
        proof {
            if pairs_map(ps).dom().contains(uid@) {
                let j = choose|j: int| 0 <= j < ps.len() && #[trigger] ps[j].0 == uid@;
                assert(self.uids@[j].0@ == uid@);
            }
        }
        None
    }
}

/// Mapping a card to a user id: the number of mapped cards grows by one exactly when the card
/// was not mapped before, and the number of users stays
pub proof fn law_update_uid_count(before: Users, after: Users, uid: Seq<u8>, id: u32)
    requires
        after.uid_map() == before.uid_map().insert(uid, id),
        after.user_map() == before.user_map(),
    ensures
        after.uid_map().dom().len() == before.uid_map().dom().len() + if before.uid_map().dom().contains(
            uid,
        ) {
            0int
        } else {
            1int
        },
        after.user_map().dom().len() == before.user_map().dom().len(),
{
    before.lemma_tables_finite();
    lemma_insert_len(before.uid_map(), uid, id);
}

/// Adding or renaming a user: the number of users grows by one exactly when the user id was not
/// known before, and the number of mapped cards stays
pub proof fn law_update_user_count(before: Users, after: Users, id: u32, name: Seq<char>)
    requires
        after.user_map() == before.user_map().insert(id, name),
        after.uid_map() == before.uid_map(),
    ensures
        after.user_map().dom().len() == before.user_map().dom().len() + if before.user_map().dom().contains(
            id,
        ) {
            0int
        } else {
            1int
        },
        after.uid_map().dom().len() == before.uid_map().dom().len(),
{
    before.lemma_tables_finite();
    lemma_insert_len(before.user_map(), id, name);
}

/// Card UIDs and user names after updating with a Vereinsflieger user (see
/// `update_vereinsflieger_user`)
pub open spec fn user_update(
    maps: (Map<Seq<u8>, u32>, Map<u32, Seq<char>>),
    user: VereinsfliegerUser,
) -> (Map<Seq<u8>, u32>, Map<u32, Seq<char>>) {
    if retired(user) {
        maps
    } else {
        let keys = keys_with_prefix(user.keymanagement@, nfc_key_prefix());
        (
            uids_from_keys(maps.0, keys, user.memberid),
            if has_valid_key(keys) {
                maps.1.insert(user.memberid, user.firstname@)
            } else {
                maps.1
            },
        )
    }
}

/// Card UIDs of a Vereinsflieger user: those that the numbers of its keys labelled as NFC
/// transponder parse as
pub open spec fn member_card_uids(user: VereinsfliegerUser) -> Set<Seq<u8>> {
    key_uids(keys_with_prefix(user.keymanagement@, nfc_key_prefix()))
}

/// Card UIDs that some of the given key numbers parse as
pub open spec fn key_uids(keys: Seq<Seq<char>>) -> Set<Seq<u8>> {
    Set::new(
        |b: Seq<u8>|
            exists|i: int|
                0 <= i < keys.len() && #[trigger] spec_parse_uid(encode_utf8(keys[i])) == Ok::<
                    Seq<u8>,
                    InvalidUid,
                >(b),
    )
}

/// Adding the cards of some key numbers for a user id: each card that a key number parses as
/// points to the user id, every other card keeps what it had
proof fn lemma_uids_from_keys(m: Map<Seq<u8>, u32>, keys: Seq<Seq<char>>, id: u32)
    ensures
        forall|b: Seq<u8>|
            #[trigger] uids_from_keys(m, keys, id).dom().contains(b) == (m.dom().contains(b)
                || key_uids(keys).contains(b)),
        forall|b: Seq<u8>|
            key_uids(keys).contains(b) ==> #[trigger] uids_from_keys(m, keys, id)[b] == id,
        forall|b: Seq<u8>|
            !key_uids(keys).contains(b) && m.dom().contains(b) ==> #[trigger] uids_from_keys(
                m,
                keys,
                id,
            )[b] == m[b],
        has_valid_key(keys) == !key_uids(keys).is_empty(),
    decreases keys.len(),
{
    if keys.len() > 0 {
        let init = keys.drop_last();
        lemma_uids_from_keys(m, init, id);
        let last = spec_parse_uid(encode_utf8(keys.last()));
        assert forall|b: Seq<u8>| #[trigger] key_uids(keys).contains(b) == (key_uids(init).contains(
            b,
        ) || last == Ok::<Seq<u8>, InvalidUid>(b)) by {
            if key_uids(keys).contains(b) {
                let i = choose|i: int|
                    0 <= i < keys.len() && #[trigger] spec_parse_uid(encode_utf8(keys[i])) == Ok::<
                        Seq<u8>,
                        InvalidUid,
                    >(b);
                if i < init.len() {
                    assert(init[i] == keys[i]);
                }
            }
            if key_uids(init).contains(b) {
                let i = choose|i: int|
                    0 <= i < init.len() && #[trigger] spec_parse_uid(encode_utf8(init[i])) == Ok::<
                        Seq<u8>,
                        InvalidUid,
                    >(b);
                assert(init[i] == keys[i]);
            }
            if last == Ok::<Seq<u8>, InvalidUid>(b) {
                assert(keys[keys.len() - 1] == keys.last());
            }
        }
        let prev = uids_from_keys(m, init, id);
        let cur = uids_from_keys(m, keys, id);
        assert(keys.drop_last() == init);
        assert forall|b: Seq<u8>| #[trigger] cur.dom().contains(b) == (m.dom().contains(b)
            || key_uids(keys).contains(b)) by {
            assert(key_uids(keys).contains(b) == (key_uids(init).contains(b) || last == Ok::<
                Seq<u8>,
                InvalidUid,
            >(b)));
            assert(prev.dom().contains(b) == (m.dom().contains(b) || key_uids(init).contains(b)));
        }
        assert forall|b: Seq<u8>| key_uids(keys).contains(b) implies #[trigger] cur[b] == id by {
            assert(key_uids(keys).contains(b) == (key_uids(init).contains(b) || last == Ok::<
                Seq<u8>,
                InvalidUid,
            >(b)));
            if key_uids(init).contains(b) {
                assert(prev[b] == id);
            }
        }
        assert forall|b: Seq<u8>| !key_uids(keys).contains(b) && m.dom().contains(b) implies #[trigger] cur[b]
            == m[b] by {
            assert(key_uids(keys).contains(b) == (key_uids(init).contains(b) || last == Ok::<
                Seq<u8>,
                InvalidUid,
            >(b)));
            assert(prev[b] == m[b]);
        }
        assert(has_valid_key(keys) == !key_uids(keys).is_empty()) by {
            if has_valid_key(keys) {
                let i = choose|i: int|
                    0 <= i < keys.len() && #[trigger] spec_parse_uid(encode_utf8(keys[i])) is Ok;
                let b = spec_parse_uid(encode_utf8(keys[i]))->Ok_0;
                assert(key_uids(keys).contains(b));
            }
            if !key_uids(keys).is_empty() {
                let b = key_uids(keys).choose();
                assert(key_uids(keys).contains(b));
                let i = choose|i: int|
                    0 <= i < keys.len() && #[trigger] spec_parse_uid(encode_utf8(keys[i])) == Ok::<
                        Seq<u8>,
                        InvalidUid,
                    >(b);
                assert(spec_parse_uid(encode_utf8(keys[i])) is Ok);
            }
        }
    } else {
        assert(key_uids(keys) =~= Set::<Seq<u8>>::empty());
    }
}

/// Updating with a Vereinsflieger user: a retired user, or one without a key number that parses
/// as a card UID, changes nothing. Otherwise each card UID that one of the user's NFC key numbers
/// parses as points to the user's member id, every other card keeps what it had, the member id
/// gets the user's first name, and every other user id keeps its name.
pub proof fn law_user_update(
    uids: Map<Seq<u8>, u32>,
    users: Map<u32, Seq<char>>,
    user: VereinsfliegerUser,
)
    ensures
        ({
            let keys = keys_with_prefix(user.keymanagement@, nfc_key_prefix());
            let (uids2, users2) = user_update((uids, users), user);
            &&& (retired(user) || key_uids(keys).is_empty()) ==> uids2 == uids && users2 == users
            &&& !retired(user) && !key_uids(keys).is_empty() ==> {
                &&& forall|b: Seq<u8>|
                    #[trigger] key_uids(keys).contains(b) ==> uids2.dom().contains(b) && uids2[b]
                        == user.memberid
                &&& forall|b: Seq<u8>|
                    !#[trigger] key_uids(keys).contains(b) ==> (uids2.dom().contains(b)
                        == uids.dom().contains(b)) && (uids.dom().contains(b) ==> uids2[b]
                        == uids[b])
                &&& users2 == users.insert(user.memberid, user.firstname@)
            }
        }),
{
    let keys = keys_with_prefix(user.keymanagement@, nfc_key_prefix());
    lemma_uids_from_keys(uids, keys, user.memberid);
    if !retired(user) && key_uids(keys).is_empty() {
        assert(uids_from_keys(uids, keys, user.memberid) =~= uids);
    }
}

/// Card UIDs and user names after updating with each received Vereinsflieger user in turn
pub open spec fn refreshed_users(
    maps: (Map<Seq<u8>, u32>, Map<u32, Seq<char>>),
    received: Seq<VereinsfliegerUser>,
) -> (Map<Seq<u8>, u32>, Map<u32, Seq<char>>)
    decreases received.len(),
{
    if received.len() == 0 {
        maps
    } else {
        user_update(refreshed_users(maps, received.drop_last()), received.last())
    }
}

impl Users {
    /// Replace all user information by that of the received Vereinsflieger users (keeping the
    /// test cards and their user). Returns the number of users received.
    pub fn refresh(&mut self, received: &[VereinsfliegerUser]) -> (total: usize)
        ensures
            (final(self).uid_map(), final(self).user_map()) == refreshed_users(
                (extra_uids(), extra_users()),
                received@,
            ),
            total == received@.len(),
            final(self).tables_finite(),
    {
        self.clear();
        let mut i: usize = 0;
        assert(received@.take(0) =~= Seq::<VereinsfliegerUser>::empty());
        while i < received.len()
            invariant
                i <= received@.len(),
                (self.uid_map(), self.user_map()) == refreshed_users(
                    (extra_uids(), extra_users()),
                    received@.take(i as int),
                ),
                self.tables_finite(),
            decreases received.len() - i,
        {
            self.update_vereinsflieger_user(&received[i]);
            assert(received@.take(i + 1).drop_last() =~= received@.take(i as int));
            i = i + 1;
        }
        assert(received@.take(i as int) =~= received@);
        received.len()
    }
}

} // verus!
