//! Channel names and the route table.
//!
//! A channel name has the form `<route-key>/<session-token>`: it is split at
//! the first `/` from the left; a name without `/` is all route key and the
//! session token is empty. The route key is resolved against a read-only
//! table by case-sensitive exact match; a table may carry one wildcard entry,
//! under the key `@`, which matches any key that has no exact entry.

use vstd::prelude::*;

use crate::errors::TunnelError;

verus! {

/// The byte `/`, which separates the route key from the session token.
pub const SLASH: u8 = 47;

/// The byte `@`, the route key of the wildcard entry.
pub const WILDCARD: u8 = 64;

/// The wildcard route key: an entry under this key matches any key with no
/// exact entry of its own.
pub open spec fn wildcard_key() -> Seq<u8> {
    seq![WILDCARD]
}

/// A copy of a byte vector, used where a caller keeps the original.
pub fn copy_bytes(v: &Vec<u8>) -> (r: Vec<u8>)
    ensures
        r@ == v@,
{
    let n = v.len();
    let mut r: Vec<u8> = Vec::new();
    let mut i: usize = 0;
    while i < n
        invariant
            0 <= i <= n,
            n == v@.len(),
            r@ == v@.subrange(0, i as int),
        decreases n - i,
    {
        r.push(v[i]);
        assert(r@ =~= v@.subrange(0, i + 1 as int));
        i = i + 1;
    }
    assert(r@ =~= v@);
    r
}

/// One configured mapping from a route key to a backend origin.
#[derive(Debug, PartialEq, Eq)]
pub struct RouteEntry {
    pub key: Vec<u8>,
    pub origin: Vec<u8>,
}

/// The ghost value of a `RouteEntry`.
pub struct RouteEntryModel {
    pub key: Seq<u8>,
    pub origin: Seq<u8>,
}

impl View for RouteEntry {
    type V = RouteEntryModel;

    open spec fn view(&self) -> RouteEntryModel {
        RouteEntryModel { key: self.key@, origin: self.origin@ }
    }
}

impl DeepView for RouteEntry {
    type V = RouteEntryModel;

    open spec fn deep_view(&self) -> RouteEntryModel {
        self.view()
    }
}

/// The first configured origin for `key`, if any: earlier entries shadow
/// later ones.
pub open spec fn spec_lookup(entries: Seq<RouteEntryModel>, key: Seq<u8>) -> Option<Seq<u8>>
    decreases entries.len(),
{
    if entries.len() == 0 {
        None
    } else if entries[0].key == key {
        Some(entries[0].origin)
    } else {
        spec_lookup(entries.drop_first(), key)
    }
}

/// What resolving `key` against `entries` yields: the exact entry if one
/// exists, else the wildcard entry if one exists, else no origin.
pub open spec fn spec_resolve_key(entries: Seq<RouteEntryModel>, key: Seq<u8>) -> Option<Seq<u8>> {
    match spec_lookup(entries, key) {
        Some(origin) => Some(origin),
        None => spec_lookup(entries, wildcard_key()),
    }
}

/// The read-only mapping from route keys to backend origins.
#[derive(Debug)]
pub struct RouteTable {
    pub entries: Vec<RouteEntry>,
}

/// The index of the first `/` in `name`, if `name` contains one.
pub open spec fn spec_first_slash(name: Seq<u8>) -> Option<int> {
    if exists|i: int| 0 <= i < name.len() && name[i] == SLASH {
        Some(choose|i: int|
            0 <= i < name.len() && name[i] == SLASH && forall|j: int|
                0 <= j < i ==> name[j] != SLASH)
    } else {
        None
    }
}

/// The route key and session token of a channel name: the parts before and
/// after the first `/`, or the whole name and an empty token when the name
/// has no `/`.
pub open spec fn spec_split_channel_name(name: Seq<u8>) -> (Seq<u8>, Seq<u8>) {
    match spec_first_slash(name) {
        Some(i) => (name.subrange(0, i), name.subrange(i + 1, name.len() as int)),
        None => (name, Seq::empty()),
    }
}

proof fn lemma_first_slash_exists(name: Seq<u8>, i: int)
    requires
        0 <= i < name.len(),
        name[i] == SLASH,
        forall|j: int| 0 <= j < i ==> name[j] != SLASH,
    ensures
        spec_first_slash(name) == Some(i),
{
    assert(exists|k: int| 0 <= k < name.len() && name[k] == SLASH);
    let w = choose|k: int|
        0 <= k < name.len() && name[k] == SLASH && forall|j: int| 0 <= j < k ==> name[j] != SLASH;
    if w < i {
        assert(name[w] != SLASH);
    }
    if i < w {
        assert(name[i] != SLASH);
    }
}

/// Splits a channel name at the first `/`: the route key is everything
/// before it and the session token everything after it. A name without `/`
/// is all route key, and the session token is empty.
pub fn split_channel_name(name: &Vec<u8>) -> (r: (Vec<u8>, Vec<u8>))
    ensures
        (r.0@, r.1@) == spec_split_channel_name(name@),
{
    let n = name.len();
    let mut i: usize = 0;
    while i < n
        invariant
            0 <= i <= n,
            n == name@.len(),
            forall|j: int| 0 <= j < i ==> name@[j] != SLASH,
        decreases n - i,
    {
        if name[i] == SLASH {
            proof {
                lemma_first_slash_exists(name@, i as int);
            }
            let mut key: Vec<u8> = Vec::new();
            let mut token: Vec<u8> = Vec::new();
            let mut j: usize = 0;
            while j < i
                invariant
                    0 <= j <= i < n,
                    n == name@.len(),
                    key@ == name@.subrange(0, j as int),
                decreases i - j,
            {
                key.push(name[j]);
                assert(key@ =~= name@.subrange(0, j + 1 as int));
                j = j + 1;
            }
            let mut k: usize = i + 1;
            while k < n
                invariant
                    i + 1 <= k <= n,
                    n == name@.len(),
                    token@ == name@.subrange(i + 1 as int, k as int),
                decreases n - k,
            {
                token.push(name[k]);
                assert(token@ =~= name@.subrange(i + 1 as int, k + 1 as int));
                k = k + 1;
            }
            assert(key@ =~= spec_split_channel_name(name@).0);
            assert(token@ =~= spec_split_channel_name(name@).1);
            return (key, token);
        }
        i = i + 1;
    }
    assert(spec_first_slash(name@) is None);
    let key = copy_bytes(name);
    let token: Vec<u8> = Vec::new();
    assert(token@ =~= spec_split_channel_name(name@).1);
    (key, token)
}

/// True when the two byte vectors hold the same bytes.
pub fn bytes_eq(a: &Vec<u8>, b: &Vec<u8>) -> (r: bool)
    ensures
        r == (a@ == b@),
{
    if a.len() != b.len() {
        assert(a@ != b@);
        return false;
    }
    let n = a.len();
    let mut i: usize = 0;
    while i < n
        invariant
            0 <= i <= n,
            n == a@.len() == b@.len(),
            forall|j: int| 0 <= j < i ==> a@[j] == b@[j],
        decreases n - i,
    {
        if a[i] != b[i] {
            assert(a@ != b@);
            return false;
        }
        i = i + 1;
    }
    assert(a@ =~= b@);
    true
}

impl RouteTable {
    /// An empty table: no key resolves.
    pub fn new() -> (r: RouteTable)
        ensures
            r@.len() == 0,
    {
        RouteTable { entries: Vec::new() }
    }

    /// Builds a table from configured pairs, in order: on lookup, earlier
    /// entries shadow later entries with the same key.
    pub fn from_entries(entries: Vec<RouteEntry>) -> (r: RouteTable)
        ensures
            r@ == entries.deep_view(),
    {
        RouteTable { entries }
    }

    /// The first configured origin for `key`, with no wildcard fallback.
    pub fn lookup(&self, key: &Vec<u8>) -> (r: Option<Vec<u8>>)
        ensures
            match r {
                Some(origin) => spec_lookup(self@, key@) == Some(origin@),
                None => spec_lookup(self@, key@) is None,
            },
    {
        let n = self.entries.len();
        assert(self.entries.deep_view().subrange(0, n as int) =~= self@);
        let mut i: usize = 0;
        while i < n
            invariant
                0 <= i <= n,
                n == self.entries@.len(),
                spec_lookup(self@, key@) == spec_lookup(
                    self.entries.deep_view().subrange(i as int, n as int),
                    key@,
                ),
            decreases n - i,
        {
            let ghost tail = self.entries.deep_view().subrange(i as int, n as int);
            if bytes_eq(&self.entries[i].key, key) {
                assert(tail[0].key == key@);
                return Some(copy_bytes(&self.entries[i].origin));
            }
            assert(tail[0].key != key@);
            assert(tail.drop_first() =~= self.entries.deep_view().subrange(
                i + 1 as int,
                n as int,
            ));
            i = i + 1;
        }
        assert(self.entries.deep_view().subrange(n as int, n as int) =~= Seq::<
            RouteEntryModel,
        >::empty());
        None
    }

    /// Resolves a route key: its exact entry, else the wildcard entry, else
    /// `UnknownRoute`.
    pub fn resolve_key(&self, key: &Vec<u8>) -> (r: Result<Vec<u8>, TunnelError>)
        ensures
            match r {
                Ok(origin) => spec_resolve_key(self@, key@) == Some(origin@),
                Err(e) => spec_resolve_key(self@, key@) is None && e
                    == TunnelError::UnknownRoute,
            },
    {
        match self.lookup(key) {
            Some(origin) => Ok(origin),
            None => {
                let mut wild: Vec<u8> = Vec::new();
                wild.push(WILDCARD);
                assert(wild@ =~= wildcard_key());
                match self.lookup(&wild) {
                    Some(origin) => Ok(origin),
                    None => Err(TunnelError::UnknownRoute),
                }
            },
        }
    }

    /// Resolves a whole channel name: splits it at the first `/`, resolves
    /// the route key, and returns the origin with the session token. Fails
    /// with `UnknownRoute` exactly when neither the key nor the wildcard is
    /// configured.
    pub fn resolve(&self, channel_name: &Vec<u8>) -> (r: Result<(Vec<u8>, Vec<u8>), TunnelError>)
        ensures
            match r {
                Ok(p) => spec_resolve_key(self@, spec_split_channel_name(channel_name@).0)
                    == Some(p.0@) && p.1@ == spec_split_channel_name(channel_name@).1,
                Err(e) => spec_resolve_key(self@, spec_split_channel_name(channel_name@).0)
                    is None && e == TunnelError::UnknownRoute,
            },
    {
        let (key, token) = split_channel_name(channel_name);
        match self.resolve_key(&key) {
            Ok(origin) => Ok((origin, token)),
            Err(e) => Err(e),
        }
    }
}

impl View for RouteTable {
    type V = Seq<RouteEntryModel>;

    open spec fn view(&self) -> Seq<RouteEntryModel> {
        self.entries.deep_view()
    }
}

/// The route key and the session token reassemble to the original name: for
/// a name with a `/`, key + `/` + token is the name and the key itself holds
/// no `/`; for a name without one, the key is the whole name and the token
/// is empty.
pub proof fn lemma_split_channel_name_round_trip(name: Seq<u8>)
    ensures
        (exists|i: int| 0 <= i < name.len() && name[i] == SLASH) ==> {
            let (key, token) = spec_split_channel_name(name);
            &&& key + seq![SLASH] + token == name
            &&& forall|j: int| 0 <= j < key.len() ==> key[j] != SLASH
        },
        !(exists|i: int| 0 <= i < name.len() && name[i] == SLASH) ==> {
            let (key, token) = spec_split_channel_name(name);
            &&& key == name
            &&& token == Seq::<u8>::empty()
        },
{
    if exists|i: int| 0 <= i < name.len() && name[i] == SLASH {
        let w = choose|i: int| 0 <= i < name.len() && name[i] == SLASH;
        let first = find_first_slash(name, w);
        lemma_first_slash_exists(name, first);
        let (key, token) = spec_split_channel_name(name);
        assert(key + seq![SLASH] + token =~= name);
    }
}

/// The least index at which `name` holds a `/`, found downward from a known
/// slash position.
proof fn find_first_slash(name: Seq<u8>, k: int) -> (r: int)
    requires
        0 <= k < name.len(),
        name[k] == SLASH,
    ensures
        0 <= r <= k,
        name[r] == SLASH,
        forall|j: int| 0 <= j < r ==> name[j] != SLASH,
    decreases k,
{
    if exists|j: int| 0 <= j < k && name[j] == SLASH {
        let j = choose|j: int| 0 <= j < k && name[j] == SLASH;
        find_first_slash(name, j)
    } else {
        k
    }
}


} // verus!
