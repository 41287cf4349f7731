//! The credential store: each username with the PHC hash of its password.

use crate::codec::{decode_records, decode_spec, lemma_decoded_records_ok, record_ok, records_view, CredentialRecord};
use crate::error::{LoadFault, LoadUsersError};
use crate::textmap::TextMap;
use vstd::prelude::*;

verus! {

/// The map that a list of records describes; a later record for a name
/// wins over an earlier one.
pub open spec fn records_map(rs: Seq<(Seq<char>, Seq<char>)>) -> Map<Seq<char>, Seq<char>>
    decreases rs.len(),
{
    if rs.len() == 0 {
        Map::empty()
    } else {
        records_map(rs.drop_last()).insert(rs.last().0, rs.last().1)
    }
}

/// Usernames with their password hashes. Every name is a valid username and
/// every hash a PHC string that the record format can hold.
pub struct CredentialStore {
    map: TextMap,
}

impl View for CredentialStore {
    type V = Map<Seq<char>, Seq<char>>;

    closed spec fn view(&self) -> Map<Seq<char>, Seq<char>> {
        self.map@
    }
}

impl CredentialStore {
    pub closed spec fn wf(&self) -> bool {
        &&& self.map.wf()
        &&& forall|k: Seq<char>| #[trigger] self.map@.contains_key(k) ==> record_ok((k, self.map@[k]))
    }

    /// The empty store.
    pub fn new() -> (r: CredentialStore)
        ensures
            r.wf(),
            r@ == Map::<Seq<char>, Seq<char>>::empty(),
    {
        CredentialStore { map: TextMap::new() }
    }

    /// The store that holds `records`, a later record for a name winning.
    pub fn from_records(records: Vec<CredentialRecord>) -> (r: CredentialStore)
        requires
            forall|i: int| 0 <= i < records@.len() ==> record_ok(#[trigger] records@[i]@),
        ensures
            r.wf(),
            r@ == records_map(records_view(records@)),
    {
        let ghost rs = records_view(records@);
        let mut store = CredentialStore::new();
        let n = records.len();
        let mut i: usize = 0;
        while i < n
            invariant
                n == records@.len(),
                rs == records_view(records@),
                forall|x: int| 0 <= x < records@.len() ==> record_ok(#[trigger] records@[x]@),
                i <= n,
                store.wf(),
                store@ == records_map(rs.take(i as int)),
            decreases n - i,
        {
            let rec = CredentialRecord { name: records[i].name.clone(), hash: records[i].hash.clone() };
            proof {
                assert(rs.take(i + 1).drop_last() =~= rs.take(i as int));
                assert(rs[i as int] == records@[i as int]@);
                assert(record_ok(records@[i as int]@));
            }
            store.insert_record(rec);
            i = i + 1;
        }
        assert(rs.take(n as int) =~= rs);
        store
    }

    /// Adds or replaces the record of `rec.name`.
    fn insert_record(&mut self, rec: CredentialRecord)
        requires
            old(self).wf(),
            record_ok(rec@),
        ensures
            final(self).wf(),
            final(self)@ == old(self)@.insert(rec.name@, rec.hash@),
    {
        let CredentialRecord { name, hash } = rec;
        self.map.insert(name, hash);
    }

    /// Adds the record of a name that the store does not hold yet.
    pub fn insert_new(&mut self, rec: CredentialRecord)
        requires
            old(self).wf(),
            record_ok(rec@),
            !old(self)@.contains_key(rec.name@),
        ensures
            final(self).wf(),
            final(self)@ == old(self)@.insert(rec.name@, rec.hash@),
    {
        self.insert_record(rec);
    }

    /// Whether a user named `name` exists.
    pub fn contains(&self, name: &str) -> (r: bool)
        requires
            self.wf(),
        ensures
            r == self@.contains_key(name@),
    {
        self.map.contains(name)
    }

    /// The stored hash of `name`, if the user exists.
    pub fn get(&self, name: &str) -> (r: Option<&String>)
        requires
            self.wf(),
        ensures
            match r {
                Some(h) => self@.contains_key(name@) && self@[name@] == h@,
                None => !self@.contains_key(name@),
            },
    {
        self.map.get(name)
    }

    /// The names of all users.
    pub fn usernames(&self) -> (r: Vec<String>)
        requires
            self.wf(),
        ensures
            forall|k: Seq<char>| self@.contains_key(k) <==> exists|i: int| 0 <= i < r@.len() && #[trigger] r@[i]@ == k,
    {
        self.map.keys()
    }
}

/// Reads a whole credentials file into a store. Any fault in the file fails
/// the whole load; there is no partly filled store.
pub fn db_from_str(s: &str) -> (r: Result<CredentialStore, LoadUsersError>)
    ensures
        match r {
            Ok(store) => store.wf() && (decode_spec(s@) matches Ok(rs) && store@ == records_map(rs)),
            Err(e) => decode_spec(s@) == Err::<Seq<(Seq<char>, Seq<char>)>, LoadFault>(e.fault()),
        },
{
    let records = decode_records(s)?;
    proof {
        lemma_decoded_records_ok(s@);
        let rs = records_view(records@);
        assert forall|i: int| 0 <= i < records@.len() implies record_ok(#[trigger] records@[i]@) by {
            assert(rs.len() == records@.len());
            assert(decode_spec(s@)->Ok_0 == rs);
            assert(record_ok(rs[i]));
            assert(rs[i] == records@[i]@);
        }
    }
    Ok(CredentialStore::from_records(records))
}

} // verus!
