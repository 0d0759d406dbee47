//! The user record and the in-memory table that stores records by id.

use vstd::prelude::*;

verus! {

/// A stored account record. `id` is the 128-bit value of the textual
/// identifier that the HTTP layer carries; it is generated at creation
/// and never supplied by a client.
#[derive(Debug)]
pub struct User {
    pub id: u128,
    pub name: String,
    pub username: String,
}

/// Mathematical image of a `User`: the identifier together with the two
/// free-form strings as character sequences.
pub ghost struct UserData {
    pub id: u128,
    pub name: Seq<char>,
    pub username: Seq<char>,
}

impl View for User {
    type V = UserData;

    open spec fn view(&self) -> UserData {
        UserData { id: self.id, name: self.name@, username: self.username@ }
    }
}

impl User {
    /// Field-by-field copy whose view is known to equal the original's.
    pub fn duplicate(&self) -> (r: User)
        ensures
            r@ == self@,
    {
        User { id: self.id, name: self.name.clone(), username: self.username.clone() }
    }
}

/// The table a sequence of records denotes: later records win on a
/// repeated identifier (no repetition ever arises in a well-formed store).
pub open spec fn table_of(s: Seq<UserData>) -> Map<u128, UserData>
    decreases s.len(),
{
    if s.len() == 0 {
        Map::empty()
    } else {
        table_of(s.drop_last()).insert(s.last().id, s.last())
    }
}

/// No two records of the sequence share an identifier.
pub open spec fn distinct_ids(s: Seq<UserData>) -> bool {
    forall|i: int, j: int|
        0 <= i < s.len() && 0 <= j < s.len() && i != j ==> s[i].id != s[j].id
}

/// An identifier is in the table exactly when some record of the
/// sequence carries it.
pub proof fn lemma_table_contains(s: Seq<UserData>, k: u128)
    ensures
        table_of(s).contains_key(k) <==> exists|i: int| 0 <= i < s.len() && s[i].id == k,
    decreases s.len(),
{
    if s.len() > 0 {
        lemma_table_contains(s.drop_last(), k);
        if s.last().id == k {
            assert(s[s.len() - 1].id == k);
        } else if exists|i: int| 0 <= i < s.len() && s[i].id == k {
            let i = choose|i: int| 0 <= i < s.len() && s[i].id == k;
            assert(s.drop_last()[i] == s[i]);
        }
    }
}

/// The table of a sequence is a finite map.
pub proof fn lemma_table_finite(s: Seq<UserData>)
    ensures
        table_of(s).dom().finite(),
    decreases s.len(),
{
    if s.len() > 0 {
        lemma_table_finite(s.drop_last());
    }
}

/// Dropping the last record keeps the identifiers distinct.
pub proof fn lemma_distinct_drop_last(s: Seq<UserData>)
    requires
        s.len() > 0,
        distinct_ids(s),
    ensures
        distinct_ids(s.drop_last()),
{
    assert forall|i: int, j: int|
        0 <= i < s.drop_last().len() && 0 <= j < s.drop_last().len() && i != j implies s.drop_last()[i].id
        != s.drop_last()[j].id by {
        assert(s.drop_last()[i] == s[i]);
        assert(s.drop_last()[j] == s[j]);
    }
}

/// In a sequence of distinct identifiers, each record is the table's
/// value at its own identifier.
pub proof fn lemma_table_value(s: Seq<UserData>, i: int)
    requires
        distinct_ids(s),
        0 <= i < s.len(),
    ensures
        table_of(s).contains_key(s[i].id),
        table_of(s)[s[i].id] == s[i],
    decreases s.len(),
{
    if i == s.len() - 1 {
        assert(s.last() == s[i]);
    } else {
        lemma_distinct_drop_last(s);
        assert(s.drop_last()[i] == s[i]);
        lemma_table_value(s.drop_last(), i);
        assert(s.last().id != s[i].id);
    }
}

/// Removing the record at one position removes exactly its identifier
/// from the table, when identifiers are distinct.
pub proof fn lemma_table_remove(s: Seq<UserData>, i: int)
    requires
        distinct_ids(s),
        0 <= i < s.len(),
    ensures
        table_of(s.remove(i)) == table_of(s).remove(s[i].id),
    decreases s.len(),
{
    lemma_distinct_drop_last(s);
    if i == s.len() - 1 {
        assert(s.remove(i) =~= s.drop_last());
        lemma_table_contains(s.drop_last(), s[i].id);
        assert forall|j: int| 0 <= j < s.drop_last().len() implies s.drop_last()[j].id != s[i].id by {
            assert(s.drop_last()[j] == s[j]);
        }
        assert(!table_of(s.drop_last()).contains_key(s[i].id));
        assert(table_of(s.drop_last()).insert(s.last().id, s.last()).remove(s[i].id) =~= table_of(
            s.drop_last(),
        ));
    } else {
        assert(s.remove(i).drop_last() =~= s.drop_last().remove(i));
        assert(s.remove(i).last() == s.last());
        lemma_table_remove(s.drop_last(), i);
        assert(s.drop_last()[i] == s[i]);
        assert(table_of(s.remove(i)) == table_of(s.drop_last()).remove(s[i].id).insert(
            s.last().id,
            s.last(),
        ));
        assert(s.last().id != s[i].id);
        assert(table_of(s.drop_last()).remove(s[i].id).insert(s.last().id, s.last()) =~= table_of(
            s.drop_last(),
        ).insert(s.last().id, s.last()).remove(s[i].id));
    }
}

/// The views of a sequence of records.
pub open spec fn views_of(s: Seq<User>) -> Seq<UserData> {
    s.map_values(|u: User| u@)
}

/// Removing a record at one position keeps the identifiers distinct.
pub proof fn lemma_distinct_remove(s: Seq<UserData>, i: int)
    requires
        distinct_ids(s),
        0 <= i < s.len(),
    ensures
        distinct_ids(s.remove(i)),
{
    assert forall|a: int, b: int|
        0 <= a < s.remove(i).len() && 0 <= b < s.remove(i).len() && a != b implies s.remove(
        i,
    )[a].id != s.remove(i)[b].id by {
        let a0 = if a < i {
            a
        } else {
            a + 1
        };
        let b0 = if b < i {
            b
        } else {
            b + 1
        };
        assert(s.remove(i)[a] == s[a0]);
        assert(s.remove(i)[b] == s[b0]);
    }
}

/// Appending a record with an unused identifier keeps them distinct.
pub proof fn lemma_distinct_push(s: Seq<UserData>, u: UserData)
    requires
        distinct_ids(s),
        forall|j: int| 0 <= j < s.len() ==> s[j].id != u.id,
    ensures
        distinct_ids(s.push(u)),
{
    assert forall|a: int, b: int|
        0 <= a < s.push(u).len() && 0 <= b < s.push(u).len() && a != b implies s.push(u)[a].id
        != s.push(u)[b].id by {
        if a < s.len() && b < s.len() {
            assert(s.push(u)[a] == s[a]);
            assert(s.push(u)[b] == s[b]);
        }
    }
}

/// The in-memory table of user records, keyed by identifier. State
/// begins empty at construction and lives only in this process.
pub struct UserStore {
    users: Vec<User>,
}

impl UserStore {
    /// The stored records in the order the table yields them.
    pub closed spec fn records(self) -> Seq<UserData> {
        self.users@.map_values(|u: User| u@)
    }

    /// The store as a mapping from identifier to record.
    pub open spec fn contents(self) -> Map<u128, UserData> {
        table_of(self.records())
    }

    /// Well-formedness: no two stored records share an identifier.
    pub open spec fn wf(self) -> bool {
        distinct_ids(self.records())
    }

    /// A fresh, empty store.
    pub fn new() -> (r: UserStore)
        ensures
            r.wf(),
            r.records() == Seq::<UserData>::empty(),
            r.contents() == Map::<u128, UserData>::empty(),
    {
        let r = UserStore { users: Vec::new() };
        proof {
            assert(r.records() =~= Seq::<UserData>::empty());
        }
        r
    }

    /// The store never holds more records than a machine count can
    /// index, so a listing with the default limit is the whole store.
    pub proof fn lemma_records_len(self)
        ensures
            self.records().len() <= usize::MAX,
    {
        vstd::std_specs::vec::axiom_spec_len(&self.users);
    }

    /// Position of the record with the given identifier, if any.
    fn find_index(&self, id: u128) -> (r: Option<usize>)
        ensures
            match r {
                Some(i) => i < self.records().len() && self.records()[i as int].id == id,
                None => forall|i: int| 0 <= i < self.records().len() ==> self.records()[i].id != id,
            },
    {
        let mut i: usize = 0;
        while i < self.users.len()
            invariant
                i <= self.users.len(),
                self.records().len() == self.users@.len(),
                forall|j: int| 0 <= j < i ==> self.records()[j].id != id,
            decreases self.users.len() - i,
        {
            if self.users[i].id == id {
                return Some(i);
            }
            i = i + 1;
        }
        None
    }

    /// Lookup: a copy of the stored record at `id`, or `None` when no
    /// record carries that identifier.
    pub fn get(&self, id: u128) -> (r: Option<User>)
        requires
            self.wf(),
        ensures
            match r {
                Some(u) => self.contents().contains_key(id) && u@ == self.contents()[id] && u.id
                    == id,
                None => !self.contents().contains_key(id),
            },
    {
        proof {
            lemma_table_contains(self.records(), id);
        }
        match self.find_index(id) {
            Some(i) => {
                proof {
                    lemma_table_value(self.records(), i as int);
                }
                Some(self.users[i].duplicate())
            },
            None => None,
        }
    }

    /// Store or overwrite the record at its own identifier.
    pub fn insert(&mut self, user: User)
        requires
            old(self).wf(),
        ensures
            final(self).wf(),
            final(self).contents() == old(self).contents().insert(user.id, user@),
            !old(self).contents().contains_key(user.id) ==> final(self).records() == old(
                self,
            ).records().push(user@),
    {
        let ghost s0 = self.records();
        proof {
            lemma_table_contains(s0, user.id);
        }
        let ghost uv = user@;
        match self.find_index(user.id) {
            Some(i) => {
                proof {
                    lemma_table_remove(s0, i as int);
                    lemma_distinct_remove(s0, i as int);
                }
                self.users.remove(i);
                proof {
                    assert(self.records() =~= s0.remove(i as int));
                    lemma_table_contains(s0.remove(i as int), user.id);
                    lemma_distinct_push(s0.remove(i as int), uv);
                }
                self.users.push(user);
                proof {
                    assert(self.records() =~= s0.remove(i as int).push(uv));
                    assert(s0.remove(i as int).push(uv).drop_last() =~= s0.remove(i as int));
                    assert(self.contents() == table_of(s0).remove(s0[i as int].id).insert(
                        uv.id,
                        uv,
                    ));
                    assert(table_of(s0).remove(uv.id).insert(uv.id, uv) =~= table_of(s0).insert(
                        uv.id,
                        uv,
                    ));
                }
            },
            None => {
                proof {
                    lemma_distinct_push(s0, uv);
                }
                self.users.push(user);
                proof {
                    assert(self.records() =~= s0.push(uv));
                    assert(s0.push(uv).drop_last() =~= s0);
                }
            },
        }
    }

    /// Delete the record at `id`; the result says whether one existed.
    pub fn remove(&mut self, id: u128) -> (r: bool)
        requires
            old(self).wf(),
        ensures
            final(self).wf(),
            r == old(self).contents().contains_key(id),
            final(self).contents() == old(self).contents().remove(id),
            !r ==> *final(self) == *old(self),
    {
        let ghost s0 = self.records();
        proof {
            lemma_table_contains(s0, id);
        }
        match self.find_index(id) {
            Some(i) => {
                proof {
                    lemma_table_remove(s0, i as int);
                    lemma_distinct_remove(s0, i as int);
                }
                self.users.remove(i);
                proof {
                    assert(self.records() =~= s0.remove(i as int));
                }
                true
            },
            None => {
                proof {
                    assert(table_of(s0).remove(id) =~= table_of(s0));
                }
                false
            },
        }
    }

    /// A snapshot copy of every stored record, in the table's order.
    pub fn list(&self) -> (r: Vec<User>)
        ensures
            views_of(r@) == self.records(),
    {
        let mut out: Vec<User> = Vec::new();
        let mut i: usize = 0;
        proof {
            assert(views_of(out@) =~= self.records().subrange(0, 0));
        }
        while i < self.users.len()
            invariant
                i <= self.users.len(),
                self.records().len() == self.users@.len(),
                views_of(out@) == self.records().subrange(0, i as int),
            decreases self.users.len() - i,
        {
            let d = self.users[i].duplicate();
            let ghost prev = out@;
            out.push(d);
            proof {
                assert(views_of(out@) =~= views_of(prev).push(d@));
                assert(self.records().subrange(0, i as int).push(self.records()[i as int])
                    =~= self.records().subrange(0, i + 1 as int));
            }
            i = i + 1;
        }
        proof {
            assert(self.records().subrange(0, self.users@.len() as int) =~= self.records());
        }
        out
    }
}

impl Default for UserStore {
    /// The process-wide store begins empty.
    fn default() -> (r: UserStore)
        ensures
            r.wf(),
            r.records() == Seq::<UserData>::empty(),
            r.contents() == Map::<u128, UserData>::empty(),
    {
        UserStore::new()
    }
}

} // verus!
