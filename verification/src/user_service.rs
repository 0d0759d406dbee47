//! The five request handlers over the user table, and the fallback
//! body for unmatched paths.

use crate::model::{views_of, User, UserData, UserStore};
use vstd::prelude::*;

verus! {

/// Body of a create request: both fields are required.
#[derive(Debug)]
pub struct CreateUserInput {
    pub name: String,
    pub username: String,
}

/// Body of a get-one response: the identifier is deliberately omitted.
#[derive(Debug)]
pub struct GetUserOutput {
    pub name: String,
    pub username: String,
}

/// Body of an update request: absent fields are left unchanged.
#[derive(Debug)]
pub struct UpdateUserInput {
    pub name: Option<String>,
    pub username: Option<String>,
}

/// Query parameters of a list request; both are optional.
#[derive(Debug)]
pub struct Pagination {
    pub offset: Option<usize>,
    pub limit: Option<usize>,
}

/// Relies on uuid::Uuid::new_v4, read back through Uuid::as_u128: a
/// randomly generated version-4 identifier. Nothing is assumed of the
/// value; freshness rests on the generator.
#[verifier::external_body]
fn fresh_id() -> u128 {
    uuid::Uuid::new_v4().as_u128()
}

/// Create: store a new record under a generated identifier and answer
/// 201 with the full record. Whatever identifier the generator yields,
/// the store afterwards maps it to exactly the supplied fields.
pub fn create_user(store: &mut UserStore, input: CreateUserInput) -> (r: (u16, User))
    requires
        old(store).wf(),
    ensures
        final(store).wf(),
        r.0 == 201u16,
        r.1.name@ == input.name@,
        r.1.username@ == input.username@,
        r.1@ == (UserData { id: r.1.id, name: input.name@, username: input.username@ }),
        final(store).contents() == old(store).contents().insert(r.1.id, r.1@),
{
    let id = fresh_id();
    let user = User { id, name: input.name, username: input.username };
    let copy = user.duplicate();
    store.insert(user);
    (201, copy)
}

/// Get-one: answer 200 with the stored record's two strings, or 404
/// when no record carries the identifier.
pub fn get_user(store: &UserStore, id: u128) -> (r: Result<(u16, GetUserOutput), u16>)
    requires
        store.wf(),
    ensures
        match r {
            Ok(ok) => store.contents().contains_key(id) && ok.0 == 200u16 && ok.1.name@
                == store.contents()[id].name && ok.1.username@ == store.contents()[id].username,
            Err(code) => !store.contents().contains_key(id) && code == 404u16,
        },
{
    match store.get(id) {
        Some(user) => Ok((200, GetUserOutput { name: user.name, username: user.username })),
        None => Err(404),
    }
}

/// The record an update request leaves at an identifier: fields present
/// in the input replace the stored ones, absent fields stay.
pub open spec fn spec_merge(cur: UserData, input: UpdateUserInput) -> UserData {
    UserData {
        id: cur.id,
        name: match input.name {
            Some(n) => n@,
            None => cur.name,
        },
        username: match input.username {
            Some(u) => u@,
            None => cur.username,
        },
    }
}

/// Update: merge the supplied fields into the stored record and answer
/// 201 with the merged record; 404 when the identifier is unknown, in
/// which case the store is untouched and no record is created.
pub fn update_user(store: &mut UserStore, id: u128, input: UpdateUserInput) -> (r: Result<
    (u16, User),
    u16,
>)
    requires
        old(store).wf(),
    ensures
        final(store).wf(),
        match r {
            Ok(ok) => old(store).contents().contains_key(id) && ok.0 == 201u16 && ok.1.id == id
                && ok.1@ == spec_merge(old(store).contents()[id], input) && final(store).contents()
                == old(store).contents().insert(id, ok.1@),
            Err(code) => !old(store).contents().contains_key(id) && code == 404u16 && *final(store)
                == *old(store),
        },
{
    let mut user = match store.get(id) {
        Some(u) => u,
        None => {
            return Err(404);
        },
    };
    if let Some(name) = input.name {
        user.name = name;
    }
    if let Some(username) = input.username {
        user.username = username;
    }
    let copy = user.duplicate();
    store.insert(user);
    Ok((201, copy))
}

/// Delete: remove the record and answer 204; 404 when the identifier is
/// unknown, in which case the store is untouched.
pub fn delete_user(store: &mut UserStore, id: u128) -> (r: u16)
    requires
        old(store).wf(),
    ensures
        final(store).wf(),
        final(store).contents() == old(store).contents().remove(id),
        old(store).contents().contains_key(id) ==> r == 204u16,
        !old(store).contents().contains_key(id) ==> r == 404u16 && *final(store) == *old(store),
{
    if store.remove(id) {
        204
    } else {
        404
    }
}

/// The offset a list request asks for: absent means zero.
pub open spec fn spec_offset(p: Option<Pagination>) -> int {
    match p {
        Some(pg) => match pg.offset {
            Some(o) => o as int,
            None => 0,
        },
        None => 0,
    }
}

/// The limit a list request asks for: absent means unbounded, here the
/// largest representable count.
pub open spec fn spec_limit(p: Option<Pagination>) -> int {
    match p {
        Some(pg) => match pg.limit {
            Some(l) => l as int,
            None => usize::MAX as int,
        },
        None => usize::MAX as int,
    }
}

/// The page a list request selects: skip `offset` records, then take at
/// most `limit` of those that follow.
pub open spec fn spec_page(s: Seq<UserData>, offset: int, limit: int) -> Seq<UserData> {
    let start = if offset <= s.len() {
        offset
    } else {
        s.len() as int
    };
    let end = if limit <= s.len() - start {
        start + limit
    } else {
        s.len() as int
    };
    s.subrange(start, end)
}

/// List: answer 200 with the selected page of full records; an offset
/// beyond the store yields an empty page, never an error.
pub fn get_users(store: &UserStore, pagination: Option<Pagination>) -> (r: (u16, Vec<User>))
    ensures
        r.0 == 200u16,
        views_of(r.1@) == spec_page(store.records(), spec_offset(pagination), spec_limit(
            pagination,
        )),
{
    let (offset, limit): (usize, usize) = match &pagination {
        Some(p) => (
            match p.offset {
                Some(o) => o,
                None => 0,
            },
            match p.limit {
                Some(l) => l,
                None => usize::MAX,
            },
        ),
        None => (0, usize::MAX),
    };
    let users = store.list();
    let n = users.len();
    let start = if offset <= n {
        offset
    } else {
        n
    };
    let take = if limit <= n - start {
        limit
    } else {
        n - start
    };
    let mut out: Vec<User> = Vec::new();
    let mut i: usize = start;
    proof {
        assert(views_of(out@) =~= store.records().subrange(start as int, start as int));
    }
    while i < start + take
        invariant
            start <= i <= start + take,
            start + take <= n,
            n == users.len(),
            views_of(users@) == store.records(),
            store.records().len() == users@.len(),
            views_of(out@) == store.records().subrange(start as int, i as int),
        decreases start + take - i,
    {
        let d = users[i].duplicate();
        let ghost prev = out@;
        out.push(d);
        proof {
            assert(views_of(out@) =~= views_of(prev).push(d@));
            assert(store.records().subrange(start as int, i as int).push(
                store.records()[i as int],
            ) =~= store.records().subrange(start as int, i + 1 as int));
        }
        i = i + 1;
    }
    proof {
        assert(store.records().subrange(start as int, (start + take) as int) =~= spec_page(
            store.records(),
            spec_offset(pagination),
            spec_limit(pagination),
        ));
    }
    (200, out)
}

/// Fallback for any unmatched path: 404 with the structured JSON error
/// envelope.
pub fn api_fallback() -> (r: (u16, &'static str))
    ensures
        r.0 == 404u16,
        r.1@ == "{\"status\":404,\"message\":\"Not Found\"}"@,
{
    (404, "{\"status\":404,\"message\":\"Not Found\"}")
}

/// Law: a lookup made right after a create, with the identifier the
/// create returned, finds a record with exactly the supplied name and
/// username.
pub proof fn lemma_create_then_get(
    m: Map<u128, UserData>,
    id: u128,
    name: Seq<char>,
    username: Seq<char>,
)
    ensures
        ({
            let m2 = m.insert(id, UserData { id, name, username });
            &&& m2.contains_key(id)
            &&& m2[id].name == name
            &&& m2[id].username == username
        }),
{
}

/// Law: a create whose generated identifier is not yet in the store
/// adds exactly one record and leaves every other record unchanged.
/// That the generator never repeats an identifier rests on the
/// generator itself and is not claimed here.
pub proof fn lemma_create_fresh(store: UserStore, id: u128, u: UserData)
    requires
        store.wf(),
        !store.contents().contains_key(id),
    ensures
        store.contents().insert(id, u).dom().len() == store.contents().dom().len() + 1,
        forall|k: u128| k != id ==> (#[trigger] store.contents().insert(id, u).contains_key(k)
            <==> store.contents().contains_key(k)),
        forall|k: u128| k != id && store.contents().contains_key(k)
            ==> #[trigger] store.contents().insert(id, u)[k] == store.contents()[k],
{
    crate::model::lemma_table_finite(store.records());
    vstd::set::axiom_set_insert_len(store.contents().dom(), id);
}

/// Law: no lookup succeeds for an identifier that was never stored, and
/// none succeeds after the identifier's record has been removed.
pub proof fn lemma_get_after_delete(m: Map<u128, UserData>, id: u128)
    ensures
        !m.remove(id).contains_key(id),
{
}

/// Law: a listing of the whole store yields every stored record exactly
/// once — each position holds the record the store maps its identifier
/// to, every stored identifier appears at some position, and no
/// identifier appears at two positions.
pub proof fn lemma_list_exact(store: UserStore)
    requires
        store.wf(),
    ensures
        forall|i: int| 0 <= i < store.records().len() ==> store.contents().contains_key(
            (#[trigger] store.records()[i]).id,
        ) && store.contents()[store.records()[i].id] == store.records()[i],
        forall|k: u128| #[trigger] store.contents().contains_key(k) ==> exists|i: int|
            0 <= i < store.records().len() && store.records()[i].id == k,
        forall|i: int, j: int|
            0 <= i < store.records().len() && 0 <= j < store.records().len() && i != j
                ==> (#[trigger] store.records()[i]).id != (#[trigger] store.records()[j]).id,
{
    assert forall|i: int| 0 <= i < store.records().len() implies store.contents().contains_key(
        (#[trigger] store.records()[i]).id,
    ) && store.contents()[store.records()[i].id] == store.records()[i] by {
        crate::model::lemma_table_value(store.records(), i);
    }
    assert forall|k: u128| #[trigger] store.contents().contains_key(k) implies exists|i: int|
        0 <= i < store.records().len() && store.records()[i].id == k by {
        crate::model::lemma_table_contains(store.records(), k);
    }
}

/// Law: a page asked for with no offset and a limit at least the
/// store's size is the whole listing.
pub proof fn lemma_page_all(s: Seq<UserData>, limit: int)
    requires
        limit >= s.len(),
    ensures
        spec_page(s, 0, limit) == s,
{
    assert(spec_page(s, 0, limit) =~= s);
}

/// Law: an update that supplies only a name leaves the username as it
/// was, and one that supplies only a username leaves the name; the
/// identifier never changes.
pub proof fn lemma_partial_update(cur: UserData, input: UpdateUserInput)
    ensures
        input.name is None ==> spec_merge(cur, input).name == cur.name,
        input.username is None ==> spec_merge(cur, input).username == cur.username,
        spec_merge(cur, input).id == cur.id,
{
}

} // verus!
