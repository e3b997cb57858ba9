//! Listing a tenant's managed agents a page at a time.
use vstd::prelude::*;

use crate::bytes::{
    fixed_equal, has_prefix, lemma_lex_asymmetric, lemma_lex_irreflexive, lex_lt, push_all, starts_with, text_bytes,
};
use crate::digest::{sha256, sha256_digest};
use crate::managed_agent::codec::{
    agent_bytes, agent_fields, agent_fits, decodable, decode, lemma_agent_bytes_injective,
    lemma_same_fields,
};
use crate::managed_agent::records::agent_prefix;
use crate::managed_agent::responses::{agent_response, lemma_same_response, response_bytes, response_writable};
use crate::managed_agent::{agent_valid, HumanOperationError, ManagedAgent};
use crate::store::{
    ids_contain, kind_ids, KeyView, ObjectKind, StorageClass, Store, StoreView, TenantId, TenantKey,
};

verus! {

/// The most agents a page holds.
pub const MAX_AGENTS_PER_PAGE: u8 = 100;

/// The domain tag of listing cursors: `layerx-agentd/managed-agent-cursor/v1` and a zero byte.
pub open spec fn cursor_tag() -> Seq<u8> {
    seq![
        108u8, 97u8, 121u8, 101u8, 114u8, 120u8, 45u8, 97u8, 103u8, 101u8, 110u8, 116u8, 100u8,
        47u8, 109u8, 97u8, 110u8, 97u8, 103u8, 101u8, 100u8, 45u8, 97u8, 103u8, 101u8, 110u8,
        116u8, 45u8, 99u8, 117u8, 114u8, 115u8, 111u8, 114u8, 47u8, 118u8, 49u8, 0u8,
    ]
}

/// The listing cursor that follows an agent.
pub open spec fn cursor_of(agent_id: Seq<char>) -> Seq<u8> {
    sha256(cursor_tag() + text_bytes(agent_id))
}

/// The listing cursor that follows an agent.
pub fn cursor_for(agent_id: &str) -> (r: [u8; 32])
    ensures
        r@ == cursor_of(agent_id@),
{
    let tag: [u8; 38] = [
        108, 97, 121, 101, 114, 120, 45, 97, 103, 101, 110, 116, 100, 47, 109, 97, 110, 97, 103,
        101, 100, 45, 97, 103, 101, 110, 116, 45, 99, 117, 114, 115, 111, 114, 47, 118, 49, 0,
    ];
    let mut data: Vec<u8> = Vec::new();
    push_all(&mut data, &tag);
    push_all(&mut data, agent_id.as_bytes());
    assert(data@ =~= cursor_tag() + text_bytes(agent_id@));
    sha256_digest(data.as_slice())
}

/// Byte strings in strictly ascending order.
pub open spec fn ascending_ids(s: Seq<Seq<u8>>) -> bool {
    forall|a: int, b: int| 0 <= a < b < s.len() ==> lex_lt(#[trigger] s[a], #[trigger] s[b])
}

/// Whether an object identifier is one of the tenant's agent records.
pub open spec fn is_agent_object(view: StoreView, tenant: Seq<char>, id: Seq<u8>) -> bool {
    kind_ids(view, tenant, ObjectKind::Configuration).contains(id) && has_prefix(id, agent_prefix())
}

/// Whether `s` lists exactly the tenant's agent record objects, in ascending order.
pub open spec fn lists_agent_objects(s: Seq<Seq<u8>>, view: StoreView, tenant: Seq<char>) -> bool {
    ascending_ids(s) && forall|id: Seq<u8>| #[trigger] s.contains(id) <==> is_agent_object(view, tenant, id)
}

/// The tenant's agent record objects, in ascending order.
#[verifier::opaque]
pub open spec fn agent_objects(view: StoreView, tenant: Seq<char>) -> Seq<Seq<u8>> {
    choose|s: Seq<Seq<u8>>| lists_agent_objects(s, view, tenant)
}

/// The store key of a configuration object.
pub open spec fn object_key(tenant: Seq<char>, id: Seq<u8>) -> KeyView {
    KeyView { tenant, kind: ObjectKind::Configuration, object_id: id }
}

/// Whether every agent record object of the tenant is daemon-local and decodes.
pub open spec fn objects_sound(view: StoreView, tenant: Seq<char>) -> bool {
    forall|id: Seq<u8>|
        #[trigger] is_agent_object(view, tenant, id) ==> view[object_key(tenant, id)].0
            == StorageClass::LocalOnly && decodable(view[object_key(tenant, id)].1)
}

/// The agent the record object `id` holds.
#[verifier::opaque]
pub open spec fn object_agent(view: StoreView, tenant: Seq<char>, id: Seq<u8>) -> ManagedAgent {
    choose|a: ManagedAgent|
        agent_valid(a) && agent_fits(a) && #[trigger] agent_bytes(a) == view[object_key(tenant, id)].1
}

/// The `k`-th listed agent.
pub open spec fn listed(view: StoreView, tenant: Seq<char>, k: int) -> ManagedAgent {
    object_agent(view, tenant, agent_objects(view, tenant)[k])
}

/// The position of the first listed agent, from the `i`-th on, whose cursor is `c`.
pub open spec fn cursor_position(view: StoreView, tenant: Seq<char>, c: Seq<u8>, i: int) -> Option<int>
    decreases agent_objects(view, tenant).len() - i,
{
    if i < 0 || i >= agent_objects(view, tenant).len() {
        None
    } else if cursor_of(listed(view, tenant, i).agent_id@) == c {
        Some(i)
    } else {
        cursor_position(view, tenant, c, i + 1)
    }
}

/// A position found lies among the listed agents, at or after the start of the search.
proof fn lemma_cursor_position_range(view: StoreView, tenant: Seq<char>, c: Seq<u8>, i: int)
    ensures
        cursor_position(view, tenant, c, i) matches Some(j) ==> i <= j < agent_objects(
            view,
            tenant,
        ).len() && 0 <= j,
    decreases agent_objects(view, tenant).len() - i,
{
    if 0 <= i < agent_objects(view, tenant).len() {
        lemma_cursor_position_range(view, tenant, c, i + 1);
    }
}

proof fn lemma_cursor_found(view: StoreView, tenant: Seq<char>, c: Seq<u8>, i: int, j: int)
    requires
        0 <= i <= j < agent_objects(view, tenant).len(),
        cursor_of(listed(view, tenant, j).agent_id@) == c,
        forall|k: int| i <= k < j ==> cursor_of((#[trigger] listed(view, tenant, k)).agent_id@) != c,
    ensures
        cursor_position(view, tenant, c, i) == Some(j),
    decreases j - i,
{
    if i < j {
        lemma_cursor_found(view, tenant, c, i + 1, j);
    }
}

/// Law: the cursor a page ends with, when more agents follow, resumes listing just after
/// the page's last agent, so that consecutive pages list every agent once, in order. It
/// holds unless an earlier agent's cursor coincides with that cursor.
pub proof fn lemma_cursor_resumes(view: StoreView, tenant: Seq<char>, end: int)
    requires
        0 < end < agent_objects(view, tenant).len(),
        forall|k: int|
            0 <= k < end - 1 ==> cursor_of((#[trigger] listed(view, tenant, k)).agent_id@) != cursor_of(
                listed(view, tenant, end - 1).agent_id@,
            ),
    ensures
        page_start(view, tenant, Some(cursor_of(listed(view, tenant, end - 1).agent_id@))) == Some(end),
{
    lemma_cursor_found(view, tenant, cursor_of(listed(view, tenant, end - 1).agent_id@), 0, end - 1);
}

/// Whether no two listed agents share a listing cursor.
pub open spec fn cursors_distinct(view: StoreView, tenant: Seq<char>) -> bool {
    forall|a: int, b: int|
        0 <= a < b < agent_objects(view, tenant).len() ==> cursor_of(
            (#[trigger] listed(view, tenant, a)).agent_id@,
        ) != cursor_of((#[trigger] listed(view, tenant, b)).agent_id@)
}

/// The positions `start` up to `end` of the listed agents.
pub open spec fn positions(start: int, end: int) -> Seq<int> {
    Seq::new(if start <= end { (end - start) as nat } else { 0 }, |k: int| start + k)
}

/// The cursor a page ending at `end` carries: the cursor of its last agent, when more
/// agents follow.
pub open spec fn next_cursor(view: StoreView, tenant: Seq<char>, end: int) -> Option<Seq<u8>> {
    if end < agent_objects(view, tenant).len() {
        Some(cursor_of(listed(view, tenant, end - 1).agent_id@))
    } else {
        None
    }
}

/// The positions of the agents that at most `pages` successive calls list, the first at
/// `cursor` and each later one at the cursor the page before it carries, until a page
/// carries none.
pub open spec fn walk(view: StoreView, tenant: Seq<char>, limit: u8, cursor: Option<Seq<u8>>, pages: nat) -> Seq<int>
    decreases pages,
{
    if pages == 0 {
        Seq::empty()
    } else {
        match page_start(view, tenant, cursor) {
            None => Seq::empty(),
            Some(s) => {
                let e = page_end(view, tenant, s, limit);
                positions(s, e) + match next_cursor(view, tenant, e) {
                    Some(c) => walk(view, tenant, limit, Some(c), (pages - 1) as nat),
                    None => Seq::empty(),
                }
            },
        }
    }
}

proof fn lemma_walk_from(view: StoreView, tenant: Seq<char>, limit: u8, cursor: Option<Seq<u8>>, s: int, pages: nat)
    requires
        1 <= limit,
        cursors_distinct(view, tenant),
        0 <= s <= agent_objects(view, tenant).len(),
        page_start(view, tenant, cursor) == Some(s),
        agent_objects(view, tenant).len() - s <= pages * limit,
    ensures
        walk(view, tenant, limit, cursor, pages) == positions(s, agent_objects(view, tenant).len() as int),
    decreases pages,
{
    let n = agent_objects(view, tenant).len() as int;
    if pages == 0 {
        assert(walk(view, tenant, limit, cursor, pages) =~= positions(s, n));
    } else {
        let e = page_end(view, tenant, s, limit);
        if e < n {
            let p = (pages - 1) as nat;
            assert(p * limit == pages * limit - limit) by (nonlinear_arith)
                requires
                    p == pages - 1,
            ;
            assert forall|k: int| 0 <= k < e - 1 implies cursor_of((#[trigger] listed(view, tenant, k)).agent_id@) != cursor_of(
                listed(view, tenant, e - 1).agent_id@,
            ) by {
                assert(cursor_of(listed(view, tenant, k).agent_id@) != cursor_of(listed(view, tenant, e - 1).agent_id@));
            }
            lemma_cursor_resumes(view, tenant, e);
            lemma_walk_from(view, tenant, limit, next_cursor(view, tenant, e), e, p);
            assert(positions(s, e) + positions(e, n) =~= positions(s, n));
        } else {
            assert(positions(s, e) + Seq::<int>::empty() =~= positions(s, n));
        }
    }
}

/// Law: walking a tenant's agents page by page, each call at the cursor the page before it
/// carried, lists every agent exactly once and in order, whatever the page size; the walk
/// ends when a page carries no cursor, after at most as many pages as it takes `limit`
/// agents at a time to cover them all. It holds unless two agents' cursors coincide.
pub proof fn lemma_walk_lists_all(view: StoreView, tenant: Seq<char>, limit: u8, pages: nat)
    requires
        1 <= limit,
        cursors_distinct(view, tenant),
        agent_objects(view, tenant).len() <= pages * limit,
    ensures
        walk(view, tenant, limit, None, pages) == positions(0, agent_objects(view, tenant).len() as int),
{
    lemma_walk_from(view, tenant, limit, None, 0, pages);
}

/// Where a page starts: at the beginning, or just after the first agent at the cursor.
pub open spec fn page_start(view: StoreView, tenant: Seq<char>, cursor: Option<Seq<u8>>) -> Option<int> {
    match cursor {
        None => Some(0),
        Some(c) => match cursor_position(view, tenant, c, 0) {
            Some(j) => Some(j + 1),
            None => None,
        },
    }
}

/// Where a page starting at `start` ends.
pub open spec fn page_end(view: StoreView, tenant: Seq<char>, start: int, limit: u8) -> int {
    if start + limit < agent_objects(view, tenant).len() {
        start + limit
    } else {
        agent_objects(view, tenant).len() as int
    }
}

/// The descriptions of the listed agents from `start` up to `end`.
pub open spec fn page_bytes(view: StoreView, tenant: Seq<char>, start: int, end: int) -> Seq<u8>
    decreases end - start,
{
    if end <= start {
        Seq::empty()
    } else {
        page_bytes(view, tenant, start, end - 1) + response_bytes(listed(view, tenant, end - 1))
    }
}

/// Whether every listed agent from `start` up to `end` can be described.
pub open spec fn page_writable(view: StoreView, tenant: Seq<char>, start: int, end: int) -> bool {
    forall|k: int| start <= k < end ==> response_writable(#[trigger] listed(view, tenant, k))
}

/// A page: the number of agents, their descriptions, and the cursor after the last one
/// when more follow.
pub open spec fn list_bytes(view: StoreView, tenant: Seq<char>, start: int, end: int) -> Seq<u8> {
    seq![(end - start) as u8] + page_bytes(view, tenant, start, end) + match next_cursor(view, tenant, end) {
        Some(c) => seq![1u8] + c,
        None => seq![0u8],
    }
}

/// Two ascending lists of the same identifiers are equal.
proof fn lemma_ascending_unique(s: Seq<Seq<u8>>, t: Seq<Seq<u8>>)
    requires
        ascending_ids(s),
        ascending_ids(t),
        forall|x: Seq<u8>| s.contains(x) <==> t.contains(x),
    ensures
        s == t,
    decreases s.len(),
{
    if s.len() == 0 {
        if t.len() > 0 {
            assert(t.contains(t[0]));
        }
        assert(s =~= t);
    } else {
        assert(s.contains(s[0]));
        let j = choose|j: int| 0 <= j < t.len() && t[j] == s[0];
        assert(t.contains(t[0]));
        let i = choose|i: int| 0 <= i < s.len() && s[i] == t[0];
        if j > 0 {
            assert(lex_lt(t[0], t[j]));
            if i > 0 {
                assert(lex_lt(s[0], s[i]));
                lemma_lex_asymmetric(s[0], t[0]);
            } else {
                lemma_lex_irreflexive(s[0]);
            }
        }
        let s2 = s.drop_first();
        let t2 = t.drop_first();
        assert forall|x: Seq<u8>| s2.contains(x) <==> t2.contains(x) by {
            if s2.contains(x) {
                let a = choose|a: int| 0 <= a < s2.len() && s2[a] == x;
                assert(s[a + 1] == x);
                assert(lex_lt(s[0], s[a + 1]));
                lemma_lex_irreflexive(x);
                assert(t.contains(x));
                let b = choose|b: int| 0 <= b < t.len() && t[b] == x;
                assert(b != 0);
                assert(t2[b - 1] == x);
            }
            if t2.contains(x) {
                let a = choose|a: int| 0 <= a < t2.len() && t2[a] == x;
                assert(t[a + 1] == x);
                assert(lex_lt(t[0], t[a + 1]));
                lemma_lex_irreflexive(x);
                assert(s.contains(x));
                let b = choose|b: int| 0 <= b < s.len() && s[b] == x;
                assert(b != 0);
                assert(s2[b - 1] == x);
            }
        }
        assert(ascending_ids(s2)) by {
            assert forall|a: int, b: int| 0 <= a < b < s2.len() implies lex_lt(
                #[trigger] s2[a],
                #[trigger] s2[b],
            ) by {
                assert(s2[a] == s[a + 1] && s2[b] == s[b + 1]);
            }
        }
        assert(ascending_ids(t2)) by {
            assert forall|a: int, b: int| 0 <= a < b < t2.len() implies lex_lt(
                #[trigger] t2[a],
                #[trigger] t2[b],
            ) by {
                assert(t2[a] == t[a + 1] && t2[b] == t[b + 1]);
            }
        }
        lemma_ascending_unique(s2, t2);
        assert(s =~= seq![s[0]] + s2);
        assert(t =~= seq![t[0]] + t2);
    }
}

/// A list of exactly the tenant's agent record objects, in ascending order, is the one
/// `agent_objects` names.
proof fn lemma_agent_objects(s: Seq<Seq<u8>>, view: StoreView, tenant: Seq<char>)
    requires
        lists_agent_objects(s, view, tenant),
    ensures
        agent_objects(view, tenant) == s,
{
    reveal(agent_objects);
    let t = agent_objects(view, tenant);
    assert(lists_agent_objects(t, view, tenant));
    assert forall|x: Seq<u8>| s.contains(x) <==> t.contains(x) by {
        if s.contains(x) {
            assert(is_agent_object(view, tenant, x));
        }
        if t.contains(x) {
            assert(is_agent_object(view, tenant, x));
        }
    }
    lemma_ascending_unique(s, t);
}

/// The tenant's agents, decoded from their record objects in ascending order, with the
/// objects' identifiers.
///
/// # Errors
///
/// `Refused` when an agent record object is not daemon-local or does not decode.
#[verifier::loop_isolation(false)]
fn load_agents(store: &Store, tenant: &TenantId) -> (r: Result<
    (Vec<ManagedAgent>, Ghost<Seq<Seq<u8>>>),
    HumanOperationError,
>)
    requires
        store.wf(),
    ensures
        r is Ok <==> objects_sound(store.view(), tenant@),
        r matches Err(e) ==> e == HumanOperationError::Refused,
        r matches Ok((agents, objs)) ==> {
            &&& lists_agent_objects(objs@, store.view(), tenant@)
            &&& agents@.len() == objs@.len()
            &&& forall|k: int|
                0 <= k < agents@.len() ==> agent_valid(#[trigger] agents@[k]) && agent_fits(
                    agents@[k],
                ) && agent_bytes(agents@[k]) == store.view()[object_key(tenant@, objs@[k])].1
        },
{
    let ghost view = store.view();
    let ghost t = tenant@;
    let prefix: [u8; 17] = [109, 97, 110, 97, 103, 101, 100, 45, 97, 103, 101, 110, 116, 45, 118, 49, 58];
    assert(prefix@ == agent_prefix());
    let ids = store.list_object_ids(tenant, ObjectKind::Configuration);
    let mut agents: Vec<ManagedAgent> = Vec::new();
    let ghost mut objs: Seq<Seq<u8>> = Seq::empty();
    let mut i: usize = 0;
    while i < ids.len()
        invariant
            i <= ids@.len(),
            agents@.len() == objs.len(),
            forall|a: int, b: int| 0 <= a < b < objs.len() ==> lex_lt(#[trigger] objs[a], #[trigger] objs[b]),
            forall|a: int| 0 <= a < objs.len() ==> exists|q: int| 0 <= q < i && (#[trigger] objs[a]) == ids@[q]@,
            forall|q: int|
                0 <= q < i && has_prefix(#[trigger] ids@[q]@, agent_prefix()) ==> objs.contains(ids@[q]@),
            forall|a: int| 0 <= a < objs.len() ==> has_prefix(#[trigger] objs[a], agent_prefix()),
            forall|a: int|
                0 <= a < objs.len() ==> view[object_key(t, #[trigger] objs[a])].0
                    == StorageClass::LocalOnly,
            forall|k: int|
                0 <= k < agents@.len() ==> agent_valid(#[trigger] agents@[k]) && agent_fits(
                    agents@[k],
                ) && agent_bytes(agents@[k]) == view[object_key(t, objs[k])].1,
        decreases ids@.len() - i,
    {
        let ghost id = ids@[i as int]@;
        assert(ids_contain(ids@, id));
        assert(kind_ids(view, t, ObjectKind::Configuration).contains(id));
        if starts_with(ids[i].as_slice(), &prefix) {
            proof {
                store.lemma_view_key_valid(object_key(t, id));
            }
            let mut object_id: Vec<u8> = Vec::new();
            push_all(&mut object_id, ids[i].as_slice());
            let key = match TenantKey::new(tenant.clone(), ObjectKind::Configuration, object_id) {
                Ok(key) => key,
                Err(_) => {
                    return Err(HumanOperationError::Refused);
                },
            };
            assert(key@ == object_key(t, id));
            let value = match store.get(&key) {
                Some(v) => v,
                None => {
                    return Err(HumanOperationError::Unavailable);
                },
            };
            if value.class() != StorageClass::LocalOnly {
                assert(is_agent_object(view, t, id));
                return Err(HumanOperationError::Refused);
            }
            let agent = match decode(value.bytes()) {
                Ok(a) => a,
                Err(e) => {
                    assert(is_agent_object(view, t, id));
                    return Err(e);
                },
            };
            let ghost before = objs;
            agents.push(agent);
            proof {
                objs = objs.push(id);
                assert forall|a: int, b: int| 0 <= a < b < objs.len() implies lex_lt(
                    #[trigger] objs[a],
                    #[trigger] objs[b],
                ) by {
                    if b == objs.len() - 1 {
                        let q = choose|q: int| 0 <= q < i && before[a] == ids@[q]@;
                        assert(objs[a] == before[a]);
                        assert(lex_lt(ids@[q]@, ids@[i as int]@));
                    } else {
                        assert(objs[a] == before[a] && objs[b] == before[b]);
                    }
                }
                assert forall|a: int| 0 <= a < objs.len() implies exists|q: int|
                    0 <= q < i + 1 && (#[trigger] objs[a]) == ids@[q]@ by {
                    if a < before.len() {
                        assert(objs[a] == before[a]);
                    } else {
                        assert(objs[a] == ids@[i as int]@);
                    }
                }
                assert forall|q: int|
                    0 <= q < i + 1 && has_prefix(#[trigger] ids@[q]@, agent_prefix()) implies objs.contains(
                    ids@[q]@,
                ) by {
                    if q < i {
                        assert(before.contains(ids@[q]@));
                        let a = choose|a: int| 0 <= a < before.len() && before[a] == ids@[q]@;
                        assert(objs[a] == ids@[q]@);
                    } else {
                        assert(objs[objs.len() - 1] == ids@[q]@);
                    }
                }
                assert forall|k: int| 0 <= k < agents@.len() implies agent_valid(
                    #[trigger] agents@[k],
                ) && agent_fits(agents@[k]) && agent_bytes(agents@[k]) == view[object_key(
                    t,
                    objs[k],
                )].1 by {
                    if k < before.len() {
                        assert(objs[k] == before[k]);
                    }
                }
            }
        }
        i = i + 1;
    }
    proof {
        assert forall|id: Seq<u8>| #[trigger] objs.contains(id) <==> is_agent_object(view, t, id) by {
            if objs.contains(id) {
                let a = choose|a: int| 0 <= a < objs.len() && objs[a] == id;
                let q = choose|q: int| 0 <= q < i && objs[a] == ids@[q]@;
                assert(ids_contain(ids@, id));
            }
            if is_agent_object(view, t, id) {
                assert(ids_contain(ids@, id));
                let q = choose|q: int| 0 <= q < ids@.len() && #[trigger] ids@[q]@ == id;
            }
        }
        assert forall|id: Seq<u8>| #[trigger] is_agent_object(view, t, id) implies view[object_key(t, id)].0
            == StorageClass::LocalOnly && decodable(view[object_key(t, id)].1) by {
            assert(objs.contains(id));
            let a = choose|a: int| 0 <= a < objs.len() && objs[a] == id;
            assert(agent_valid(agents@[a]) && agent_fits(agents@[a]) && agent_bytes(agents@[a])
                == view[object_key(t, id)].1);
        }
    }
    Ok((agents, Ghost(objs)))
}

/// The bytes of an optional cursor.
pub open spec fn cursor_view(cursor: Option<[u8; 32]>) -> Option<Seq<u8>> {
    match cursor {
        Some(c) => Some(c@),
        None => None,
    }
}

/// Whether decoded agents are the listed agents, one for one.
pub open spec fn are_listed(agents: Seq<ManagedAgent>, view: StoreView, tenant: Seq<char>) -> bool {
    &&& agents.len() == agent_objects(view, tenant).len()
    &&& forall|k: int|
        0 <= k < agents.len() ==> agent_valid(#[trigger] listed(view, tenant, k)) && agent_fits(
            listed(view, tenant, k),
        ) && agent_fields(listed(view, tenant, k)) == agent_fields(agents[k]) && agent_valid(
            agents[k],
        )
}

/// The position of the first listed agent at a cursor.
fn find_cursor(agents: &Vec<ManagedAgent>, c: [u8; 32], store: &Store, tenant: &TenantId) -> (r: Option<usize>)
    requires
        are_listed(agents@, store.view(), tenant@),
    ensures
        match cursor_position(store.view(), tenant@, c@, 0) {
            Some(j) => r == Some(j as usize),
            None => r is None,
        },
        r matches Some(j) ==> j < agents@.len(),
{
    let ghost v = store.view();
    let ghost t = tenant@;
    let mut j: usize = 0;
    while j < agents.len()
        invariant
            j <= agents@.len(),
            v == store.view(),
            t == tenant@,
            are_listed(agents@, v, t),
            cursor_position(v, t, c@, 0) == cursor_position(v, t, c@, j as int),
        decreases agents@.len() - j,
    {
        let here = cursor_for(agents[j].agent_id.as_str());
        proof {
            lemma_same_fields(listed(v, t, j as int), agents@[j as int]);
        }
        if fixed_equal(&here, &c) {
            return Some(j);
        }
        j = j + 1;
    }
    None
}

/// The descriptions of the listed agents from `start` up to `end`, after their number.
fn write_page(
    agents: &Vec<ManagedAgent>,
    start: usize,
    end: usize,
    store: &Store,
    tenant: &TenantId,
) -> (r: Result<Vec<u8>, HumanOperationError>)
    requires
        are_listed(agents@, store.view(), tenant@),
        start <= end <= agents@.len(),
        end - start <= 255,
    ensures
        r is Ok <==> page_writable(store.view(), tenant@, start as int, end as int),
        r matches Ok(b) ==> b@ == seq![(end - start) as u8] + page_bytes(
            store.view(),
            tenant@,
            start as int,
            end as int,
        ),
        r matches Err(e) ==> e == HumanOperationError::Refused,
{
    let ghost v = store.view();
    let ghost t = tenant@;
    let mut out: Vec<u8> = Vec::new();
    out.push((end - start) as u8);
    let mut k: usize = start;
    while k < end
        invariant
            start <= k <= end,
            end <= agents@.len(),
            v == store.view(),
            t == tenant@,
            are_listed(agents@, v, t),
            out@ == seq![(end - start) as u8] + page_bytes(v, t, start as int, k as int),
            forall|i: int| start <= i < k ==> response_writable(#[trigger] listed(v, t, i)),
        decreases end - k,
    {
        proof {
            lemma_same_response(listed(v, t, k as int), agents@[k as int]);
        }
        let described = match agent_response(&agents[k]) {
            Ok(b) => b,
            Err(e) => {
                return Err(e);
            },
        };
        push_all(&mut out, described.as_slice());
        assert(out@ =~= seq![(end - start) as u8] + page_bytes(v, t, start as int, k + 1));
        k = k + 1;
    }
    Ok(out)
}

/// Lists a page of the tenant's agents, in ascending order of their record objects,
/// starting at the beginning or just after the agent at `cursor`.
///
/// # Errors
///
/// `Refused` for a limit outside 1 to 100, an agent record object that is not daemon-local
/// or does not decode, a cursor no listed agent is at, or a listed agent on the page that
/// cannot be described.
pub fn list(store: &Store, tenant: &TenantId, cursor: Option<[u8; 32]>, limit: u8) -> (r: Result<
    Vec<u8>,
    HumanOperationError,
>)
    requires
        store.wf(),
    ensures
        r matches Err(e) ==> e == HumanOperationError::Refused,
        ({
            let v = store.view();
            let t = tenant@;
            let start = page_start(v, t, cursor_view(cursor));
            &&& r is Ok <==> 1 <= limit <= MAX_AGENTS_PER_PAGE && objects_sound(v, t) && start is Some
                && page_writable(v, t, start->Some_0, page_end(v, t, start->Some_0, limit))
            &&& r matches Ok(b) ==> b@ == list_bytes(
                v,
                t,
                start->Some_0,
                page_end(v, t, start->Some_0, limit),
            )
        }),
{
    let ghost v = store.view();
    let ghost t = tenant@;
    if limit == 0 || limit > MAX_AGENTS_PER_PAGE {
        return Err(HumanOperationError::Refused);
    }
    let (agents, Ghost(objs)) = load_agents(store, tenant)?;
    proof {
        lemma_agent_objects(objs, v, t);
        assert forall|k: int| 0 <= k < agents@.len() implies agent_valid(
            #[trigger] listed(v, t, k),
        ) && agent_fits(listed(v, t, k)) && agent_fields(listed(v, t, k)) == agent_fields(
            agents@[k],
        ) && agent_valid(agents@[k]) by {
            reveal(object_agent);
            let a = listed(v, t, k);
            assert(agent_valid(agents@[k]) && agent_fits(agents@[k]) && agent_bytes(agents@[k])
                == v[object_key(t, objs[k])].1);
            lemma_agent_bytes_injective(a, agents@[k]);
        }
    }
    let n = agents.len();
    let start: usize = match cursor {
        None => 0,
        Some(c) => match find_cursor(&agents, c, store, tenant) {
            None => {
                return Err(HumanOperationError::Refused);
            },
            Some(j) => {
                proof {
                    lemma_cursor_position_range(v, t, c@, 0);
                    assert(cursor_view(cursor) == Some(c@));
                }
                j + 1
            },
        },
    };
    assert(page_start(v, t, cursor_view(cursor)) == Some(start as int));
    let end: usize = if n - start > limit as usize {
        start + limit as usize
    } else {
        n
    };
    assert(end == page_end(v, t, start as int, limit));
    let mut out = write_page(&agents, start, end, store, tenant)?;
    if end < n {
        out.push(1u8);
        let next = cursor_for(agents[end - 1].agent_id.as_str());
        proof {
            lemma_same_fields(listed(v, t, end - 1), agents@[end - 1]);
        }
        push_all(&mut out, &next);
    } else {
        out.push(0u8);
    }
    assert(out@ =~= list_bytes(v, t, start as int, end as int));
    Ok(out)
}

} // verus!
