use vstd::prelude::*;
use crate::game::UserID;

verus! {

/// A registered member: identifier and display name.
#[derive(Clone, Debug)]
pub struct Member {
    pub id: UserID,
    pub name: String,
}

/// The member directory, in the order in which members were appended.
pub type Members = Vec<Member>;

/// Identifier of the first member named `name`, if any.
pub open spec fn member_id_of(ms: Seq<Member>, name: Seq<char>) -> Option<UserID>
    decreases ms.len(),
{
    if ms.len() == 0 {
        None
    } else if ms[0].name@ == name {
        Some(ms[0].id)
    } else {
        member_id_of(ms.drop_first(), name)
    }
}

/// Name of the first member with identifier `id`, if any.
pub open spec fn member_name_of(ms: Seq<Member>, id: UserID) -> Option<Seq<char>>
    decreases ms.len(),
{
    if ms.len() == 0 {
        None
    } else if ms[0].id == id {
        Some(ms[0].name@)
    } else {
        member_name_of(ms.drop_first(), id)
    }
}

/// The identifier the next appended member receives: one more than the
/// largest identifier present, or 0 in an empty directory.
pub open spec fn next_member_id(ms: Seq<Member>) -> int
    decreases ms.len(),
{
    if ms.len() == 0 {
        0
    } else {
        let rest = next_member_id(ms.drop_last());
        if rest > ms.last().id + 1 {
            rest
        } else {
            ms.last().id + 1
        }
    }
}

/// The display names of the members, in directory order.
pub open spec fn names_of(ms: Seq<Member>) -> Seq<Seq<char>> {
    ms.map_values(|m: Member| m.name@)
}

/// Lexicographic order on texts, character by character.
pub open spec fn text_le(a: Seq<char>, b: Seq<char>) -> bool
    decreases a.len(),
{
    if a.len() == 0 {
        true
    } else if b.len() == 0 {
        false
    } else if a[0] != b[0] {
        (a[0] as u32) < (b[0] as u32)
    } else {
        text_le(a.drop_first(), b.drop_first())
    }
}

/// Relies on `slice::sort_unstable` for `String`, whose order is lexicographic:
/// the same texts, rearranged into ascending order.
#[verifier::external_body]
fn sort_texts(v: &mut Vec<String>)
    ensures
        final(v)@.map_values(|s: String| s@).to_multiset() == old(v)@.map_values(
            |s: String| s@,
        ).to_multiset(),
        forall|i: int, j: int|
            0 <= i < j < final(v)@.len() ==> text_le(#[trigger] final(v)@[i]@, #[trigger] final(v)@[j]@),
{
    v.sort_unstable();
}

/// Identifier of the first member named `name`.
pub fn get_member_id(members: &Members, name: &String) -> (r: Result<UserID, crate::PmError>)
    ensures
        r == match member_id_of(members@, name@) {
            Some(id) => Ok::<UserID, crate::PmError>(id),
            None => Err(crate::PmError::MemberNotFound),
        },
{
    let mut i: usize = 0;
    assert(members@.subrange(0, members@.len() as int) =~= members@);
    while i < members.len()
        invariant
            0 <= i <= members@.len(),
            member_id_of(members@, name@) == member_id_of(members@.subrange(i as int, members@.len() as int), name@),
        decreases members@.len() - i,
    {
        assert(members@.subrange(i as int, members@.len() as int).drop_first() =~= members@.subrange(i + 1, members@.len() as int));
        if members[i].name == *name {
            return Ok(members[i].id);
        }
        i += 1;
    }
    Err(crate::PmError::MemberNotFound)
}

/// Display name of the first member with identifier `id`.
pub fn member_name(members: &Members, id: UserID) -> (r: Option<String>)
    ensures
        match r {
            Some(n) => member_name_of(members@, id) == Some(n@),
            None => member_name_of(members@, id).is_none(),
        },
{
    let mut i: usize = 0;
    assert(members@.subrange(0, members@.len() as int) =~= members@);
    while i < members.len()
        invariant
            0 <= i <= members@.len(),
            member_name_of(members@, id) == member_name_of(members@.subrange(i as int, members@.len() as int), id),
        decreases members@.len() - i,
    {
        assert(members@.subrange(i as int, members@.len() as int).drop_first() =~= members@.subrange(i + 1, members@.len() as int));
        if members[i].id == id {
            return Some(members[i].name.clone());
        }
        i += 1;
    }
    None
}

/// Appends a member named `new_member` and returns the identifier given to it:
/// one more than the largest identifier present, or 0 in an empty directory.
pub fn append_member(members: &mut Members, new_member: &str) -> (r: UserID)
    requires
        next_member_id(old(members)@) <= usize::MAX,
    ensures
        r == next_member_id(old(members)@),
        final(members)@.len() == old(members)@.len() + 1,
        final(members)@.drop_last() == old(members)@,
        final(members)@.last().id == r,
        final(members)@.last().name@ == new_member@,
{
    let mut next: usize = 0;
    let mut i: usize = 0;
    while i < members.len()
        invariant
            0 <= i <= members@.len(),
            members@ == old(members)@,
            next_member_id(old(members)@) <= usize::MAX,
            next == next_member_id(members@.subrange(0, i as int)),
        decreases members@.len() - i,
    {
        proof {
            lemma_next_member_id_prefix(members@, i as int + 1);
            assert(members@.subrange(0, i + 1).drop_last() =~= members@.subrange(0, i as int));
        }
        if members[i].id >= next {
            next = members[i].id + 1;
        }
        i += 1;
    }
    assert(members@.subrange(0, members@.len() as int) =~= members@);
    members.push(Member { id: next, name: new_member.to_owned() });
    assert(members@.drop_last() =~= old(members)@);
    next
}

/// A prefix of a directory never asks for a larger next identifier than the whole.
proof fn lemma_next_member_id_prefix(ms: Seq<Member>, n: int)
    requires
        0 <= n <= ms.len(),
    ensures
        next_member_id(ms.subrange(0, n)) <= next_member_id(ms),
        n > 0 ==> ms[n - 1].id + 1 <= next_member_id(ms),
    decreases ms.len() - n,
{
    if n < ms.len() {
        lemma_next_member_id_prefix(ms, n + 1);
        assert(ms.subrange(0, n + 1).drop_last() =~= ms.subrange(0, n));
    } else {
        assert(ms.subrange(0, n) =~= ms);
        if n > 0 {
            assert(ms.drop_last() =~= ms.subrange(0, n - 1));
        }
    }
}

/// The first member appended to an empty directory gets identifier 0; the
/// next one appended after a member `m` gets `m.id + 1`, whichever identifier
/// `m` had.
pub proof fn lemma_first_member_ids(m: Member)
    ensures
        next_member_id(Seq::<Member>::empty()) == 0,
        next_member_id(seq![m]) == m.id + 1,
{
    assert(seq![m].drop_last() =~= Seq::<Member>::empty());
    assert(seq![m].last() == m);
    reveal_with_fuel(next_member_id, 2);
}

/// The display names of all members, in ascending lexicographic order.
pub fn get_members(members: &Members) -> (r: Vec<String>)
    ensures
        r@.map_values(|s: String| s@).to_multiset() == names_of(members@).to_multiset(),
        forall|i: int, j: int| 0 <= i < j < r@.len() ==> text_le(#[trigger] r@[i]@, #[trigger] r@[j]@),
{
    let mut names: Vec<String> = Vec::new();
    let mut i: usize = 0;
    while i < members.len()
        invariant
            0 <= i <= members@.len(),
            names@.map_values(|s: String| s@) =~= names_of(members@.subrange(0, i as int)),
        decreases members@.len() - i,
    {
        let name = members[i].name.clone();
        names.push(name);
        proof {
            let done = members@.subrange(0, i as int);
            assert(members@.subrange(0, i + 1) =~= done.push(members@[i as int]));
            assert(names_of(done.push(members@[i as int])) =~= names_of(done).push(name@));
        }
        i += 1;
    }
    assert(members@.subrange(0, members@.len() as int) =~= members@);
    sort_texts(&mut names);
    names
}

} // verus!
