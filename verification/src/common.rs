//! Items shared by the contracts: account identifiers, token transfers and
//! searches by identifier.

use vstd::prelude::*;

verus! {

/// An account or contract address, held as its strkey text (`G...` or `C...`).
pub type AccountId = String;

/// Seconds in one day: voting and repayment periods are counted in days.
pub const SECONDS_PER_DAY: u64 = 86_400;

/// A token movement that an operation asks its host to carry out: `amount`
/// units of the token contract `asset`, between the contract and `account`.
/// Each operation that returns one says in which direction it goes.
pub struct Transfer {
    pub asset: AccountId,
    pub account: AccountId,
    pub amount: i128,
}

/// `a` is one of the accounts of `list`.
pub open spec fn has_account(list: Seq<AccountId>, a: Seq<char>) -> bool {
    exists|i: int| 0 <= i < list.len() && (#[trigger] list[i])@ == a
}

/// Whether `a` is one of the accounts of `list`.
pub fn contains_account(list: &Vec<AccountId>, a: &AccountId) -> (found: bool)
    ensures
        found == has_account(list@, a@),
{
    let mut i: usize = 0;
    while i < list.len()
        invariant
            i <= list.len(),
            forall|j: int| 0 <= j < i ==> (#[trigger] list@[j])@ != a@,
        decreases list.len() - i,
    {
        if list[i] == *a {
            return true;
        }
        i = i + 1;
    }
    false
}

/// A value that can be copied exactly.
pub trait Duplicate: Sized {
    /// An exact copy of the value.
    fn duplicate(&self) -> (copy: Self)
        ensures
            copy == *self,
    ;
}

impl Duplicate for String {
    fn duplicate(&self) -> (copy: String) {
        self.clone()
    }
}

impl Duplicate for i128 {
    fn duplicate(&self) -> (copy: i128) {
        *self
    }
}

/// An exact copy of a list.
pub fn copy_all<T: Duplicate>(v: &Vec<T>) -> (c: Vec<T>)
    ensures
        c@ == v@,
{
    let mut c: Vec<T> = Vec::new();
    let mut i: usize = 0;
    while i < v.len()
        invariant
            i <= v.len(),
            c@ == v@.take(i as int),
        decreases v.len() - i,
    {
        c.push(v[i].duplicate());
        i = i + 1;
        assert(c@ =~= v@.take(i as int));
    }
    assert(v@.take(v.len() as int) =~= v@);
    c
}

/// A record stored under a numeric id.
pub trait Keyed {
    /// The id of the record.
    spec fn key(&self) -> u32;

    /// The id of the record.
    fn get_key(&self) -> (k: u32)
        ensures
            k == self.key(),
    ;
}

/// The ids of a list of records.
pub open spec fn keys_of<T: Keyed>(records: Seq<T>) -> Seq<u32> {
    records.map_values(|r: T| r.key())
}

/// The position of the first record of `records` with id `id`.
pub fn find_first<T: Keyed>(records: &Vec<T>, id: u32) -> (r: Option<usize>)
    ensures
        match r {
            Some(i) => first_position(keys_of(records@), id) == Some(i as int),
            None => first_position(keys_of(records@), id) is None,
        },
{
    let ghost ids = keys_of(records@);
    let mut i: usize = 0;
    while i < records.len()
        invariant
            i <= records.len(),
            ids == keys_of(records@),
            forall|j: int| 0 <= j < i ==> ids[j] != id,
        decreases records.len() - i,
    {
        if records[i].get_key() == id {
            proof {
                lemma_first_position_at(ids, id, i as int);
            }
            return Some(i);
        }
        i = i + 1;
    }
    proof {
        lemma_first_position_none(ids, id);
    }
    None
}

/// The first position of `target` in `ids`, if it occurs there.
pub open spec fn first_position(ids: Seq<u32>, target: u32) -> Option<int>
    decreases ids.len(),
{
    if ids.len() == 0 {
        None
    } else {
        match first_position(ids.drop_last(), target) {
            Some(i) => Some(i),
            None => if ids.last() == target {
                Some(ids.len() - 1)
            } else {
                None
            },
        }
    }
}

/// What `first_position` gives: a position holding `target` with none
/// before it, or nothing when no position holds it.
pub proof fn lemma_first_position_props(ids: Seq<u32>, target: u32)
    ensures
        match first_position(ids, target) {
            Some(i) => {
                &&& 0 <= i < ids.len()
                &&& ids[i] == target
                &&& forall|j: int| 0 <= j < i ==> ids[j] != target
            },
            None => forall|j: int| 0 <= j < ids.len() ==> ids[j] != target,
        },
    decreases ids.len(),
{
    if ids.len() > 0 {
        lemma_first_position_props(ids.drop_last(), target);
        let d = ids.drop_last();
        assert forall|j: int| 0 <= j < d.len() implies d[j] == ids[j] by {}
    }
}

/// A position holding `target` with none before it is the one that
/// `first_position` names.
pub proof fn lemma_first_position_at(ids: Seq<u32>, target: u32, i: int)
    requires
        0 <= i < ids.len(),
        ids[i] == target,
        forall|j: int| 0 <= j < i ==> ids[j] != target,
    ensures
        first_position(ids, target) == Some(i),
    decreases ids.len(),
{
    let d = ids.drop_last();
    if i == ids.len() - 1 {
        lemma_first_position_none(d, target);
    } else {
        lemma_first_position_at(d, target, i);
    }
}

/// Where no position holds `target`, `first_position` names nothing.
pub proof fn lemma_first_position_none(ids: Seq<u32>, target: u32)
    requires
        forall|j: int| 0 <= j < ids.len() ==> ids[j] != target,
    ensures
        first_position(ids, target) is None,
    decreases ids.len(),
{
    if ids.len() > 0 {
        lemma_first_position_none(ids.drop_last(), target);
    }
}

/// Appending an id leaves the first position of any id that was already
/// there, and makes the new one first for its value if that value was absent.
pub proof fn lemma_first_position_push(ids: Seq<u32>, x: u32, target: u32)
    ensures
        first_position(ids.push(x), target) == match first_position(ids, target) {
            Some(i) => Some(i),
            None => if x == target {
                Some(ids.len() as int)
            } else {
                None
            },
        },
{
    assert(ids.push(x).drop_last() =~= ids);
}

} // verus!
