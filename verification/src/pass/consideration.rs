//! Considerations (deposits held in exchange for storage footprint) where the first items are
//! free, and the bookkeeping of how many items an account holds.

use std::collections::HashMap;
use vstd::prelude::*;

use crate::dispatch::DispatchError;

verus! {

broadcast use vstd::std_specs::hash::group_hash_axioms;

/// The storage footprint of some items: how many, and how many bytes in all.
#[derive(Clone, Copy, Debug, PartialEq, Eq, Default)]
pub struct Footprint {
    pub count: u64,
    pub size: u64,
}

impl Footprint {
    /// The footprint of `count` items that take `size` bytes.
    pub fn from_parts(count: usize, size: usize) -> (r: Footprint)
        ensures
            r.count == count,
            r.size == size,
    {
        Footprint { count: count as u64, size: size as u64 }
    }
}

/// A deposit taken from an account temporarily, in exchange for some storage footprint.
pub trait Consideration<AccountId>: Sized {
    /// Takes the deposit for a new footprint.
    fn new(who: &AccountId, new: Footprint) -> Result<Self, DispatchError>;

    /// Adjusts the deposit to a new footprint.
    fn update(self, who: &AccountId, new: Footprint) -> Result<Self, DispatchError>;

    /// Gives the deposit back.
    fn drop(self, who: &AccountId) -> Result<(), DispatchError>;
}

/// The footprint the inner consideration is charged for when `free` items are free and the
/// footprint grows to `new` with no ticket yet: none when all items are free.
pub open spec fn new_charge(free: u32, new: Footprint) -> Option<Footprint> {
    if new.count <= free {
        None
    } else {
        Some(Footprint { count: (new.count - free) as u64, size: new.size })
    }
}

pub open spec fn sat_sub_u64(a: u64, b: u64) -> u64 {
    if a < b {
        0
    } else {
        (a - b) as u64
    }
}

pub open spec fn sat_mul_u64(a: u64, b: u64) -> u64 {
    if a * b > u64::MAX {
        u64::MAX
    } else {
        (a * b) as u64
    }
}

/// The footprint an existing ticket is resized to when the footprint becomes `new` (with at
/// least one item): the charged items only, with the size scaled down to them.
pub open spec fn update_charge(free: u32, new: Footprint) -> Footprint {
    let charged = sat_sub_u64(new.count, free as u64);
    let per_item = new.size / (if new.count >= 1 {
        new.count
    } else {
        1u64
    });
    Footprint { count: charged, size: sat_mul_u64(per_item, charged) }
}

/// A consideration where the first `N` items of a footprint are free: only the items beyond
/// `N` are charged, through `C`. A ticket of `C` is taken once a footprint goes beyond `N`
/// items and kept, resized to the items beyond `N` (possibly none), until the footprint has
/// no item left, when it is dropped.
#[derive(Clone, Debug, PartialEq, Eq)]
pub struct FirstItemsAreFree<const N: u32, C> {
    inner: Option<C>,
}

/// A consideration where only the first item is free.
pub type FirstItemIsFree<C> = FirstItemsAreFree<1, C>;

impl<const N: u32, C> FirstItemsAreFree<N, C> {
    /// The ticket of the inner consideration, if anything is charged.
    pub closed spec fn inner(&self) -> Option<C> {
        self.inner
    }

    /// A consideration holding `inner`, the ticket of what is charged.
    pub fn wrap(inner: Option<C>) -> (r: Self)
        ensures
            r.inner() == inner,
    {
        FirstItemsAreFree { inner }
    }

    /// The ticket of what is charged.
    pub fn into_inner(self) -> (r: Option<C>)
        ensures
            r == self.inner(),
    {
        self.inner
    }

    /// The footprint to charge the inner consideration for, when creating a ticket for `new`.
    pub fn charge_for_new(new: Footprint) -> (r: Option<Footprint>)
        ensures
            r == new_charge(N, new),
    {
        let free = N as u64;
        if new.count <= free {
            None
        } else {
            Some(Footprint { count: new.count - free, size: new.size })
        }
    }

    /// The footprint to resize an existing inner ticket to, when the footprint becomes `new`.
    pub fn charge_for_update(new: Footprint) -> (r: Footprint)
        ensures
            r == update_charge(N, new),
    {
        let free = N as u64;
        let charged = new.count.saturating_sub(free);
        let divisor = if new.count >= 1 { new.count } else { 1 };
        let per_item = new.size / divisor;
        Footprint { count: charged, size: crate::weight::saturating_mul(per_item, charged) }
    }
}

/// A result of the inner consideration, carried over: its ticket becomes the charged one, its
/// error the error.
pub open spec fn lifted<const N: u32, C>(inner: Result<C, DispatchError>, r: Result<FirstItemsAreFree<N, C>, DispatchError>) -> bool {
    match (inner, r) {
        (Ok(c), Ok(t)) => t.inner() == Some(c),
        (Err(e1), Err(e2)) => e1 == e2,
        _ => false,
    }
}

/// What creating a consideration for `new` with `N` free items gives: nothing charged when
/// at most `N` items, otherwise the ticket (or the error) that `C::new` gives for the items
/// beyond `N`.
pub open spec fn new_outcome<const N: u32, AccountId, C: Consideration<AccountId>>(
    who: &AccountId,
    new: Footprint,
    r: Result<FirstItemsAreFree<N, C>, DispatchError>,
) -> bool {
    match new_charge(N, new) {
        None => r matches Ok(t) && t.inner() is None,
        Some(charge) => exists|res: Result<C, DispatchError>|
            #[trigger] call_ensures(C::new, (who, charge), res) && lifted(res, r),
    }
}

impl<const N: u32, AccountId, C: Consideration<AccountId>> Consideration<AccountId> for FirstItemsAreFree<N, C> {
    /// Free when at most `N` items; otherwise a ticket of `C` for the items beyond `N`.
    fn new(who: &AccountId, new: Footprint) -> (r: Result<Self, DispatchError>)
        ensures
            new.count <= N ==> (r matches Ok(t) && t.inner() is None),
            new.count > N ==> (r matches Ok(t) ==> t.inner() is Some),
            new_outcome(who, new, r),
    {
        match Self::charge_for_new(new) {
            None => Ok(Self::wrap(None)),
            Some(charge) => {
                let res = C::new(who, charge);
                assert(call_ensures(C::new, (who, charge), res));
                match res {
                    Ok(c) => Ok(Self::wrap(Some(c))),
                    Err(e) => Err(e),
                }
            },
        }
    }

    /// With no item left, the ticket (if any) is dropped; otherwise an existing ticket is
    /// resized to the charged items, and a free footprint is handled as a new one.
    fn update(self, who: &AccountId, new: Footprint) -> (r: Result<Self, DispatchError>)
        ensures
            new.count >= 1 && self.inner() is None && new.count <= N ==> (r matches Ok(t)
                && t.inner() is None),
            new.count >= 1 && self.inner() is Some ==> (r matches Ok(t) ==> t.inner() is Some),
            new.count >= 1 && new.count > N ==> (r matches Ok(t) ==> t.inner() is Some),
            new.count == 0 ==> (r matches Ok(t) ==> t.inner() is None),
            new.count == 0 && self.inner() is None ==> (r matches Ok(t) && t.inner() is None),
            new.count >= 1 && self.inner() is None ==> new_outcome(who, new, r),
            self.inner() matches Some(c) ==> (new.count >= 1 ==> exists|res: Result<C, DispatchError>|
                #[trigger] call_ensures(C::update, (c, who, update_charge(N, new)), res) && lifted(res, r)),
            self.inner() matches Some(c) ==> (new.count == 0 ==> exists|d: Result<(), DispatchError>|
                #[trigger] call_ensures(C::drop, (c, who), d) && match d {
                    Ok(()) => r matches Ok(t) && t.inner() is None,
                    Err(e) => r == Err::<Self, DispatchError>(e),
                }),
    {
        if new.count >= 1 {
            match self.inner {
                Some(c) => {
                    let charge = Self::charge_for_update(new);
                    let res = c.update(who, charge);
                    assert(call_ensures(C::update, (c, who, charge), res));
                    match res {
                        Ok(c2) => Ok(Self::wrap(Some(c2))),
                        Err(e) => Err(e),
                    }
                },
                None => Self::new(who, new),
            }
        } else {
            match self.drop(who) {
                Ok(()) => Ok(Self::wrap(None)),
                Err(e) => Err(e),
            }
        }
    }

    /// Gives back the inner ticket, if any.
    fn drop(self, who: &AccountId) -> (r: Result<(), DispatchError>)
        ensures
            self.inner() is None ==> r == Ok::<(), DispatchError>(()),
            self.inner() matches Some(c) ==> call_ensures(C::drop, (c, who), r),
    {
        match self.inner {
            Some(c) => {
                let d = c.drop(who);
                assert(call_ensures(C::drop, (c, who), d));
                d
            },
            None => Ok(()),
        }
    }
}

/// The SCALE encoding of a value, as it is stored.
pub trait Codec: Sized {
    /// The encoding of the value.
    fn encode(&self) -> Vec<u8>;

    /// The value encoded at the start of `input`, and how many bytes its encoding takes.
    fn decode(input: &[u8]) -> Option<(Self, usize)>;

    /// The longest encoding of a value of the type.
    fn max_encoded_len() -> usize;
}

/// The bytes `e` encode the ticket `inner` as an `Option<C>` is stored: the tag `0` for
/// nothing, or the tag `1` followed by an encoding that `C` gives of the ticket. No free-item
/// count enters it.
pub open spec fn encodes_as<C: Codec>(inner: Option<C>, e: Seq<u8>) -> bool {
    match inner {
        None => e == seq![0u8],
        Some(c) => exists|bytes: Vec<u8>| #[trigger] call_ensures(C::encode, (&c,), bytes) && e == seq![1u8] + bytes@,
    }
}

/// What decoding `input` as a stored `Option<C>` gives: the ticket (if any) and the length of
/// its encoding, or nothing when the tag is unknown or `C` cannot decode what follows the tag
/// (or claims more bytes than there are). No free-item count enters it.
pub open spec fn decodes_as<C: Codec>(input: Seq<u8>, r: Option<(Option<C>, usize)>) -> bool {
    if input.len() == 0 {
        r is None
    } else if input[0] == 0 {
        r == Some((None::<C>, 1usize))
    } else if input[0] > 1 {
        r is None
    } else {
        exists|rest: &[u8], d: Option<(C, usize)>|
            #![trigger call_ensures(C::decode, (rest,), d)]
            rest@ == input.drop_first() && call_ensures(C::decode, (rest,), d) && r == match d {
                Some((c, m)) => if m <= rest@.len() {
                    Some((Some(c), (m + 1) as usize))
                } else {
                    None
                },
                None => None,
            }
    }
}

/// The longest stored encoding of an `Option<C>`: one tag byte more than `C`'s longest,
/// capped at the largest length. No free-item count enters it.
pub open spec fn max_len_as<C: Codec>(r: usize) -> bool {
    exists|m: usize|
        #[trigger] call_ensures(C::max_encoded_len, (), m) && r == (if m < usize::MAX {
            (m + 1) as usize
        } else {
            usize::MAX
        })
}

/// The ticket of a decoding, and its length.
pub open spec fn decoded_ticket<const N: u32, C>(r: Option<(FirstItemsAreFree<N, C>, usize)>) -> Option<
    (Option<C>, usize),
> {
    match r {
        Some((v, n)) => Some((v.inner(), n)),
        None => None,
    }
}

/// Decoding what was encoded, followed by any bytes, gives the ticket back with the length of
/// its encoding, when `C`'s decoding gives back a ticket from any of its encodings so followed.
pub proof fn lemma_decode_inverts_encode<C: Codec>(
    inner: Option<C>,
    e: Seq<u8>,
    rest: Seq<u8>,
    r: Option<(Option<C>, usize)>,
)
    requires
        encodes_as(inner, e),
        e.len() + rest.len() <= usize::MAX,
        decodes_as(e + rest, r),
        forall|c: C, bytes: Vec<u8>, s: &[u8], d: Option<(C, usize)>|
            inner == Some(c) && #[trigger] call_ensures(C::encode, (&c,), bytes) && s@ == bytes@ + rest
                && #[trigger] call_ensures(C::decode, (s,), d) ==> d == Some((c, bytes@.len() as usize)),
    ensures
        r == Some((inner, e.len() as usize)),
{
    let input = e + rest;
    match inner {
        None => {
            assert(input[0] == 0u8);
        },
        Some(c) => {
            let bytes = choose|bytes: Vec<u8>| #[trigger] call_ensures(C::encode, (&c,), bytes) && e == seq![1u8] + bytes@;
            assert(input[0] == 1u8);
            let (s, d) = choose|s: &[u8], d: Option<(C, usize)>|
                #![trigger call_ensures(C::decode, (s,), d)]
                s@ == input.drop_first() && call_ensures(C::decode, (s,), d) && r == match d {
                    Some((c, m)) => if m <= s@.len() {
                        Some((Some(c), (m + 1) as usize))
                    } else {
                        None
                    },
                    None => None,
                };
            assert(s@ =~= bytes@ + rest);
            assert(d == Some((c, bytes@.len() as usize)));
        },
    }
}

/// Whatever the number of free items, a ticket is stored the same way: the bytes that
/// encoding `x`, with `N` free items, may give are an encoding of the same ticket held with
/// `M` free items, and what decoding gives with `N` free items is described by `decodes_as`,
/// which takes no count of free items.
pub proof fn lemma_storage_ignores_free_items<const N: u32, const M: u32, C: Codec>(
    x: &FirstItemsAreFree<N, C>,
    y: &FirstItemsAreFree<M, C>,
    e: Vec<u8>,
    input: &[u8],
    d: Option<(FirstItemsAreFree<N, C>, usize)>,
)
    requires
        x.inner() == y.inner(),
        call_ensures(<FirstItemsAreFree<N, C> as Codec>::encode, (x,), e),
        call_ensures(<FirstItemsAreFree<N, C> as Codec>::decode, (input,), d),
    ensures
        encodes_as(y.inner(), e@),
        decodes_as::<C>(input@, decoded_ticket(d)),
{
}

/// Changing the number of free items needs no storage migration: when `C`'s encoding,
/// decoding and longest length depend on their arguments alone, a ticket held with `N` free
/// items is encoded to the same bytes as with `M`, bytes decode to the same ticket and length
/// with `N` as with `M`, and the longest encodings are as long.
pub proof fn lemma_free_items_need_no_migration<const N: u32, const M: u32, C: Codec>(
    x: &FirstItemsAreFree<N, C>,
    y: &FirstItemsAreFree<M, C>,
    ex: Vec<u8>,
    ey: Vec<u8>,
    input: &[u8],
    dx: Option<(FirstItemsAreFree<N, C>, usize)>,
    dy: Option<(FirstItemsAreFree<M, C>, usize)>,
    lx: usize,
    ly: usize,
)
    requires
        x.inner() == y.inner(),
        call_ensures(<FirstItemsAreFree<N, C> as Codec>::encode, (x,), ex),
        call_ensures(<FirstItemsAreFree<M, C> as Codec>::encode, (y,), ey),
        call_ensures(<FirstItemsAreFree<N, C> as Codec>::decode, (input,), dx),
        call_ensures(<FirstItemsAreFree<M, C> as Codec>::decode, (input,), dy),
        call_ensures(<FirstItemsAreFree<N, C> as Codec>::max_encoded_len, (), lx),
        call_ensures(<FirstItemsAreFree<M, C> as Codec>::max_encoded_len, (), ly),
        forall|c: C, b1: Vec<u8>, b2: Vec<u8>|
            #![trigger call_ensures(C::encode, (&c,), b1), call_ensures(C::encode, (&c,), b2)]
            call_ensures(C::encode, (&c,), b1) && call_ensures(C::encode, (&c,), b2) ==> b1@ == b2@,
        forall|s1: &[u8], s2: &[u8], d1: Option<(C, usize)>, d2: Option<(C, usize)>|
            #![trigger call_ensures(C::decode, (s1,), d1), call_ensures(C::decode, (s2,), d2)]
            s1@ == s2@ && call_ensures(C::decode, (s1,), d1) && call_ensures(C::decode, (s2,), d2) ==> d1 == d2,
        forall|m1: usize, m2: usize|
            #![trigger call_ensures(C::max_encoded_len, (), m1), call_ensures(C::max_encoded_len, (), m2)]
            call_ensures(C::max_encoded_len, (), m1) && call_ensures(C::max_encoded_len, (), m2) ==> m1 == m2,
    ensures
        ex@ == ey@,
        decoded_ticket(dx) == decoded_ticket(dy),
        lx == ly,
{
    assert(encodes_as(x.inner(), ex@));
    assert(encodes_as(y.inner(), ey@));
    match x.inner() {
        None => {},
        Some(c) => {
            let b1 = choose|bytes: Vec<u8>| #[trigger] call_ensures(C::encode, (&c,), bytes) && ex@ == seq![1u8] + bytes@;
            let b2 = choose|bytes: Vec<u8>| #[trigger] call_ensures(C::encode, (&c,), bytes) && ey@ == seq![1u8] + bytes@;
            assert(b1@ == b2@);
        },
    }
    assert(decodes_as::<C>(input@, decoded_ticket(dx)));
    assert(decodes_as::<C>(input@, decoded_ticket(dy)));
    if input@.len() > 0 && input@[0] == 1 {
        let (s1, d1) = choose|rest: &[u8], d: Option<(C, usize)>|
            #![trigger call_ensures(C::decode, (rest,), d)]
            rest@ == input@.drop_first() && call_ensures(C::decode, (rest,), d) && decoded_ticket(dx) == match d {
                Some((c, m)) => if m <= rest@.len() {
                    Some((Some(c), (m + 1) as usize))
                } else {
                    None
                },
                None => None,
            };
        let (s2, d2) = choose|rest: &[u8], d: Option<(C, usize)>|
            #![trigger call_ensures(C::decode, (rest,), d)]
            rest@ == input@.drop_first() && call_ensures(C::decode, (rest,), d) && decoded_ticket(dy) == match d {
                Some((c, m)) => if m <= rest@.len() {
                    Some((Some(c), (m + 1) as usize))
                } else {
                    None
                },
                None => None,
            };
        assert(d1 == d2);
    }
    assert(max_len_as::<C>(lx));
    assert(max_len_as::<C>(ly));
    let m1 = choose|m: usize| #[trigger] call_ensures(C::max_encoded_len, (), m) && lx == (if m < usize::MAX {
        (m + 1) as usize
    } else {
        usize::MAX
    });
    let m2 = choose|m: usize| #[trigger] call_ensures(C::max_encoded_len, (), m) && ly == (if m < usize::MAX {
        (m + 1) as usize
    } else {
        usize::MAX
    });
    assert(m1 == m2);
}

/// Stored as `Option<C>` whatever `N` is: the tag `0` for nothing, or the tag `1` followed by
/// the ticket's encoding. Changing `N` therefore needs no migration of what is stored: the
/// contracts below relate the bytes to the ticket through `encodes_as`, `decodes_as` and
/// `max_len_as`, which do not depend on `N`.
impl<const N: u32, C: Codec> Codec for FirstItemsAreFree<N, C> {
    fn encode(&self) -> (r: Vec<u8>)
        ensures
            r@.len() >= 1,
            self.inner() is None ==> r@ == seq![0u8],
            self.inner() is Some ==> r@[0] == 1u8,
            encodes_as(self.inner(), r@),
    {
        let mut out: Vec<u8> = Vec::new();
        match &self.inner {
            None => {
                out.push(0u8);
            },
            Some(c) => {
                out.push(1u8);
                let bytes = c.encode();
                assert(call_ensures(C::encode, (c,), bytes));
                let mut i: usize = 0;
                while i < bytes.len()
                    invariant
                        0 <= i <= bytes@.len(),
                        out@ == seq![1u8] + bytes@.take(i as int),
                    decreases bytes@.len() - i,
                {
                    proof {
                        assert(bytes@.take(i + 1) =~= bytes@.take(i as int).push(bytes@[i as int]));
                    }
                    out.push(bytes[i]);
                    i = i + 1;
                }
                assert(bytes@.take(bytes@.len() as int) =~= bytes@);
            },
        }
        assert(self.inner() is None ==> out@ =~= seq![0u8]);
        out
    }

    fn decode(input: &[u8]) -> (r: Option<(Self, usize)>)
        ensures
            input@.len() == 0 ==> r is None,
            input@.len() > 0 && input@[0] == 0 ==> (r matches Some((v, n)) && v.inner() is None && n == 1),
            input@.len() > 0 && input@[0] > 1 ==> r is None,
            r matches Some((v, n)) ==> 1 <= n <= input@.len() && (v.inner() is Some <==> input@[0] == 1),
            decodes_as(input@, decoded_ticket(r)),
    {
        if input.len() == 0 {
            return None;
        }
        if input[0] == 0 {
            return Some((Self::wrap(None), 1));
        }
        if input[0] > 1 {
            return None;
        }
        let mut rest: Vec<u8> = Vec::new();
        let mut i: usize = 1;
        while i < input.len()
            invariant
                1 <= i <= input@.len(),
                rest@ == input@.subrange(1, i as int),
            decreases input@.len() - i,
        {
            proof {
                assert(input@.subrange(1, i + 1) =~= input@.subrange(1, i as int).push(input@[i as int]));
            }
            rest.push(input[i]);
            i = i + 1;
        }
        let tail = rest.as_slice();
        assert(tail@ =~= input@.drop_first());
        let d = C::decode(tail);
        assert(call_ensures(C::decode, (tail,), d));
        match d {
            None => None,
            Some((c, n)) => {
                if n > rest.len() {
                    None
                } else {
                    Some((Self::wrap(Some(c)), n + 1))
                }
            },
        }
    }

    fn max_encoded_len() -> (r: usize)
        ensures
            r >= 1,
            max_len_as::<C>(r),
    {
        let inner = C::max_encoded_len();
        assert(call_ensures(C::max_encoded_len, (), inner));
        if inner < usize::MAX {
            inner + 1
        } else {
            usize::MAX
        }
    }
}

/// The count after an increment that saturates at the maximum.
pub open spec fn inc_count(c: u32) -> u32 {
    if c == u32::MAX {
        c
    } else {
        (c + 1) as u32
    }
}

/// The count after a decrement that saturates at zero.
pub open spec fn dec_count(c: u32) -> u32 {
    if c == 0 {
        c
    } else {
        (c - 1) as u32
    }
}

/// Keeps, for each account, its consideration ticket and how many items it holds.
pub struct ConsiderationHandler;

impl ConsiderationHandler {
    /// The count of items of `address` (zero when it has no ticket yet).
    pub open spec fn count_of<C>(storage: Map<u64, (C, u32)>, address: u64) -> u32 {
        if storage.contains_key(address) {
            storage[address].1
        } else {
            0
        }
    }

    /// The ticket an account's count starts from: a clone of its stored one, or, when it has
    /// none, one that `C::new` made for an empty footprint.
    pub open spec fn base_ticket<C: Consideration<u64> + Clone>(storage: Map<u64, (C, u32)>, address: u64, c0: C) -> bool {
        if storage.contains_key(address) {
            cloned(storage[address].0, c0)
        } else {
            call_ensures(C::new, (&address, Footprint { count: 0, size: 0 }), Ok::<C, DispatchError>(c0))
        }
    }

    /// The footprint of `count` items of `size` bytes each, as the ticket is charged for.
    pub open spec fn items(count: u32, size: usize) -> Footprint {
        Footprint { count: count as u64, size: size as u64 }
    }

    /// What changing the count of `address` to `count` gives: `Ok` when the ticket is the
    /// base ticket updated by `C::update` for `count` items of `size`, stored with the count;
    /// otherwise the error that `C::new` (for an account with no ticket) or `C::update`
    /// returned, with the storage unchanged.
    pub open spec fn recharged<C: Consideration<u64> + Clone>(
        old: Map<u64, (C, u32)>,
        new: Map<u64, (C, u32)>,
        address: u64,
        size: usize,
        count: u32,
        r: Result<(), DispatchError>,
    ) -> bool {
        match r {
            Ok(()) => {
                &&& new.contains_key(address)
                &&& new[address].1 == count
                &&& exists|c0: C|
                    #![trigger call_ensures(C::update, (c0, &address, Self::items(count, size)), Ok::<C, DispatchError>(new[address].0))]
                    Self::base_ticket(old, address, c0) && call_ensures(
                        C::update,
                        (c0, &address, Self::items(count, size)),
                        Ok::<C, DispatchError>(new[address].0),
                    )
            },
            Err(e) => {
                &&& new == old
                &&& (!old.contains_key(address) && call_ensures(
                    C::new,
                    (&address, Footprint { count: 0, size: 0 }),
                    Err::<C, DispatchError>(e),
                )) || exists|c0: C|
                    #![trigger call_ensures(C::update, (c0, &address, Self::items(count, size)), Err::<C, DispatchError>(e))]
                    Self::base_ticket(old, address, c0) && call_ensures(
                        C::update,
                        (c0, &address, Self::items(count, size)),
                        Err::<C, DispatchError>(e),
                    )
            },
        }
    }

    fn mutate_consideration<C: Consideration<u64> + Clone>(
        storage: &mut HashMap<u64, (C, u32)>,
        address: u64,
        blob_size: usize,
        increment: bool,
    ) -> (r: Result<(), DispatchError>)
        ensures
            r is Err ==> final(storage)@ == old(storage)@,
            r is Ok ==> {
                let old_count = Self::count_of(old(storage)@, address);
                let new_count = if increment {
                    inc_count(old_count)
                } else {
                    dec_count(old_count)
                };
                &&& final(storage)@.dom() == old(storage)@.dom().insert(address)
                &&& final(storage)@[address].1 == new_count
                &&& forall|a: u64| a != address && #[trigger] old(storage)@.contains_key(a)
                    ==> final(storage)@[a] == old(storage)@[a]
            },
            Self::recharged(
                old(storage)@,
                final(storage)@,
                address,
                blob_size,
                if increment {
                    inc_count(Self::count_of(old(storage)@, address))
                } else {
                    dec_count(Self::count_of(old(storage)@, address))
                },
                r,
            ),
    {
        let (consideration, count) = match storage.get(&address) {
            Some(entry) => {
                let c0 = entry.0.clone();
                assert(call_ensures(C::clone, (&entry.0,), c0));
                (c0, entry.1)
            },
            None => {
                let made = C::new(&address, Footprint { count: 0, size: 0 });
                assert(call_ensures(C::new, (&address, Footprint { count: 0, size: 0 }), made));
                match made {
                    Ok(c) => (c, 0u32),
                    Err(e) => {
                        assert(Self::recharged(old(storage)@, storage@, address, blob_size, 0, Err(e)));
                        return Err(e);
                    },
                }
            },
        };
        assert(Self::base_ticket(old(storage)@, address, consideration));
        let count = if increment {
            count.saturating_add(1)
        } else {
            count.saturating_sub(1)
        };
        let footprint = Footprint::from_parts(count as usize, blob_size);
        assert(footprint == Self::items(count, blob_size));
        let outcome = consideration.update(&address, footprint);
        assert(call_ensures(C::update, (consideration, &address, footprint), outcome));
        let updated = match outcome {
            Ok(c) => c,
            Err(e) => {
                assert(Self::recharged(old(storage)@, storage@, address, blob_size, count, Err(e)));
                return Err(e);
            },
        };
        storage.insert(address, (updated, count));
        assert(storage@[address].0 == updated);
        assert(Self::recharged(old(storage)@, storage@, address, blob_size, count, Ok(())));
        Ok(())
    }

    /// Increments the consideration count for an address, updating its ticket to cover one
    /// more item of `blob_size` bytes.
    pub fn increment<C: Consideration<u64> + Clone>(
        storage: &mut HashMap<u64, (C, u32)>,
        address: u64,
        blob_size: usize,
    ) -> (r: Result<(), DispatchError>)
        ensures
            r is Err ==> final(storage)@ == old(storage)@,
            r is Ok ==> {
                &&& final(storage)@.dom() == old(storage)@.dom().insert(address)
                &&& final(storage)@[address].1 == inc_count(Self::count_of(old(storage)@, address))
                &&& forall|a: u64| a != address && #[trigger] old(storage)@.contains_key(a)
                    ==> final(storage)@[a] == old(storage)@[a]
            },
            Self::recharged(
                old(storage)@,
                final(storage)@,
                address,
                blob_size,
                inc_count(Self::count_of(old(storage)@, address)),
                r,
            ),
    {
        Self::mutate_consideration(storage, address, blob_size, true)
    }

    /// Decrements the consideration count for an address, updating its ticket to cover one
    /// item less.
    pub fn decrement<C: Consideration<u64> + Clone>(
        storage: &mut HashMap<u64, (C, u32)>,
        address: u64,
        blob_size: usize,
    ) -> (r: Result<(), DispatchError>)
        ensures
            r is Err ==> final(storage)@ == old(storage)@,
            r is Ok ==> {
                &&& final(storage)@.dom() == old(storage)@.dom().insert(address)
                &&& final(storage)@[address].1 == dec_count(Self::count_of(old(storage)@, address))
                &&& forall|a: u64| a != address && #[trigger] old(storage)@.contains_key(a)
                    ==> final(storage)@[a] == old(storage)@[a]
            },
            Self::recharged(
                old(storage)@,
                final(storage)@,
                address,
                blob_size,
                dec_count(Self::count_of(old(storage)@, address)),
                r,
            ),
    {
        Self::mutate_consideration(storage, address, blob_size, false)
    }
}

} // verus!
