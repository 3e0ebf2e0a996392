//! The asset list, addressed through [`AssetPos`].

use vstd::prelude::*;

use crate::asset_pos::{AssetPos, SelectAssetError};
use crate::std_bridge::vec_capacity;
use std::collections::TryReserveError;

verus! {

/// How many more assets to make room for when a full list of `len` assets
/// grows: as many as it holds, and at least one, so the list at least
/// doubles.
pub fn reserve_amount(len: usize) -> (r: usize)
    ensures
        r == if len > 1 {
            len
        } else {
            1
        },
        r >= 1,
{
    if len > 1 {
        len
    } else {
        1
    }
}

/// The assets of a document, in the order they were added.
#[derive(Debug)]
pub struct Assets<A> {
    list: Vec<A>,
}

impl<A> Assets<A> {
    pub closed spec fn items(&self) -> Seq<A> {
        self.list@
    }

    pub fn new() -> (r: Self)
        ensures
            r.items() == Seq::<A>::empty(),
    {
        Assets { list: Vec::new() }
    }

    pub fn from_vec(list: Vec<A>) -> (r: Self)
        ensures
            r.items() == list@,
    {
        Assets { list }
    }

    pub fn into_vec(self) -> (r: Vec<A>)
        ensures
            r@ == self.items(),
    {
        self.list
    }

    pub fn len(&self) -> (r: usize)
        ensures
            r == self.items().len(),
    {
        self.list.len()
    }

    pub fn is_empty(&self) -> (r: bool)
        ensures
            r <==> self.items().len() == 0,
    {
        self.list.len() == 0
    }

    /// The assets, oldest first.
    pub fn as_slice(&self) -> (r: &[A])
        ensures
            r@ == self.items(),
    {
        self.list.as_slice()
    }

    /// The asset at `at`.
    pub fn get(&self, at: AssetPos) -> (r: Result<&A, SelectAssetError>)
        requires
            at is Index,
        ensures
            match at.spec_select_asset_idx(self.items().len() as usize) {
                Ok(i) => r matches Ok(a) && *a == self.items()[i as int],
                Err(e) => r matches Err(e2) && e2 == e,
            },
    {
        match at.select_asset_idx(self.list.len()) {
            Ok(i) => Ok(&self.list[i]),
            Err(e) => Err(e),
        }
    }

    /// The asset at `at`, for changing it in place.
    pub fn get_mut(&mut self, at: AssetPos) -> (r: Result<&mut A, SelectAssetError>)
        requires
            at is Index,
        ensures
            match at.spec_select_asset_idx(old(self).items().len() as usize) {
                Ok(i) => {
                    &&& r is Ok
                    &&& *r->Ok_0 == old(self).items()[i as int]
                    &&& final(self).items() == old(self).items().update(i as int, *final(r->Ok_0))
                },
                Err(e) => {
                    &&& r matches Err(e2) && e2 == e
                    &&& final(self).items() == old(self).items()
                },
            },
    {
        match at.select_asset_idx(self.list.len()) {
            Ok(i) => Ok(&mut self.list[i]),
            Err(e) => Err(e),
        }
    }

    /// Appends an asset. When the list is full, room for
    /// [`reserve_amount`] more assets is reserved first, so that running out
    /// of memory is an error rather than an abort.
    pub fn push(&mut self, asset: A) -> (r: Result<&mut A, TryReserveError>)
        ensures
            match r {
                Ok(a) => {
                    &&& *a == asset
                    &&& final(self).items() == old(self).items().push(*final(a))
                },
                Err(_) => final(self).items() == old(self).items(),
            },
    {
        let len = self.list.len();
        if len == vec_capacity(&self.list) {
            let more = reserve_amount(len);
            match self.list.try_reserve(more) {
                Ok(()) => {},
                Err(e) => return Err(e),
            }
        }
        self.list.push(asset);
        Ok(&mut self.list[len])
    }

    /// The position of the first asset on which `f` holds, or `None`.
    pub fn find_position<F: Fn(&A) -> bool>(&self, f: F) -> (r: Option<AssetPos>)
        requires
            forall|i: int| 0 <= i < self.items().len() ==> f.requires((&self.items()[i],)),
        ensures
            match r {
                Some(AssetPos::Index(i)) => {
                    &&& i < self.items().len()
                    &&& f.ensures((&self.items()[i as int],), true)
                    &&& forall|j: int|
                        0 <= j < i ==> f.ensures((&self.items()[j],), false)
                },
                Some(AssetPos::Basic) => false,
                None => forall|j: int|
                    0 <= j < self.items().len() ==> f.ensures((&self.items()[j],), false),
            },
    {
        let n = self.list.len();
        let mut i: usize = 0;
        while i < n
            invariant
                n == self.items().len(),
                i <= n,
                forall|j: int| 0 <= j < self.items().len() ==> f.requires((&self.items()[j],)),
                forall|j: int| 0 <= j < i ==> f.ensures((&self.items()[j],), false),
            decreases n - i,
        {
            if f(&self.list[i]) {
                return Some(AssetPos::Index(i));
            }
            i = i + 1;
        }
        None
    }
}

} // verus!
