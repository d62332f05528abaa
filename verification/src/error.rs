use vstd::prelude::*;

verus! {

/// Why a map is full: none of its slots are free, and it can not add
/// another one.
///
/// When the index type and the storage are both exhausted,
/// [`IndexExhausted`](Self::IndexExhausted) is the one reported.
#[derive(Debug, Clone, Copy, PartialEq, Eq, Hash)]
pub enum FullError<E> {
    /// The map has as many slots as its keys can address, so there is no
    /// index left for a new slot.
    IndexExhausted,
    /// The storage can not make room for another slot. This carries the
    /// storage's own reason.
    StorageFull(E),
}

impl<E> FullError<E> {
    /// Borrows the storage's reason, if there is one.
    pub fn as_ref(&self) -> (r: FullError<&E>)
        ensures
            match (*self, r) {
                (FullError::IndexExhausted, FullError::IndexExhausted) => true,
                (FullError::StorageFull(e), FullError::StorageFull(f)) => *f == e,
                _ => false,
            },
    {
        match self {
            FullError::IndexExhausted => FullError::IndexExhausted,
            FullError::StorageFull(error) => FullError::StorageFull(error),
        }
    }

    /// A message that says why the map is full.
    pub fn message(&self) -> (r: &'static str)
        ensures
            r@ == match *self {
                FullError::IndexExhausted => "the index type can not address another slot"@,
                FullError::StorageFull(_) => "the storage can not hold another slot"@,
            },
    {
        match self {
            FullError::IndexExhausted => "the index type can not address another slot",
            FullError::StorageFull(_) => "the storage can not hold another slot",
        }
    }
}

/// Why [`GenMap::try_insert`](crate::GenMap::try_insert) could not insert.
/// Each variant hands the value back so that the caller can keep it.
///
/// When the index type and the storage are both exhausted,
/// [`IndexExhausted`](Self::IndexExhausted) is the one reported.
#[derive(Debug, Clone, Copy, PartialEq, Eq, Hash)]
pub enum InsertError<T, E> {
    /// The map has as many slots as its keys can address and none of them
    /// are free, so there is no index left for a new slot.
    IndexExhausted(T),
    /// The storage can not hold another slot and none of the existing slots
    /// are free. This carries the storage's own reason.
    StorageFull(T, E),
}

impl<T, E> InsertError<T, E> {
    /// The value the error hands back.
    pub open spec fn spec_value(self) -> T {
        match self {
            InsertError::IndexExhausted(value) => value,
            InsertError::StorageFull(value, _) => value,
        }
    }

    /// Takes the value back out of the error.
    pub fn into_inner(self) -> (r: T)
        ensures
            r == self.spec_value(),
    {
        match self {
            InsertError::IndexExhausted(value) => value,
            InsertError::StorageFull(value, _) => value,
        }
    }

    /// Why the map was full.
    pub fn kind(&self) -> (r: FullError<&E>)
        ensures
            match (*self, r) {
                (InsertError::IndexExhausted(_), FullError::IndexExhausted) => true,
                (InsertError::StorageFull(_, e), FullError::StorageFull(f)) => *f == e,
                _ => false,
            },
    {
        match self {
            InsertError::IndexExhausted(_) => FullError::IndexExhausted,
            InsertError::StorageFull(_, error) => FullError::StorageFull(error),
        }
    }

    /// Splits the error into why the map was full and the value.
    pub fn into_parts(self) -> (r: (FullError<E>, T))
        ensures
            r.1 == self.spec_value(),
            match (self, r.0) {
                (InsertError::IndexExhausted(_), FullError::IndexExhausted) => true,
                (InsertError::StorageFull(_, e), FullError::StorageFull(f)) => f == e,
                _ => false,
            },
    {
        match self {
            InsertError::IndexExhausted(value) => (FullError::IndexExhausted, value),
            InsertError::StorageFull(value, error) => (FullError::StorageFull(error), value),
        }
    }

    /// A message that says why the value could not be inserted.
    pub fn message(&self) -> (r: &'static str)
        ensures
            r@ == match *self {
                InsertError::IndexExhausted(_) => "the index type can not address another slot"@,
                InsertError::StorageFull(..) => "the storage can not hold another slot"@,
            },
    {
        match self {
            InsertError::IndexExhausted(_) => "the index type can not address another slot",
            InsertError::StorageFull(..) => "the storage can not hold another slot",
        }
    }
}

/// Why [`GenMap::try_insert_with_key`](crate::GenMap::try_insert_with_key)
/// inserted nothing.
#[derive(Debug, Clone, Copy, PartialEq, Eq, Hash)]
pub enum InsertWithError<R, E> {
    /// The map is full. The closure was not called.
    Full(FullError<E>),
    /// The closure failed with this error.
    Rejected(R),
}

impl<R, E> InsertWithError<R, E> {
    /// Returns `true` if the map was full.
    pub fn is_full(&self) -> (r: bool)
        ensures
            r == (*self is Full),
    {
        match self {
            InsertWithError::Full(_) => true,
            InsertWithError::Rejected(_) => false,
        }
    }

    /// The closure's error, if the closure failed.
    pub fn rejected(self) -> (r: Option<R>)
        ensures
            match self {
                InsertWithError::Full(_) => r is None,
                InsertWithError::Rejected(e) => r == Some(e),
            },
    {
        match self {
            InsertWithError::Full(_) => None,
            InsertWithError::Rejected(error) => Some(error),
        }
    }

    /// Folds a full map into the closure's own error type.
    pub fn flatten(self) -> (r: R) where R: From<FullError<E>>
        ensures
            match self {
                InsertWithError::Full(e) => call_ensures(R::from, (e,), r),
                InsertWithError::Rejected(e) => r == e,
            },
    {
        match self {
            InsertWithError::Full(error) => R::from(error),
            InsertWithError::Rejected(error) => error,
        }
    }
}

impl<R, E> From<FullError<E>> for InsertWithError<R, E> {
    fn from(error: FullError<E>) -> (r: Self) {
        InsertWithError::Full(error)
    }
}

impl<R, E> vstd::std_specs::convert::FromSpecImpl<FullError<E>> for InsertWithError<R, E> {
    open spec fn obeys_from_spec() -> bool {
        true
    }

    open spec fn from_spec(error: FullError<E>) -> Self {
        InsertWithError::Full(error)
    }
}

/// Why [`GenMap::get_disjoint_mut`](crate::GenMap::get_disjoint_mut) could
/// not hand out its references.
#[derive(Debug, Clone, Copy, PartialEq, Eq, Hash)]
pub enum GetDisjointMutError {
    /// One of the keys is invalid, meaning
    /// [`contains_key`](crate::GenMap::contains_key) returns `false` for it.
    InvalidKey,
    /// Two of the keys point at the same slot, so the references would
    /// alias.
    OverlappingKeys,
}

impl GetDisjointMutError {
    /// A message that says what went wrong.
    pub fn message(&self) -> (r: &'static str)
        ensures
            r@ == match *self {
                GetDisjointMutError::InvalidKey => "one of the keys is invalid"@,
                GetDisjointMutError::OverlappingKeys => "two of the keys point at the same slot"@,
            },
    {
        match self {
            GetDisjointMutError::InvalidKey => "one of the keys is invalid",
            GetDisjointMutError::OverlappingKeys => "two of the keys point at the same slot",
        }
    }
}

/// Why [`GenMap::get_disjoint_mut_at`](crate::GenMap::get_disjoint_mut_at)
/// could not hand out its references.
#[derive(Debug, Clone, Copy, PartialEq, Eq, Hash)]
pub enum GetDisjointMutAtError {
    /// There is no slot at one of the indices, or the slot holds no value,
    /// meaning [`key_at`](crate::GenMap::key_at) returns `None` for it.
    NoValue,
    /// Two of the indices are the same, so the references would alias.
    OverlappingIndices,
}

impl GetDisjointMutAtError {
    /// A message that says what went wrong.
    pub fn message(&self) -> (r: &'static str)
        ensures
            r@ == match *self {
                GetDisjointMutAtError::NoValue => "one of the indices has no value"@,
                GetDisjointMutAtError::OverlappingIndices => "two of the indices are the same"@,
            },
    {
        match self {
            GetDisjointMutAtError::NoValue => "one of the indices has no value",
            GetDisjointMutAtError::OverlappingIndices => "two of the indices are the same",
        }
    }
}

/// Why a storage could not make room.
#[derive(Debug, PartialEq, Eq)]
pub enum ReserveError {
    /// The storage allocates and the allocation failed. This wraps the
    /// error `Vec::try_reserve` gives.
    Alloc(std::collections::TryReserveError),
    /// The storage has a fixed capacity and the items would not fit in it.
    CapacityExceeded,
}

impl ReserveError {
    /// A message that says why the storage could not make room.
    pub fn message(&self) -> (r: &'static str)
        ensures
            r@ == match *self {
                ReserveError::Alloc(_) => "the allocation failed"@,
                ReserveError::CapacityExceeded => "the storage has a fixed capacity and the items would not fit in it"@,
            },
    {
        match self {
            ReserveError::Alloc(_) => "the allocation failed",
            ReserveError::CapacityExceeded => "the storage has a fixed capacity and the items would not fit in it",
        }
    }
}

/// An error of a caller's own, or the reason an insert failed.
pub enum CustomOrInsertError<T, Custom, E> {
    /// The caller's own error.
    Custom(Custom),
    /// The insert failed.
    InsertError(InsertError<T, E>),
}

} // verus!
