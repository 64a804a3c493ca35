//! Values that have to be fetched first.
use vstd::prelude::*;

verus! {

/// A value that is on its way, has come, or could not be had.
pub enum RemoteResource<T, E> {
    Loading,
    Loaded(T),
    Error(E),
}

impl<T, E> RemoteResource<T, E> {
    /// References to what is inside.
    pub fn as_ref(&self) -> (r: RemoteResource<&T, &E>)
        ensures
            match *self {
                RemoteResource::Loading => r is Loading,
                RemoteResource::Loaded(t) => r == RemoteResource::<&T, &E>::Loaded(&t),
                RemoteResource::Error(e) => r == RemoteResource::<&T, &E>::Error(&e),
            },
    {
        match self {
            RemoteResource::Loading => RemoteResource::Loading,
            RemoteResource::Loaded(t) => RemoteResource::Loaded(t),
            RemoteResource::Error(e) => RemoteResource::Error(e),
        }
    }

    /// Mutable references to what is inside: what is written through them is what is inside after.
    pub fn as_mut(&mut self) -> (r: RemoteResource<&mut T, &mut E>)
        ensures
            match *old(self) {
                RemoteResource::Loading => r is Loading && *final(self) is Loading,
                RemoteResource::Loaded(t) => {
                    &&& r is Loaded
                    &&& *r->Loaded_0 == t
                    &&& *final(self) == RemoteResource::<T, E>::Loaded(*final(r->Loaded_0))
                },
                RemoteResource::Error(e) => {
                    &&& r is Error
                    &&& *r->Error_0 == e
                    &&& *final(self) == RemoteResource::<T, E>::Error(*final(r->Error_0))
                },
            },
    {
        match self {
            RemoteResource::Loading => RemoteResource::Loading,
            RemoteResource::Loaded(t) => RemoteResource::Loaded(t),
            RemoteResource::Error(e) => RemoteResource::Error(e),
        }
    }

    /// The value as a function makes it anew, where it has come.
    pub fn map<U>(self, f: impl FnOnce(T) -> U) -> (r: RemoteResource<U, E>)
        requires
            self is Loaded ==> call_requires(f, (self->Loaded_0,)),
        ensures
            match self {
                RemoteResource::Loading => r is Loading,
                RemoteResource::Loaded(t) => r is Loaded && call_ensures(f, (t,), r->Loaded_0),
                RemoteResource::Error(e) => r == RemoteResource::<U, E>::Error(e),
            },
    {
        match self {
            RemoteResource::Loading => RemoteResource::Loading,
            RemoteResource::Loaded(t) => RemoteResource::Loaded(f(t)),
            RemoteResource::Error(e) => RemoteResource::Error(e),
        }
    }
}

} // verus!
