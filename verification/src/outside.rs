//! What this crate takes from tokio's channels, and from the standard library's type identifiers and
//! conversions, as Verus is told about it.

use vstd::prelude::*;

use std::any::TypeId;
use tokio::sync::mpsc::{Receiver, Sender};

use crate::task::Msg;

verus! {

/// tokio's sending half of a bounded channel.
#[verifier::external_type_specification]
#[verifier::external_body]
#[verifier::reject_recursive_types(T)]
pub struct ExSender<T>(tokio::sync::mpsc::Sender<T>);

/// tokio's receiving half of a bounded channel.
#[verifier::external_type_specification]
#[verifier::external_body]
#[verifier::reject_recursive_types(T)]
pub struct ExReceiver<T>(tokio::sync::mpsc::Receiver<T>);

/// The standard library's identifier of a type.
#[verifier::external_type_specification]
#[verifier::external_body]
pub struct ExTypeId(std::any::TypeId);

/// Whether what goes into `sender` comes out of `receiver`.
pub uninterp spec fn connected(sender: Sender<Msg>, receiver: Receiver<Msg>) -> bool;

/// How many messages the channel of `sender` holds at most before sending has to wait: what
/// `Sender::max_capacity` returns.
pub uninterp spec fn capacity(sender: Sender<Msg>) -> nat;

/// `tokio::sync::mpsc::channel`: the two halves of a new channel, which holds up to `buffer`
/// messages. tokio panics on a buffer of zero and on one of more than an eighth of the numbers
/// that a `usize` can hold.
#[verifier::external_body]
pub(crate) fn channel(buffer: usize) -> (r: (Sender<Msg>, Receiver<Msg>))
    requires
        0 < buffer <= usize::MAX / 8,
    ensures
        connected(r.0, r.1),
        capacity(r.0) == buffer,
{
    tokio::sync::mpsc::channel(buffer)
}

/// `Sender::is_closed`: whether the receiving half is gone or closed by now. That depends on what
/// the receiver's owner did in the meantime, so nothing is claimed of the answer.
pub assume_specification<T>[ tokio::sync::mpsc::Sender::<T>::is_closed ](
    sender: &Sender<T>,
) -> (r: bool);

/// `TypeId::of`: the identifier of the type `T`. Nothing is claimed of it here; what it is, is said
/// where it is called, which is in [`type_id`].
pub assume_specification<T: ?Sized + 'static>[ std::any::TypeId::of::<T> ]() -> (r: TypeId);

/// The identifier of the type `T`.
pub open spec fn id_of<T: ?Sized + 'static>() -> TypeId {
    choose|id: TypeId| call_ensures(TypeId::of::<T>, (), id)
}

/// `TypeId::of`: the identifier of the type `T`. It is the same each time; that no two types share
/// one is not claimed.
#[verifier::external_body]
pub(crate) fn type_id<T: ?Sized + 'static>() -> (r: TypeId)
    ensures
        r == id_of::<T>(),
{
    TypeId::of::<T>()
}

/// `TypeId`'s `==`: two identifiers are equal when they are the same.
#[verifier::external_body]
pub(crate) fn same_type(a: &TypeId, b: &TypeId) -> (r: bool)
    ensures
        r == (*a == *b),
{
    a == b
}

/// `String`'s `From<&str>`: the same text.
pub assume_specification<'a>[ <String as From<&'a str>>::from ](s: &str) -> (r: String)
    ensures
        r@ == s@,
;

} // verus!
