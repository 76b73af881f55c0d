//! The bounded multi-producer, single-consumer queue of tokio that carries
//! update messages from background tasks to the render loop.

use vstd::prelude::*;
use tokio::sync::mpsc::{Receiver, Sender};
use tokio::sync::mpsc::error::TryRecvError;

verus! {

#[verifier::external_type_specification]
#[verifier::external_body]
#[verifier::reject_recursive_types(T)]
pub struct ExSender<T>(Sender<T>);

#[verifier::external_type_specification]
#[verifier::external_body]
#[verifier::reject_recursive_types(T)]
pub struct ExReceiver<T>(Receiver<T>);

#[verifier::external_type_specification]
#[verifier::external_body]
pub struct ExTryRecvError(TryRecvError);

/// Relies on `tokio::sync::mpsc::channel`: a bounded channel with room for
/// `buffer` messages. It panics when `buffer` is zero, and when `buffer` is
/// above the most permits its semaphore can hold, `usize::MAX >> 3`.
pub assume_specification<T>[ tokio::sync::mpsc::channel::<T> ](buffer: usize) -> (Sender<T>, Receiver<T>)
    requires
        0 < buffer <= usize::MAX >> 3,
;

/// Relies on `Sender::clone`: another handle to the same channel.
pub assume_specification<T>[ <Sender<T> as Clone>::clone ](s: &Sender<T>) -> Sender<T>;

/// Relies on `Receiver::len`: the number of messages waiting. Producers run
/// concurrently, so nothing is promised of the value.
pub assume_specification<T>[ Receiver::<T>::len ](r: &Receiver<T>) -> usize;

/// Relies on `Receiver::try_recv`: the next waiting message, if any. What
/// arrives depends on the producers, so nothing is promised of it.
pub assume_specification<T>[ Receiver::<T>::try_recv ](r: &mut Receiver<T>) -> Result<T, TryRecvError>;

} // verus!
