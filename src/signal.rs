use std::sync::mpsc::{Receiver, Sender};
use vstd::prelude::*;

verus! {

/// The sending end of a std channel, carried through unread.
#[verifier::external_type_specification]
#[verifier::external_body]
#[verifier::reject_recursive_types(T)]
pub struct ExSender<T>(Sender<T>);

/// The receiving end of a std channel, carried through unread.
#[verifier::external_type_specification]
#[verifier::external_body]
#[verifier::reject_recursive_types(T)]
pub struct ExReceiver<T>(Receiver<T>);

/// Relies on std::sync::mpsc::channel: it makes a new channel and returns its
/// two ends; nothing more is assumed of them.
pub assume_specification<T>[ std::sync::mpsc::channel::<T> ]() -> (Sender<T>, Receiver<T>);

/// Two one-way channels joined crosswise: `pair1` sends to what `pair2`
/// receives and the other way round, so a controller and a worker can signal
/// each other.
pub struct WalkieTalkie {
    pub pair1: (Sender<u8>, Receiver<u8>),
    pub pair2: (Sender<u8>, Receiver<u8>),
}

impl WalkieTalkie {
    pub fn new() -> Self {
        let (tx1, rx1) = std::sync::mpsc::channel::<u8>();
        let (tx2, rx2) = std::sync::mpsc::channel::<u8>();
        Self { pair1: (tx1, rx2), pair2: (tx2, rx1) }
    }
}

} // verus!
