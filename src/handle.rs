//! The handle a caller keeps on a running scan: its event stream and its
//! cancel flag.
use vstd::prelude::*;
use std::sync::atomic::{AtomicBool, Ordering};
use std::sync::mpsc::Receiver;
use std::sync::{Arc, Mutex};
use crate::scan::ScanEvent;

verus! {

#[verifier::external_type_specification]
#[verifier::external_body]
#[verifier::reject_recursive_types(T)]
pub struct ExReceiver<T>(std::sync::mpsc::Receiver<T>);

#[verifier::external_type_specification]
#[verifier::external_body]
#[verifier::reject_recursive_types(T)]
pub struct ExMutex<T: ?Sized>(std::sync::Mutex<T>);

/// A running scan, seen from the caller that started it.
pub struct ScanHandle {
    receiver: Arc<Mutex<Receiver<ScanEvent>>>,
    cancel_flag: Arc<AtomicBool>,
}

impl ScanHandle {
    pub fn new(receiver: Arc<Mutex<Receiver<ScanEvent>>>, cancel_flag: Arc<AtomicBool>) -> (r:
        ScanHandle)
        ensures
            r.spec_receiver() == receiver,
            r.spec_cancel_flag() == cancel_flag,
    {
        ScanHandle { receiver, cancel_flag }
    }

    pub closed spec fn spec_receiver(&self) -> Arc<Mutex<Receiver<ScanEvent>>> {
        self.receiver
    }

    pub closed spec fn spec_cancel_flag(&self) -> Arc<AtomicBool> {
        self.cancel_flag
    }

    /// The stream of the scan's events, shared with this handle.
    pub fn receiver(&self) -> (r: Arc<Mutex<Receiver<ScanEvent>>>)
        ensures
            r == self.spec_receiver(),
    {
        Arc::clone(&self.receiver)
    }

    /// Raises the cancel flag; the worker polls it between files and ends
    /// the scan with "cancelled".
    pub fn cancel(&self) {
        self.cancel_flag.store(true, Ordering::SeqCst);
    }
}

} // verus!
