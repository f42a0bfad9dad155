//! The addresses that pooled connections are made to, taken in turn.
use crate::errors::{IoErrorKind, RiakErr, io_error, io_error_kind};
use std::sync::atomic::{AtomicUsize, Ordering};
use vstd::prelude::*;

verus! {

/// The addresses that a pool makes its connections to: at least one, each
/// new connection to the next address in turn.
#[derive(Debug)]
pub struct ClientManager<A> {
    addrs: Vec<A>,
    next_addr: AtomicUsize,
}

impl<A> ClientManager<A> {
    #[verifier::type_invariant]
    spec fn has_addresses(self) -> bool {
        self.addrs@.len() > 0
    }

    /// The addresses, in the order given.
    pub closed spec fn addresses(&self) -> Seq<A> {
        self.addrs@
    }

    /// A manager for copies of the addresses `addrs`: an error of I/O where
    /// there is none.
    pub fn new(addrs: &[A]) -> (r: Result<Self, RiakErr>)
        where A: Clone,
        ensures
            match r {
                Ok(m) => addrs@.len() > 0 && m.addresses().len() == addrs@.len() && forall|i: int|
                    0 <= i < addrs@.len() ==> cloned(addrs@[i], #[trigger] m.addresses()[i]),
                Err(e) => addrs@.len() == 0 && (e matches RiakErr::IoError(io) && io_error_kind(io)
                    == IoErrorKind::InvalidInput),
            },
    {
        if addrs.len() == 0 {
            return Err(
                RiakErr::IoError(
                    io_error(IoErrorKind::InvalidInput, "pool requires at least one address"),
                ),
            );
        }
        let mut v: Vec<A> = Vec::new();
        let mut i: usize = 0;
        while i < addrs.len()
            invariant
                i <= addrs@.len(),
                v@.len() == i,
                forall|j: int| 0 <= j < i ==> cloned(addrs@[j], #[trigger] v@[j]),
            decreases addrs@.len() - i,
        {
            v.push(addrs[i].clone());
            i = i + 1;
        }
        Ok(ClientManager { addrs: v, next_addr: AtomicUsize::new(0) })
    }

    /// The addresses, in the order given.
    pub fn addrs(&self) -> (r: &[A])
        ensures
            r@ == self.addresses(),
            r@.len() > 0,
    {
        proof {
            use_type_invariant(self);
        }
        self.addrs.as_slice()
    }

    /// The number of the next turn, from the shared counter, which counts
    /// up by one at each call and wraps around.
    fn take_turn(&self) -> usize {
        self.next_addr.fetch_add(1, Ordering::Relaxed)
    }

    /// The address for the connection made at turn `turn`: the addresses
    /// are taken in turn, from the first, and again from the first after
    /// the last.
    pub fn address_for_turn(&self, turn: usize) -> (r: &A)
        ensures
            *r == self.addresses()[(turn as int) % (self.addresses().len() as int)],
    {
        proof {
            use_type_invariant(self);
        }
        &self.addrs[turn % self.addrs.len()]
    }

    /// The address for the next connection, at the next turn of the shared
    /// counter of the manager. Which turn that is depends on the calls made
    /// before, from any thread, so only that the address is one of the
    /// manager's is stated.
    pub fn next_address(&self) -> (r: &A)
        ensures
            exists|i: int| 0 <= i < self.addresses().len() && *r == self.addresses()[i],
    {
        proof {
            use_type_invariant(self);
        }
        let turn = self.take_turn();
        self.address_for_turn(turn)
    }
}

} // verus!
