//! Addresses and the fixed bounds of a frame.
use vstd::prelude::*;

verus! {

/// An eight-bit device identifier on the bus.
pub type Address = u8;

/// The address reserved for the master device.
pub const MASTER_ADDRESS: Address = 1;

/// The longest frame on the wire, counted in symbols.
pub const MAX_MESSAGE_LEN: usize = 64;

/// The longest payload a frame can carry.
pub const MAX_DATA_LEN: usize = 62;

/// How many slaves a master can know.
pub const SLAVE_CAPACITY: usize = 7;

/// The slaves a master knows, in the order discovery visits them.
pub struct SlaveAddresses {
    addresses: [Address; SLAVE_CAPACITY],
    len: usize,
}

impl View for SlaveAddresses {
    type V = Seq<Address>;

    closed spec fn view(&self) -> Seq<Address> {
        self.addresses@.subrange(0, self.len as int)
    }
}

impl SlaveAddresses {
    pub closed spec fn wf(&self) -> bool {
        self.len <= SLAVE_CAPACITY
    }

    /// An empty list.
    pub fn new() -> (r: Self)
        ensures
            r.wf(),
            r@ == Seq::<Address>::empty(),
    {
        let r = SlaveAddresses { addresses: [0; SLAVE_CAPACITY], len: 0 };
        assert(r@ =~= Seq::<Address>::empty());
        r
    }

    pub fn len(&self) -> (r: usize)
        requires
            self.wf(),
        ensures
            r == self@.len(),
    {
        self.len
    }

    /// The address at position `i`.
    pub fn get(&self, i: usize) -> (r: Address)
        requires
            self.wf(),
            i < self@.len(),
        ensures
            r == self@[i as int],
    {
        self.addresses[i]
    }

    /// Appends an address; the list must not be full.
    pub fn push(&mut self, address: Address)
        requires
            old(self).wf(),
            old(self)@.len() < SLAVE_CAPACITY,
        ensures
            final(self).wf(),
            final(self)@ == old(self)@.push(address),
    {
        let ghost before = self@;
        self.addresses[self.len] = address;
        self.len = self.len + 1;
        assert(self@ =~= before.push(address));
    }

    /// Appends all of `addresses`, or nothing if they do not fit.
    pub fn extend_from_slice(&mut self, addresses: &[Address]) -> (r: Result<(), ()>)
        requires
            old(self).wf(),
        ensures
            final(self).wf(),
            r is Ok <==> old(self)@.len() + addresses@.len() <= SLAVE_CAPACITY,
            r is Ok ==> final(self)@ == old(self)@ + addresses@,
            r is Err ==> final(self)@ == old(self)@,
    {
        if addresses.len() > SLAVE_CAPACITY - self.len {
            return Err(());
        }
        let ghost before = self@;
        let mut i: usize = 0;
        while i < addresses.len()
            invariant
                self.wf(),
                0 <= i <= addresses@.len(),
                before.len() + addresses@.len() <= SLAVE_CAPACITY,
                self@ == before + addresses@.subrange(0, i as int),
            decreases addresses@.len() - i,
        {
            self.push(addresses[i]);
            assert(before + addresses@.subrange(0, i + 1) =~= (before + addresses@.subrange(
                0,
                i as int,
            )).push(addresses@[i as int]));
            i = i + 1;
        }
        assert(addresses@.subrange(0, addresses@.len() as int) =~= addresses@);
        Ok(())
    }
}

} // verus!
