//! Client configuration: the datagram size bound, the application id and the
//! timeout, and the query state a client starts each request with.
use crate::errors::Error;
use core::time::Duration;
use vstd::prelude::*;

verus! {

/// The default bound on a datagram's size.
pub const DEFAULT_MAX_SIZE: usize = 1400;

/// The default timeout, in seconds.
pub const DEFAULT_TIMEOUT_SECS: u64 = 5;

pub assume_specification[ core::time::Duration::from_secs ](secs: u64) -> Duration;

/// Options for a client: the datagram size bound, the application id (The
/// Ship's selects its player fields) and the timeout of each send and receive.
pub struct Builder {
    pub max_size: usize,
    pub app_id: u16,
    pub timeout: Duration,
}

impl Builder {
    pub fn new() -> (r: Self)
        ensures
            r.max_size == DEFAULT_MAX_SIZE,
            r.app_id == 0,
    {
        Builder { max_size: DEFAULT_MAX_SIZE, app_id: 0, timeout: Duration::from_secs(DEFAULT_TIMEOUT_SECS) }
    }

    pub fn max_size(&mut self, size: usize) -> (r: &mut Self)
        ensures
            *r == (Builder { max_size: size, ..*old(self) }),
            *final(self) == *final(r),
    {
        self.max_size = size;
        self
    }

    pub fn app_id(&mut self, app_id: u16) -> (r: &mut Self)
        ensures
            *r == (Builder { app_id: app_id, ..*old(self) }),
            *final(self) == *final(r),
    {
        self.app_id = app_id;
        self
    }

    pub fn timeout(&mut self, timeout: Duration) -> (r: &mut Self)
        ensures
            *r == (Builder { timeout: timeout, ..*old(self) }),
            *final(self) == *final(r),
    {
        self.timeout = timeout;
        self
    }

    /// A client for a suspending transport, with these options.
    pub fn build_async(&self) -> (r: Result<A2SClientAsync, Error>)
        ensures
            r matches Ok(c) && c.max_size == self.max_size && c.app_id == self.app_id && c.timeout
                == self.timeout,
    {
        Ok(A2SClientAsync { timeout: self.timeout, max_size: self.max_size, app_id: self.app_id })
    }
}

/// The options of a client whose transport suspends on each receive.
pub struct A2SClientAsync {
    pub timeout: Duration,
    pub max_size: usize,
    /// The application id; The Ship's (2400) selects its player fields.
    pub app_id: u16,
}

impl A2SClientAsync {
    pub fn max_size(&mut self, size: usize) -> (r: &mut Self)
        ensures
            *r == (A2SClientAsync { max_size: size, ..*old(self) }),
            *final(self) == *final(r),
    {
        self.max_size = size;
        self
    }

    pub fn app_id(&mut self, app_id: u16) -> (r: &mut Self)
        ensures
            *r == (A2SClientAsync { app_id: app_id, ..*old(self) }),
            *final(self) == *final(r),
    {
        self.app_id = app_id;
        self
    }
}

} // verus!
