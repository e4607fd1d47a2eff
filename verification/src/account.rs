//! Accounts of the sign-on service.
use vstd::prelude::*;

use crate::ident::{variant, version, UtcTime, Uuid};

verus! {

#[derive(Debug)]
pub struct User {
    pub id: Uuid,
    pub create_time: UtcTime,
    pub active_time: UtcTime,
}

impl User {
    /// A user with the given identifier, made and last active at the given times.
    pub fn new(id: Uuid, create_time: UtcTime, active_time: UtcTime) -> (r: Self)
        ensures
            r.id == id,
            r.create_time == create_time,
            r.active_time == active_time,
    {
        Self { id, create_time, active_time }
    }
}

impl Default for User {
    /// A user with a random identifier, made now.
    fn default() -> (r: Self)
        ensures
            version(r.id.value) == 4,
            variant(r.id.value) == 2,
            r.create_time.secs >= 0,
            r.create_time.nanos < 1_000_000_000,
            r.active_time.secs >= 0,
            r.active_time.nanos < 1_000_000_000,
    {
        Self::new(Uuid::new_v4(), UtcTime::now(), UtcTime::now())
    }
}

pub struct Register {}

/// The port that the service listens on unless another one is given.
pub const DEFAULT_PORT: u16 = 7777;

/// The arguments of the service.
#[derive(Debug)]
pub struct Args {
    port: u16,
    postgres: String,
}

impl Args {
    /// The port to listen on.
    pub closed spec fn spec_port(&self) -> u16 {
        self.port
    }

    /// Where the database is.
    pub closed spec fn spec_postgres(&self) -> Seq<char> {
        self.postgres@
    }

    pub fn new(port: u16, postgres: String) -> (r: Self)
        ensures
            r.spec_port() == port,
            r.spec_postgres() == postgres@,
    {
        Self { port, postgres }
    }

    /// Starts the service. Nothing is started so far.
    pub fn run(&self) -> (r: ())
        ensures
            r == (),
    {
    }
}

} // verus!
