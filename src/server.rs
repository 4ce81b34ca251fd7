use vstd::prelude::*;

verus! {

/// The thread-pool server: where it listens. Serving is done by the program around the
/// library, which accepts connections and hands each one to a pool worker.
pub struct Server {
    addr: String,
}

impl Server {
    /// A server that will listen on `addr`.
    pub fn new(addr: &str) -> (r: Server)
        ensures
            r.addr_spec() == addr@,
    {
        Server { addr: addr.to_owned() }
    }

    pub closed spec fn addr_spec(&self) -> Seq<char> {
        self.addr@
    }

    /// The address to listen on.
    pub fn addr(&self) -> (r: &str)
        ensures
            r@ == self.addr_spec(),
    {
        self.addr.as_str()
    }
}

/// The task-per-connection server: where it listens.
pub struct AsyncServer {
    addr: String,
}

impl AsyncServer {
    /// A server that will listen on `addr`.
    pub fn new(addr: &str) -> (r: AsyncServer)
        ensures
            r.addr_spec() == addr@,
    {
        AsyncServer { addr: addr.to_owned() }
    }

    pub closed spec fn addr_spec(&self) -> Seq<char> {
        self.addr@
    }

    /// The address to listen on.
    pub fn addr(&self) -> (r: &str)
        ensures
            r@ == self.addr_spec(),
    {
        self.addr.as_str()
    }
}

} // verus!
