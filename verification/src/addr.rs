//! Node addresses: the connection endpoint identifiers that key both the
//! topology table and the connection pool.

use vstd::prelude::*;

verus! {

/// Mathematical view of a [`NodeAddr`]: the host bytes and the port.
pub ghost struct AddrView {
    pub host: Seq<u8>,
    pub port: u16,
}

/// A node address: a host (arbitrary bytes, as the cluster reported it) and a
/// port. Two addresses are equal iff host and port are equal, which matches
/// equality of their canonical `host:port` string forms.
#[derive(Debug)]
pub struct NodeAddr {
    pub host: Vec<u8>,
    pub port: u16,
}

impl View for NodeAddr {
    type V = AddrView;

    open spec fn view(&self) -> AddrView {
        AddrView { host: self.host@, port: self.port }
    }
}

impl DeepView for NodeAddr {
    type V = AddrView;

    open spec fn deep_view(&self) -> AddrView {
        self@
    }
}

/// Compares two byte vectors element by element.
pub fn bytes_eq(a: &Vec<u8>, b: &Vec<u8>) -> (r: bool)
    ensures
        r == (a@ == b@),
{
    if a.len() != b.len() {
        assert(a@.len() != b@.len());
        return false;
    }
    let n: usize = a.len();
    let mut i: usize = 0;
    while i < n
        invariant
            n == a@.len(),
            n == b@.len(),
            0 <= i <= n,
            forall|k: int| 0 <= k < i ==> a@[k] == b@[k],
        decreases n - i,
    {
        if a[i] != b[i] {
            return false;
        }
        i = i + 1;
    }
    assert(a@ =~= b@);
    true
}

impl NodeAddr {
    /// Builds an address from its host bytes and port.
    pub fn new(host: Vec<u8>, port: u16) -> (r: NodeAddr)
        ensures
            r@ == (AddrView { host: host@, port: port }),
    {
        NodeAddr { host, port }
    }

    /// Returns an independent copy holding the same host and port.
    pub fn duplicate(&self) -> (r: NodeAddr)
        ensures
            r@ == self@,
    {
        NodeAddr { host: copy_bytes(&self.host), port: self.port }
    }
}

/// Returns an independent copy of a byte vector.
pub fn copy_bytes(v: &Vec<u8>) -> (r: Vec<u8>)
    ensures
        r@ == v@,
{
    let mut out: Vec<u8> = Vec::new();
    let n: usize = v.len();
    let mut i: usize = 0;
    while i < n
        invariant
            n == v@.len(),
            0 <= i <= n,
            out@ =~= v@.subrange(0, i as int),
        decreases n - i,
    {
        out.push(v[i]);
        i = i + 1;
    }
    assert(out@ =~= v@);
    out
}

impl Clone for NodeAddr {
    fn clone(&self) -> (r: NodeAddr)
        ensures
            r@ == self@,
    {
        self.duplicate()
    }
}

impl PartialEq for NodeAddr {
    fn eq(&self, other: &NodeAddr) -> (r: bool) {
        bytes_eq(&self.host, &other.host) && self.port == other.port
    }
}

impl Eq for NodeAddr {}

impl vstd::std_specs::cmp::PartialEqSpecImpl for NodeAddr {
    open spec fn obeys_eq_spec() -> bool {
        true
    }

    open spec fn eq_spec(&self, other: &NodeAddr) -> bool {
        self@ == other@
    }
}

/// Equality of two addresses, stated over their views.
pub fn addr_eq(a: &NodeAddr, b: &NodeAddr) -> (r: bool)
    ensures
        r == (a@ == b@),
{
    let r = bytes_eq(&a.host, &b.host) && a.port == b.port;
    if r {
        assert(a@ == b@);
    }
    r
}

} // verus!
