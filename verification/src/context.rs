//! Server-wide configuration shared by all connections: a small read-only
//! table of named byte values, built once before serving starts. The file
//! handlers read the serving directory from it under the key `workdir`.

use vstd::prelude::*;

verus! {

use crate::assoc::assoc_insert;
use crate::assoc::assoc_lookup;
use crate::assoc::pair_views;
use crate::assoc::pairs_insert;
use crate::assoc::pairs_lookup;
use crate::bytes::ascii_seq;
use crate::bytes::str_bytes;

/// Read-only configuration shared by all connections.
#[derive(Clone, Debug)]
pub struct ServerContext {
    entries: Vec<(Vec<u8>, Vec<u8>)>,
}

impl View for ServerContext {
    type V = Seq<(Seq<u8>, Seq<u8>)>;

    closed spec fn view(&self) -> Seq<(Seq<u8>, Seq<u8>)> {
        pair_views(self.entries@)
    }
}

/// The key under which the file-serving directory is stored.
pub open spec fn spec_workdir_key() -> Seq<u8> {
    ascii_seq("workdir"@)
}

impl ServerContext {
    /// An empty context.
    pub fn new() -> (r: ServerContext)
        ensures
            r@ == Seq::<(Seq<u8>, Seq<u8>)>::empty(),
    {
        let r = ServerContext { entries: Vec::new() };
        proof {
            assert(r@ =~= Seq::<(Seq<u8>, Seq<u8>)>::empty());
        }
        r
    }

    /// Stores a configuration value under a key, replacing an earlier value
    /// stored under the same key.
    pub fn add_context(&mut self, key: &[u8], value: &[u8])
        ensures
            final(self)@ == assoc_insert(old(self)@, key@, value@),
    {
        let k = vstd::slice::slice_to_vec(key);
        let v = vstd::slice::slice_to_vec(value);
        pairs_insert(&mut self.entries, k, v);
    }

    /// The value stored under a key, if any.
    pub fn get<'a>(&'a self, key: &[u8]) -> (r: Option<&'a Vec<u8>>)
        ensures
            match r {
                Some(v) => assoc_lookup(self@, key@) == Some(v@),
                None => assoc_lookup(self@, key@) is None,
            },
    {
        pairs_lookup(&self.entries, key)
    }

    /// The configured file-serving directory, if one was given.
    pub fn workdir<'a>(&'a self) -> (r: Option<&'a Vec<u8>>)
        ensures
            match r {
                Some(v) => assoc_lookup(self@, spec_workdir_key()) == Some(v@),
                None => assoc_lookup(self@, spec_workdir_key()) is None,
            },
    {
        proof {
            reveal_strlit("workdir");
        }
        let key = str_bytes("workdir");
        self.get(key.as_slice())
    }
}

} // verus!
