use vstd::prelude::*;
use crate::quic::QUIC;
use crate::wire::copy_range;

verus! {

/// A QUIC long header as a packet hook sees it.
pub struct LuaQUIC(pub QUIC);

impl LuaQUIC {
    /// The version field.
    pub fn version(&self) -> (r: u32)
        ensures
            r == self.0.version,
    {
        self.0.version
    }

    /// A copy of the destination connection ID.
    pub fn destination_cid(&self) -> (r: Vec<u8>)
        ensures
            r@ == self.0.dst_connection_id@,
    {
        let r = copy_range(&self.0.dst_connection_id, 0, self.0.dst_connection_id.len());
        assert(self.0.dst_connection_id@.subrange(0, self.0.dst_connection_id@.len() as int)
            =~= self.0.dst_connection_id@);
        r
    }

    /// A copy of the source connection ID.
    pub fn source_cid(&self) -> (r: Vec<u8>)
        ensures
            r@ == self.0.src_connection_id@,
    {
        let r = copy_range(&self.0.src_connection_id, 0, self.0.src_connection_id.len());
        assert(self.0.src_connection_id@.subrange(0, self.0.src_connection_id@.len() as int)
            =~= self.0.src_connection_id@);
        r
    }
}

} // verus!
