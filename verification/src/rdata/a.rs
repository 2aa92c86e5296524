use vstd::prelude::*;

use crate::error::Error;
use crate::rdata::config::{RData, RDataV};

verus! {

/// An address record: the four octets of an IPv4 address, in wire order.
#[derive(Debug, Clone, PartialEq, Eq)]
pub struct Record {
    pub octets: Vec<u8>,
}

impl View for Record {
    type V = Seq<u8>;

    open spec fn view(&self) -> Seq<u8> {
        self.octets@
    }
}

impl Record {
    /// An address record always holds exactly four octets.
    pub open spec fn wf(&self) -> bool {
        self@.len() == 4
    }

    /// Decode an address record out of the rdata span `[start, start+len)`.
    ///
    /// The span must be exactly four bytes; anything else is a length error.
    pub fn parse(buf: &[u8], start: usize, len: usize) -> (r: Result<RData, Error>)
        requires
            start + len <= buf@.len(),
        ensures
            match r {
                Ok(d) => {
                    &&& len == 4
                    &&& d@ == RDataV::A(buf@.subrange(start as int, start + 4))
                },
                Err(e) => {
                    &&& e == Error::WrongRdataLength
                    &&& len != 4
                },
            },
    {
        if len != 4 {
            return Err(Error::WrongRdataLength);
        }
        let total = buf.len();
        assert(start + len <= total);
        let octets: Vec<u8> = vstd::slice::slice_to_vec(&buf[start..start + 4]);
        Ok(RData::A(Record { octets }))
    }
}

} // verus!
