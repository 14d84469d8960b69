//! The byte sinks that the output buffer drains into, and the error they
//! report.

use vstd::prelude::*;

pub mod error;

use crate::io::error::{Error, ErrorKind};

verus! {

/// A sink for bytes.
///
/// A sink is described by the bytes it has taken and by what it answers to
/// the bytes it is given next. Both are stated in the language of the
/// verifier, so a sink is a type of this library; to write to a sink of
/// another kind, take the bytes out of the buffer and write them there.
pub trait Write {
    /// All the bytes that the sink has taken, in order.
    spec fn taken(&self) -> Seq<u8>;

    /// What the sink answers when it is given `buf` as it is now: `None`
    /// if it takes the bytes, else the kind of the error it reports.
    spec fn refuses(&self, buf: Seq<u8>) -> Option<ErrorKind>;

    /// Takes all of `buf`, or fails. A sink that does not refuse the bytes
    /// has taken them behind those it had; one that refuses them reports
    /// the error of the kind it refuses them with.
    fn write_all(&mut self, buf: &[u8]) -> (res: Result<(), Error>)
        ensures
            match old(self).refuses(buf@) {
                None => res is Ok && final(self).taken() == old(self).taken() + buf@,
                Some(kind) => res matches Err(e) && e@ == kind,
            },
    ;
}

/// A vector takes every byte it is given, at its end.
impl Write for Vec<u8> {
    open spec fn taken(&self) -> Seq<u8> {
        self@
    }

    open spec fn refuses(&self, buf: Seq<u8>) -> Option<ErrorKind> {
        None
    }

    fn write_all(&mut self, buf: &[u8]) -> (res: Result<(), Error>) {
        self.extend_from_slice(buf);
        assert(self@ =~= old(self)@ + buf@);
        Ok(())
    }
}

/// A sink with room for a given number of bytes. It takes all of what it
/// is given or, if that is more than it has room for, nothing of it.
pub struct LimitedSink {
    /// The bytes taken so far.
    pub bytes: Vec<u8>,
    /// The number of bytes that the sink has room for in all.
    pub limit: usize,
}

impl LimitedSink {
    /// An empty sink with room for `limit` bytes.
    pub fn new(limit: usize) -> (res: LimitedSink)
        ensures
            res.bytes@ == Seq::<u8>::empty(),
            res.limit == limit,
    {
        LimitedSink { bytes: Vec::new(), limit }
    }
}

impl Write for LimitedSink {
    open spec fn taken(&self) -> Seq<u8> {
        self.bytes@
    }

    open spec fn refuses(&self, buf: Seq<u8>) -> Option<ErrorKind> {
        if self.bytes@.len() + buf.len() > self.limit {
            Some(ErrorKind::WriteZero)
        } else {
            None
        }
    }

    fn write_all(&mut self, buf: &[u8]) -> (res: Result<(), Error>)
        ensures
            final(self).limit == old(self).limit,
            res is Err ==> final(self).bytes@ == old(self).bytes@,
    {
        let held: usize = self.bytes.len();
        if held > self.limit || buf.len() > self.limit - held {
            return Err(Error::new(ErrorKind::WriteZero, ()));
        }
        self.bytes.extend_from_slice(buf);
        assert(self.bytes@ =~= old(self).bytes@ + buf@);
        Ok(())
    }
}

} // verus!
