use vstd::prelude::*;
use vstd::string::StrSliceExecFns;
use vstd::string::StringExecFns;

verus! {

/// The text destination a renderer writes into.
///
/// The text is accumulated in memory; an optional character limit
/// models a destination of bounded capacity, the way a real sink can
/// refuse a write.  A write either appends whole or is refused whole,
/// so a refused write leaves the contents unchanged.
pub struct Sink {
    buf: String,
    limit: Option<usize>,
}

impl Sink {
    /// The characters held so far.
    pub closed spec fn contents(&self) -> Seq<char> {
        self.buf@
    }

    /// The capacity limit the sink was created with, if any.
    pub closed spec fn limit(&self) -> Option<usize> {
        self.limit
    }

    /// True when `n` more characters would still fit.
    pub open spec fn fits(&self, n: nat) -> bool {
        match self.limit() {
            None => true,
            Some(l) => self.contents().len() + n <= l,
        }
    }

    /// A sink of unbounded capacity, holding `buf` already.
    pub fn new(buf: String) -> (s: Sink)
        ensures
            s.contents() == buf@,
            s.limit() is None,
    {
        Sink { buf, limit: None }
    }

    /// A sink that refuses any write that would push its contents
    /// beyond `limit` characters in all.
    pub fn bounded(buf: String, limit: usize) -> (s: Sink)
        ensures
            s.contents() == buf@,
            s.limit() == Some(limit),
    {
        Sink { buf, limit: Some(limit) }
    }

    /// Appends `text` whole, or refuses it whole when it does not fit.
    pub fn write_str(&mut self, text: &str) -> (ok: bool)
        ensures
            ok == old(self).fits(text@.len()),
            ok ==> final(self).contents() == old(self).contents() + text@,
            !ok ==> final(self).contents() == old(self).contents(),
            final(self).limit() == old(self).limit(),
    {
        match self.limit {
            None => {
                self.buf.append(text);
                true
            },
            Some(l) => {
                let cur: usize = self.buf.as_str().unicode_len();
                let n: usize = text.unicode_len();
                if cur <= l && n <= l - cur {
                    self.buf.append(text);
                    true
                } else {
                    false
                }
            },
        }
    }

    /// Hands the accumulated text back.
    pub fn into_string(self) -> (s: String)
        ensures
            s@ == self.contents(),
    {
        self.buf
    }
}

} // verus!
