//! Connection framing: accumulates the bytes read from a connection until the
//! header block is complete or the peer has stopped sending.
use vstd::prelude::*;
use vstd::utf8::{decode_utf8, valid_utf8};

verus! {

/// The four bytes that end a header block.
pub open spec fn marker() -> Seq<u8> {
    seq![13u8, 10u8, 13u8, 10u8]
}

/// `b` holds the end-of-headers marker somewhere.
pub open spec fn has_marker(b: Seq<u8>) -> bool {
    exists|i: int| 0 <= i && i + 4 <= b.len() && #[trigger] b.subrange(i, i + 4) == marker()
}

/// Relies on `String::from_utf8`: succeeds exactly on well-formed UTF-8 and
/// then holds the decoded characters.
#[verifier::external_body]
fn decode(b: Vec<u8>) -> (r: Option<String>)
    ensures
        r is Some <==> valid_utf8(b@),
        r matches Some(s) ==> s@ == decode_utf8(b@),
{
    String::from_utf8(b).ok()
}

/// Whether `b` holds the end-of-headers marker.
pub fn contains_marker(b: &Vec<u8>) -> (r: bool)
    ensures
        r == has_marker(b@),
{
    let mut i: usize = 0;
    while i < b.len() && 4 <= b.len() - i
        invariant
            forall|j: int| 0 <= j < i ==> #[trigger] b@.subrange(j, j + 4) != marker(),
        decreases b.len() - i,
    {
        if b[i] == 13 && b[i + 1] == 10 && b[i + 2] == 13 && b[i + 3] == 10 {
            assert(b@.subrange(i as int, i + 4) =~= marker());
            return true;
        }
        assert(b@.subrange(i as int, i + 4)[0] == b@[i as int]);
        assert(b@.subrange(i as int, i + 4)[1] == b@[i + 1]);
        assert(b@.subrange(i as int, i + 4)[2] == b@[i + 2]);
        assert(b@.subrange(i as int, i + 4)[3] == b@[i + 3]);
        i = i + 1;
    }
    false
}

/// The bytes of one request as they arrive.
pub struct Framer {
    buf: Vec<u8>,
    done: bool,
}

impl Framer {
    pub closed spec fn bytes(&self) -> Seq<u8> {
        self.buf@
    }

    /// No more bytes are wanted.
    pub closed spec fn is_done(&self) -> bool {
        self.done
    }

    pub fn new() -> (r: Framer)
        ensures
            r.bytes().len() == 0,
            !r.is_done(),
    {
        Framer { buf: Vec::new(), done: false }
    }

    /// Takes the bytes of one read and says whether the request is complete:
    /// an empty read means the peer stopped sending; otherwise the bytes are
    /// appended and the request is complete once they hold the marker.
    pub fn feed(&mut self, chunk: &[u8]) -> (r: bool)
        ensures
            chunk@.len() == 0 ==> r && final(self).bytes() == old(self).bytes(),
            chunk@.len() > 0 ==> final(self).bytes() == old(self).bytes() + chunk@ && r
                == has_marker(final(self).bytes()),
            final(self).is_done() == r,
    {
        if chunk.len() == 0 {
            self.done = true;
            return true;
        }
        let mut i: usize = 0;
        while i < chunk.len()
            invariant
                i <= chunk@.len(),
                self.buf@ == old(self).buf@ + chunk@.take(i as int),
            decreases chunk@.len() - i,
        {
            self.buf.push(chunk[i]);
            assert(chunk@.take(i + 1) =~= chunk@.take(i as int).push(chunk@[i as int]));
            i = i + 1;
        }
        assert(chunk@.take(i as int) =~= chunk@);
        self.done = contains_marker(&self.buf);
        self.done
    }

    /// The request text: the bytes decoded as UTF-8, or nothing where they
    /// are not well formed.
    pub fn into_text(self) -> (r: String)
        ensures
            valid_utf8(self.bytes()) ==> r@ == decode_utf8(self.bytes()),
            !valid_utf8(self.bytes()) ==> r@.len() == 0,
    {
        match decode(self.buf) {
            Some(s) => s,
            None => String::new(),
        }
    }
}

} // verus!
