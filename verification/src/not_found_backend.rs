//! Synthetic 404 backend for undefined vhosts: status, content type and a
//! fixed body served through a cursor.

use vstd::prelude::*;
use vstd::string::*;

verus! {

/// Backend that generates synthetic 404 responses.
pub struct NotFoundBackend;

impl NotFoundBackend {
    /// Status set on the synthetic response.
    pub fn status_code(&self) -> (r: u16)
        ensures
            r == 404,
    {
        404
    }

    /// Content type set on the synthetic response.
    pub fn content_type(&self) -> (r: &'static str)
        ensures
            r@ == "text/plain"@,
    {
        "text/plain"
    }

    /// The response body.
    pub fn response_body(&self) -> (r: NotFoundBody)
        ensures
            r.cursor == 0,
            r.data@ == "vhost not found".spec_bytes(),
    {
        NotFoundBody::new()
    }
}

/// Response body for the 404 error.
pub struct NotFoundBody {
    pub data: Vec<u8>,
    pub cursor: usize,
}

impl NotFoundBody {
    pub open spec fn wf(&self) -> bool {
        self.cursor <= self.data@.len()
    }

    /// Create a new 404 response body.
    pub fn new() -> (r: NotFoundBody)
        ensures
            r.cursor == 0,
            r.data@ == "vhost not found".spec_bytes(),
            r.wf(),
    {
        NotFoundBody { data: "vhost not found".as_bytes_vec(), cursor: 0 }
    }

    /// Read up to `max` bytes from the cursor onward; the cursor advances by
    /// what was read, and an exhausted body yields nothing.
    pub fn read(&mut self, max: usize) -> (r: Vec<u8>)
        requires
            old(self).wf(),
        ensures
            final(self).wf(),
            final(self).data == old(self).data,
            r@ == old(self).data@.subrange(
                old(self).cursor as int,
                if old(self).cursor + max <= old(self).data@.len() {
                    old(self).cursor + max
                } else {
                    old(self).data@.len() as int
                },
            ),
            final(self).cursor == old(self).cursor + r@.len(),
    {
        read_from(&self.data, &mut self.cursor, max)
    }

    /// Total body length.
    pub fn len(&self) -> (r: Option<usize>)
        ensures
            r == Some((self.data@.len() as usize)),
    {
        Some(self.data.len())
    }
}

/// Copy up to `max` bytes of `data` starting at `*cursor`, advancing it.
#[verifier::loop_isolation(false)]
pub fn read_from(data: &Vec<u8>, cursor: &mut usize, max: usize) -> (r: Vec<u8>)
    requires
        *old(cursor) <= data@.len(),
    ensures
        r@ == data@.subrange(
            *old(cursor) as int,
            if *old(cursor) + max <= data@.len() {
                *old(cursor) + max
            } else {
                data@.len() as int
            },
        ),
        *final(cursor) == *old(cursor) + r@.len(),
        *final(cursor) <= data@.len(),
{
    let start = *cursor;
    let remaining = data.len() - start;
    let to_copy = if max <= remaining {
        max
    } else {
        remaining
    };
    let mut out: Vec<u8> = Vec::new();
    let mut i: usize = 0;
    while i < to_copy
        invariant
            i <= to_copy,
            out@ =~= data@.subrange(start as int, start + i),
        decreases to_copy - i,
    {
        out.push(data[start + i]);
        proof {
            assert(out@ =~= data@.subrange(start as int, start + i + 1));
        }
        i += 1;
    }
    *cursor = start + to_copy;
    out
}

} // verus!
