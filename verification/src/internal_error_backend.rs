//! Synthetic 500 backend for matched routes with no selectable backend.

use vstd::prelude::*;
use vstd::string::*;
use crate::not_found_backend::read_from;

verus! {

/// Backend that generates synthetic 500 responses.
pub struct InternalErrorBackend;

impl InternalErrorBackend {
    /// Status set on the synthetic response.
    pub fn status_code(&self) -> (r: u16)
        ensures
            r == 500,
    {
        500
    }

    /// Content type set on the synthetic response.
    pub fn content_type(&self) -> (r: &'static str)
        ensures
            r@ == "application/json"@,
    {
        "application/json"
    }

    /// The response body.
    pub fn response_body(&self) -> (r: InternalErrorBody)
        ensures
            r.cursor == 0,
            r.data@ == "{\"error\":\"no backends available\"}".spec_bytes(),
    {
        InternalErrorBody::new()
    }
}

/// Response body for the 500 error.
pub struct InternalErrorBody {
    pub data: Vec<u8>,
    pub cursor: usize,
}

impl InternalErrorBody {
    pub open spec fn wf(&self) -> bool {
        self.cursor <= self.data@.len()
    }

    /// Create a new 500 response body.
    pub fn new() -> (r: InternalErrorBody)
        ensures
            r.cursor == 0,
            r.data@ == "{\"error\":\"no backends available\"}".spec_bytes(),
            r.wf(),
    {
        InternalErrorBody { data: "{\"error\":\"no backends available\"}".as_bytes_vec(), cursor: 0 }
    }

    /// Read up to `max` bytes from the cursor onward.
    pub fn read(&mut self, max: usize) -> (r: Vec<u8>)
        requires
            old(self).wf(),
        ensures
            final(self).wf(),
            final(self).data == old(self).data,
            r@ == old(self).data@.subrange(
                old(self).cursor as int,
                if old(self).cursor + max <= old(self).data@.len() {
                    old(self).cursor + max
                } else {
                    old(self).data@.len() as int
                },
            ),
            final(self).cursor == old(self).cursor + r@.len(),
    {
        read_from(&self.data, &mut self.cursor, max)
    }

    /// Total body length.
    pub fn len(&self) -> (r: Option<usize>)
        ensures
            r == Some((self.data@.len() as usize)),
    {
        Some(self.data.len())
    }
}

} // verus!
