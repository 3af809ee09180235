//! The `bundle` command: embed a payload into a module as a custom section,
//! replacing every earlier custom section of that name.

use vstd::prelude::*;
use vstd::utf8::encode_utf8;

use crate::rewrite::Rewriter;
use crate::section::{custom_header, custom_section_header, RewriteError};

verus! {

/// The WebAssembly commands.
pub enum Wasm {
    /// Embed file resources.
    Bundle(Bundle),
}

/// What the `bundle` command works on.
pub struct Bundle {
    /// The directory or archive whose contents are embedded.
    pub files: String,
    /// The module to read.
    pub iwasm: String,
    /// The module to write.
    pub owasm: String,
    /// The name of the custom section that carries the payload.
    pub section: String,
}

impl Bundle {
    /// The name of the section, as bytes.
    pub open spec fn name(&self) -> Seq<u8> {
        encode_utf8(self.section@)
    }

    /// A rewrite pass that strips every custom section of this name.
    pub fn rewriter(&self) -> (r: Rewriter)
        ensures
            r.wf(),
            r.section() == self.name(),
            r.stack().len() == 0,
            r.buffered().len() == 0,
            r.input().len() == 0,
            r.output().len() == 0,
            r.stripped() == 0,
            !r.at_eof(),
            r.pending_read() is None,
            !r.finished(),
    {
        let name = self.section.as_str().as_bytes();
        let mut owned: Vec<u8> = Vec::new();
        crate::section::append_bytes(&mut owned, name);
        assert(owned@ =~= self.name());
        Rewriter::new(owned)
    }

    /// What precedes a payload of `content_len` bytes in the new section.
    pub fn header(&self, content_len: u64) -> (r: Result<Vec<u8>, RewriteError>)
        ensures
            match r {
                Ok(h) => h@ == custom_header(self.name(), content_len as nat),
                Err(e) => e == RewriteError::IntegerOverflow,
            },
            r is Err <==> crate::leb::leb128(self.name().len()).len() + self.name().len()
                + content_len > usize::MAX,
    {
        custom_section_header(self.section.as_str().as_bytes(), content_len)
    }
}

} // verus!
