//! The emitter: two append-only text buffers and their serialization.
//!
//! Generated C text is pushed into an ordered header buffer (includes, the
//! function prologue, variable declarations discovered mid-parse) and an
//! ordered body buffer (the translated statements). The final output is the
//! header followed by the body.

use vstd::prelude::*;
use vstd::string::*;

verus! {

/// Write-only output buffers for one compilation, plus the path the caller
/// means to write the serialized output to.
#[derive(Debug)]
pub struct Emitter {
    full_path: String,
    header: String,
    code: String,
}

impl Emitter {
    /// The text accumulated in the header buffer.
    pub closed spec fn header_text(&self) -> Seq<char> {
        self.header@
    }

    /// The text accumulated in the body buffer.
    pub closed spec fn code_text(&self) -> Seq<char> {
        self.code@
    }

    /// The output path this emitter was built with.
    pub closed spec fn path(&self) -> Seq<char> {
        self.full_path@
    }

    /// An emitter with both buffers empty.
    pub fn new(full_path: String) -> (r: Self)
        ensures
            r.path() == full_path@,
            r.header_text() == Seq::<char>::empty(),
            r.code_text() == Seq::<char>::empty(),
    {
        Emitter { full_path, header: String::new(), code: String::new() }
    }

    /// Appends text to the body buffer.
    pub fn emit(&mut self, code: String)
        ensures
            final(self).header_text() == old(self).header_text(),
            final(self).code_text() == old(self).code_text() + code@,
            final(self).path() == old(self).path(),
    {
        self.code.append(code.as_str());
    }

    /// Appends text plus a line terminator to the body buffer.
    pub fn emit_line(&mut self, code: String)
        ensures
            final(self).header_text() == old(self).header_text(),
            final(self).code_text() == old(self).code_text() + code@ + "\n"@,
            final(self).path() == old(self).path(),
    {
        self.code.append(code.as_str());
        self.code.append("\n");
    }

    /// Appends text plus a line terminator to the header buffer.
    pub fn header_line(&mut self, code: String)
        ensures
            final(self).header_text() == old(self).header_text() + code@ + "\n"@,
            final(self).code_text() == old(self).code_text(),
            final(self).path() == old(self).path(),
    {
        self.header.append(code.as_str());
        self.header.append("\n");
    }

    /// Serializes the buffers: the header, then the body.
    pub fn output(&self) -> (r: String)
        ensures
            r@ == self.header_text() + self.code_text(),
    {
        let out = self.header.clone();
        out.concat(self.code.as_str())
    }

    /// The path the serialized output is meant to be written to.
    pub fn target_path(&self) -> (r: &str)
        ensures
            r@ == self.path(),
    {
        self.full_path.as_str()
    }
}

} // verus!
