//! Decisions of the supplier service: which stored document it answers
//! with, and which files it loads at start.

use vstd::prelude::*;
use vstd::string::StringExecFns;
use crate::random::random_u64_in;
use crate::response::HttpReply;

verus! {

/// Errors while loading the supplier's documents.
pub enum SupplierCallError {
    FileRedaError,
    FileOpenError,
}

impl SupplierCallError {
    /// The error's message.
    pub fn message(&self) -> (m: String)
        ensures
            m@ == match self {
                SupplierCallError::FileRedaError => "Error Reading file"@,
                SupplierCallError::FileOpenError => "Error Opening file"@,
            },
    {
        let mut m = String::new();
        match self {
            SupplierCallError::FileRedaError => m.append("Error Reading file"),
            SupplierCallError::FileOpenError => m.append("Error Opening file"),
        }
        m
    }
}

/// The query of a supplier request.
pub struct Info {
    pub supplier_id: i32,
}

/// The documents that the supplier serves.
pub struct AppState {
    pub filecontent: Vec<String>,
}

/// The reply for the document at `index`: the document as XML with status
/// 200, or status 404 where there is none.
pub fn supplier_reply(state: &AppState, index: usize) -> (reply: HttpReply)
    ensures
        index < state.filecontent@.len() ==> {
            &&& reply.status == 200
            &&& reply.content_type matches Some(t) && t@ == "application/xml"@
            &&& reply.body@ == state.filecontent@[index as int]@
        },
        index >= state.filecontent@.len() ==> {
            &&& reply.status == 404
            &&& reply.content_type matches Some(t) && t@ == "application/text"@
            &&& reply.body@ == "Supplier not found"@
        },
{
    let mut t = String::new();
    if index < state.filecontent.len() {
        t.append("application/xml");
        HttpReply { status: 200, content_type: Some(t), body: state.filecontent[index].clone() }
    } else {
        t.append("application/text");
        let mut body = String::new();
        body.append("Supplier not found");
        HttpReply { status: 404, content_type: Some(t), body }
    }
}

/// The supplier's answer: one of its documents, picked at random, always
/// with status 200. With no documents the random pick panics, which
/// `requires` leaves out.
pub fn get_supplier_reply(state: &AppState) -> (reply: HttpReply)
    requires
        state.filecontent@.len() > 0,
    ensures
        reply.status == 200,
        reply.content_type matches Some(t) && t@ == "application/xml"@,
        exists|i: int| 0 <= i < state.filecontent@.len() && reply.body@ == (#[trigger] state.filecontent@[i])@,
{
    let uindex = random_u64_in(0, state.filecontent.len() as u64) as usize;
    let reply = supplier_reply(state, uindex);
    assert(reply.body@ == state.filecontent@[uindex as int]@);
    reply
}

/// Whether a file name has the extension `xml` (as `Path::extension` sees
/// it: the part after the last dot, where that dot is not the name's first
/// character).
pub open spec fn has_xml_extension_spec(name: Seq<char>) -> bool {
    name.len() > 4 && name.subrange(name.len() - 4, name.len() as int) == ".xml"@
}

/// Whether a name has the extension `xml` depends only on its end: a longer
/// path or name ending in the same way has it too, and any name made of at
/// least one character followed by `.xml` has it.
pub proof fn lemma_xml_extension_by_end(prefix: Seq<char>, name: Seq<char>, stem: Seq<char>)
    ensures
        name.len() > 4 ==> has_xml_extension_spec(prefix + name) == has_xml_extension_spec(name),
        stem.len() >= 1 ==> has_xml_extension_spec(stem + ".xml"@),
{
    reveal_strlit(".xml");
    let whole = prefix + name;
    if name.len() > 4 {
        assert(whole.subrange(whole.len() - 4, whole.len() as int)
            =~= name.subrange(name.len() - 4, name.len() as int));
    }
    let named = stem + ".xml"@;
    assert(named.subrange(named.len() - 4, named.len() as int) =~= ".xml"@);
}

/// Whether a file name has the extension `xml`.
pub fn has_xml_extension(name: &str) -> (r: bool)
    ensures
        r == has_xml_extension_spec(name@),
{
    proof {
        reveal_strlit(".xml");
    }
    let n = name.unicode_len();
    if n <= 4 {
        return false;
    }
    let r = name.get_char(n - 4) == '.' && name.get_char(n - 3) == 'x' && name.get_char(n - 2) == 'm'
        && name.get_char(n - 1) == 'l';
    proof {
        let tail = name@.subrange(n - 4, n as int);
        if r {
            assert(tail =~= ".xml"@);
        } else {
            assert(tail != ".xml"@) by {
                if tail == ".xml"@ {
                    assert(tail[0] == name@[n - 4]);
                    assert(tail[1] == name@[n - 3]);
                    assert(tail[2] == name@[n - 2]);
                    assert(tail[3] == name@[n - 1]);
                }
            }
        }
    }
    r
}

/// What became of a file that was to be loaded.
pub enum FileReadOutcome {
    OpenFailed,
    ReadFailed,
    Read(String),
}

/// The documents loaded so far.
pub struct FileLoader {
    pub filecontent: Vec<String>,
}

impl FileLoader {
    /// No document loaded yet.
    pub fn new() -> (l: FileLoader)
        ensures
            l.filecontent@.len() == 0,
    {
        FileLoader { filecontent: Vec::new() }
    }

    /// A directory entry is loaded when it is a file whose name has the
    /// extension `xml`.
    pub fn wants(is_file: bool, name: &str) -> (r: bool)
        ensures
            r == (is_file && has_xml_extension_spec(name@)),
    {
        is_file && has_xml_extension(name)
    }

    /// Takes in what became of one wanted file: its text is added after the
    /// others; a file that could not be opened or read ends the loading.
    pub fn absorb(&mut self, outcome: FileReadOutcome) -> (r: Result<(), SupplierCallError>)
        ensures
            match outcome {
                FileReadOutcome::Read(text) => r is Ok && final(self).filecontent@ == old(self).filecontent@.push(text),
                FileReadOutcome::OpenFailed => r == Err::<(), SupplierCallError>(SupplierCallError::FileOpenError)
                    && final(self).filecontent@ == old(self).filecontent@,
                FileReadOutcome::ReadFailed => r == Err::<(), SupplierCallError>(SupplierCallError::FileRedaError)
                    && final(self).filecontent@ == old(self).filecontent@,
            },
    {
        match outcome {
            FileReadOutcome::Read(text) => {
                self.filecontent.push(text);
                Ok(())
            },
            FileReadOutcome::OpenFailed => Err(SupplierCallError::FileOpenError),
            FileReadOutcome::ReadFailed => Err(SupplierCallError::FileRedaError),
        }
    }
}

} // verus!
