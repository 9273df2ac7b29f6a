//! The static data export unpacked: every local file of the archive with
//! its document, found again by name.

use crate::parser::{inflated, step_at, EveSdeParser, EveSdeParserError, Step};
use vstd::prelude::*;
use vstd::utf8::*;

verus! {

/// One file of the export: its name and its document.
#[derive(Debug)]
pub struct SdeFile {
    pub name: String,
    pub data: Vec<u8>,
}

/// The files of the export, in the order of the archive.
#[derive(Debug)]
pub struct SdeZipArchive {
    files: Vec<SdeFile>,
}

/// The files at the positions of `files`, as contracts see them: the name
/// and the document of each.
pub open spec fn file_models(files: Seq<SdeFile>) -> Seq<(Seq<char>, Seq<u8>)> {
    Seq::new(files.len(), |i: int| (files[i].name@, files[i].data@))
}

/// What unpacking from position `at` gives: every file from there on with
/// its inflated document, or the first failure.
pub open spec fn unpacked(b: Seq<u8>, at: int) -> Result<
    Seq<(Seq<char>, Seq<u8>)>,
    EveSdeParserError,
>
    decreases b.len() - at,
{
    match step_at(b, at) {
        Step::Fail(e) => Err(e),
        Step::End => Ok(Seq::empty()),
        Step::Entry { name, data, next } => match inflated(data) {
            None => Err(EveSdeParserError::InvalidData),
            Some(doc) => match unpacked(b, next) {
                Err(e) => Err(e),
                Ok(rest) => Ok(seq![(decode_utf8(name), doc)] + rest),
            },
        },
    }
}

/// What an unpacking in progress amounts to: the files so far, followed
/// by the outcome of the rest.
pub open spec fn unpacked_after(
    done: Seq<(Seq<char>, Seq<u8>)>,
    rest: Result<Seq<(Seq<char>, Seq<u8>)>, EveSdeParserError>,
) -> Result<Seq<(Seq<char>, Seq<u8>)>, EveSdeParserError> {
    match rest {
        Err(e) => Err(e),
        Ok(more) => Ok(done + more),
    }
}

/// The position of the first file called `name`, or the number of files
/// where there is none.
pub open spec fn position(files: Seq<(Seq<char>, Seq<u8>)>, name: Seq<char>) -> int
    decreases files.len(),
{
    if files.len() == 0 {
        0
    } else if files[0].0 == name {
        0
    } else {
        1 + position(files.drop_first(), name)
    }
}

/// The document of the first file called `name`, if there is one.
pub open spec fn found(files: Seq<(Seq<char>, Seq<u8>)>, name: Seq<char>) -> Option<Seq<u8>> {
    if position(files, name) < files.len() {
        Some(files[position(files, name)].1)
    } else {
        None
    }
}

pub proof fn lemma_position(files: Seq<(Seq<char>, Seq<u8>)>, name: Seq<char>)
    ensures
        0 <= position(files, name) <= files.len(),
        position(files, name) < files.len() ==> files[position(files, name)].0 == name,
        forall|j: int| 0 <= j < position(files, name) ==> (#[trigger] files[j]).0 != name,
    decreases files.len(),
{
    if files.len() > 0 && files[0].0 != name {
        lemma_position(files.drop_first(), name);
        assert forall|j: int| 0 <= j < position(files, name) implies (#[trigger] files[j]).0
            != name by {
            if j > 0 {
                assert(files.drop_first()[j - 1] == files[j]);
            }
        }
    }
}

/// The first position where a name stands is the position of the name.
pub proof fn lemma_position_is(files: Seq<(Seq<char>, Seq<u8>)>, name: Seq<char>, i: int)
    requires
        0 <= i <= files.len(),
        i < files.len() ==> files[i].0 == name,
        forall|j: int| 0 <= j < i ==> (#[trigger] files[j]).0 != name,
    ensures
        position(files, name) == i,
{
    lemma_position(files, name);
    let p = position(files, name);
    if p < i {
        assert(files[p].0 != name);
    }
}

impl View for SdeZipArchive {
    type V = Seq<(Seq<char>, Seq<u8>)>;

    closed spec fn view(&self) -> Seq<(Seq<char>, Seq<u8>)> {
        file_models(self.files@)
    }
}

impl SdeZipArchive {
    /// An archive of the given files.
    pub fn new(files: Vec<SdeFile>) -> (zip: Self)
        ensures
            zip@ == file_models(files@),
    {
        SdeZipArchive { files }
    }

    /// Unpacks an archive: walks it from its start and inflates every
    /// local file.
    pub fn open(archive: &[u8]) -> (r: Result<Self, EveSdeParserError>)
        ensures
            match unpacked(archive@, 0) {
                Err(e) => r matches Err(x) && x == e,
                Ok(files) => r matches Ok(zip) && zip@ == files,
            },
    {
        let mut files: Vec<SdeFile> = Vec::new();
        let mut at: usize = 0;
        assert(file_models(files@) =~= Seq::empty());
        loop
            invariant
                at <= archive@.len(),
                unpacked(archive@, 0) == unpacked_after(
                    file_models(files@),
                    unpacked(archive@, at as int),
                ),
            decreases archive@.len() - at,
        {
            let file = match EveSdeParser::local_file(archive, at) {
                Err(e) => {
                    return Err(e);
                },
                Ok(None) => {
                    assert(file_models(files@) + Seq::empty() =~= file_models(files@));
                    return Ok(SdeZipArchive { files });
                },
                Ok(Some(file)) => file,
            };
            let data = match EveSdeParser::inflate(file.data.as_slice()) {
                Some(doc) => doc,
                None => {
                    return Err(EveSdeParserError::InvalidData);
                },
            };
            let ghost done = file_models(files@);
            let ghost entry = (file.name@, data@);
            proof {
                encode_utf8_decode_utf8(file.name@);
                if let Ok(rest) = unpacked(archive@, file.next as int) {
                    assert(done + (seq![entry] + rest) =~= done.push(entry) + rest);
                }
            }
            files.push(SdeFile { name: file.name, data });
            assert(file_models(files@) =~= done.push(entry));
            at = file.next;
        }
    }

    /// The number of files.
    pub fn len(&self) -> (n: usize)
        ensures
            n == self@.len(),
    {
        self.files.len()
    }

    /// The document of the first file with exactly the given name, if
    /// there is one.
    pub fn by_name(&self, name: &str) -> (r: Option<&Vec<u8>>)
        ensures
            match found(self@, name@) {
                Some(doc) => r matches Some(data) && data@ == doc,
                None => r is None,
            },
    {
        let wanted: String = name.to_owned();
        let mut i: usize = 0;
        while i < self.files.len()
            invariant
                i <= self.files@.len(),
                wanted@ == name@,
                forall|j: int| 0 <= j < i ==> (#[trigger] self@[j]).0 != name@,
            decreases self.files@.len() - i,
        {
            if self.files[i].name == wanted {
                proof {
                    lemma_position_is(self@, name@, i as int);
                }
                return Some(&self.files[i].data);
            }
            i += 1;
        }
        proof {
            lemma_position_is(self@, name@, i as int);
        }
        None
    }
}

} // verus!
