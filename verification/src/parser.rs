//! The walk over the static data export: a zip archive read front to
//! back, each local file inflated, and the files that were asked for
//! handed out.
//!
//! Only what the export uses is understood: local file entries that
//! follow one another from the start of the archive, compressed with
//! deflate, whose file name is directly followed by the data. The walk
//! ends at the first four bytes that do not open a local file entry, which
//! in a zip archive is where the central directory begins.

use crate::codec::string_from_utf8;
use vstd::prelude::*;
use vstd::slice::*;
use vstd::utf8::*;

verus! {

/// Why the walk over an archive failed.
#[derive(Clone, Copy, Debug, PartialEq, Eq, Structural)]
pub enum EveSdeParserError {
    /// A local file is stored by a method other than deflate.
    InvalidCompression,
    /// The archive ends inside an entry, or before the bytes that end the
    /// walk.
    UnexpectedEof,
    /// A file name is not UTF-8.
    InvalidFileName,
    /// The data of a local file does not inflate.
    InvalidData,
    /// The export lacks a file that a service is made from.
    FileNotFound,
}

/// A file of the export that can be asked for.
#[derive(Clone, Copy, Debug, PartialEq, Eq, Structural)]
pub enum ParseRequest {
    Blueprints,
    Constellation,
    Region,
    Solarsystem,
    TypeIds,
    TypeMaterials,
}

/// A file of the export that was asked for and found: which request it
/// answers, and the document as it came out of the archive.
#[derive(Debug)]
pub enum ParseResult {
    Blueprints(Vec<u8>),
    Constellation(Vec<u8>),
    Region(Vec<u8>),
    Solarsystem(Vec<u8>),
    TypeIds(Vec<u8>),
    TypeMaterials(Vec<u8>),
}

impl ParseRequest {
    /// What the name of a file must contain to answer the request.
    pub open spec fn path_of(self) -> Seq<char> {
        match self {
            ParseRequest::Blueprints => "sde/fsd/blueprints.yaml"@,
            ParseRequest::Constellation => "constellation.staticdata"@,
            ParseRequest::Region => "region.staticdata"@,
            ParseRequest::Solarsystem => "solarsystem.staticdata"@,
            ParseRequest::TypeIds => "sde/fsd/typeIDs.yaml"@,
            ParseRequest::TypeMaterials => "sde/fsd/typeMaterials.yaml"@,
        }
    }

    /// What the name of a file must contain to answer the request.
    pub fn path(&self) -> (p: String)
        ensures
            p@ == self.path_of(),
    {
        match self {
            Self::Blueprints => "sde/fsd/blueprints.yaml".to_owned(),
            Self::Constellation => "constellation.staticdata".to_owned(),
            Self::Region => "region.staticdata".to_owned(),
            Self::Solarsystem => "solarsystem.staticdata".to_owned(),
            Self::TypeIds => "sde/fsd/typeIDs.yaml".to_owned(),
            Self::TypeMaterials => "sde/fsd/typeMaterials.yaml".to_owned(),
        }
    }

    /// The result that answers the request with the document `doc`.
    pub fn answer(&self, doc: Vec<u8>) -> (r: ParseResult)
        ensures
            r.model() == (*self, doc@),
    {
        match self {
            Self::Blueprints => ParseResult::Blueprints(doc),
            Self::Constellation => ParseResult::Constellation(doc),
            Self::Region => ParseResult::Region(doc),
            Self::Solarsystem => ParseResult::Solarsystem(doc),
            Self::TypeIds => ParseResult::TypeIds(doc),
            Self::TypeMaterials => ParseResult::TypeMaterials(doc),
        }
    }
}

impl ParseResult {
    /// The request the result answers, and its document.
    pub open spec fn model(&self) -> (ParseRequest, Seq<u8>) {
        match self {
            ParseResult::Blueprints(doc) => (ParseRequest::Blueprints, doc@),
            ParseResult::Constellation(doc) => (ParseRequest::Constellation, doc@),
            ParseResult::Region(doc) => (ParseRequest::Region, doc@),
            ParseResult::Solarsystem(doc) => (ParseRequest::Solarsystem, doc@),
            ParseResult::TypeIds(doc) => (ParseRequest::TypeIds, doc@),
            ParseResult::TypeMaterials(doc) => (ParseRequest::TypeMaterials, doc@),
        }
    }

    /// The request the result answers.
    pub fn request(&self) -> (r: ParseRequest)
        ensures
            r == self.model().0,
    {
        match self {
            ParseResult::Blueprints(_) => ParseRequest::Blueprints,
            ParseResult::Constellation(_) => ParseRequest::Constellation,
            ParseResult::Region(_) => ParseRequest::Region,
            ParseResult::Solarsystem(_) => ParseRequest::Solarsystem,
            ParseResult::TypeIds(_) => ParseRequest::TypeIds,
            ParseResult::TypeMaterials(_) => ParseRequest::TypeMaterials,
        }
    }

    /// The document.
    pub fn document(&self) -> (doc: &Vec<u8>)
        ensures
            doc@ == self.model().1,
    {
        match self {
            ParseResult::Blueprints(doc) => doc,
            ParseResult::Constellation(doc) => doc,
            ParseResult::Region(doc) => doc,
            ParseResult::Solarsystem(doc) => doc,
            ParseResult::TypeIds(doc) => doc,
            ParseResult::TypeMaterials(doc) => doc,
        }
    }
}

/// The results at the positions of `results`, as contracts see them.
pub open spec fn models(results: Seq<ParseResult>) -> Seq<(ParseRequest, Seq<u8>)> {
    Seq::new(results.len(), |i: int| results[i].model())
}

/// Whether `needle` occurs in `hay` as a run of consecutive bytes.
pub open spec fn occurs(needle: Seq<u8>, hay: Seq<u8>) -> bool {
    exists|i: int| occurs_at(needle, hay, i)
}

/// Whether `needle` occurs in `hay` starting at `i`.
pub open spec fn occurs_at(needle: Seq<u8>, hay: Seq<u8>, i: int) -> bool {
    0 <= i && i + needle.len() <= hay.len() && hay.subrange(i, i + needle.len()) == needle
}

/// Whether `needle` occurs in `hay` as a run of consecutive bytes.
pub fn contains_bytes(hay: &[u8], needle: &[u8]) -> (found: bool)
    ensures
        found == occurs(needle@, hay@),
{
    if needle.len() > hay.len() {
        return false;
    }
    let last: usize = hay.len() - needle.len();
    let mut i: usize = 0;
    while i <= last
        invariant
            last == hay@.len() - needle@.len(),
            hay@.len() <= usize::MAX,
            i <= last + 1,
            forall|j: int| 0 <= j < i ==> !occurs_at(needle@, hay@, j),
        decreases last + 1 - i,
    {
        let mut k: usize = 0;
        while k < needle.len() && hay[i + k] == needle[k]
            invariant
                i <= last == hay@.len() - needle@.len(),
                hay@.len() <= usize::MAX,
                k <= needle@.len(),
                forall|j: int| 0 <= j < k ==> hay@[i + j] == needle@[j],
            decreases needle@.len() - k,
        {
            k += 1;
        }
        if k == needle.len() {
            assert(hay@.subrange(i as int, i + needle@.len()) =~= needle@);
            assert(occurs_at(needle@, hay@, i as int));
            return true;
        }
        assert(!occurs_at(needle@, hay@, i as int)) by {
            if occurs_at(needle@, hay@, i as int) {
                assert(hay@.subrange(i as int, i + needle@.len())[k as int] == needle@[k as int]);
            }
        }
        i += 1;
    }
    false
}

/// The results that one file gives: for each request, in order, whose
/// path occurs in the file's name, that request with the file's document.
pub open spec fn selected(name: Seq<u8>, doc: Seq<u8>, requests: Seq<ParseRequest>) -> Seq<
    (ParseRequest, Seq<u8>),
>
    decreases requests.len(),
{
    if requests.len() == 0 {
        Seq::empty()
    } else if occurs(encode_utf8(requests.last().path_of()), name) {
        selected(name, doc, requests.drop_last()).push((requests.last(), doc))
    } else {
        selected(name, doc, requests.drop_last())
    }
}

/// The little-endian 16-bit number at `at`.
pub open spec fn le_u16(b: Seq<u8>, at: int) -> int {
    b[at] + b[at + 1] * 0x100
}

/// The little-endian 32-bit number at `at`.
pub open spec fn le_u32(b: Seq<u8>, at: int) -> int {
    b[at] + b[at + 1] * 0x100 + b[at + 2] * 0x1_0000 + b[at + 3] * 0x100_0000
}

/// Whether the four bytes at `at` open a local file entry.
pub open spec fn opens_entry(b: Seq<u8>, at: int) -> bool {
    b[at] == 0x50 && b[at + 1] == 0x4b && b[at + 2] == 0x03 && b[at + 3] == 0x04
}

/// What stands at one position of the walk.
pub enum Step {
    /// A local file: the bytes of its name, its data as stored, and where
    /// the next entry begins.
    Entry { name: Seq<u8>, data: Seq<u8>, next: int },
    /// Four bytes that do not open a local file entry: the walk is over.
    End,
    /// Nothing that can be read.
    Fail(EveSdeParserError),
}

/// What stands at position `at` of the archive `b`.
///
/// An entry is thirty bytes of header, the file name, and the data. The
/// header holds, at offset 8, the method, which must be deflate; at 18 the
/// length of the data; at 26 the length of the name.
pub open spec fn step_at(b: Seq<u8>, at: int) -> Step {
    if b.len() - at < 4 {
        Step::Fail(EveSdeParserError::UnexpectedEof)
    } else if !opens_entry(b, at) {
        Step::End
    } else if b.len() - at < 10 {
        Step::Fail(EveSdeParserError::UnexpectedEof)
    } else if !(b[at + 8] == 8 && b[at + 9] == 0) {
        Step::Fail(EveSdeParserError::InvalidCompression)
    } else if b.len() - at < 30 {
        Step::Fail(EveSdeParserError::UnexpectedEof)
    } else {
        let name_at = at + 30;
        let data_at = name_at + le_u16(b, at + 26);
        let next = data_at + le_u32(b, at + 18);
        if b.len() < data_at {
            Step::Fail(EveSdeParserError::UnexpectedEof)
        } else if !valid_utf8(b.subrange(name_at, data_at)) {
            Step::Fail(EveSdeParserError::InvalidFileName)
        } else if b.len() < next {
            Step::Fail(EveSdeParserError::UnexpectedEof)
        } else {
            Step::Entry { name: b.subrange(name_at, data_at), data: b.subrange(data_at, next), next }
        }
    }
}

/// One local file of an archive.
#[derive(Debug)]
pub struct LocalFile {
    /// The file's name.
    pub name: String,
    /// The file's data as stored: deflated.
    pub data: Vec<u8>,
    /// Where the next entry begins.
    pub next: usize,
}

/// What inflating `data` gives: the document, or nothing where the data
/// is not a complete deflate stream.
pub uninterp spec fn inflated(data: Seq<u8>) -> Option<Seq<u8>>;

/// `miniz_oxide::inflate::TINFLStatus`, the decompressor's account of why
/// it stopped. It is carried, never looked into.
#[verifier::external_type_specification]
#[verifier::external_body]
pub struct ExInflateStatus(miniz_oxide::inflate::TINFLStatus);

/// Inflates by `miniz_oxide::inflate::decompress_to_vec`. The outcome
/// depends on the data alone: the document where the stream is complete
/// and sound, the decompressor's status where it is not.
#[verifier::external_body]
fn inflate(data: &[u8]) -> (r: Result<Vec<u8>, miniz_oxide::inflate::TINFLStatus>)
    ensures
        r matches Ok(doc) ==> inflated(data@) == Some(doc@),
        r is Err ==> inflated(data@) is None,
{
    miniz_oxide::inflate::decompress_to_vec(data)
}

/// What the walk from position `at` gives: the results of every file from
/// there on, file by file, or the first failure.
pub open spec fn walked(b: Seq<u8>, at: int, requests: Seq<ParseRequest>) -> Result<
    Seq<(ParseRequest, Seq<u8>)>,
    EveSdeParserError,
>
    decreases b.len() - at,
{
    match step_at(b, at) {
        Step::Fail(e) => Err(e),
        Step::End => Ok(Seq::empty()),
        Step::Entry { name, data, next } => match inflated(data) {
            None => Err(EveSdeParserError::InvalidData),
            Some(doc) => match walked(b, next, requests) {
                Err(e) => Err(e),
                Ok(rest) => Ok(selected(name, doc, requests) + rest),
            },
        },
    }
}

/// What a walk in progress amounts to: the results so far, followed by
/// the outcome of the rest.
pub open spec fn walked_after(
    done: Seq<(ParseRequest, Seq<u8>)>,
    rest: Result<Seq<(ParseRequest, Seq<u8>)>, EveSdeParserError>,
) -> Result<Seq<(ParseRequest, Seq<u8>)>, EveSdeParserError> {
    match rest {
        Err(e) => Err(e),
        Ok(more) => Ok(done + more),
    }
}

/// The reader of the static data export.
#[derive(Debug)]
pub struct EveSdeParser;

impl EveSdeParser {
    /// Reads what stands at position `at` of `archive`: a local file,
    /// the end of the walk, or a failure.
    pub fn local_file(archive: &[u8], at: usize) -> (r: Result<
        Option<LocalFile>,
        EveSdeParserError,
    >)
        requires
            at <= archive@.len(),
        ensures
            match step_at(archive@, at as int) {
                Step::Fail(e) => r matches Err(x) && x == e,
                Step::End => r matches Ok(None),
                Step::Entry { name, data, next } => {
                    &&& r matches Ok(Some(file))
                    &&& encode_utf8(file.name@) == name
                    &&& file.data@ == data
                    &&& file.next == next
                    &&& at + 30 <= file.next <= archive@.len()
                },
            },
    {
        let left: usize = archive.len() - at;
        if left < 4 {
            return Err(EveSdeParserError::UnexpectedEof);
        }
        if !(archive[at] == 0x50 && archive[at + 1] == 0x4b && archive[at + 2] == 0x03
            && archive[at + 3] == 0x04) {
            return Ok(None);
        }
        if left < 10 {
            return Err(EveSdeParserError::UnexpectedEof);
        }
        if !(archive[at + 8] == 8 && archive[at + 9] == 0) {
            return Err(EveSdeParserError::InvalidCompression);
        }
        if left < 30 {
            return Err(EveSdeParserError::UnexpectedEof);
        }
        let data_len: u32 = (archive[at + 18] as u32) + (archive[at + 19] as u32) * 0x100
            + (archive[at + 20] as u32) * 0x1_0000 + (archive[at + 21] as u32) * 0x100_0000;
        let name_len: u16 = (archive[at + 26] as u16) + (archive[at + 27] as u16) * 0x100;
        let name_at: usize = at + 30;
        if (name_len as usize) > archive.len() - name_at {
            return Err(EveSdeParserError::UnexpectedEof);
        }
        let data_at: usize = name_at + name_len as usize;
        let name_bytes = slice_to_vec(slice_subrange(archive, name_at, data_at));
        let name = match string_from_utf8(name_bytes) {
            Some(name) => name,
            None => {
                return Err(EveSdeParserError::InvalidFileName);
            },
        };
        if (data_len as usize) > archive.len() - data_at {
            return Err(EveSdeParserError::UnexpectedEof);
        }
        let next: usize = data_at + data_len as usize;
        let data = slice_to_vec(slice_subrange(archive, data_at, next));
        Ok(Some(LocalFile { name, data, next }))
    }

    /// Inflates the data of a local file. There is no document where the
    /// data is not a complete deflate stream.
    pub fn inflate(data: &[u8]) -> (doc: Option<Vec<u8>>)
        ensures
            match inflated(data@) {
                Some(d) => doc matches Some(v) && v@ == d,
                None => doc is None,
            },
    {
        match inflate(data) {
            Ok(doc) => Some(doc),
            Err(_) => None,
        }
    }

    /// Appends to `results` what one file gives: for each request, in
    /// order, whose path occurs in the file's name, that request with a
    /// copy of the file's document.
    pub fn select(
        name: &str,
        doc: &Vec<u8>,
        requests: &Vec<ParseRequest>,
        results: &mut Vec<ParseResult>,
    )
        ensures
            models(final(results)@) == models(old(results)@) + selected(
                encode_utf8(name@),
                doc@,
                requests@,
            ),
    {
        let ghost before = models(results@);
        let ghost name_bytes = encode_utf8(name@);
        let mut i: usize = 0;
        assert(models(results@) =~= before + selected(name_bytes, doc@, requests@.take(0)));
        while i < requests.len()
            invariant
                i <= requests@.len(),
                name_bytes == encode_utf8(name@),
                models(results@) == before + selected(name_bytes, doc@, requests@.take(i as int)),
            decreases requests@.len() - i,
        {
            let request = &requests[i];
            let ghost done = models(results@);
            assert(requests@.take(i + 1).drop_last() =~= requests@.take(i as int));
            assert(requests@.take(i + 1).last() == *request);
            let path = request.path();
            if contains_bytes(name.as_bytes(), path.as_str().as_bytes()) {
                let copy = slice_to_vec(doc.as_slice());
                results.push(request.answer(copy));
                assert(models(results@) =~= done.push((*request, doc@)));
            }
            i += 1;
        }
        assert(requests@.take(i as int) =~= requests@);
    }

    /// Walks the archive from its start and hands out, file by file, the
    /// documents that were asked for.
    pub fn parse(archive: &[u8], requests: Vec<ParseRequest>) -> (r: Result<
        Vec<ParseResult>,
        EveSdeParserError,
    >)
        ensures
            match walked(archive@, 0, requests@) {
                Err(e) => r matches Err(x) && x == e,
                Ok(found) => r matches Ok(results) && models(results@) == found,
            },
    {
        let mut results: Vec<ParseResult> = Vec::new();
        let mut at: usize = 0;
        assert(models(results@) =~= Seq::empty());
        loop
            invariant
                at <= archive@.len(),
                walked(archive@, 0, requests@) == walked_after(
                    models(results@),
                    walked(archive@, at as int, requests@),
                ),
            decreases archive@.len() - at,
        {
            let file = match Self::local_file(archive, at) {
                Err(e) => {
                    return Err(e);
                },
                Ok(None) => {
                    assert(models(results@) + Seq::empty() =~= models(results@));
                    return Ok(results);
                },
                Ok(Some(file)) => file,
            };
            let doc = match Self::inflate(file.data.as_slice()) {
                Some(doc) => doc,
                None => {
                    return Err(EveSdeParserError::InvalidData);
                },
            };
            let ghost done = models(results@);
            Self::select(file.name.as_str(), &doc, &requests, &mut results);
            proof {
                let here = selected(encode_utf8(file.name@), doc@, requests@);
                if let Ok(rest) = walked(archive@, file.next as int, requests@) {
                    assert(done + (here + rest) =~= (done + here) + rest);
                }
            }
            at = file.next;
        }
    }
}

} // verus!
