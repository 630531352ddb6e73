//! Reader for the FAR archive container format.
//!
//! A FAR file bundles many files into one blob: a fixed 16-byte header, a
//! manifest describing each contained file's location and name, and a
//! concatenated body of raw file bytes.  All numeric fields are unsigned
//! 32-bit little-endian.  This crate parses the header and manifest out of
//! the raw archive bytes and extracts single entries on demand; opening and
//! reading the backing file is left to the caller.

use vstd::prelude::*;
use vstd::string::StrSliceExecFns;
use vstd::utf8::{decode_utf8, valid_utf8};

verus! {

/// How an operation on an archive can fail.
#[derive(Clone, Copy, Debug, PartialEq, Eq)]
pub enum FarError {
    /// The archive bytes end before a field that had to be read (the
    /// analogue of a short read or a seek past end-of-file).
    FileError,
    /// A byte range that must hold UTF-8 (the signature or a file name)
    /// does not.
    Utf8Error,
    /// The stored signature or version is not the expected one.  Parsing
    /// is permissive and never reports this; only the strict validation
    /// of [`Far::validate`] does.
    UnsupportedFormat,
}

/// The unsigned 32-bit value that four little-endian bytes encode.
pub open spec fn u32_le(b0: u8, b1: u8, b2: u8, b3: u8) -> u32 {
    (b0 + b1 * 0x100 + b2 * 0x1_0000 + b3 * 0x100_0000) as u32
}

/// The little-endian 32-bit field stored at byte offset `pos` of `d`.
pub open spec fn u32_at(d: Seq<u8>, pos: int) -> u32
    recommends
        0 <= pos,
        pos + 4 <= d.len(),
{
    u32_le(d[pos], d[pos + 1], d[pos + 2], d[pos + 3])
}

/// Reads the little-endian 32-bit field at `pos`.
fn read_u32_le(data: &Vec<u8>, pos: usize) -> (r: u32)
    requires
        pos + 4 <= data@.len(),
    ensures
        r == u32_at(data@, pos as int),
{
    // Binding the length as a usize lets the verifier see that the
    // indices below cannot overflow.
    let _n = data.len();
    let b0 = data[pos] as u32;
    let b1 = data[pos + 1] as u32;
    let b2 = data[pos + 2] as u32;
    let b3 = data[pos + 3] as u32;
    b0 + b1 * 0x100 + b2 * 0x1_0000 + b3 * 0x100_0000
}

/// The `name_length` field of the manifest entry record starting at `pos`.
pub open spec fn entry_name_len(d: Seq<u8>, pos: int) -> u32 {
    u32_at(d, pos + 12)
}

/// The offset just past the manifest entry record starting at `pos`: the
/// record is 16 bytes of fixed fields followed by `name_length` name bytes.
pub open spec fn entry_end(d: Seq<u8>, pos: int) -> int {
    pos + 16 + entry_name_len(d, pos)
}

/// Whether a whole manifest entry record lies within the archive bytes.
pub open spec fn entry_in_bounds(d: Seq<u8>, pos: int) -> bool {
    &&& 0 <= pos
    &&& pos + 16 <= d.len()
    &&& entry_end(d, pos) <= d.len()
}

/// The raw name bytes of the manifest entry record starting at `pos`.
pub open spec fn entry_name_bytes(d: Seq<u8>, pos: int) -> Seq<u8>
    recommends
        entry_in_bounds(d, pos),
{
    d.subrange(pos + 16, entry_end(d, pos))
}

/// The start of the `i`th manifest entry record, counting from the record
/// at `start`: records are laid out back to back, each 16 bytes plus its
/// name bytes.
pub open spec fn entry_pos(d: Seq<u8>, start: int, i: int) -> int
    decreases i,
{
    if i <= 0 {
        start
    } else {
        entry_end(d, entry_pos(d, start, i - 1))
    }
}

/// How parsing one manifest entry record at `pos` ends: `None` on success,
/// otherwise the error it stops with.  A record that runs past the end of
/// the archive is a short read; a name that is not valid UTF-8 is an
/// encoding failure, found only after the fixed fields and the name bytes
/// were read in full.
pub open spec fn entry_outcome(d: Seq<u8>, pos: int) -> Option<FarError> {
    if !entry_in_bounds(d, pos) {
        Some(FarError::FileError)
    } else if !valid_utf8(entry_name_bytes(d, pos)) {
        Some(FarError::Utf8Error)
    } else {
        None
    }
}

/// How parsing `n` consecutive manifest entry records starting at `pos`
/// ends: the first failing record decides, and `None` means all parsed.
pub open spec fn entries_outcome(d: Seq<u8>, pos: int, n: nat) -> Option<FarError>
    decreases n,
{
    if n == 0 {
        None
    } else {
        match entry_outcome(d, pos) {
            Some(e) => Some(e),
            None => entries_outcome(d, entry_end(d, pos), (n - 1) as nat),
        }
    }
}

/// Where the manifest begins: the `manifest_offset` header field plus the
/// four bytes of the entry count.
pub open spec fn manifest_start(d: Seq<u8>) -> int {
    u32_at(d, 12) + 4
}

/// The entry count stored at the front of the manifest.
pub open spec fn manifest_count(d: Seq<u8>) -> u32 {
    u32_at(d, u32_at(d, 12) as int)
}

/// How parsing a whole archive ends: `None` on success, otherwise the
/// error of the first failing step, in the order the fields are read:
/// signature, version, manifest offset, entry count, then each entry.
pub open spec fn parse_outcome(d: Seq<u8>) -> Option<FarError> {
    if d.len() < 8 {
        Some(FarError::FileError)
    } else if !valid_utf8(d.subrange(0, 8)) {
        Some(FarError::Utf8Error)
    } else if d.len() < 16 {
        Some(FarError::FileError)
    } else if u32_at(d, 12) + 4 > d.len() {
        Some(FarError::FileError)
    } else {
        entries_outcome(d, manifest_start(d), manifest_count(d) as nat)
    }
}

/// A parsed FAR archive: the three header fields and the manifest.  The
/// legacy format is read permissively: a signature other than `FAR!byAZ`
/// or a version other than one is stored as found, never rejected, so
/// that the archive can still be inspected.
#[derive(Clone, Debug)]
pub struct Far {
    /// The eight-byte tag at the start of the file, expected to read
    /// `FAR!byAZ`.
    pub signature: String,
    /// The format version, expected to be one.
    pub version: u32,
    /// The byte offset from the start of the file to the manifest.
    pub manifest_offset: u32,
    /// The directory of archived files.
    pub manifest: Manifest,
}

/// The manifest: a count of archived files followed by one entry per file,
/// kept here in on-disk order.
#[derive(Clone, Debug)]
pub struct Manifest {
    /// The number of archived files.
    pub number_of_files: u32,
    /// One entry per archived file, in the order the manifest stores them.
    pub manifest_entries: Vec<ManifestEntry>,
}

/// One archived file's descriptor.
#[derive(Clone, Debug)]
pub struct ManifestEntry {
    /// The file's length in bytes.  The length is stored twice in the
    /// record; this first copy is the one extraction goes by.
    pub file_length1: u32,
    /// The second stored copy of the file's length.  Its independent
    /// meaning is unconfirmed; it is kept verbatim for inspection and is
    /// never used for extraction.
    pub file_length2: u32,
    /// The byte offset from the start of the archive to the file's bytes.
    pub file_offset: u32,
    /// The byte length of the file's name.
    pub file_name_length: u32,
    /// The file's name, exactly `file_name_length` UTF-8 bytes on disk,
    /// stored without a terminator.  It may contain path separators.
    pub file_name: String,
}

/// Whether `e` holds exactly the fields of the manifest entry record
/// stored at `pos` of the archive bytes.
pub open spec fn entry_matches(e: ManifestEntry, d: Seq<u8>, pos: int) -> bool {
    &&& e.file_length1 == u32_at(d, pos)
    &&& e.file_length2 == u32_at(d, pos + 4)
    &&& e.file_offset == u32_at(d, pos + 8)
    &&& e.file_name_length == entry_name_len(d, pos)
    &&& e.file_name@ == decode_utf8(entry_name_bytes(d, pos))
}

/// Whether `f` is exactly the archive that the bytes `d` describe: the
/// decoded header fields, the stored entry count, and one entry per
/// record, in on-disk order.
pub open spec fn far_matches(f: Far, d: Seq<u8>) -> bool {
    &&& d.len() >= 16
    &&& valid_utf8(d.subrange(0, 8))
    &&& f.signature@ == decode_utf8(d.subrange(0, 8))
    &&& f.version == u32_at(d, 8)
    &&& f.manifest_offset == u32_at(d, 12)
    &&& f.manifest_offset + 4 <= d.len()
    &&& f.manifest.number_of_files == manifest_count(d)
    &&& f.manifest.manifest_entries@.len() == f.manifest.number_of_files
    &&& forall|i: int|
        0 <= i < f.manifest.manifest_entries@.len() ==> entry_matches(
            #[trigger] f.manifest.manifest_entries@[i],
            d,
            entry_pos(d, manifest_start(d), i),
        )
}

/// Relies on `std::str::from_utf8`: it returns `Ok` exactly when the bytes
/// are valid UTF-8, and the string it returns then decodes them.
#[verifier::external_body]
fn utf8_to_string(bytes: &Vec<u8>) -> (r: Option<String>)
    ensures
        r matches Some(s) ==> valid_utf8(bytes@) && s@ == decode_utf8(bytes@),
        r is None ==> !valid_utf8(bytes@),
{
    match std::str::from_utf8(bytes.as_slice()) {
        Ok(s) => Some(s.to_string()),
        Err(_) => None,
    }
}

/// Copies `len` bytes of `data` starting at `start` into a fresh vector.
#[verifier::loop_isolation(false)]
fn copy_range(data: &Vec<u8>, start: usize, len: usize) -> (r: Vec<u8>)
    requires
        start + len <= data@.len(),
    ensures
        r@ == data@.subrange(start as int, start as int + len as int),
{
    // Binding the length as a usize lets the verifier see that the
    // indices below cannot overflow.
    let _n = data.len();
    let mut r: Vec<u8> = Vec::new();
    let mut i: usize = 0;
    while i < len
        invariant
            i <= len,
            r@ == data@.subrange(start as int, start as int + i as int),
        decreases len - i,
    {
        r.push(data[start + i]);
        i = i + 1;
        proof {
            assert(r@ =~= data@.subrange(start as int, start as int + i as int));
        }
    }
    r
}

/// Parses the manifest entry record at `pos`: four little-endian 32-bit
/// fields, then `name_length` bytes of UTF-8 name.  On success it returns
/// the entry together with the offset of the record that follows it.
fn parse_manifest_entry(data: &Vec<u8>, pos: usize) -> (r: Result<(ManifestEntry, usize), FarError>)
    requires
        pos <= data@.len(),
    ensures
        r matches Ok(p) ==> {
            &&& entry_outcome(data@, pos as int) is None
            &&& entry_matches(p.0, data@, pos as int)
            &&& p.1 == entry_end(data@, pos as int)
            &&& pos < p.1 <= data@.len()
        },
        r matches Err(e) ==> entry_outcome(data@, pos as int) == Some(e),
{
    if data.len() - pos < 16 {
        return Err(FarError::FileError);
    }
    let file_length1 = read_u32_le(data, pos);
    let file_length2 = read_u32_le(data, pos + 4);
    let file_offset = read_u32_le(data, pos + 8);
    let file_name_length = read_u32_le(data, pos + 12);
    if (file_name_length as usize) > data.len() - (pos + 16) {
        return Err(FarError::FileError);
    }
    let name_bytes = copy_range(data, pos + 16, file_name_length as usize);
    let file_name = match utf8_to_string(&name_bytes) {
        Some(s) => s,
        None => {
            return Err(FarError::Utf8Error);
        },
    };
    let next = pos + 16 + file_name_length as usize;
    Ok((
        ManifestEntry { file_length1, file_length2, file_offset, file_name_length, file_name },
        next,
    ))
}

/// Parsing a run of records steps past its first record once that record
/// parses: the rest of the run decides the outcome.
pub proof fn lemma_entries_outcome_step(d: Seq<u8>, pos: int, n: nat)
    requires
        n > 0,
        entry_outcome(d, pos) is None,
    ensures
        entries_outcome(d, pos, n) == entries_outcome(d, entry_end(d, pos), (n - 1) as nat),
{
}

/// Parses whole archive bytes: the 16-byte header, then the manifest the
/// header points at.
#[verifier::loop_isolation(false)]
fn parse_far(data: &Vec<u8>) -> (r: Result<Far, FarError>)
    ensures
        r matches Ok(f) ==> parse_outcome(data@) is None && far_matches(f, data@),
        r matches Err(e) ==> parse_outcome(data@) == Some(e),
{
    if data.len() < 8 {
        return Err(FarError::FileError);
    }
    let sig_bytes = copy_range(data, 0, 8);
    let signature = match utf8_to_string(&sig_bytes) {
        Some(s) => s,
        None => {
            return Err(FarError::Utf8Error);
        },
    };
    if data.len() < 16 {
        return Err(FarError::FileError);
    }
    let version = read_u32_le(data, 8);
    let manifest_offset = read_u32_le(data, 12);
    // The original reader seeks to the manifest offset here; a seek past
    // end-of-file only surfaces when the entry count is read next.
    if manifest_offset as usize > data.len() - 4 {
        return Err(FarError::FileError);
    }
    let number_of_files = read_u32_le(data, manifest_offset as usize);
    let mut manifest_entries: Vec<ManifestEntry> = Vec::new();
    let mut pos: usize = manifest_offset as usize + 4;
    let mut i: u32 = 0;
    while i < number_of_files
        invariant
            i <= number_of_files,
            manifest_entries@.len() == i as int,
            pos as int == entry_pos(data@, manifest_start(data@), i as int),
            pos <= data@.len(),
            forall|j: int|
                0 <= j < i as int ==> entry_matches(
                    #[trigger] manifest_entries@[j],
                    data@,
                    entry_pos(data@, manifest_start(data@), j),
                ),
            entries_outcome(data@, manifest_start(data@), number_of_files as nat)
                == entries_outcome(data@, pos as int, (number_of_files - i) as nat),
        decreases number_of_files - i,
    {
        match parse_manifest_entry(data, pos) {
            Ok(p) => {
                let (entry, next) = p;
                proof {
                    lemma_entries_outcome_step(
                        data@,
                        pos as int,
                        (number_of_files - i) as nat,
                    );
                }
                manifest_entries.push(entry);
                pos = next;
                i = i + 1;
            },
            Err(e) => {
                proof {
                    assert(entries_outcome(data@, pos as int, (number_of_files - i) as nat)
                        == Some(e));
                }
                return Err(e);
            },
        }
    }
    Ok(
        Far {
            signature,
            version,
            manifest_offset,
            manifest: Manifest { number_of_files, manifest_entries },
        },
    )
}

impl Far {
    /// Parses the given archive bytes into a new `Far`.  Success and
    /// failure follow `parse_outcome` exactly: the result is `Ok` if and
    /// only if every field of the header and of the manifest can be read
    /// and decoded, and the parsed value then reproduces every stored
    /// field, per `far_matches`.  On the first failing read or decode the
    /// corresponding error is returned and nothing else.
    pub fn new(data: &Vec<u8>) -> (r: Result<Far, FarError>)
        ensures
            r matches Ok(f) ==> parse_outcome(data@) is None && far_matches(f, data@),
            r matches Err(e) ==> parse_outcome(data@) == Some(e),
    {
        parse_far(data)
    }

    /// Strict validation, separate from the permissive parse: `Ok` if and
    /// only if the stored signature is the literal tag `FAR!byAZ` and the
    /// stored version is one; every other combination is reported as an
    /// unsupported format.
    pub fn validate(&self) -> (r: Result<(), FarError>)
        ensures
            r is Ok <==> self.signature@ == "FAR!byAZ"@ && self.version == 1,
            r matches Err(e) ==> e == FarError::UnsupportedFormat,
    {
        proof {
            reveal_strlit("FAR!byAZ");
        }
        let s = self.signature.as_str();
        if s.unicode_len() != 8 {
            return Err(FarError::UnsupportedFormat);
        }
        if s.get_char(0) != 'F' || s.get_char(1) != 'A' || s.get_char(2) != 'R' || s.get_char(3)
            != '!' || s.get_char(4) != 'b' || s.get_char(5) != 'y' || s.get_char(6) != 'A'
            || s.get_char(7) != 'Z' {
            return Err(FarError::UnsupportedFormat);
        }
        if self.version != 1 {
            return Err(FarError::UnsupportedFormat);
        }
        proof {
            assert(self.signature@ =~= "FAR!byAZ"@);
        }
        Ok(())
    }
}

/// What extracting one entry from the archive bytes yields: the
/// `file_length1` bytes at `file_offset`, or a short-read failure when
/// that range runs past the end of the archive.  `file_length2` plays no
/// part in extraction.
pub open spec fn spec_extract(e: ManifestEntry, d: Seq<u8>) -> Result<Seq<u8>, FarError> {
    if e.file_offset + e.file_length1 <= d.len() {
        Ok(d.subrange(e.file_offset as int, e.file_offset + e.file_length1))
    } else {
        Err(FarError::FileError)
    }
}

impl ManifestEntry {
    /// Extracts this entry's bytes from the archive bytes.  The result is
    /// `spec_extract(self, data@)` exactly: `Ok` holding the
    /// `file_length1` bytes at `file_offset` whenever that range lies
    /// within the archive, and the short-read error otherwise — never a
    /// truncated buffer.
    pub fn get_bytes(&self, data: &Vec<u8>) -> (r: Result<Vec<u8>, FarError>)
        ensures
            r matches Ok(b) ==> spec_extract(*self, data@) == Ok::<Seq<u8>, FarError>(b@),
            r matches Err(e) ==> spec_extract(*self, data@) == Err::<Seq<u8>, FarError>(e),
            r matches Ok(b) ==> b@.len() == self.file_length1,
    {
        if data.len() < self.file_length1 as usize
            || self.file_offset as usize > data.len() - self.file_length1 as usize {
            return Err(FarError::FileError);
        }
        Ok(copy_range(data, self.file_offset as usize, self.file_length1 as usize))
    }
}

/// Law: a successfully parsed archive holds exactly `number_of_files`
/// entries, the `i`th of which reproduces the `i`th record of the
/// manifest — the entries come back in on-disk order, none added and none
/// dropped.
pub proof fn lemma_parse_entry_count(f: Far, d: Seq<u8>)
    ensures
        far_matches(f, d) ==> {
            &&& f.manifest.manifest_entries@.len() == f.manifest.number_of_files
            &&& forall|i: int|
                0 <= i < f.manifest.manifest_entries@.len() ==> entry_matches(
                    #[trigger] f.manifest.manifest_entries@[i],
                    d,
                    entry_pos(d, manifest_start(d), i),
                )
        },
{
}

/// Law: whenever extraction succeeds it returns exactly `file_length1`
/// bytes — the length recorded in the entry round-trips through
/// extraction.
pub proof fn lemma_extract_length(e: ManifestEntry, d: Seq<u8>)
    ensures
        spec_extract(e, d) matches Ok(b) ==> b.len() == e.file_length1,
{
}

/// Law: extraction is a pure function of the entry and the archive bytes,
/// so two extractions of the same entry from the same bytes return
/// byte-identical results — there is no cached state to diverge.
pub proof fn lemma_extract_repeatable(
    e: ManifestEntry,
    d: Seq<u8>,
    r1: Result<Seq<u8>, FarError>,
    r2: Result<Seq<u8>, FarError>,
)
    requires
        r1 == spec_extract(e, d),
        r2 == spec_extract(e, d),
    ensures
        r1 == r2,
{
}

/// Law: a header whose `manifest_offset` points past the end of the file
/// makes the whole parse fail — no partially populated archive comes
/// back.  When the signature decodes, the failure is the short-read
/// error, raised at the read of the entry count.
pub proof fn lemma_manifest_offset_beyond_eof(d: Seq<u8>)
    requires
        d.len() >= 16,
        u32_at(d, 12) > d.len(),
    ensures
        parse_outcome(d) is Some,
        valid_utf8(d.subrange(0, 8)) ==> parse_outcome(d) == Some(FarError::FileError),
{
}

/// Law: a record with a `name_length` of zero parses, yields the empty
/// name, and the record that follows begins immediately after its 16
/// fixed bytes — parsing continues there.
pub proof fn lemma_zero_name_length(d: Seq<u8>, pos: int, n: nat)
    requires
        0 <= pos,
        pos + 16 <= d.len(),
        entry_name_len(d, pos) == 0,
        n > 0,
    ensures
        entry_outcome(d, pos) is None,
        decode_utf8(entry_name_bytes(d, pos)) == Seq::<char>::empty(),
        entry_end(d, pos) == pos + 16,
        entries_outcome(d, pos, n) == entries_outcome(d, pos + 16, (n - 1) as nat),
{
    assert(entry_name_bytes(d, pos) =~= Seq::<u8>::empty());
    assert(valid_utf8(entry_name_bytes(d, pos)));
    assert(decode_utf8(entry_name_bytes(d, pos)) =~= Seq::<char>::empty());
    lemma_entries_outcome_step(d, pos, n);
}

/// Law: a record whose name bytes are not valid UTF-8 stops its parse
/// with the encoding error — never a lossy or replacement decode.
pub proof fn lemma_invalid_name_utf8(d: Seq<u8>, pos: int)
    ensures
        entry_in_bounds(d, pos) && !valid_utf8(entry_name_bytes(d, pos)) ==> entry_outcome(
            d,
            pos,
        ) == Some(FarError::Utf8Error),
{
}

} // verus!
