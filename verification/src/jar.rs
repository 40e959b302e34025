//! Java archives: what goes into the archive of a program, and which
//! classes an archive holds.
use vstd::prelude::*;
use vstd::string::*;
use vstd::utf8::encode_utf8;
use crate::errors::{ErrorKind, KujavError};
use crate::text::{chars_of, joined, string_of};
use crate::toml_config::texts_model;

verus! {

/// An archive that is being written in memory: a `zip::ZipWriter` on a
/// `std::io::Cursor`. What it holds is known only through
/// `archive_entries`, and whether it can be written to only through
/// `archive_ready`.
#[verifier::external_body]
pub struct ArchiveWriter {
    inner: zip::ZipWriter<std::io::Cursor<Vec<u8>>>,
}

/// `zip::ZipArchive`, an archive that was opened for reading.
#[verifier::external_type_specification]
#[verifier::external_body]
#[verifier::reject_recursive_types(R)]
pub struct ExZipArchive<R>(zip::ZipArchive<R>);

/// `std::io::Cursor`, a position in a buffer that is read or written.
#[verifier::external_type_specification]
#[verifier::external_body]
#[verifier::reject_recursive_types(T)]
pub struct ExCursor<T>(std::io::Cursor<T>);

/// `zip::result::ZipError`, the error of the archive library.
#[verifier::external_type_specification]
#[verifier::external_body]
pub struct ExZipError(zip::result::ZipError);

/// `std::io::Error`, the error of input and output.
#[verifier::external_type_specification]
#[verifier::external_body]
pub struct ExIoError(std::io::Error);

/// The most bytes that an entry of an archive takes.
pub const MAX_ENTRY_BYTES: u64 = 0xFFFF_FFFF;

/// The entries of an archive that is being written: the name of each, and
/// the bytes written to it so far.
pub uninterp spec fn archive_entries(w: ArchiveWriter) -> Seq<(Seq<char>, Seq<u8>)>;

/// Whether an archive that is being written is in order: it was not
/// finished, no call on it has failed, and it is inside its last entry
/// where it has one.
pub uninterp spec fn archive_ready(w: ArchiveWriter) -> bool;

/// Whether an archive in order that holds the given entries lets an entry
/// of the given name be started, with the default options and the default
/// date.
pub uninterp spec fn entry_starts(entries: Seq<(Seq<char>, Seq<u8>)>, name: Seq<char>) -> bool;

/// Whether an archive in order that holds the given entries takes the given
/// bytes behind those of its last entry.
pub uninterp spec fn entry_takes(entries: Seq<(Seq<char>, Seq<u8>)>, data: Seq<u8>) -> bool;

/// The bytes of the finished archive that holds the given entries, each
/// written with the default options and the default date; nothing where an
/// archive with these entries cannot be finished.
pub uninterp spec fn archive_bytes(entries: Seq<(Seq<char>, Seq<u8>)>) -> Option<Seq<u8>>;

/// What an archive that was opened lists: for each entry its name, where
/// the header in front of the entry's data can be read, and nothing where
/// it cannot.
pub uninterp spec fn archive_listing(a: zip::ZipArchive<std::io::Cursor<Vec<u8>>>) -> Seq<
    Option<Seq<char>>,
>;

/// What the archive that the bytes make up lists, if they make up one.
pub uninterp spec fn listing_of(bytes: Seq<u8>) -> Option<Seq<Option<Seq<char>>>>;

/// Starts an archive in memory.
///
/// Trusted: wraps `zip::ZipWriter::new` on an empty `std::io::Cursor`. The
/// writer it makes is in order and holds no entries.
#[verifier::external_body]
fn new_archive() -> (w: ArchiveWriter)
    ensures
        archive_ready(w),
        archive_entries(w) == Seq::<(Seq<char>, Seq<u8>)>::empty(),
{
    ArchiveWriter { inner: zip::ZipWriter::new(std::io::Cursor::new(Vec::new())) }
}

/// Starts an entry with the given name.
///
/// Trusted: wraps `zip::ZipWriter::start_file` with the default options
/// and the date that `zip::DateTime` takes by default, so that nothing in
/// the archive depends on the clock. The call first closes the entry that
/// was written last, which the archive library refuses for some entries;
/// whether the call succeeds is therefore a matter of the entries and is
/// only named here. Where it succeeds, the archive is in order and has one
/// more entry, which has the given name and no bytes yet. Nothing is
/// claimed of a writer that failed.
#[verifier::external_body]
fn start_entry(w: &mut ArchiveWriter, name: &str) -> (r: Result<(), zip::result::ZipError>)
    requires
        archive_ready(*old(w)),
    ensures
        r is Ok <==> entry_starts(archive_entries(*old(w)), name@),
        r is Ok ==> archive_ready(*final(w)) && archive_entries(*final(w)) == archive_entries(
            *old(w),
        ).push((name@, Seq::<u8>::empty())),
{
    let options = zip::write::FileOptions::default();
    w.inner.start_file(name, options.last_modified_time(zip::DateTime::default()))
}

/// Writes bytes to the entry that was started last.
///
/// Trusted: wraps `std::io::Write::write_all` on a `zip::ZipWriter`, which
/// hands the bytes on to the writer until none is left. Whether that
/// succeeds is a matter of the entries and the bytes and is only named
/// here. Where it succeeds the archive is in order; with no bytes to write
/// the writer is not called and the entries are what they were; with bytes
/// to write an entry has been started, that entry holds the given bytes
/// behind those it held, and they are no more than `MAX_ENTRY_BYTES`, above
/// which the writer refuses an entry that was started with the default
/// options. Nothing is claimed of a writer that failed.
#[verifier::external_body]
fn write_entry(w: &mut ArchiveWriter, data: &[u8]) -> (r: Result<(), std::io::Error>)
    requires
        archive_ready(*old(w)),
    ensures
        r is Ok <==> entry_takes(archive_entries(*old(w)), data@),
        r is Ok ==> archive_ready(*final(w)),
        r is Ok && data@.len() == 0 ==> archive_entries(*final(w)) == archive_entries(*old(w)),
        r is Ok && data@.len() > 0 ==> archive_entries(*old(w)).len() > 0 && archive_entries(
            *old(w),
        ).last().1.len() + data@.len() <= MAX_ENTRY_BYTES && archive_entries(*final(w))
            == archive_entries(*old(w)).update(
            archive_entries(*old(w)).len() - 1,
            (archive_entries(*old(w)).last().0, archive_entries(*old(w)).last().1 + data@),
        ),
{
    std::io::Write::write_all(&mut w.inner, data)
}

/// Finishes the archive and hands out its bytes.
///
/// Trusted: wraps `zip::ZipWriter::finish`. The call closes the entry that
/// was written last, which the archive library refuses for some entries,
/// and then writes the list of the entries. Where it succeeds, the bytes
/// are those of the archive with the entries that were written; where it
/// fails, an archive with these entries cannot be finished.
#[verifier::external_body]
fn finish_archive(w: &mut ArchiveWriter) -> (r: Result<Vec<u8>, zip::result::ZipError>)
    requires
        archive_ready(*old(w)),
    ensures
        match r {
            Ok(bytes) => archive_bytes(archive_entries(*old(w))) == Some(bytes@),
            Err(_) => archive_bytes(archive_entries(*old(w))) is None,
        },
{
    match w.inner.finish() {
        Ok(cursor) => Ok(cursor.into_inner()),
        Err(e) => Err(e),
    }
}

/// The message of an error of the archive library.
///
/// Trusted: wraps `ToString::to_string` on `zip::result::ZipError`. Nothing
/// is claimed of the message.
#[verifier::external_body]
fn zip_error_text(e: &zip::result::ZipError) -> String {
    e.to_string()
}

/// The message of an error of input or output.
///
/// Trusted: wraps `ToString::to_string` on `std::io::Error`. Nothing is
/// claimed of the message.
#[verifier::external_body]
fn io_error_text(e: &std::io::Error) -> String {
    e.to_string()
}

/// Opens an archive that is held in memory.
///
/// Trusted: wraps `zip::ZipArchive::new` on a `std::io::Cursor`. It
/// succeeds where the bytes make up an archive, and what the archive then
/// lists is what the bytes list.
#[verifier::external_body]
fn open_archive(bytes: Vec<u8>) -> (r: Result<
    zip::ZipArchive<std::io::Cursor<Vec<u8>>>,
    zip::result::ZipError,
>)
    ensures
        match r {
            Ok(a) => listing_of(bytes@) == Some(archive_listing(a)),
            Err(_) => listing_of(bytes@) is None,
        },
{
    zip::ZipArchive::new(std::io::Cursor::new(bytes))
}

/// The number of entries of an archive.
///
/// Trusted: wraps `zip::ZipArchive::len`.
#[verifier::external_body]
fn archive_len(a: &zip::ZipArchive<std::io::Cursor<Vec<u8>>>) -> (n: usize)
    ensures
        n == archive_listing(*a).len(),
{
    a.len()
}

/// The name of the entry at `index`, where there is such an entry and the
/// header in front of its data can be read.
///
/// Trusted: wraps `zip::ZipArchive::by_index_raw` and
/// `zip::read::ZipFile::name`. The call looks the entry up in the list that
/// was made when the archive was opened, and reads the entry's header from
/// the archive's bytes at the place that the list gives. Neither changes by
/// the call, so the archive lists afterwards what it listed before, and
/// what comes back is what it lists at `index`.
#[verifier::external_body]
fn entry_name(a: &mut zip::ZipArchive<std::io::Cursor<Vec<u8>>>, index: usize) -> (r: Option<String>)
    ensures
        archive_listing(*final(a)) == archive_listing(*old(a)),
        match r {
            Some(name) => index < archive_listing(*old(a)).len() && archive_listing(*old(a))[index as int]
                == Some(name@),
            None => index >= archive_listing(*old(a)).len() || archive_listing(
                *old(a),
            )[index as int] is None,
        },
{
    match a.by_index_raw(index) {
        Ok(file) => Some(file.name().to_string()),
        Err(_) => None,
    }
}

/// The manifest of the archive of a program whose entry point is in the
/// class `class`.
pub open spec fn manifest_of(class: Seq<char>) -> Seq<char> {
    "Manifest-Version: 1.0\nMain-Class: "@ + class + "\n\n"@
}

/// The entries of the archive of a program: the manifest, then the class.
pub open spec fn jar_entries(class: Seq<char>, class_bytes: Seq<u8>) -> Seq<(Seq<char>, Seq<u8>)> {
    seq![
        ("META-INF/MANIFEST.MF"@, encode_utf8(manifest_of(class))),
        (class + ".class"@, class_bytes),
    ]
}

/// The manifest of the archive of a program whose entry point is in the
/// class `class_name`.
pub fn manifest_text(class_name: &str) -> (text: String)
    ensures
        text@ == manifest_of(class_name@),
{
    joined("Manifest-Version: 1.0\nMain-Class: ", class_name, "\n\n")
}

/// The name of the entry that holds the class `class_name`.
pub fn class_entry_name(class_name: &str) -> (name: String)
    ensures
        name@ == class_name@ + ".class"@,
{
    let mut name = String::from_str(class_name);
    name.append(".class");
    name
}

/// The error for an archive that the archive library could not write.
pub fn archive_failure(text: String) -> (e: KujavError)
    ensures
        e@.kind == ErrorKind::Bytecode,
        e@.message == text@,
{
    KujavError::Bytecode(text)
}

/// The error for bytes that could not be written.
pub fn write_failure(text: String) -> (e: KujavError)
    ensures
        e@.kind == ErrorKind::Io,
        e@.message == text@,
{
    KujavError::Io(text)
}

/// What keeps the archive of a program from being written, if anything
/// does: the kind of the error of the first step that the archive library
/// refuses. It is `Io` where the bytes of an entry are not taken, and
/// `Bytecode` where an entry cannot be started or the archive cannot be
/// finished.
pub open spec fn jar_refusal(class: Seq<char>, class_bytes: Seq<u8>) -> Option<ErrorKind> {
    let manifest = "META-INF/MANIFEST.MF"@;
    let text = encode_utf8(manifest_of(class));
    let name = class + ".class"@;
    if !entry_starts(Seq::empty(), manifest) {
        Some(ErrorKind::Bytecode)
    } else if !entry_takes(seq![(manifest, Seq::empty())], text) {
        Some(ErrorKind::Io)
    } else if !entry_starts(seq![(manifest, text)], name) {
        Some(ErrorKind::Bytecode)
    } else if !entry_takes(seq![(manifest, text), (name, Seq::empty())], class_bytes) {
        Some(ErrorKind::Io)
    } else if archive_bytes(jar_entries(class, class_bytes)) is None {
        Some(ErrorKind::Bytecode)
    } else {
        None
    }
}

/// The bytes of the archive of a program: a manifest that names the class
/// of the entry point, and the class file itself.
///
/// The archive is written exactly where the archive library refuses none
/// of the steps, and the error is that of the first step that it refuses.
/// It refuses a class of more than `MAX_ENTRY_BYTES` bytes.
pub fn jar_bytes(class_name: &str, class_bytes: &[u8]) -> (r: Result<Vec<u8>, KujavError>)
    ensures
        class_bytes@.len() > MAX_ENTRY_BYTES ==> r is Err,
        match r {
            Ok(bytes) => jar_refusal(class_name@, class_bytes@) is None && archive_bytes(
                jar_entries(class_name@, class_bytes@),
            ) == Some(bytes@),
            Err(e) => jar_refusal(class_name@, class_bytes@) == Some(e@.kind),
        },
{
    let ghost text = encode_utf8(manifest_of(class_name@));
    let mut w = new_archive();
    if let Err(e) = start_entry(&mut w, "META-INF/MANIFEST.MF") {
        return Err(archive_failure(zip_error_text(&e)));
    }
    assert(archive_entries(w) =~= seq![("META-INF/MANIFEST.MF"@, Seq::<u8>::empty())]);
    let manifest = manifest_text(class_name);
    if let Err(e) = write_entry(&mut w, manifest.as_str().as_bytes()) {
        return Err(write_failure(io_error_text(&e)));
    }
    assert(archive_entries(w) =~= seq![("META-INF/MANIFEST.MF"@, text)]) by {
        assert(Seq::<u8>::empty() + text =~= text);
    }
    let name = class_entry_name(class_name);
    if let Err(e) = start_entry(&mut w, name.as_str()) {
        return Err(archive_failure(zip_error_text(&e)));
    }
    assert(archive_entries(w) =~= seq![
        ("META-INF/MANIFEST.MF"@, text),
        (name@, Seq::<u8>::empty()),
    ]);
    if let Err(e) = write_entry(&mut w, class_bytes) {
        return Err(write_failure(io_error_text(&e)));
    }
    assert(archive_entries(w) =~= jar_entries(class_name@, class_bytes@)) by {
        assert(Seq::<u8>::empty() + class_bytes@ =~= class_bytes@);
    }
    match finish_archive(&mut w) {
        Ok(bytes) => Ok(bytes),
        Err(e) => Err(archive_failure(zip_error_text(&e))),
    }
}

/// What is known of an archive.
#[derive(Debug)]
pub struct JarMetadata {
    /// The names of the classes that the archive holds.
    pub class_names: Vec<String>,
}

/// Whether `s` ends with `suffix`.
pub open spec fn ends_with(s: Seq<char>, suffix: Seq<char>) -> bool {
    s.len() >= suffix.len() && s.skip(s.len() - suffix.len()) == suffix
}

/// `s` without the occurrences of `pattern`, which are looked for from
/// left to right.
pub open spec fn without(s: Seq<char>, pattern: Seq<char>) -> Seq<char>
    decreases s.len(),
{
    if pattern.len() == 0 || s.len() < pattern.len() {
        s
    } else if s.take(pattern.len() as int) == pattern {
        without(s.skip(pattern.len() as int), pattern)
    } else {
        seq![s[0]] + without(s.drop_first(), pattern)
    }
}

/// The names of the classes among the names of the entries of an archive:
/// an entry whose name ends with `.class` is a class, whose name is that of
/// the entry without `.class`.
pub open spec fn class_names(names: Seq<Seq<char>>) -> Seq<Seq<char>>
    decreases names.len(),
{
    if names.len() == 0 {
        Seq::empty()
    } else if ends_with(names.last(), ".class"@) {
        class_names(names.drop_last()).push(without(names.last(), ".class"@))
    } else {
        class_names(names.drop_last())
    }
}

/// Whether `pattern` stands in `s` at `at`.
fn stands_at(s: &Vec<char>, at: usize, pattern: &Vec<char>) -> (r: bool)
    requires
        at <= s.len(),
    ensures
        r == (s.len() - at >= pattern.len() && s@.subrange(at as int, at + pattern.len())
            == pattern@),
{
    if s.len() - at < pattern.len() {
        return false;
    }
    let mut k: usize = 0;
    while k < pattern.len()
        invariant
            k <= pattern.len(),
            at + pattern.len() <= s.len(),
            s@.subrange(at as int, at + k) == pattern@.take(k as int),
        decreases pattern.len() - k,
    {
        if s[at + k] != pattern[k] {
            assert(s@.subrange(at as int, at + pattern.len())[k as int] != pattern@[k as int]);
            return false;
        }
        assert(s@.subrange(at as int, at + k + 1) =~= s@.subrange(at as int, at + k).push(
            s@[at + k],
        ));
        assert(pattern@.take(k as int + 1) =~= pattern@.take(k as int).push(pattern@[k as int]));
        k += 1;
    }
    assert(pattern@.take(pattern.len() as int) =~= pattern@);
    true
}

/// `s` without the occurrences of `pattern`.
fn remove_all(s: &Vec<char>, pattern: &Vec<char>) -> (r: Vec<char>)
    requires
        pattern.len() > 0,
    ensures
        r@ == without(s@, pattern@),
{
    let mut out: Vec<char> = Vec::new();
    let mut i: usize = 0;
    assert(s@.skip(0) =~= s@);
    assert(out@ + without(s@, pattern@) =~= without(s@, pattern@));
    while i < s.len()
        invariant
            i <= s.len(),
            pattern.len() > 0,
            without(s@, pattern@) == out@ + without(s@.skip(i as int), pattern@),
        decreases s.len() - i,
    {
        let ghost rest = s@.skip(i as int);
        let ghost before = out@;
        if s.len() - i >= pattern.len() {
            assert(rest.take(pattern.len() as int) =~= s@.subrange(
                i as int,
                i + pattern.len(),
            ));
        }
        if stands_at(s, i, pattern) {
            assert(rest.skip(pattern.len() as int) =~= s@.skip(i + pattern.len()));
            i += pattern.len();
        } else {
            if s.len() - i >= pattern.len() {
                assert(rest.drop_first() =~= s@.skip(i as int + 1));
                assert(before + (seq![rest[0]] + without(rest.drop_first(), pattern@))
                    =~= before.push(s@[i as int]) + without(s@.skip(i as int + 1), pattern@));
                out.push(s[i]);
                i += 1;
            } else {
                let ghost tail = rest;
                let mut k = i;
                while k < s.len()
                    invariant
                        i <= k <= s.len(),
                        out@ == before + s@.subrange(i as int, k as int),
                    decreases s.len() - k,
                {
                    out.push(s[k]);
                    k += 1;
                }
                assert(s@.subrange(i as int, s.len() as int) =~= tail);
                assert(s@.skip(s.len() as int) =~= Seq::<char>::empty());
                assert(out@ + without(s@.skip(s.len() as int), pattern@) =~= before + tail);
                i = s.len();
            }
        }
    }
    assert(s@.skip(s.len() as int) =~= Seq::<char>::empty());
    assert(out@ + Seq::<char>::empty() =~= out@);
    out
}

/// The classes among the entries with the given names.
pub fn class_names_of(names: &Vec<String>) -> (meta: JarMetadata)
    ensures
        texts_model(meta.class_names@) == class_names(texts_model(names@)),
{
    let pattern = chars_of(".class");
    proof {
        reveal_strlit(".class");
    }
    let ghost all = texts_model(names@);
    let mut found: Vec<String> = Vec::new();
    let mut i: usize = 0;
    assert(all.take(0) =~= Seq::<Seq<char>>::empty());
    assert(texts_model(found@) =~= Seq::<Seq<char>>::empty());
    while i < names.len()
        invariant
            i <= names.len(),
            all == texts_model(names@),
            pattern@ == ".class"@,
            pattern.len() == 6,
            texts_model(found@) == class_names(all.take(i as int)),
        decreases names.len() - i,
    {
        let name = chars_of(names[i].as_str());
        proof {
            assert(all.take(i as int + 1).drop_last() =~= all.take(i as int));
            assert(all.take(i as int + 1).last() == names@[i as int]@);
        }
        if name.len() >= pattern.len() && stands_at(&name, name.len() - pattern.len(), &pattern) {
            assert(name@.skip(name.len() - 6) =~= name@.subrange(name.len() - 6, name.len() as int));
            let ghost before = texts_model(found@);
            let class = remove_all(&name, &pattern);
            let text = string_of(&class, 0, class.len());
            assert(class@.subrange(0, class.len() as int) =~= class@);
            found.push(text);
            assert(texts_model(found@) =~= before.push(class@));
        } else {
            if name.len() >= 6 {
                assert(name@.skip(name.len() - 6) =~= name@.subrange(
                    name.len() - 6,
                    name.len() as int,
                ));
            }
        }
        i += 1;
    }
    assert(all.take(names.len() as int) =~= all);
    JarMetadata { class_names: found }
}

/// The names that an archive lists, where it lists one for every entry.
pub open spec fn listed_names(listing: Seq<Option<Seq<char>>>) -> Option<Seq<Seq<char>>> {
    if forall|i: int| 0 <= i < listing.len() ==> (#[trigger] listing[i]) is Some {
        Some(Seq::new(listing.len(), |i: int| listing[i]->0))
    } else {
        None
    }
}

/// The classes that the archive made up of `bytes` holds: those among the
/// names that it lists. There are none to speak of where the bytes make up
/// no archive, and where the archive has an entry whose header cannot be
/// read.
pub open spec fn jar_classes(bytes: Seq<u8>) -> Option<Seq<Seq<char>>> {
    match listing_of(bytes) {
        None => None,
        Some(listing) => match listed_names(listing) {
            Some(names) => Some(class_names(names)),
            None => None,
        },
    }
}

/// The classes that the archive made up of `bytes` holds.
///
/// The archive library says whether the bytes make up an archive, and its
/// message is the error where they do not. An archive with an entry whose
/// header cannot be read is refused as well.
pub fn read_jar_bytes(bytes: Vec<u8>) -> (r: Result<JarMetadata, String>)
    ensures
        match r {
            Ok(meta) => jar_classes(bytes@) == Some(texts_model(meta.class_names@)),
            Err(message) => jar_classes(bytes@) is None && (listing_of(bytes@) is Some
                ==> message@ == "unreadable entry"@),
        },
{
    let mut archive = match open_archive(bytes) {
        Ok(archive) => archive,
        Err(e) => {
            return Err(zip_error_text(&e));
        },
    };
    let ghost listing = archive_listing(archive);
    let count = archive_len(&archive);
    let mut names: Vec<String> = Vec::new();
    let mut i: usize = 0;
    while i < count
        invariant
            i <= count,
            count == listing.len(),
            listing_of(bytes@) == Some(listing),
            archive_listing(archive) == listing,
            names@.len() == i,
            forall|k: int| 0 <= k < i ==> (#[trigger] listing[k]) == Some(names@[k]@),
        decreases count - i,
    {
        match entry_name(&mut archive, i) {
            Some(name) => {
                names.push(name);
            },
            None => {
                assert(listing[i as int] is None);
                return Err(String::from_str("unreadable entry"));
            },
        }
        i += 1;
    }
    assert(listed_names(listing) == Some(texts_model(names@))) by {
        assert(Seq::new(listing.len(), |i: int| listing[i]->0) =~= texts_model(names@));
    }
    Ok(class_names_of(&names))
}

} // verus!
