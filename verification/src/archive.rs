//! The document container.
//!
//! A document arrives as one compressed container.  Opening validates
//! the container's directory; a member is then read whole, by exact
//! name.  A missing member fails with its own error kind — never with a
//! generic read error — so that callers can tell an absent member from a
//! damaged one.

use vstd::prelude::*;

use crate::errors::OdtError;

verus! {

/// The container reader of the outside crate, opaque to verification;
/// the library only looks members up in it.
#[verifier::external_type_specification]
#[verifier::external_body]
#[verifier::reject_recursive_types(R)]
pub struct ExZipArchive<R>(zip::ZipArchive<R>);

/// An in-memory byte stream of the standard library, opaque to
/// verification; it only carries the container's bytes.
#[verifier::external_type_specification]
#[verifier::external_body]
#[verifier::reject_recursive_types(T)]
pub struct ExCursor<T>(std::io::Cursor<T>);

/// Whether the bytes form a valid compressed container: whether parsing
/// their central directory succeeds.  A function of the bytes alone.
pub uninterp spec fn zip_wf(bytes: Seq<u8>) -> bool;

/// The member names of the container that the bytes hold, read off its
/// central directory.  Meaningful when `zip_wf` holds of the bytes.
pub uninterp spec fn zip_member_names(bytes: Seq<u8>) -> Set<Seq<char>>;

/// The decompressed content of the named member of the container that
/// the bytes hold.
pub uninterp spec fn zip_member_data(bytes: Seq<u8>, name: Seq<char>) -> Seq<u8>;

/// Whether the named member of the container that the bytes hold can be
/// read back whole: present, its compression supported, not encrypted,
/// and its data intact.
pub uninterp spec fn zip_member_readable(bytes: Seq<u8>, name: Seq<char>) -> bool;

/// The names of the members that the opened container holds.
pub uninterp spec fn archive_member_names(a: zip::ZipArchive<std::io::Cursor<Vec<u8>>>) -> Set<
    Seq<char>,
>;

/// The decompressed content of the named member of the opened container.
pub uninterp spec fn archive_member_data(
    a: zip::ZipArchive<std::io::Cursor<Vec<u8>>>,
    name: Seq<char>,
) -> Seq<u8>;

/// Whether the named member of the opened container can be read back
/// whole.
pub uninterp spec fn archive_member_readable(
    a: zip::ZipArchive<std::io::Cursor<Vec<u8>>>,
    name: Seq<char>,
) -> bool;

/// How reading one member can fail: the name is absent, or the member's
/// data could not be read back.
enum MemberReadFailure {
    Absent,
    Unreadable(String),
}

/// Relies on std::io::Cursor::new and zip::ZipArchive::new: reads the
/// container's central directory, succeeding exactly on bytes that form
/// a valid archive; the message is the error's display form.  The parse
/// is deterministic in the bytes, so the opened archive's member map is
/// the one the bytes describe.
#[verifier::external_body]
fn open_zip_archive(bytes: Vec<u8>) -> (r: Result<
    zip::ZipArchive<std::io::Cursor<Vec<u8>>>,
    String,
>)
    ensures
        r is Ok <==> zip_wf(bytes@),
        r matches Ok(a) ==> archive_member_names(a) == zip_member_names(bytes@),
        r matches Ok(a) ==> forall|n: Seq<char>|
            #[trigger] archive_member_data(a, n) == zip_member_data(bytes@, n),
        r matches Ok(a) ==> forall|n: Seq<char>|
            #[trigger] archive_member_readable(a, n) == zip_member_readable(bytes@, n),
{
    zip::ZipArchive::new(std::io::Cursor::new(bytes)).map_err(|e| format!("{}", e))
}

/// Relies on zip::ZipArchive::by_name, whose lookup yields
/// ZipError::FileNotFound exactly when no member has the given name, and
/// on std::io::Read::read_to_end for the member's decompressed bytes.
/// Reading is deterministic in the archive value: it succeeds exactly on
/// a present, readable member and then yields that member's content.
#[verifier::external_body]
fn read_zip_member(a: &mut zip::ZipArchive<std::io::Cursor<Vec<u8>>>, name: &str) -> (r: Result<
    Vec<u8>,
    MemberReadFailure,
>)
    ensures
        r matches Ok(d) ==> d@ == archive_member_data(*old(a), name@),
        r is Ok <==> archive_member_names(*old(a)).contains(name@) && archive_member_readable(
            *old(a),
            name@,
        ),
        (r == Err::<Vec<u8>, MemberReadFailure>(MemberReadFailure::Absent)) <==> !archive_member_names(
            *old(a),
        ).contains(name@),
{
    match a.by_name(name) {
        Err(zip::result::ZipError::FileNotFound) => Err(MemberReadFailure::Absent),
        Err(e) => Err(MemberReadFailure::Unreadable(format!("{}", e))),
        Ok(mut f) => {
            let mut buf = Vec::new();
            match std::io::Read::read_to_end(&mut f, &mut buf) {
                Ok(_) => Ok(buf),
                Err(e) => Err(MemberReadFailure::Unreadable(format!("{}", e))),
            }
        },
    }
}

/// An opened document container: lookup of a member by exact name yields
/// that member's decompressed bytes.
pub struct DocumentArchive {
    inner: zip::ZipArchive<std::io::Cursor<Vec<u8>>>,
}

impl DocumentArchive {
    /// The names of the members the container holds.
    pub closed spec fn member_names(self) -> Set<Seq<char>> {
        archive_member_names(self.inner)
    }

    /// The decompressed content of the named member.
    pub closed spec fn member_data(self, name: Seq<char>) -> Seq<u8> {
        archive_member_data(self.inner, name)
    }

    /// Whether the named member can be read back whole.
    pub closed spec fn member_readable(self, name: Seq<char>) -> bool {
        archive_member_readable(self.inner, name)
    }

    /// Opens the container over the given bytes.  It succeeds exactly on
    /// bytes that form a valid compressed container, and the opened
    /// container holds the members those bytes describe; other bytes
    /// fail with `BadArchive`.
    pub fn open(bytes: Vec<u8>) -> (r: Result<DocumentArchive, OdtError>)
        ensures
            r is Ok <==> zip_wf(bytes@),
            r matches Err(e) ==> e is BadArchive,
            r matches Ok(a) ==> a.member_names() == zip_member_names(bytes@),
            r matches Ok(a) ==> forall|n: Seq<char>|
                #[trigger] a.member_data(n) == zip_member_data(bytes@, n),
            r matches Ok(a) ==> forall|n: Seq<char>|
                #[trigger] a.member_readable(n) == zip_member_readable(bytes@, n),
    {
        match open_zip_archive(bytes) {
            Ok(z) => {
                let opened = DocumentArchive { inner: z };
                proof {
                    assert forall|n: Seq<char>| #[trigger]
                        opened.member_data(n) == zip_member_data(bytes@, n) by {
                        assert(archive_member_data(z, n) == zip_member_data(bytes@, n));
                    }
                    assert forall|n: Seq<char>| #[trigger]
                        opened.member_readable(n) == zip_member_readable(bytes@, n) by {
                        assert(archive_member_readable(z, n) == zip_member_readable(bytes@, n));
                    }
                }
                Ok(opened)
            },
            Err(m) => Err(OdtError::BadArchive(m)),
        }
    }

    /// Reads the named member whole.  It succeeds exactly on a present,
    /// readable member and then yields that member's content.  A missing
    /// member fails with `MemberNotFound`, and only a missing member
    /// does; a present member whose data cannot be read back fails with
    /// `CorruptData`.
    pub fn read_member(&mut self, name: &str) -> (r: Result<Vec<u8>, OdtError>)
        ensures
            r matches Ok(d) ==> d@ == old(self).member_data(name@),
            r is Ok <==> old(self).member_names().contains(name@) && old(self).member_readable(
                name@,
            ),
            !old(self).member_names().contains(name@) ==> r == Err::<Vec<u8>, OdtError>(
                OdtError::MemberNotFound,
            ),
            r == Err::<Vec<u8>, OdtError>(OdtError::MemberNotFound) ==> !old(
                self,
            ).member_names().contains(name@),
            old(self).member_names().contains(name@) && !old(self).member_readable(name@) ==> (
            r matches Err(e) && e is CorruptData),
            r matches Err(e) ==> e == OdtError::MemberNotFound || e is CorruptData,
    {
        match read_zip_member(&mut self.inner, name) {
            Ok(d) => Ok(d),
            Err(MemberReadFailure::Absent) => Err(OdtError::MemberNotFound),
            Err(MemberReadFailure::Unreadable(m)) => Err(OdtError::CorruptData(m)),
        }
    }
}

} // verus!
