//! Digests and archives, by `sha2` and `tar`.

use vstd::prelude::*;

use sha2::Digest;

use crate::text;

verus! {

/// The SHA-256 digest of some bytes in lower-case hexadecimal, by
/// `sha2::Sha256`.
pub uninterp spec fn sha256_hex(bytes: Seq<u8>) -> Seq<char>;

/// `sha2::Sha256::digest`, and its result in lower-case hexadecimal. The text
/// follows from the bytes alone, and is 64 characters long.
#[verifier::external_body]
pub(crate) fn sha256_of(bytes: &[u8]) -> (r: String)
    ensures
        r@ == sha256_hex(bytes@),
        r@.len() == 64,
{
    format!("{:x}", sha2::Sha256::digest(bytes))
}

/// A file of an archive.
#[derive(Debug, PartialEq, Eq)]
pub struct TarFile {
    pub path: String,
    pub mode: u32,
    /// When it was last changed, in seconds since 1970.
    pub mtime: u64,
    pub bytes: Vec<u8>,
}

pub struct TarFileView {
    pub path: Seq<char>,
    pub mode: u32,
    pub mtime: u64,
    pub bytes: Seq<u8>,
}

pub open spec fn tar_file(path: Seq<char>, mode: u32, mtime: u64, bytes: Seq<u8>) -> TarFileView {
    TarFileView { path, mode, mtime, bytes }
}

impl View for TarFile {
    type V = TarFileView;

    open spec fn view(&self) -> TarFileView {
        tar_file(self.path@, self.mode, self.mtime, self.bytes@)
    }
}

/// An archive being written: a `tar::Builder` over a vector.
#[verifier::external_body]
pub struct Archive {
    builder: tar::Builder<Vec<u8>>,
}

/// The files that an archive being written holds.
pub uninterp spec fn tar_files(a: Archive) -> Seq<TarFileView>;

/// The bytes of the archive that `tar` writes for some files.
pub uninterp spec fn tar_bytes(files: Seq<TarFileView>) -> Seq<u8>;

/// `tar::Builder::new` over an empty vector: an archive without files.
#[verifier::external_body]
fn new_archive() -> (r: Archive)
    ensures
        tar_files(r) == Seq::<TarFileView>::empty(),
{
    Archive { builder: tar::Builder::new(Vec::new()) }
}

/// A relative path whose pieces are names: none is empty, and none is one of
/// the dotted ones. It holds no NUL, and neither of the two characters that
/// some machines take for more than a part of a name.
pub open spec fn is_plain_path(p: Seq<char>) -> bool {
    let parts = text::split_of(p, '/');
    &&& !p.contains('\0') && !p.contains('\\') && !p.contains(':')
    &&& forall|i: int|
        0 <= i < parts.len() ==> (#[trigger] parts[i]).len() > 0 && parts[i] != "."@ && parts[i]
            != ".."@
}

/// A path that no archive takes: an empty or an absolute one, and, where the
/// header has room for it, one with a NUL or one that goes upwards.
pub open spec fn is_refused_path(p: Seq<char>) -> bool {
    ||| p.len() == 0
    ||| p[0] == '/'
    ||| vstd::utf8::encode_utf8(p).len() < 100 && (p.contains('\0') || text::split_of(
        p,
        '/',
    ).contains(".."@))
}

/// `tar::Builder::append_data` with a GNU header of that size, mode and time.
/// Where it succeeds, the archive has the file at its end. A plain path always
/// succeeds, however long: one that the header has no room for goes into an
/// entry of its own. An empty or absolute path never does, nor a short one with
/// a NUL or with a piece that goes upwards. Of the others it is not said which
/// do, as that rests on what the machine takes for a relative path and on
/// where a long one is cut. Paths with a backslash are left out, as machines
/// differ in what they write for them.
#[verifier::external_body]
fn append_file(
    a: &mut Archive,
    path: &str,
    mode: u32,
    mtime: u64,
    bytes: &[u8],
) -> (r: Result<(), String>)
    requires
        !path@.contains('\\'),
    ensures
        r is Ok ==> tar_files(*final(a)) == tar_files(*old(a)).push(
            tar_file(path@, mode, mtime, bytes@),
        ),
        is_plain_path(path@) ==> r is Ok,
        is_refused_path(path@) ==> r is Err,
{
    let mut header = tar::Header::new_gnu();
    header.set_size(bytes.len() as u64);
    header.set_mode(mode);
    header.set_mtime(mtime);
    header.set_cksum();
    a.builder.append_data(&mut header, path, bytes).map_err(|e| e.to_string())
}

/// `tar::Builder::into_inner`, which ends the archive. Its bytes follow from
/// the files that it holds; writing to a vector does not fail.
#[verifier::external_body]
fn end_archive(a: Archive) -> (r: Result<Vec<u8>, String>)
    ensures
        match r {
            Ok(v) => v@ == tar_bytes(tar_files(a)),
            Err(_) => false,
        },
{
    a.builder.into_inner().map_err(|e| e.to_string())
}

/// No path has a backslash.
pub open spec fn without_backslashes(files: Seq<TarFileView>) -> bool {
    forall|i: int| 0 <= i < files.len() ==> !(#[trigger] files[i]).path.contains('\\')
}

/// An archive of some files, in order. It cannot fail where all paths are
/// plain, and does where one of them is refused.
pub fn build_archive(files: &Vec<TarFile>) -> (r: Result<Vec<u8>, String>)
    requires
        without_backslashes(text::views(files@)),
    ensures
        r matches Ok(v) ==> v@ == tar_bytes(text::views(files@)),
        (forall|i: int| 0 <= i < files@.len() ==> is_plain_path((#[trigger] files@[i]).path@))
            ==> r is Ok,
        (exists|i: int| 0 <= i < files@.len() && is_refused_path((#[trigger] files@[i]).path@))
            ==> r is Err,
{
    let ghost all = text::views(files@);
    let mut archive = new_archive();
    let n = files.len();
    let mut i: usize = 0;
    proof {
        assert(all.take(0) =~= Seq::<TarFileView>::empty());
    }
    while i < n
        invariant
            n == files@.len(),
            all == text::views(files@),
            without_backslashes(all),
            i <= n,
            tar_files(archive) == all.take(i as int),
            forall|k: int| 0 <= k < i ==> !is_refused_path((#[trigger] files@[k]).path@),
        decreases n - i,
    {
        let f = &files[i];
        proof {
            assert(all[i as int] == f@);
            assert(all.take(i + 1) =~= all.take(i as int).push(f@));
        }
        match append_file(&mut archive, f.path.as_str(), f.mode, f.mtime, f.bytes.as_slice()) {
            Ok(_) => {},
            Err(e) => {
                return Err(e);
            },
        }
        i = i + 1;
    }
    proof {
        assert(all.take(n as int) =~= all);
    }
    end_archive(archive)
}

} // verus!
