//! Photos of receipts: which files are taken as photos, and which files
//! of the photo folder belong to no transaction any more.

use crate::model::EngineError;
use crate::transactions::{fold_letter, folded, stands_at};
use vstd::prelude::*;
use vstd::string::StringSliceAdditionalSpecFns;

verus! {

/// What a sweep of the photo folder removed.
#[derive(Clone, Copy, Debug, PartialEq, Eq, Structural)]
pub struct CleanupResult {
    pub files_deleted: i64,
    pub bytes_freed: i64,
}

/// `name` ends with `ending`, letters compared without regard to case.
pub open spec fn ends_with_text(name: Seq<u8>, ending: Seq<u8>) -> bool {
    ending.len() <= name.len() && stands_at(name, ending, name.len() - ending.len())
}

/// Whether a file name ends with an ending, letters compared without
/// regard to case.
pub fn has_ending(name: &str, ending: &str) -> (b: bool)
    ensures
        b == ends_with_text(name.spec_bytes(), ending.spec_bytes()),
{
    let n = name.as_bytes();
    let e = ending.as_bytes();
    if e.len() > n.len() {
        return false;
    }
    let at = n.len() - e.len();
    let mut j: usize = 0;
    while j < e.len()
        invariant
            j <= e.len(),
            at == n@.len() - e@.len(),
            e@.len() <= n@.len(),
            n@ == name.spec_bytes(),
            e@ == ending.spec_bytes(),
            n@.len() <= usize::MAX,
            forall|x: int| 0 <= x < j ==> folded(#[trigger] n@[at + x]) == folded(e@[x]),
        decreases e.len() - j,
    {
        if fold_letter(n[at + j]) != fold_letter(e[j]) {
            assert(folded(n@[at + j]) != folded(e@[j as int]));
            return false;
        }
        j += 1;
    }
    true
}

/// A file of the photo folder that a sweep looks at.
pub open spec fn is_photo_name(name: Seq<u8>) -> bool {
    ends_with_text(name, ".jpg".spec_bytes()) || ends_with_text(name, ".jpeg".spec_bytes())
        || ends_with_text(name, ".png".spec_bytes()) || ends_with_text(name, ".webp".spec_bytes())
}

/// Whether a sweep of the photo folder looks at a file: its name ends
/// with `.jpg`, `.jpeg`, `.png` or `.webp`.
pub fn is_photo_file(name: &str) -> (b: bool)
    ensures
        b == is_photo_name(name.spec_bytes()),
{
    has_ending(name, ".jpg") || has_ending(name, ".jpeg") || has_ending(name, ".png")
        || has_ending(name, ".webp")
}

/// An extension of a file that can be attached as a photo.
pub open spec fn is_image_extension(text: Seq<char>) -> bool {
    text == "jpg"@ || text == "jpeg"@ || text == "png"@ || text == "webp"@ || text == "bmp"@
        || text == "gif"@
}

/// Tests the extension of a file that is to be attached, given in lower
/// case.
pub fn check_image_extension(extension: &str) -> (r: Result<(), EngineError>)
    ensures
        r == (if is_image_extension(extension@) {
            Ok::<(), EngineError>(())
        } else {
            Err::<(), EngineError>(EngineError::UnsupportedImage)
        }),
{
    if crate::model::same_text(extension, "jpg") || crate::model::same_text(extension, "jpeg")
        || crate::model::same_text(extension, "png") || crate::model::same_text(extension, "webp")
        || crate::model::same_text(extension, "bmp") || crate::model::same_text(extension, "gif") {
        Ok(())
    } else {
        Err(EngineError::UnsupportedImage)
    }
}

/// Some name of the list is the given name.
pub open spec fn is_referenced(referenced: Seq<String>, name: Seq<char>) -> bool {
    exists|i: int| 0 <= i < referenced.len() && (#[trigger] referenced[i])@ == name
}

/// Whether a file of the photo folder is to be removed: it is a photo,
/// and no transaction refers to it.
pub fn is_orphan(name: &str, referenced: &Vec<String>) -> (b: bool)
    ensures
        b == (is_photo_name(name.spec_bytes()) && !is_referenced(referenced@, name@)),
{
    if !is_photo_file(name) {
        return false;
    }
    let mut i: usize = 0;
    while i < referenced.len()
        invariant
            i <= referenced.len(),
            forall|k: int| 0 <= k < i ==> (#[trigger] referenced@[k])@ != name@,
        decreases referenced.len() - i,
    {
        if crate::model::same_text(referenced[i].as_str(), name) {
            return false;
        }
        i += 1;
    }
    true
}

/// The result of a sweep after one more file of a size was removed.
pub fn count_removed(so_far: CleanupResult, size: u64) -> (r: CleanupResult)
    ensures
        r.files_deleted == (if so_far.files_deleted < i64::MAX {
            so_far.files_deleted + 1
        } else {
            so_far.files_deleted as int
        }),
        r.bytes_freed == (if so_far.bytes_freed + size <= i64::MAX {
            so_far.bytes_freed + size
        } else {
            i64::MAX as int
        }),
{
    let files_deleted = if so_far.files_deleted < i64::MAX {
        so_far.files_deleted + 1
    } else {
        so_far.files_deleted
    };
    let total = so_far.bytes_freed as i128 + size as i128;
    let bytes_freed = if total <= i64::MAX as i128 {
        total as i64
    } else {
        i64::MAX
    };
    CleanupResult { files_deleted, bytes_freed }
}

} // verus!
