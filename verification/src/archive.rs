//! The archive model: what kind of volume set a path names, whether it
//! is a disguised ("hidden") file, and which output directory an
//! extraction produces.

use vstd::prelude::*;

use crate::errors::EzzError;
use crate::errors::EzzResult;
use crate::pathing::extension_of;
use crate::pathing::extension_spec;
use crate::pathing::file_name_of;
use crate::pathing::file_name_spec;
use crate::pathing::file_stem_of;
use crate::pathing::parent_of;
use crate::pathing::parent_spec;
use crate::pathing::stem_spec;
use crate::pathing::with_extension;
use crate::pathing::with_extension_spec;
use crate::pathing::with_file_name;
use crate::pathing::with_file_name_spec;
use crate::text::ends_with;
use crate::text::ends_with_exec;
use crate::text::str_eq;

verus! {

/// The kind of volume set an archive path belongs to.
#[derive(Clone, Copy, Debug, PartialEq, Eq, Structural)]
pub enum VolumeType {
    /// A lone archive file.
    Single,
    /// `name.part1.rar`, `name.part2.rar`, ...
    Rar,
    /// `name.7z.001`, `name.7z.002`, ... (or `.zip.001` and so on).
    Num,
    /// `name.zip` beside `name.z01`, `name.z02`, ...
    Zip,
}

/// A `.mp4` or `.mkv` extension, in any letter case, marks a disguised
/// file.
pub open spec fn is_stego_ext(e: Seq<char>) -> bool {
    e.len() == 3 && (e[0] == 'm' || e[0] == 'M') && (((e[1] == 'p' || e[1] == 'P') && e[2] == '4')
        || ((e[1] == 'k' || e[1] == 'K') && (e[2] == 'v' || e[2] == 'V')))
}

/// Whether the path names a disguised file.
pub open spec fn is_stego_spec(p: Seq<char>) -> bool {
    match extension_spec(p) {
        Some(e) => is_stego_ext(e),
        None => false,
    }
}

/// How a path is classified: a `.001` extension makes a numbered set; a
/// `.rar` whose stem ends in `.part1` makes a rar set; a `.zip` beside an
/// existing `.z01` sibling makes a zip set; everything else stands alone.
/// Whether the sibling exists is probed once, at classification time.
pub open spec fn classify_spec(p: Seq<char>, z01_exists: bool) -> VolumeType {
    match extension_spec(p) {
        Some(e) => if e == seq!['0', '0', '1'] {
            VolumeType::Num
        } else if e == seq!['r', 'a', 'r'] && ends_with(
            stem_spec(p),
            seq!['.', 'p', 'a', 'r', 't', '1'],
        ) {
            VolumeType::Rar
        } else if e == seq!['z', 'i', 'p'] && z01_exists {
            VolumeType::Zip
        } else {
            VolumeType::Single
        },
        None => VolumeType::Single,
    }
}

/// One archive file presented for extraction.
pub struct Archive {
    /// Its path; `/` separates directories.
    pub path: String,
    /// The volume kind fixed at classification time.
    pub volume: VolumeType,
    /// Whether the file carries a disguise that must be revealed first.
    pub is_stegano: bool,
}

/// Whether the path names a disguised file.
pub fn is_stego(path: &str) -> (r: bool)
    ensures
        r == is_stego_spec(path@),
{
    match extension_of(path) {
        Some(e) => {
            let n = e.as_str().unicode_len();
            if n != 3 {
                return false;
            }
            let c0 = e.as_str().get_char(0);
            let c1 = e.as_str().get_char(1);
            let c2 = e.as_str().get_char(2);
            (c0 == 'm' || c0 == 'M') && (((c1 == 'p' || c1 == 'P') && c2 == '4') || ((c1 == 'k'
                || c1 == 'K') && (c2 == 'v' || c2 == 'V')))
        },
        None => false,
    }
}

impl Archive {
    /// Classifies the file at `path`; `z01_exists` reports whether a
    /// `.z01` sibling of the path is on disk at this moment.
    pub fn new(path: String, z01_exists: bool) -> (a: Archive)
        ensures
            a.path@ == path@,
            a.volume == classify_spec(path@, z01_exists),
            a.is_stegano == is_stego_spec(path@),
    {
        proof {
            reveal_strlit("001");
            reveal_strlit("rar");
            reveal_strlit("zip");
            reveal_strlit(".part1");
            assert("001"@ =~= seq!['0', '0', '1']);
            assert("rar"@ =~= seq!['r', 'a', 'r']);
            assert("zip"@ =~= seq!['z', 'i', 'p']);
            assert(".part1"@ =~= seq!['.', 'p', 'a', 'r', 't', '1']);
        }
        let is_stegano = is_stego(path.as_str());
        let volume = match extension_of(path.as_str()) {
            Some(e) => {
                if str_eq(e.as_str(), "001") {
                    VolumeType::Num
                } else if str_eq(e.as_str(), "rar") && ends_with_exec(
                    file_stem_of(path.as_str()).as_str(),
                    ".part1",
                ) {
                    VolumeType::Rar
                } else if str_eq(e.as_str(), "zip") && z01_exists {
                    VolumeType::Zip
                } else {
                    VolumeType::Single
                }
            },
            None => VolumeType::Single,
        };
        Archive { path, volume, is_stegano }
    }

    /// The archive for a sibling file of the same directory, classified
    /// anew; `z01_exists` again reports on the new path's `.z01` sibling.
    pub fn with_name(&self, name: &str, z01_exists: bool) -> (a: Archive)
        ensures
            a.path@ == with_file_name_spec(self.path@, name@),
            a.volume == classify_spec(with_file_name_spec(self.path@, name@), z01_exists),
            a.is_stegano == is_stego_spec(with_file_name_spec(self.path@, name@)),
    {
        Archive::new(with_file_name(self.path.as_str(), name), z01_exists)
    }

    /// The archive's path.
    pub fn get_path(&self) -> (r: &String)
        ensures
            r@ == self.path@,
    {
        &self.path
    }

    /// The file name without its extension; a path with no file name is
    /// a path error.
    pub fn get_stem(&self) -> (r: EzzResult<String>)
        ensures
            r matches Ok(s) ==> s@ == stem_spec(self.path@) && file_name_spec(self.path@).len()
                > 0,
            r is Err ==> r == EzzResult::<String>::Err(EzzError::PathError)
                && file_name_spec(self.path@).len() == 0,
    {
        let name = file_name_of(self.path.as_str());
        if name.as_str().unicode_len() == 0 {
            Err(EzzError::PathError)
        } else {
            Ok(file_stem_of(self.path.as_str()))
        }
    }

    /// The extension of the file name; a name without one is a path
    /// error.
    pub fn get_extension(&self) -> (r: EzzResult<String>)
        ensures
            r matches Ok(e) ==> extension_spec(self.path@) == Some(e@),
            r is Err ==> r == EzzResult::<String>::Err(EzzError::PathError)
                && extension_spec(self.path@) is None,
    {
        match extension_of(self.path.as_str()) {
            Some(e) => Ok(e),
            None => Err(EzzError::PathError),
        }
    }

    /// The directory that holds the archive; a path with no file name is
    /// a path error.
    pub fn get_parent(&self) -> (r: EzzResult<String>)
        ensures
            r matches Ok(p) ==> p@ == parent_spec(self.path@) && file_name_spec(self.path@).len()
                > 0,
            r is Err ==> r == EzzResult::<String>::Err(EzzError::PathError)
                && file_name_spec(self.path@).len() == 0,
    {
        let name = file_name_of(self.path.as_str());
        if name.as_str().unicode_len() == 0 {
            Err(EzzError::PathError)
        } else {
            Ok(parent_of(self.path.as_str()))
        }
    }

    /// The volume kind fixed at classification time.
    pub fn get_volume(&self) -> (r: VolumeType)
        ensures
            r == self.volume,
    {
        self.volume
    }

    /// Whether the file carries a disguise.
    pub fn is_hidden(&self) -> (r: bool)
        ensures
            r == self.is_stegano,
    {
        self.is_stegano
    }

    /// The output directory of an extraction: one extension is stripped
    /// for a lone archive or a zip set, two for a numbered or rar set,
    /// whose visible extension is only the volume suffix.
    pub fn derive_dir(&self) -> (r: String)
        ensures
            r@ == derive_dir_spec(self.path@, self.volume),
    {
        proof {
            reveal_strlit("");
        }
        match self.volume {
            VolumeType::Single | VolumeType::Zip => with_extension(self.path.as_str(), ""),
            VolumeType::Num | VolumeType::Rar => {
                let once = with_extension(self.path.as_str(), "");
                with_extension(once.as_str(), "")
            },
        }
    }
}

/// The output directory for a path of the given volume kind.
pub open spec fn derive_dir_spec(p: Seq<char>, volume: VolumeType) -> Seq<char> {
    match volume {
        VolumeType::Single | VolumeType::Zip => with_extension_spec(p, Seq::empty()),
        VolumeType::Num | VolumeType::Rar => with_extension_spec(
            with_extension_spec(p, Seq::empty()),
            Seq::empty(),
        ),
    }
}

/// The output directory for extracting `archive`: the archive's
/// directory joined with its stem (one extension stripped); a path with
/// no file name is a path error.
pub fn derive_dir(archive: &str) -> (r: EzzResult<String>)
    ensures
        r matches Ok(d) ==> d@ == with_extension_spec(archive@, Seq::empty())
            && file_name_spec(archive@).len() > 0,
        r is Err ==> r == EzzResult::<String>::Err(EzzError::PathError)
            && file_name_spec(archive@).len() == 0,
{
    proof {
        reveal_strlit("");
    }
    let name = file_name_of(archive);
    if name.as_str().unicode_len() == 0 {
        Err(EzzError::PathError)
    } else {
        Ok(with_extension(archive, ""))
    }
}

} // verus!
