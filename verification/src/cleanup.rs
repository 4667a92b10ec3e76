//! Post-extraction cleanup planning: the expected names of later
//! volumes in a multi-volume set, and how a single-entry output
//! directory is flattened into its parent.

use vstd::prelude::*;

use crate::archive::Archive;
use crate::archive::VolumeType;
use crate::errors::EzzError;
use crate::errors::EzzResult;
use crate::pathing::file_name_of;
use crate::pathing::file_name_spec;
use crate::pathing::with_extension;
use crate::pathing::with_extension_spec;
use crate::pathing::with_file_name;
use crate::pathing::with_file_name_spec;
use crate::text::dec_digits;
use crate::text::pad2_digits;
use crate::text::pad3_digits;
use crate::text::u32_to_string;
use crate::text::u32_to_string_pad2;
use crate::text::u32_to_string_pad3;

verus! {

/// The expected path of volume `seq_no` of the set: a zero-padded
/// three-digit suffix for numbered sets, `partN.rar` for rar sets, and
/// `z` with a zero-padded two-digit `N - 1` for zip sets; a lone archive
/// has no further volumes.
pub open spec fn volume_name_spec(p: Seq<char>, volume: VolumeType, seq_no: nat) -> Option<
    Seq<char>,
> {
    match volume {
        VolumeType::Single => None,
        VolumeType::Num => Some(with_extension_spec(p, pad3_digits(seq_no))),
        VolumeType::Rar => Some(
            with_extension_spec(
                with_extension_spec(p, Seq::empty()),
                seq!['p', 'a', 'r', 't'] + dec_digits(seq_no) + seq!['.', 'r', 'a', 'r'],
            ),
        ),
        VolumeType::Zip => Some(
            with_extension_spec(p, seq!['z'] + pad2_digits((seq_no - 1) as nat)),
        ),
    }
}

/// The path where volume `seq_no` of this archive's set is expected;
/// the caller probes it and deletes until the first gap.
pub fn next_volume_path(archive: &Archive, seq_no: u32) -> (r: Option<String>)
    requires
        seq_no >= 2,
    ensures
        r matches Some(p) ==> volume_name_spec(archive.path@, archive.volume, seq_no as nat)
            == Some(p@),
        r is None ==> archive.volume == VolumeType::Single,
{
    proof {
        reveal_strlit("");
        reveal_strlit("part");
        reveal_strlit(".rar");
        reveal_strlit("z");
        assert("part"@ =~= seq!['p', 'a', 'r', 't']);
        assert(".rar"@ =~= seq!['.', 'r', 'a', 'r']);
        assert("z"@ =~= seq!['z']);
    }
    match archive.get_volume() {
        VolumeType::Single => None,
        VolumeType::Num => {
            let ext = u32_to_string_pad3(seq_no);
            Some(with_extension(archive.get_path().as_str(), ext.as_str()))
        },
        VolumeType::Rar => {
            let base = with_extension(archive.get_path().as_str(), "");
            let mut ext = String::from_str("part");
            let digits = u32_to_string(seq_no);
            ext.append(digits.as_str());
            ext.append(".rar");
            proof {
                assert(ext@ =~= seq!['p', 'a', 'r', 't'] + dec_digits(seq_no as nat) + seq![
                    '.',
                    'r',
                    'a',
                    'r',
                ]);
            }
            Some(with_extension(base.as_str(), ext.as_str()))
        },
        VolumeType::Zip => {
            let mut ext = String::from_str("z");
            let digits = u32_to_string_pad2(seq_no - 1);
            ext.append(digits.as_str());
            proof {
                assert(ext@ =~= seq!['z'] + pad2_digits((seq_no - 1) as nat));
            }
            Some(with_extension(archive.get_path().as_str(), ext.as_str()))
        },
    }
}

/// How a just-extracted output directory is folded into its parent.
pub enum FlattenPlan {
    /// Zero or several entries: the directory stays; report its name.
    Keep { name: String },
    /// One entry and a free target slot: move the entry up beside the
    /// directory, remove the now-empty directory, and report the entry.
    Direct { target: String, name: String },
    /// One entry whose target slot is occupied by a directory: move the
    /// entry to the temporary name, remove the now-empty directory, then
    /// move the temporary into the directory's own slot; report the
    /// directory.
    ViaTemp { temp: String, name: String },
}

/// Where a single entry of `dir` would move: into the parent, under the
/// entry's own name.
pub fn flatten_target(dir: &str, entry_name: &str) -> (r: String)
    ensures
        r@ == with_file_name_spec(dir@, entry_name@),
{
    with_file_name(dir, entry_name)
}

/// Plans the flattening of `dir`, whose top-level entry names are
/// `entries`. When there is exactly one entry, `target_exists` and
/// `target_is_dir` must report on the slot `flatten_target` names; a
/// slot occupied by a non-directory is a path conflict.
pub fn plan_flatten(
    dir: &str,
    entries: &Vec<String>,
    target_exists: bool,
    target_is_dir: bool,
) -> (r: EzzResult<FlattenPlan>)
    ensures
        entries@.len() != 1 ==> (r matches Ok(p) && (p matches FlattenPlan::Keep { name }
            && name@ == file_name_spec(dir@))),
        entries@.len() == 1 && !target_exists ==> (r matches Ok(p) && (p matches
            FlattenPlan::Direct { target, name } && target@ == with_file_name_spec(
            dir@,
            entries@[0]@,
        ) && name@ == entries@[0]@)),
        entries@.len() == 1 && target_exists && target_is_dir ==> (r matches Ok(p) && (p matches
            FlattenPlan::ViaTemp { temp, name } && temp@ == with_extension_spec(
            with_file_name_spec(dir@, entries@[0]@),
            seq!['t', 'm', 'p'],
        ) && name@ == file_name_spec(dir@))),
        entries@.len() == 1 && target_exists && !target_is_dir ==> r
            == EzzResult::<FlattenPlan>::Err(EzzError::PathError),
{
    proof {
        reveal_strlit("tmp");
        assert("tmp"@ =~= seq!['t', 'm', 'p']);
    }
    if entries.len() != 1 {
        return Ok(FlattenPlan::Keep { name: file_name_of(dir) });
    }
    let entry = &entries[0];
    let target = flatten_target(dir, entry.as_str());
    if !target_exists {
        Ok(FlattenPlan::Direct { target, name: entry.clone() })
    } else if target_is_dir {
        let temp = with_extension(target.as_str(), "tmp");
        Ok(FlattenPlan::ViaTemp { temp, name: file_name_of(dir) })
    } else {
        Err(EzzError::PathError)
    }
}

} // verus!
