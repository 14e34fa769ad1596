//! The direct-folder strategy: a mod lives as a folder of the EFMI `Mods`
//! directory and is enabled or disabled by renaming it (a disabled folder's
//! name begins with `DISABLED_`).
use vstd::prelude::*;
use crate::deployment::DeploymentEntry;
use crate::error::{msg, AppError};
use crate::ids::{blake3_hex, blake3_hex_chars};
use crate::ini_facts::{file_name, file_name_chars};
use crate::names::{
    after_bytes, byte_len, disabled_name, is_disabled_chars, lead_filler, spec_strip_disabled_prefix,
    strip_disabled_chars, trim_filler, utf8_len,
};
use crate::path_safety::{
    components, direct_child, is_direct_child, join_chars, join_path, valid_relative, validate_relative_path,
};
use crate::text::{chars_eq, concat, concat_str, copy_str, from_chars, to_chars};

verus! {

/// The strategy over a verified `Mods` directory (its canonical path).
#[derive(Debug, Clone)]
pub struct EfmiDirectDeploymentStrategy {
    pub mods_root: String,
}

/// The name of a direct child of `root`.
pub open spec fn child_name(root: Seq<char>, path: Seq<char>) -> Option<Seq<char>> {
    if direct_child(root, path) {
        file_name(path)
    } else {
        None
    }
}

/// The name of `path` when it is a direct child of `root`.
pub fn direct_child_name(root: &str, path: &str) -> (r: Result<String, AppError>)
    ensures
        r matches Ok(n) ==> child_name(root@, path@) == Some(n@),
        r is Err ==> child_name(root@, path@) is None,
        r matches Err(e) ==> e is UnsafePath,
{
    let rc = to_chars(root);
    let pc = to_chars(path);
    if !is_direct_child(rc.as_slice(), pc.as_slice()) {
        return Err(AppError::UnsafePath(msg("模组必须是 EFMI Mods 的直属目录。")));
    }
    match file_name_chars(pc.as_slice()) {
        Some(n) => Ok(from_chars(n.as_slice())),
        None => Err(AppError::UnsafePath(msg("模组目录名称无效。"))),
    }
}

/// The name a disabled folder takes.
pub open spec fn disabled_folder_name(name: Seq<char>) -> Seq<char> {
    "DISABLED_"@ + name
}

impl EfmiDirectDeploymentStrategy {
    pub fn new(mods_root: String) -> (s: Self)
        ensures
            s.mods_root == mods_root,
    {
        EfmiDirectDeploymentStrategy { mods_root }
    }

    pub fn mods_root(&self) -> (r: &str)
        ensures
            r@ == self.mods_root@,
    {
        self.mods_root.as_str()
    }

    /// Where a disabled folder goes when enabled: its name without the
    /// `DISABLED` prefix. Refuses a folder that is not a direct child of
    /// `Mods`, and one whose name would not change or would become empty.
    pub fn enabled_destination(&self, source: &str) -> (r: Result<String, AppError>)
        ensures
            ({
                let name = child_name(self.mods_root@, source@);
                &&& r is Ok <==> name is Some && spec_strip_disabled_prefix(name->0).len() > 0
                    && spec_strip_disabled_prefix(name->0) != name->0
                &&& r matches Ok(p) ==> p@ == join_path(self.mods_root@, spec_strip_disabled_prefix(name->0))
                &&& r matches Err(e) ==> (if name is None {
                    e is UnsafePath
                } else {
                    e is Deployment
                })
            }),
    {
        let name = direct_child_name(self.mods_root.as_str(), source)?;
        let nc = to_chars(name.as_str());
        let enabled = strip_disabled_chars(nc.as_slice());
        if enabled.len() == 0 || chars_eq(enabled.as_slice(), nc.as_slice()) {
            let m = concat_str(concat_str(to_chars("模组目录 ").as_slice(), name.as_str()).as_slice(), " 已经是启用状态。");
            return Err(AppError::Deployment(from_chars(m.as_slice())));
        }
        let root = to_chars(self.mods_root.as_str());
        Ok(from_chars(join_chars(root.as_slice(), enabled.as_slice()).as_slice()))
    }

    /// Where an enabled folder goes when disabled: its name behind
    /// `DISABLED_`. Refuses a folder that is not a direct child of `Mods`
    /// and one that is already disabled.
    pub fn disabled_destination(&self, active: &str) -> (r: Result<String, AppError>)
        ensures
            ({
                let name = child_name(self.mods_root@, active@);
                &&& r is Ok <==> name is Some && !disabled_name(name->0)
                &&& r matches Ok(p) ==> p@ == join_path(self.mods_root@, disabled_folder_name(name->0))
                &&& r matches Err(e) ==> (if name is None {
                    e is UnsafePath
                } else {
                    e is Deployment
                })
            }),
    {
        let name = direct_child_name(self.mods_root.as_str(), active)?;
        let nc = to_chars(name.as_str());
        if is_disabled_chars(nc.as_slice()) {
            let m = concat_str(concat_str(to_chars("模组目录 ").as_slice(), name.as_str()).as_slice(), " 已经是禁用状态。");
            return Err(AppError::Deployment(from_chars(m.as_slice())));
        }
        let disabled = concat(to_chars("DISABLED_").as_slice(), nc.as_slice());
        let root = to_chars(self.mods_root.as_str());
        Ok(from_chars(join_chars(root.as_slice(), disabled.as_slice()).as_slice()))
    }
}

/// The canonical directory given for an operation must be the verified
/// `Mods` directory itself.
pub fn ensure_same_root(expected: &str, canonical_actual: &str) -> (r: Result<(), AppError>)
    ensures
        r is Ok <==> components(expected@) == components(canonical_actual@),
        r matches Err(e) ==> e is UnsafePath,
{
    let a = crate::path_safety::component_list(to_chars(expected).as_slice());
    let b = crate::path_safety::component_list(to_chars(canonical_actual).as_slice());
    let same = a.len() == b.len() && crate::path_safety::seg_vec_eq(&a, &b, a.len());
    proof {
        let ca = components(expected@);
        let cb = components(canonical_actual@);
        if same {
            assert forall|j: int| 0 <= j < ca.len() implies ca[j] == cb[j] by {
                assert(a@[j]@ == b@[j]@);
            }
            assert(ca =~= cb);
        } else if ca == cb {
            assert forall|j: int| 0 <= j < a@.len() implies a@[j]@ == b@[j]@ by {
                assert(ca[j] == cb[j]);
            }
        }
    }
    if !same {
        return Err(AppError::UnsafePath(msg("模组操作目录不是已验证的 EFMI Mods。")));
    }
    Ok(())
}

proof fn lemma_ascii_prefix_bytes(s: Seq<char>, k: int)
    requires
        0 <= k <= s.len(),
        forall|i: int| 0 <= i < k ==> (#[trigger] s[i] as u32) < 0x80,
    ensures
        byte_len(s.take(k)) == k,
    decreases k,
{
    if k > 0 {
        lemma_ascii_prefix_bytes(s, k - 1);
        assert(s.take(k).drop_last() =~= s.take(k - 1));
        assert(s.take(k).last() == s[k - 1]);
    }
}

/// Disabling a folder and enabling it again gives back its name, unless the
/// name begins with `_`, `-` or a space (those are trimmed with the prefix).
pub proof fn lemma_disable_then_enable(name: Seq<char>)
    requires
        name.len() > 0,
        !crate::names::is_prefix_filler(name[0]),
    ensures
        disabled_name(disabled_folder_name(name)),
        spec_strip_disabled_prefix(disabled_folder_name(name)) == name,
{
    reveal_strlit("DISABLED_");
    let d = disabled_folder_name(name);
    assert("DISABLED_"@.len() == 9);
    assert(d.take(8) =~= crate::names::disabled_word());
    assert(d[8] == '_');
    assert forall|i: int| 0 <= i < 8 implies (#[trigger] d[i] as u32) < 0x80 by {
        assert(d[i] == "DISABLED_"@[i]);
    }
    lemma_ascii_prefix_bytes(d, 8);
    assert(byte_len(d.take(8)) == 8);
    let k = choose|k: int| 0 <= k <= d.len() && byte_len(#[trigger] d.take(k)) == 8;
    if k < 8 {
        crate::names::lemma_byte_len_take_mono(d, k, 8);
    } else if k > 8 {
        crate::names::lemma_byte_len_take_mono(d, 8, k);
    }
    assert(k == 8);
    let rest = d.skip(8);
    assert(rest =~= seq!['_'] + name);
    assert(rest[0] == '_');
    assert(rest.drop_first() =~= name);
    assert(lead_filler(name) == 0);
    assert(lead_filler(rest) == 1);
    assert(trim_filler(rest) =~= name);
}


/// The inventory record of a mod file read whole: its path as both source
/// and destination, its size and the BLAKE3 digest of its bytes. Refused
/// when the path is not a safe relative path.
pub fn inventory_entry(relative: &str, bytes: &[u8]) -> (r: Result<DeploymentEntry, AppError>)
    ensures
        r is Err <==> !valid_relative(relative@),
        r matches Err(e) ==> e is UnsafePath,
        r matches Ok(e) ==> e.source_relative@ == relative@ && e.destination_relative@ == relative@
            && e.size_bytes == bytes@.len() && e.content_hash@ == blake3_hex(bytes@),
{
    validate_relative_path(relative)?;
    let hash = from_chars(blake3_hex_chars(bytes).as_slice());
    Ok(
        DeploymentEntry {
            source_relative: copy_str(relative),
            destination_relative: copy_str(relative),
            size_bytes: bytes.len() as u64,
            content_hash: hash,
        },
    )
}

} // verus!
