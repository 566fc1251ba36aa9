//! Rules for recognizing macOS metadata names.

use vstd::prelude::*;

use crate::bytepath::{byte_seqs, lemma_split_concat, split_parts, split_parts_exec, SEP};

verus! {

/// The kinds of macOS metadata.
#[derive(Debug, Clone, Copy, PartialEq, Eq, Structural)]
pub enum MetadataKind {
    /// Finder's `.DS_Store` folder settings.
    DsStore,
    /// An AppleDouble `._*` sidecar.
    AppleDouble,
    /// A `__MACOSX` folder of archived AppleDouble files.
    MacosxDirectory,
}

/// The name `.DS_Store` (ASCII bytes).
pub open spec fn ds_store_name() -> Seq<u8> {
    seq![0x2eu8, 0x44u8, 0x53u8, 0x5fu8, 0x53u8, 0x74u8, 0x6fu8, 0x72u8, 0x65u8]
}

/// The name `__MACOSX` (ASCII bytes).
pub open spec fn macosx_name() -> Seq<u8> {
    seq![0x5fu8, 0x5fu8, 0x4du8, 0x41u8, 0x43u8, 0x4fu8, 0x53u8, 0x58u8]
}

/// What one path component names: exactly `.DS_Store`, anything starting
/// with `._`, or exactly `__MACOSX`, checked in that order.
pub open spec fn component_kind(c: Seq<u8>) -> Option<MetadataKind> {
    if c == ds_store_name() {
        Some(MetadataKind::DsStore)
    } else if c.len() >= 2 && c[0] == 0x2eu8 && c[1] == 0x5fu8 {
        Some(MetadataKind::AppleDouble)
    } else if c == macosx_name() {
        Some(MetadataKind::MacosxDirectory)
    } else {
        None
    }
}

/// A ZIP entry name is metadata when one of its non-empty `/`-separated
/// components is.
pub open spec fn names_metadata(name: Seq<u8>) -> bool {
    exists|i: int|
        0 <= i < split_parts(name).len() && split_parts(name)[i].len() > 0 && (
        #[trigger] component_kind(split_parts(name)[i])) is Some
}

/// Two ZIP entry names joined by `/` name metadata exactly when one of
/// them does.
pub proof fn law_joined_name_is_metadata(a: Seq<u8>, b: Seq<u8>)
    ensures
        names_metadata(a + seq![SEP] + b) == (names_metadata(a) || names_metadata(b)),
{
    lemma_split_concat(a, b);
    let pa = split_parts(a);
    let pb = split_parts(b);
    let p = split_parts(a + seq![SEP] + b);
    if names_metadata(a) {
        let i = choose|i: int|
            0 <= i < pa.len() && pa[i].len() > 0 && (#[trigger] component_kind(pa[i])) is Some;
        assert(p[i] == pa[i]);
    }
    if names_metadata(b) {
        let i = choose|i: int|
            0 <= i < pb.len() && pb[i].len() > 0 && (#[trigger] component_kind(pb[i])) is Some;
        assert(p[pa.len() + i] == pb[i]);
    }
    if names_metadata(a + seq![SEP] + b) {
        let i = choose|i: int|
            0 <= i < p.len() && p[i].len() > 0 && (#[trigger] component_kind(p[i])) is Some;
        if i < pa.len() {
            assert(p[i] == pa[i]);
        } else {
            assert(p[i] == pb[i - pa.len()]);
        }
    }
}

fn is_ds_store(c: &[u8]) -> (r: bool)
    ensures
        r == (c@ == ds_store_name()),
{
    if c.len() != 9 {
        return false;
    }
    let r = c[0] == 0x2eu8 && c[1] == 0x44u8 && c[2] == 0x53u8 && c[3] == 0x5fu8 && c[4] == 0x53u8 && c[5]
        == 0x74u8 && c[6] == 0x6fu8 && c[7] == 0x72u8 && c[8] == 0x65u8;
    proof {
        if r {
            assert(c@ =~= ds_store_name());
        }
    }
    r
}

fn is_macosx(c: &[u8]) -> (r: bool)
    ensures
        r == (c@ == macosx_name()),
{
    if c.len() != 8 {
        return false;
    }
    let r = c[0] == 0x5fu8 && c[1] == 0x5fu8 && c[2] == 0x4du8 && c[3] == 0x41u8 && c[4] == 0x43u8 && c[5]
        == 0x4fu8 && c[6] == 0x53u8 && c[7] == 0x58u8;
    proof {
        if r {
            assert(c@ =~= macosx_name());
        }
    }
    r
}

/// Classifies one path component without applying host path semantics.
pub fn classify_component(component: &[u8]) -> (kind: Option<MetadataKind>)
    ensures
        kind == component_kind(component@),
{
    if is_ds_store(component) {
        Some(MetadataKind::DsStore)
    } else if component.len() >= 2 && component[0] == 0x2eu8 && component[1] == 0x5fu8 {
        Some(MetadataKind::AppleDouble)
    } else if is_macosx(component) {
        Some(MetadataKind::MacosxDirectory)
    } else {
        None
    }
}

/// Classifies a host filesystem filename, given as its raw bytes, without
/// lossy Unicode conversion.
pub fn classify_filesystem_name(name: &[u8]) -> (kind: Option<MetadataKind>)
    ensures
        kind == component_kind(name@),
{
    classify_component(name)
}

/// Returns whether a ZIP entry name identifies macOS-generated metadata.
///
/// ZIP paths always use `/` as their component separator, independent of the
/// host operating system, and the name is matched as raw bytes.
pub fn is_macos_metadata(entry_name: &[u8]) -> (found: bool)
    ensures
        found == names_metadata(entry_name@),
{
    let parts = split_parts_exec(entry_name);
    let ghost ps = split_parts(entry_name@);
    let mut i: usize = 0;
    while i < parts.len()
        invariant
            i <= parts.len(),
            byte_seqs(parts@) == ps,
            ps == split_parts(entry_name@),
            forall|k: int|
                0 <= k < i ==> !(ps[k].len() > 0 && (#[trigger] component_kind(ps[k])) is Some),
        decreases parts.len() - i,
    {
        assert(ps[i as int] == parts@[i as int]@);
        let part = parts[i].as_slice();
        if part.len() > 0 && classify_component(part).is_some() {
            assert(ps[i as int].len() > 0 && component_kind(ps[i as int]) is Some);
            return true;
        }
        i = i + 1;
    }
    false
}

} // verus!
