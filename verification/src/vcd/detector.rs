//! Telling Video CD formats apart: VCD 1.0, 1.1, 2.0, 3.0, SVCD and HQ-VCD.
//!
//! Looking at the disc (which files exist, what they hold) is the caller's
//! part; the decision made from what was seen is taken here.

use crate::text::{dec_digits, eq_ci, push_dec, push_str, str_eq_ci};
use crate::vcd::info::VcdInfo;
use vstd::prelude::*;

verus! {

broadcast use vstd::string::group_string_axioms;

/// The format of a disc.
#[derive(Debug, Clone, PartialEq, Eq)]
pub enum VcdDiscType {
    /// VCD 3.0 interactive disc (EnReach I-Reader format).
    Vcd30Interactive { version_str: String, has_vcd20_layer: bool, entry_count: usize },
    /// VCD 2.0 disc with Playback Control.
    Vcd20WithPbc { entry_count: usize, segment_count: usize },
    /// VCD 2.0 disc without Playback Control.
    Vcd20Linear { entry_count: usize },
    /// VCD 1.1 disc.
    Vcd11 { entry_count: usize },
    /// VCD 1.0 disc.
    Vcd10,
    /// Super VCD.
    SuperVcd,
    /// HQ-VCD.
    HqVcd,
    /// A disc holding MPEG files but no VCD metadata.
    RawVideoDisc { video_count: usize },
    /// Not a Video CD.
    Unknown,
}

/// The short English label of each format.
pub open spec fn label_of(t: VcdDiscType) -> Seq<char> {
    match t {
        VcdDiscType::Vcd30Interactive { .. } => "VCD 3.0"@,
        VcdDiscType::Vcd20WithPbc { .. } => "VCD 2.0"@,
        VcdDiscType::Vcd20Linear { .. } => "VCD 2.0"@,
        VcdDiscType::Vcd11 { .. } => "VCD 1.1"@,
        VcdDiscType::Vcd10 => "VCD 1.0"@,
        VcdDiscType::SuperVcd => "SVCD"@,
        VcdDiscType::HqVcd => "HQ-VCD"@,
        VcdDiscType::RawVideoDisc { .. } => "VIDEO CD"@,
        VcdDiscType::Unknown => "UNKNOWN DISC"@,
    }
}

/// The descriptive text of each format, as shown to the user.
pub open spec fn display_of(t: VcdDiscType) -> Seq<char> {
    match t {
        VcdDiscType::Vcd30Interactive { has_vcd20_layer, entry_count, .. } => {
            if has_vcd20_layer && entry_count > 0 {
                "VCD 3.0 (兼容 VCD 2.0，共 "@ + dec_digits(entry_count as nat) + " 个章节)"@
            } else if has_vcd20_layer {
                "VCD 3.0 (兼容 VCD 2.0)"@
            } else {
                "VCD 3.0 (互动版)"@
            }
        },
        VcdDiscType::Vcd20WithPbc { entry_count, segment_count } => "VCD 2.0 (带 PBC 交互，"@
            + dec_digits(entry_count as nat) + " 章节，"@ + dec_digits(segment_count as nat)
            + " 菜单段)"@,
        VcdDiscType::Vcd20Linear { entry_count } => "VCD 2.0 (纯视频，"@ + dec_digits(
            entry_count as nat,
        ) + " 章节)"@,
        VcdDiscType::Vcd11 { entry_count } => "VCD 1.1 ("@ + dec_digits(entry_count as nat)
            + " 章节)"@,
        VcdDiscType::Vcd10 => "VCD 1.0 (纯视频)"@,
        VcdDiscType::SuperVcd => "Super VCD (SVCD)"@,
        VcdDiscType::HqVcd => "HQ-VCD"@,
        VcdDiscType::RawVideoDisc { video_count } => "视频数据盘 (共 "@ + dec_digits(
            video_count as nat,
        ) + " 个视频)"@,
        VcdDiscType::Unknown => "未知光盘格式"@,
    }
}

impl VcdDiscType {
    /// The short English label, e.g. "VCD 3.0" or "SVCD".
    pub fn version_label(&self) -> (r: &'static str)
        ensures
            r@ == label_of(*self),
    {
        match self {
            VcdDiscType::Vcd30Interactive { .. } => "VCD 3.0",
            VcdDiscType::Vcd20WithPbc { .. } => "VCD 2.0",
            VcdDiscType::Vcd20Linear { .. } => "VCD 2.0",
            VcdDiscType::Vcd11 { .. } => "VCD 1.1",
            VcdDiscType::Vcd10 => "VCD 1.0",
            VcdDiscType::SuperVcd => "SVCD",
            VcdDiscType::HqVcd => "HQ-VCD",
            VcdDiscType::RawVideoDisc { .. } => "VIDEO CD",
            VcdDiscType::Unknown => "UNKNOWN DISC",
        }
    }

    /// Whether the disc can be played in VCD 3.0 interactive mode.
    pub fn supports_vcd30(&self) -> (r: bool)
        ensures
            r == (*self is Vcd30Interactive),
    {
        matches!(self, VcdDiscType::Vcd30Interactive { .. })
    }

    /// Whether the disc can be played in VCD 2.0 mode.
    pub fn supports_vcd20(&self) -> (r: bool)
        ensures
            r == (*self is Vcd30Interactive || *self is Vcd20WithPbc || *self is Vcd20Linear),
    {
        matches!(
            self,
            VcdDiscType::Vcd30Interactive { .. } | VcdDiscType::Vcd20WithPbc { .. }
                | VcdDiscType::Vcd20Linear { .. }
        )
    }

    /// Whether the disc can be played as a plain sequence of tracks.
    pub fn supports_vcd10(&self) -> (r: bool)
        ensures
            r == !(*self is Unknown),
    {
        !matches!(self, VcdDiscType::Unknown)
    }

    /// The descriptive text of the format.
    pub fn to_display_string(&self) -> (r: String)
        ensures
            r@ == display_of(*self),
    {
        let mut s = String::new();
        match self {
            VcdDiscType::Vcd30Interactive { has_vcd20_layer, entry_count, .. } => {
                if *has_vcd20_layer && *entry_count > 0 {
                    push_str(&mut s, "VCD 3.0 (兼容 VCD 2.0，共 ");
                    push_dec(&mut s, *entry_count as u64);
                    push_str(&mut s, " 个章节)");
                } else if *has_vcd20_layer {
                    push_str(&mut s, "VCD 3.0 (兼容 VCD 2.0)");
                } else {
                    push_str(&mut s, "VCD 3.0 (互动版)");
                }
            },
            VcdDiscType::Vcd20WithPbc { entry_count, segment_count } => {
                push_str(&mut s, "VCD 2.0 (带 PBC 交互，");
                push_dec(&mut s, *entry_count as u64);
                push_str(&mut s, " 章节，");
                push_dec(&mut s, *segment_count as u64);
                push_str(&mut s, " 菜单段)");
            },
            VcdDiscType::Vcd20Linear { entry_count } => {
                push_str(&mut s, "VCD 2.0 (纯视频，");
                push_dec(&mut s, *entry_count as u64);
                push_str(&mut s, " 章节)");
            },
            VcdDiscType::Vcd11 { entry_count } => {
                push_str(&mut s, "VCD 1.1 (");
                push_dec(&mut s, *entry_count as u64);
                push_str(&mut s, " 章节)");
            },
            VcdDiscType::Vcd10 => {
                push_str(&mut s, "VCD 1.0 (纯视频)");
            },
            VcdDiscType::SuperVcd => {
                push_str(&mut s, "Super VCD (SVCD)");
            },
            VcdDiscType::HqVcd => {
                push_str(&mut s, "HQ-VCD");
            },
            VcdDiscType::RawVideoDisc { video_count } => {
                push_str(&mut s, "视频数据盘 (共 ");
                push_dec(&mut s, *video_count as u64);
                push_str(&mut s, " 个视频)");
            },
            VcdDiscType::Unknown => {
                push_str(&mut s, "未知光盘格式");
            },
        }
        s
    }
}

/// A disc that plays in VCD 3.0 mode also plays in VCD 2.0 mode, and one that
/// plays in VCD 2.0 mode also plays as a plain sequence of tracks.
pub proof fn lemma_support_levels(t: VcdDiscType)
    ensures
        t is Vcd30Interactive ==> (t is Vcd30Interactive || t is Vcd20WithPbc || t is Vcd20Linear),
        (t is Vcd30Interactive || t is Vcd20WithPbc || t is Vcd20Linear) ==> !(t is Unknown),
{
}

/// Whether a file starts with the Java class magic `CA FE BA BE`.
pub open spec fn class_magic(b: Seq<u8>) -> bool {
    b.len() >= 4 && b[0] == 0xCA && b[1] == 0xFE && b[2] == 0xBA && b[3] == 0xBE
}

/// Tests `class_magic`.
pub fn has_class_magic(bytes: &[u8]) -> (r: bool)
    ensures
        r == class_magic(bytes@),
{
    bytes.len() >= 4 && bytes[0] == 0xCA && bytes[1] == 0xFE && bytes[2] == 0xBA && bytes[3]
        == 0xBE
}

/// Whether a file extension names a compiled HTML page (`chm`, any case).
pub fn is_chm_extension(ext: &str) -> (r: bool)
    ensures
        r == eq_ci(ext@, "CHM"@),
{
    str_eq_ci(ext, "CHM")
}

/// Whether a file extension names an MPEG video file (`dat`, `mpg`, `mpeg`, any case).
pub fn is_video_extension(ext: &str) -> (r: bool)
    ensures
        r == (eq_ci(ext@, "DAT"@) || eq_ci(ext@, "MPG"@) || eq_ci(ext@, "MPEG"@)),
{
    str_eq_ci(ext, "DAT") || str_eq_ci(ext, "MPG") || str_eq_ci(ext, "MPEG")
}

/// The format of a disc that is not VCD 3.0, from its `INFO.VCD` (if it could
/// be read), whether an `SVCD` folder exists, whether `PSD.VCD` and `LOT.VCD`
/// both exist, the number of entry points and the number of MPEG files found.
pub open spec fn classify_plain(
    info: Option<VcdInfo>,
    entry_count: usize,
    has_svcd_dir: bool,
    has_pbc_files: bool,
    video_count: usize,
) -> VcdDiscType {
    let fallback = if video_count > 0 {
        VcdDiscType::RawVideoDisc { video_count }
    } else {
        VcdDiscType::Unknown
    };
    match info {
        Some(i) => {
            if eq_ci(i.id@, "SUPERVCD"@) || has_svcd_dir {
                VcdDiscType::SuperVcd
            } else if eq_ci(i.id@, "HQ-VCD"@) {
                VcdDiscType::HqVcd
            } else if i.version == 2 {
                if i.psd_size > 0 || has_pbc_files {
                    VcdDiscType::Vcd20WithPbc { entry_count, segment_count: i.item_count as usize }
                } else {
                    VcdDiscType::Vcd20Linear { entry_count }
                }
            } else if i.version == 1 {
                if i.sys_prof_tag == 1 {
                    VcdDiscType::Vcd11 { entry_count }
                } else {
                    VcdDiscType::Vcd10
                }
            } else {
                fallback
            }
        },
        None => fallback,
    }
}

/// Decides the format of a disc from what was found on it.
///
/// `is_vcd30` says that the disc has a Java `AUTORUN.CLS` (checked with
/// `has_class_magic`) and a `DATA/VCD_DATA` folder with `.CHM` pages.
pub fn classify_disc(
    is_vcd30: bool,
    info: Option<&VcdInfo>,
    entry_count: usize,
    has_svcd_dir: bool,
    has_pbc_files: bool,
    video_count: usize,
) -> (r: VcdDiscType)
    ensures
        match r {
            VcdDiscType::Vcd30Interactive { version_str, has_vcd20_layer, entry_count: n } => {
                &&& is_vcd30
                &&& version_str@ == "3.0"@
                &&& has_vcd20_layer == (info matches Some(i) && i.id@ == "VIDEO_CD"@ && i.version
                    == 2)
                &&& n == entry_count
            },
            _ => !is_vcd30 && r == classify_plain(
                match info {
                    Some(i) => Some(*i),
                    None => None,
                },
                entry_count,
                has_svcd_dir,
                has_pbc_files,
                video_count,
            ),
        },
{
    if is_vcd30 {
        let layer = match info {
            Some(i) => i.is_vcd20(),
            None => false,
        };
        return VcdDiscType::Vcd30Interactive {
            version_str: String::from_str("3.0"),
            has_vcd20_layer: layer,
            entry_count,
        };
    }
    let fallback = if video_count > 0 {
        VcdDiscType::RawVideoDisc { video_count }
    } else {
        VcdDiscType::Unknown
    };
    match info {
        Some(i) => {
            if str_eq_ci(i.id.as_str(), "SUPERVCD") || has_svcd_dir {
                VcdDiscType::SuperVcd
            } else if str_eq_ci(i.id.as_str(), "HQ-VCD") {
                VcdDiscType::HqVcd
            } else if i.version == 2 {
                if i.has_pbc() || has_pbc_files {
                    VcdDiscType::Vcd20WithPbc { entry_count, segment_count: i.item_count as usize }
                } else {
                    VcdDiscType::Vcd20Linear { entry_count }
                }
            } else if i.version == 1 {
                if i.sys_prof_tag == 1 {
                    VcdDiscType::Vcd11 { entry_count }
                } else {
                    VcdDiscType::Vcd10
                }
            } else {
                fallback
            }
        },
        None => fallback,
    }
}

} // verus!
