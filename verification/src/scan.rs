//! The cancellable directory scan: a state machine the walking loop drives,
//! and the analysis of what a scan recorded — totals, per-type statistics,
//! likely duplicates, the largest and oldest files, and the advice figures
//! the consulting screen presents.

use vstd::prelude::*;

use crate::mask::{spec_digits, u128_digits};
use crate::text::{chars_to_string, lower_chars, spec_lower, str_to_chars};

verus! {

/// One file a scan recorded.
#[derive(Debug)]
pub struct FileInfo {
    pub path: String,
    pub name: String,
    pub size: u64,
    pub file_type: String,
    pub extension: String,
    pub modified: String,
}

/// Count, bytes and share of one file type; the share is in basis points
/// (hundredths of a percent) of the scanned bytes.
#[derive(Debug, Clone)]
pub struct TypeStats {
    pub count: u64,
    pub total_size: u128,
    pub share_bp: u128,
}

/// A file flagged as suspicious.
#[derive(Debug, Clone)]
pub struct SuspiciousFile {
    pub path: String,
    pub name: String,
    pub size: u64,
    pub reason: String,
    pub risk_level: String,
}

/// Files sharing one size, duplicate suspects.
#[derive(Debug, Clone)]
pub struct DuplicateGroup {
    pub size: u64,
    pub files: Vec<String>,
}

/// Per-folder figures for a drill-down view.
#[derive(Debug, Clone)]
pub struct FolderAnalysis {
    pub path: String,
    pub name: String,
    pub total_size: u128,
    pub file_count: u64,
    pub folder_count: u64,
    pub largest_files: Vec<FileInfo>,
    pub file_type_breakdown: Vec<(String, TypeStats)>,
}

/// The figures behind the consulting advice, ready for presentation.
#[derive(Debug, Clone)]
pub struct ScanAdvice {
    pub duplicate_groups: usize,
    pub duplicate_saving: u128,
    pub very_large_count: usize,
    pub old_count: usize,
    pub old_total: u128,
    pub video_share_bp: u128,
    pub archive_count: u64,
    pub archive_size: u128,
    pub executable_count: u64,
    pub executable_size: u128,
}

/// Everything a finished scan reports.
#[derive(Debug, Clone)]
pub struct FileConsultingResult {
    pub total_scanned: u64,
    pub total_size: u128,
    pub total_folders: u64,
    pub cancelled: bool,
    pub folders: Vec<FolderAnalysis>,
    pub advice: ScanAdvice,
    pub duplicates: Vec<DuplicateGroup>,
    pub large_files: Vec<FileInfo>,
    pub old_files: Vec<FileInfo>,
    pub type_summary: Vec<(String, TypeStats)>,
    pub videos: Vec<FileInfo>,
    pub suspicious_files: Vec<SuspiciousFile>,
}

/// The label a file extension is classified under, letter case ignored.
pub open spec fn spec_file_type(ext: Seq<char>) -> Seq<char> {
    let e = spec_lower(ext);
    if e == "jpg"@ || e == "jpeg"@ || e == "png"@ || e == "gif"@ || e == "bmp"@ || e == "webp"@
        || e == "svg"@ || e == "ico"@ || e == "heic"@ || e == "heif"@ || e == "tiff"@ || e
        == "raw"@ {
        "🖼️ 이미지"@
    } else if e == "mp4"@ || e == "avi"@ || e == "mov"@ || e == "mkv"@ || e == "wmv"@ || e
        == "flv"@ || e == "webm"@ || e == "m4v"@ {
        "🎬 동영상"@
    } else if e == "mp3"@ || e == "wav"@ || e == "flac"@ || e == "aac"@ || e == "ogg"@ || e
        == "m4a"@ || e == "wma"@ {
        "🎵 오디오"@
    } else if e == "pdf"@ || e == "doc"@ || e == "docx"@ || e == "xls"@ || e == "xlsx"@ || e
        == "ppt"@ || e == "pptx"@ || e == "txt"@ || e == "rtf"@ || e == "odt"@ || e == "ods"@
        || e == "odp"@ {
        "📄 문서"@
    } else if e == "zip"@ || e == "rar"@ || e == "7z"@ || e == "tar"@ || e == "gz"@ || e == "bz2"@
        || e == "xz"@ {
        "📦 압축파일"@
    } else if e == "js"@ || e == "ts"@ || e == "py"@ || e == "java"@ || e == "cpp"@ || e == "c"@
        || e == "h"@ || e == "rs"@ || e == "go"@ || e == "rb"@ || e == "php"@ || e == "html"@
        || e == "css"@ || e == "json"@ || e == "xml"@ || e == "yaml"@ || e == "yml"@ {
        "💻 코드"@
    } else if e == "exe"@ || e == "app"@ || e == "dmg"@ || e == "pkg"@ || e == "msi"@ || e
        == "deb"@ || e == "rpm"@ {
        "⚙️ 실행파일"@
    } else if e == "db"@ || e == "sqlite"@ || e == "sql"@ || e == "csv"@ {
        "🗃️ 데이터"@
    } else {
        "📎 기타"@
    }
}

/// True when the characters equal the literal's characters.
fn chars_eq(v: &[char], s: &str) -> (r: bool)
    ensures
        r == (v@ == s@),
{
    let sc = str_to_chars(s);
    if v.len() != sc.len() {
        return false;
    }
    let r = crate::text::has_prefix(v, sc.as_slice());
    proof {
        assert(v@.subrange(0, sc@.len() as int) =~= v@);
    }
    r
}

/// Classifies a file extension into its display label, letter case ignored.
pub fn get_file_type(extension: &str) -> (r: String)
    ensures
        r@ == spec_file_type(extension@),
{
    let ec = str_to_chars(extension);
    let el = lower_chars(ec.as_slice());
    let e = el.as_slice();
    let label: &str = if chars_eq(e, "jpg") || chars_eq(e, "jpeg") || chars_eq(e, "png")
        || chars_eq(e, "gif") || chars_eq(e, "bmp") || chars_eq(e, "webp") || chars_eq(e, "svg")
        || chars_eq(e, "ico") || chars_eq(e, "heic") || chars_eq(e, "heif") || chars_eq(e, "tiff")
        || chars_eq(e, "raw") {
        "🖼️ 이미지"
    } else if chars_eq(e, "mp4") || chars_eq(e, "avi") || chars_eq(e, "mov") || chars_eq(e, "mkv")
        || chars_eq(e, "wmv") || chars_eq(e, "flv") || chars_eq(e, "webm") || chars_eq(e, "m4v") {
        "🎬 동영상"
    } else if chars_eq(e, "mp3") || chars_eq(e, "wav") || chars_eq(e, "flac") || chars_eq(e, "aac")
        || chars_eq(e, "ogg") || chars_eq(e, "m4a") || chars_eq(e, "wma") {
        "🎵 오디오"
    } else if chars_eq(e, "pdf") || chars_eq(e, "doc") || chars_eq(e, "docx") || chars_eq(e, "xls")
        || chars_eq(e, "xlsx") || chars_eq(e, "ppt") || chars_eq(e, "pptx") || chars_eq(e, "txt")
        || chars_eq(e, "rtf") || chars_eq(e, "odt") || chars_eq(e, "ods") || chars_eq(e, "odp") {
        "📄 문서"
    } else if chars_eq(e, "zip") || chars_eq(e, "rar") || chars_eq(e, "7z") || chars_eq(e, "tar")
        || chars_eq(e, "gz") || chars_eq(e, "bz2") || chars_eq(e, "xz") {
        "📦 압축파일"
    } else if chars_eq(e, "js") || chars_eq(e, "ts") || chars_eq(e, "py") || chars_eq(e, "java")
        || chars_eq(e, "cpp") || chars_eq(e, "c") || chars_eq(e, "h") || chars_eq(e, "rs")
        || chars_eq(e, "go") || chars_eq(e, "rb") || chars_eq(e, "php") || chars_eq(e, "html")
        || chars_eq(e, "css") || chars_eq(e, "json") || chars_eq(e, "xml") || chars_eq(e, "yaml")
        || chars_eq(e, "yml") {
        "💻 코드"
    } else if chars_eq(e, "exe") || chars_eq(e, "app") || chars_eq(e, "dmg") || chars_eq(e, "pkg")
        || chars_eq(e, "msi") || chars_eq(e, "deb") || chars_eq(e, "rpm") {
        "⚙️ 실행파일"
    } else if chars_eq(e, "db") || chars_eq(e, "sqlite") || chars_eq(e, "sql") || chars_eq(
        e,
        "csv",
    ) {
        "🗃️ 데이터"
    } else {
        "📎 기타"
    };
    label.to_owned()
}

/// One kibibyte.
pub const SIZE_KB: u64 = 1024;

/// One mebibyte.
pub const SIZE_MB: u64 = 1048576;

/// One gibibyte.
pub const SIZE_GB: u64 = 1073741824;

/// One tebibyte.
pub const SIZE_TB: u64 = 1099511627776;

/// A byte count scaled to hundredths of a unit, rounded half up.
pub open spec fn spec_scaled(bytes: nat, unit: nat) -> nat
    recommends
        unit > 0,
{
    (bytes * 100 + unit / 2) / unit
}

/// A count of hundredths written with two decimals.
pub open spec fn spec_two_dec(q: nat) -> Seq<char> {
    spec_digits(q / 100) + "."@ + (if q % 100 < 10 {
        "0"@ + spec_digits(q % 100)
    } else {
        spec_digits(q % 100)
    })
}

/// A byte count written for reading: two decimals of the largest unit the
/// count reaches, or plain bytes under a kibibyte.
pub open spec fn spec_format_size(bytes: nat) -> Seq<char> {
    if bytes >= SIZE_TB {
        spec_two_dec(spec_scaled(bytes, SIZE_TB as nat)) + " TB"@
    } else if bytes >= SIZE_GB {
        spec_two_dec(spec_scaled(bytes, SIZE_GB as nat)) + " GB"@
    } else if bytes >= SIZE_MB {
        spec_two_dec(spec_scaled(bytes, SIZE_MB as nat)) + " MB"@
    } else if bytes >= SIZE_KB {
        spec_two_dec(spec_scaled(bytes, SIZE_KB as nat)) + " KB"@
    } else {
        spec_digits(bytes) + " B"@
    }
}

fn two_dec(bytes: u64, unit: u64) -> (r: Vec<char>)
    requires
        unit > 0,
    ensures
        r@ == spec_two_dec(spec_scaled(bytes as nat, unit as nat)),
{
    let q: u128 = (bytes as u128 * 100 + unit as u128 / 2) / (unit as u128);
    proof {
        assert(q == spec_scaled(bytes as nat, unit as nat));
    }
    let mut out = u128_digits(q / 100);
    let dot = str_to_chars(".");
    out.extend_from_slice(dot.as_slice());
    if q % 100 < 10 {
        let zero = str_to_chars("0");
        out.extend_from_slice(zero.as_slice());
    }
    let frac = u128_digits(q % 100);
    out.extend_from_slice(frac.as_slice());
    proof {
        assert(out@ =~= spec_two_dec(spec_scaled(bytes as nat, unit as nat)));
    }
    out
}

/// Writes a byte count for reading: two decimals of the largest unit it
/// reaches, or plain bytes under a kibibyte.
pub fn format_size(bytes: u64) -> (r: String)
    ensures
        r@ == spec_format_size(bytes as nat),
{
    let mut out: Vec<char>;
    let suffix: &str;
    if bytes >= SIZE_TB {
        out = two_dec(bytes, SIZE_TB);
        suffix = " TB";
    } else if bytes >= SIZE_GB {
        out = two_dec(bytes, SIZE_GB);
        suffix = " GB";
    } else if bytes >= SIZE_MB {
        out = two_dec(bytes, SIZE_MB);
        suffix = " MB";
    } else if bytes >= SIZE_KB {
        out = two_dec(bytes, SIZE_KB);
        suffix = " KB";
    } else {
        out = u128_digits(bytes as u128);
        suffix = " B";
    }
    let tail = str_to_chars(suffix);
    out.extend_from_slice(tail.as_slice());
    proof {
        assert(out@ =~= spec_format_size(bytes as nat));
    }
    chars_to_string(out.as_slice())
}

/// Text order on characters, code point by code point, as ISO dates
/// compare.
pub open spec fn spec_lex_lt(a: Seq<char>, b: Seq<char>) -> bool
    decreases a.len(),
{
    if b.len() == 0 {
        false
    } else if a.len() == 0 {
        true
    } else if a[0] != b[0] {
        (a[0] as u32) < (b[0] as u32)
    } else {
        spec_lex_lt(a.drop_first(), b.drop_first())
    }
}

/// Compares two texts in text order.
pub fn lex_lt(a: &[char], b: &[char]) -> (r: bool)
    ensures
        r == spec_lex_lt(a@, b@),
    decreases a@.len(),
{
    if b.len() == 0 {
        false
    } else if a.len() == 0 {
        true
    } else if a[0] != b[0] {
        (a[0] as u32) < (b[0] as u32)
    } else {
        let al: usize = a.len();
        let bl: usize = b.len();
        let r = lex_lt(&a[1..al], &b[1..bl]);
        proof {
            assert(a@.subrange(1, a@.len() as int) =~= a@.drop_first());
            assert(b@.subrange(1, b@.len() as int) =~= b@.drop_first());
        }
        r
    }
}

/// A value ordered by a byte weight.
pub trait Weighted: Sized {
    /// The weight sorting goes by.
    spec fn weight(&self) -> u64;

    /// Reads the weight.
    fn weight_val(&self) -> (r: u64)
        ensures
            r == self.weight(),
    ;
}

impl Weighted for FileInfo {
    open spec fn weight(&self) -> u64 {
        self.size
    }

    fn weight_val(&self) -> u64 {
        self.size
    }
}

/// The index of a heaviest element.
fn max_weight_index<T: Weighted>(v: &Vec<T>) -> (r: usize)
    requires
        v@.len() > 0,
    ensures
        r < v@.len(),
        forall|j: int| 0 <= j < v@.len() ==> (#[trigger] v@[j]).weight() <= v@[r as int].weight(),
{
    let mut best: usize = 0;
    let mut i: usize = 1;
    while i < v.len()
        invariant
            v@.len() > 0,
            best < v@.len(),
            i <= v@.len(),
            forall|j: int| 0 <= j < i ==> (#[trigger] v@[j]).weight() <= v@[best as int].weight(),
        decreases v@.len() - i,
    {
        if v[i].weight_val() > v[best].weight_val() {
            best = i;
        }
        i += 1;
    }
    best
}

/// Sorts by weight, heaviest first; the result holds exactly the given
/// elements.
pub fn sort_desc<T: Weighted>(v: Vec<T>) -> (r: Vec<T>)
    ensures
        r@.to_multiset() == v@.to_multiset(),
        r@.len() == v@.len(),
        forall|i: int, j: int|
            0 <= i < j < r@.len() ==> (#[trigger] r@[i]).weight() >= (#[trigger] r@[j]).weight(),
{
    broadcast use vstd::seq_lib::group_to_multiset_ensures;

    let ghost orig = v@;
    let mut rest = v;
    let mut out: Vec<T> = Vec::new();
    proof {
        assert(out@.to_multiset().add(rest@.to_multiset()) =~= orig.to_multiset());
    }
    while rest.len() > 0
        invariant
            out@.to_multiset().add(rest@.to_multiset()) == orig.to_multiset(),
            out@.len() + rest@.len() == orig.len(),
            forall|i: int, j: int|
                0 <= i < j < out@.len() ==> (#[trigger] out@[i]).weight() >= (
                #[trigger] out@[j]).weight(),
            forall|j: int|
                0 <= j < rest@.len() ==> out@.len() == 0 || (#[trigger] rest@[j]).weight()
                    <= out@.last().weight(),
        decreases rest@.len(),
    {
        let ghost pre_out = out@;
        let ghost pre_rest = rest@;
        let mi = max_weight_index(&rest);
        let x = rest.remove(mi);
        proof {
            assert(x == pre_rest[mi as int]);
        }
        out.push(x);
        proof {
            pre_out.to_multiset_ensures();
            pre_rest.to_multiset_ensures();
            assert(out@ == pre_out.push(x));
            assert(rest@ == pre_rest.remove(mi as int));
            assert(out@.to_multiset() =~= pre_out.to_multiset().insert(x));
            assert(rest@.to_multiset() =~= pre_rest.to_multiset().remove(x));
            assert(pre_rest.to_multiset().count(x) > 0);
            assert(out@.to_multiset().add(rest@.to_multiset()) =~= pre_out.to_multiset().add(
                pre_rest.to_multiset(),
            ));
            assert forall|j: int| 0 <= j < rest@.len() implies (#[trigger] rest@[j]).weight()
                <= out@.last().weight() by {
                if j < mi {
                    assert(rest@[j] == pre_rest[j]);
                } else {
                    assert(rest@[j] == pre_rest[j + 1]);
                }
            }
            assert forall|i: int, j: int| 0 <= i < j < out@.len() implies (
            #[trigger] out@[i]).weight() >= (#[trigger] out@[j]).weight() by {
                if j < out@.len() - 1 {
                    assert(out@[i] == pre_out[i]);
                    assert(out@[j] == pre_out[j]);
                } else {
                    assert(out@[j] == x);
                    if i < out@.len() - 1 {
                        assert(out@[i] == pre_out[i]);
                    }
                }
            }
        }
    }
    out
}

/// The deepest directory level a scan descends to.
pub const MAX_SCAN_DEPTH: u64 = 10;

/// A file is a duplicate suspect only above this size.
pub const DUP_MIN_SIZE: u64 = 1048576;

/// An old file is reported only above this size.
pub const OLD_MIN_SIZE: u64 = 10485760;

/// A file is called very large above this size.
pub const VERY_LARGE_SIZE: u64 = 524288000;

/// The running state of a directory scan: the stack of directories still to
/// read, what was recorded, and the cancellation flag. The walking loop asks
/// `next_dir` where to read and reports what it finds; once `cancel` has
/// run, nothing offered changes the state and no directory is handed out.
pub struct ScanState {
    pub pending: Vec<(String, u64)>,
    pub files: Vec<FileInfo>,
    pub folder_count: u64,
    pub cancelled: bool,
}

/// True of a name the scan skips: hidden entries, starting with a dot.
pub open spec fn spec_hidden(name: Seq<char>) -> bool {
    name.len() > 0 && name[0] == '.'
}

impl ScanState {
    /// A scan about to read the root directory.
    pub fn start(root: &str) -> (r: ScanState)
        ensures
            r.pending@.len() == 1,
            r.pending@[0].0@ == root@,
            r.pending@[0].1 == 0,
            r.files@.len() == 0,
            r.folder_count == 0,
            !r.cancelled,
    {
        let mut pending: Vec<(String, u64)> = Vec::new();
        pending.push((root.to_owned(), 0));
        ScanState { pending, files: Vec::new(), folder_count: 0, cancelled: false }
    }

    /// Raises the cancellation flag; everything recorded stays.
    pub fn cancel(&mut self)
        ensures
            final(self).cancelled,
            final(self).pending == old(self).pending,
            final(self).files == old(self).files,
            final(self).folder_count == old(self).folder_count,
    {
        self.cancelled = true;
    }

    /// Reads the cancellation flag.
    pub fn is_cancelled(&self) -> (r: bool)
        ensures
            r == self.cancelled,
    {
        self.cancelled
    }

    /// The next directory to read, deepest first; a cancelled scan hands
    /// out nothing, which halts the traversal.
    pub fn next_dir(&mut self) -> (r: Option<(String, u64)>)
        ensures
            final(self).files == old(self).files,
            final(self).folder_count == old(self).folder_count,
            final(self).cancelled == old(self).cancelled,
            old(self).cancelled ==> r is None && final(self).pending == old(self).pending,
            !old(self).cancelled && old(self).pending@.len() == 0 ==> r is None && final(self).pending@ == old(self).pending@,
            !old(self).cancelled && old(self).pending@.len() > 0 ==> r == Some(
                old(self).pending@.last(),
            ) && final(self).pending@ == old(self).pending@.drop_last(),
    {
        if self.cancelled {
            return None;
        }
        self.pending.pop()
    }

    /// Records a directory entry: hidden names are skipped, the folder is
    /// counted, and it is queued for reading unless the depth limit is
    /// reached; a cancelled scan records nothing.
    pub fn record_dir(&mut self, path: String, name: &str, parent_depth: u64)
        requires
            old(self).folder_count < u64::MAX,
        ensures
            final(self).files == old(self).files,
            final(self).cancelled == old(self).cancelled,
            old(self).cancelled || spec_hidden(name@) ==> final(self).pending == old(self).pending
                && final(self).folder_count == old(self).folder_count,
            !old(self).cancelled && !spec_hidden(name@) ==> {
                &&& final(self).folder_count == old(self).folder_count + 1
                &&& if parent_depth < MAX_SCAN_DEPTH {
                    final(self).pending@.len() == old(self).pending@.len() + 1
                        && final(self).pending@.last().0 == path && final(self).pending@.last().1
                        == parent_depth + 1 && final(self).pending@.drop_last() == old(self).pending@
                } else {
                    final(self).pending == old(self).pending
                }
            },
    {
        if self.cancelled || is_hidden(name) {
            return ;
        }
        self.folder_count = self.folder_count + 1;
        if parent_depth < MAX_SCAN_DEPTH {
            self.pending.push((path, parent_depth + 1));
            proof {
                assert(self.pending@.drop_last() =~= old(self).pending@);
            }
        }
    }

    /// Records a file entry: hidden names are skipped, and the file is
    /// stored with its classified type; a cancelled scan records nothing.
    pub fn record_file(
        &mut self,
        path: String,
        name: String,
        size: u64,
        extension: String,
        modified: String,
    )
        ensures
            final(self).pending == old(self).pending,
            final(self).folder_count == old(self).folder_count,
            final(self).cancelled == old(self).cancelled,
            old(self).cancelled || spec_hidden(name@) ==> final(self).files == old(self).files,
            !old(self).cancelled && !spec_hidden(name@) ==> {
                &&& final(self).files@.len() == old(self).files@.len() + 1
                &&& final(self).files@.drop_last() == old(self).files@
                &&& ({
                    let f = final(self).files@.last();
                    f.path == path && f.name == name && f.size == size && f.extension == extension
                        && f.modified == modified && f.file_type@ == spec_file_type(extension@)
                })
            },
    {
        if self.cancelled || is_hidden(name.as_str()) {
            return ;
        }
        let file_type = get_file_type(extension.as_str());
        self.files.push(FileInfo { path, name, size, file_type, extension, modified });
        proof {
            assert(self.files@.drop_last() =~= old(self).files@);
        }
    }
}

fn is_hidden(name: &str) -> (r: bool)
    ensures
        r == spec_hidden(name@),
{
    let c = str_to_chars(name);
    c.len() > 0 && c[0] == '.'
}

/// The bytes of the recorded files, summed.
pub open spec fn spec_total_size(s: Seq<FileInfo>) -> int
    decreases s.len(),
{
    if s.len() == 0 {
        0
    } else {
        spec_total_size(s.drop_last()) + s.last().size
    }
}

/// How many recorded files carry the given type label.
pub open spec fn spec_type_count(s: Seq<FileInfo>, t: Seq<char>) -> int
    decreases s.len(),
{
    if s.len() == 0 {
        0
    } else {
        spec_type_count(s.drop_last(), t) + if s.last().file_type@ == t {
            1int
        } else {
            0int
        }
    }
}

/// The bytes of the recorded files carrying the given type label.
pub open spec fn spec_type_size(s: Seq<FileInfo>, t: Seq<char>) -> int
    decreases s.len(),
{
    if s.len() == 0 {
        0
    } else {
        spec_type_size(s.drop_last(), t) + if s.last().file_type@ == t {
            s.last().size as int
        } else {
            0int
        }
    }
}

/// The distinct type labels among the recorded files, in first-appearance
/// order.
pub open spec fn spec_distinct_types(s: Seq<FileInfo>) -> Seq<Seq<char>>
    decreases s.len(),
{
    if s.len() == 0 {
        Seq::<Seq<char>>::empty()
    } else {
        let rest = spec_distinct_types(s.drop_last());
        let t = s.last().file_type@;
        if rest.contains(t) {
            rest
        } else {
            rest.push(t)
        }
    }
}

/// The share of `part` in `total`, in basis points; zero when nothing was
/// scanned.
pub open spec fn spec_share_bp(part: int, total: int) -> int {
    if total > 0 {
        part * 10000 / total
    } else {
        0
    }
}

/// The distinct sizes above the duplicate threshold, in first-appearance
/// order.
pub open spec fn spec_large_sizes(s: Seq<FileInfo>) -> Seq<u64>
    decreases s.len(),
{
    if s.len() == 0 {
        Seq::<u64>::empty()
    } else {
        let rest = spec_large_sizes(s.drop_last());
        let z = s.last().size;
        if z > DUP_MIN_SIZE && !rest.contains(z) {
            rest.push(z)
        } else {
            rest
        }
    }
}

/// The paths of the recorded files with exactly the given size, in order.
pub open spec fn spec_paths_with_size(s: Seq<FileInfo>, z: u64) -> Seq<Seq<char>>
    decreases s.len(),
{
    if s.len() == 0 {
        Seq::<Seq<char>>::empty()
    } else {
        let rest = spec_paths_with_size(s.drop_last(), z);
        if s.last().size == z {
            rest.push(s.last().path@)
        } else {
            rest
        }
    }
}

/// The duplicate groups over a list of candidate sizes: one group per size
/// shared by at least two files.
pub open spec fn spec_dup_groups_from(s: Seq<FileInfo>, sizes: Seq<u64>) -> Seq<
    (u64, Seq<Seq<char>>),
>
    decreases sizes.len(),
{
    if sizes.len() == 0 {
        Seq::<(u64, Seq<Seq<char>>)>::empty()
    } else {
        let rest = spec_dup_groups_from(s, sizes.drop_first());
        let paths = spec_paths_with_size(s, sizes.first());
        if paths.len() >= 2 {
            seq![(sizes.first(), paths)] + rest
        } else {
            rest
        }
    }
}

/// The duplicate groups of a scan.
pub open spec fn spec_dup_groups(s: Seq<FileInfo>) -> Seq<(u64, Seq<Seq<char>>)> {
    spec_dup_groups_from(s, spec_large_sizes(s))
}

/// The bytes deduplication would save: each group keeps one copy.
pub open spec fn spec_dup_saving(groups: Seq<(u64, Seq<Seq<char>>)>) -> int
    decreases groups.len(),
{
    if groups.len() == 0 {
        0
    } else {
        spec_dup_saving(groups.drop_last()) + groups.last().0 * (groups.last().1.len() - 1)
    }
}

/// True of a file old enough and large enough to report: modified before
/// the cutoff date and above the size threshold.
pub open spec fn spec_is_old(f: FileInfo, cutoff: Seq<char>) -> bool {
    spec_lex_lt(f.modified@, cutoff) && f.size > OLD_MIN_SIZE
}

/// The old large files, in recorded order.
pub open spec fn spec_old_files(s: Seq<FileInfo>, cutoff: Seq<char>) -> Seq<FileInfo>
    decreases s.len(),
{
    if s.len() == 0 {
        Seq::<FileInfo>::empty()
    } else {
        let rest = spec_old_files(s.drop_last(), cutoff);
        if spec_is_old(s.last(), cutoff) {
            rest.push(s.last())
        } else {
            rest
        }
    }
}

/// The recorded video files, in recorded order.
pub open spec fn spec_videos(s: Seq<FileInfo>) -> Seq<FileInfo>
    decreases s.len(),
{
    if s.len() == 0 {
        Seq::<FileInfo>::empty()
    } else {
        let rest = spec_videos(s.drop_last());
        if s.last().file_type@ == "🎬 동영상"@ {
            rest.push(s.last())
        } else {
            rest
        }
    }
}

impl Clone for FileInfo {
    /// A copy equal to the original.
    fn clone(&self) -> (res: Self)
        ensures
            res == *self,
    {
        FileInfo {
            path: self.path.clone(),
            name: self.name.clone(),
            size: self.size,
            file_type: self.file_type.clone(),
            extension: self.extension.clone(),
            modified: self.modified.clone(),
        }
    }
}

/// Files sorted by size, largest first.
pub open spec fn spec_sorted_desc(s: Seq<FileInfo>) -> bool {
    forall|i: int, j: int| 0 <= i < j < s.len() ==> (#[trigger] s[i]).size >= (#[trigger] s[j]).size
}

/// Distinct type labels never repeat.
proof fn lemma_distinct_types_unique(s: Seq<FileInfo>)
    ensures
        forall|i: int, j: int|
            0 <= i < j < spec_distinct_types(s).len() ==> spec_distinct_types(s)[i]
                != spec_distinct_types(s)[j],
        forall|t: Seq<char>|
            spec_distinct_types(s).contains(t) <==> exists|m: int|
                0 <= m < s.len() && (#[trigger] s[m]).file_type@ == t,
    decreases s.len(),
{
    if s.len() == 0 {
    } else {
        lemma_distinct_types_unique(s.drop_last());
        let rest = spec_distinct_types(s.drop_last());
        let t0 = s.last().file_type@;
        let d = spec_distinct_types(s);
        assert forall|t: Seq<char>| d.contains(t) implies exists|m: int|
            0 <= m < s.len() && (#[trigger] s[m]).file_type@ == t by {
            if rest.contains(t) {
                let m = choose|m: int| 0 <= m < s.drop_last().len() && (#[trigger] s.drop_last()[m]).file_type@ == t;
                assert(s[m].file_type@ == t);
            } else {
                assert(t == t0);
                assert(s[s.len() - 1].file_type@ == t);
            }
        }
        assert forall|t: Seq<char>| (exists|m: int|
            0 <= m < s.len() && (#[trigger] s[m]).file_type@ == t) implies d.contains(t) by {
            let m = choose|m: int| 0 <= m < s.len() && (#[trigger] s[m]).file_type@ == t;
            if m < s.len() - 1 {
                assert(s.drop_last()[m].file_type@ == t);
                assert(rest.contains(t));
                if rest.contains(t0) {
                    assert(d == rest);
                } else {
                    assert(d == rest.push(t0) || d == rest);
                    assert(d.contains(t)) by {
                        let ri = choose|ri: int| 0 <= ri < rest.len() && rest[ri] == t;
                        assert(d[ri] == t);
                    }
                }
            } else {
                if rest.contains(t0) {
                    let ri = choose|ri: int| 0 <= ri < rest.len() && rest[ri] == t0;
                    assert(d[ri] == t);
                } else {
                    assert(d == rest.push(t0));
                    assert(d[d.len() - 1] == t);
                }
            }
        }
        if !rest.contains(t0) {
            assert forall|i: int, j: int| 0 <= i < j < d.len() implies d[i] != d[j] by {
                if j < d.len() - 1 {
                    assert(d[i] == rest[i]);
                    assert(d[j] == rest[j]);
                } else {
                    assert(d[i] == rest[i]);
                    assert(d[j] == t0);
                    assert(rest.contains(rest[i]));
                }
            }
        }
    }
}

/// The bytes of the recorded files, summed exactly.
fn total_size_of(files: &Vec<FileInfo>) -> (r: u128)
    requires
        files@.len() < 0x1_0000_0000_0000,
    ensures
        r == spec_total_size(files@),
        r <= files@.len() * 0xffff_ffff_ffff_ffff,
{
    let mut sum: u128 = 0;
    let mut i: usize = 0;
    while i < files.len()
        invariant
            i <= files@.len(),
            files@.len() < 0x1_0000_0000_0000,
            sum == spec_total_size(files@.subrange(0, i as int)),
            sum <= (i as int) * 0xffff_ffff_ffff_ffff,
        decreases files@.len() - i,
    {
        let ghost prefix = files@.subrange(0, i as int);
        sum = sum + files[i].size as u128;
        proof {
            let next = files@.subrange(0, i as int + 1);
            assert(next.drop_last() =~= prefix);
            assert(next.last() == files@[i as int]);
        }
        i += 1;
    }
    proof {
        assert(files@.subrange(0, files@.len() as int) =~= files@);
    }
    sum
}

/// The per-type statistics of the recorded files, in first-appearance
/// order, with exact counts, bytes and shares.
fn type_summary_of(files: &Vec<FileInfo>, total: u128) -> (r: Vec<(String, TypeStats)>)
    requires
        files@.len() < 0x1_0000_0000_0000,
        total == spec_total_size(files@),
    ensures
        r@.len() == spec_distinct_types(files@).len(),
        forall|k: int|
            0 <= k < r@.len() ==> ({
                let e = #[trigger] r@[k];
                let t = spec_distinct_types(files@)[k];
                e.0@ == t && e.1.count == spec_type_count(files@, t) && e.1.total_size
                    == spec_type_size(files@, t) && e.1.share_bp == spec_share_bp(
                    spec_type_size(files@, t),
                    spec_total_size(files@),
                )
            }),
{
    let ghost all = files@;
    let mut acc: Vec<(String, TypeStats)> = Vec::new();
    let mut i: usize = 0;
    while i < files.len()
        invariant
            i <= all.len(),
            all == files@,
            all.len() < 0x1_0000_0000_0000,
            acc@.len() == spec_distinct_types(all.subrange(0, i as int)).len(),
            forall|k: int|
                0 <= k < acc@.len() ==> ({
                    let e = #[trigger] acc@[k];
                    let t = spec_distinct_types(all.subrange(0, i as int))[k];
                    e.0@ == t && e.1.count == spec_type_count(all.subrange(0, i as int), t)
                        && e.1.count <= i && e.1.total_size == spec_type_size(
                        all.subrange(0, i as int),
                        t,
                    ) && e.1.total_size <= (i as int) * 0xffff_ffff_ffff_ffff
                }),
        decreases all.len() - i,
    {
        let ghost prefix = all.subrange(0, i as int);
        let ghost types = spec_distinct_types(prefix);
        let f = &files[i];
        let found = find_type(&acc, f.file_type.as_str());
        proof {
            lemma_distinct_types_unique(prefix);
            let next = all.subrange(0, i as int + 1);
            assert(next.drop_last() =~= prefix);
            assert(next.last() == all[i as int]);
        }
        match found {
            Some(p) => {
                proof {
                    assert(acc@[p as int].0@ == f.file_type@);
                    assert(types[p as int] == f.file_type@);
                    assert(types.contains(f.file_type@)) by {
                        assert(types[p as int] == f.file_type@);
                    }
                }
                let c = acc[p].1.count;
                let z = acc[p].1.total_size;
                acc[p].1.count = c + 1;
                acc[p].1.total_size = z + f.size as u128;
                proof {
                    let next = all.subrange(0, i as int + 1);
                    assert forall|k: int| 0 <= k < acc@.len() implies ({
                        let e = #[trigger] acc@[k];
                        let t = spec_distinct_types(next)[k];
                        e.0@ == t && e.1.count == spec_type_count(next, t) && e.1.count <= i + 1
                            && e.1.total_size == spec_type_size(next, t) && e.1.total_size <= (i
                            as int + 1) * 0xffff_ffff_ffff_ffff
                    }) by {
                        assert(spec_distinct_types(next) == types);
                        if k != p {
                            assert(types[k] != types[p as int]);
                        }
                    }
                }
            },
            None => {
                proof {
                    assert(!types.contains(f.file_type@)) by {
                        if types.contains(f.file_type@) {
                            let k = choose|k: int| 0 <= k < types.len() && types[k]
                                == f.file_type@;
                            assert(acc@[k].0@ == f.file_type@);
                        }
                    }
                    assert forall|m: int| 0 <= m < prefix.len() implies (
                    #[trigger] prefix[m]).file_type@ != f.file_type@ by {
                        if prefix[m].file_type@ == f.file_type@ {
                            assert(types.contains(f.file_type@));
                        }
                    }
                    lemma_type_count_zero(prefix, f.file_type@);
                }
                acc.push(
                    (
                        f.file_type.clone(),
                        TypeStats { count: 1, total_size: f.size as u128, share_bp: 0 },
                    ),
                );
                proof {
                    let next = all.subrange(0, i as int + 1);
                    assert(spec_distinct_types(next) == types.push(f.file_type@));
                    assert forall|k: int| 0 <= k < acc@.len() implies ({
                        let e = #[trigger] acc@[k];
                        let t = spec_distinct_types(next)[k];
                        e.0@ == t && e.1.count == spec_type_count(next, t) && e.1.count <= i + 1
                            && e.1.total_size == spec_type_size(next, t) && e.1.total_size <= (i
                            as int + 1) * 0xffff_ffff_ffff_ffff
                    }) by {
                        if k < acc@.len() - 1 {
                            assert(types[k] != f.file_type@) by {
                                assert(types.contains(types[k])) by {
                                    assert(types[k] == types[k]);
                                }
                            }
                        } else {
                            assert(spec_type_count(prefix, f.file_type@) == 0);
                            assert(spec_type_size(prefix, f.file_type@) == 0);
                        }
                    }
                }
            },
        }
        i += 1;
    }
    proof {
        assert(all.subrange(0, all.len() as int) =~= all);
    }
    // second pass: the shares
    let mut k: usize = 0;
    while k < acc.len()
        invariant
            total == spec_total_size(files@),
            files@.len() < 0x1_0000_0000_0000,
            acc@.len() == spec_distinct_types(files@).len(),
            forall|m: int|
                0 <= m < acc@.len() ==> ({
                    let e = #[trigger] acc@[m];
                    let t = spec_distinct_types(files@)[m];
                    e.0@ == t && e.1.count == spec_type_count(files@, t) && e.1.total_size
                        == spec_type_size(files@, t) && e.1.total_size <= (files@.len() as int)
                        * 0xffff_ffff_ffff_ffff
                }),
            forall|m: int|
                0 <= m < k ==> (#[trigger] acc@[m]).1.share_bp == spec_share_bp(
                    spec_type_size(files@, spec_distinct_types(files@)[m]),
                    spec_total_size(files@),
                ),
        decreases acc@.len() - k,
    {
        let z = acc[k].1.total_size;
        proof {
            assert(z <= (files@.len() as int) * 0xffff_ffff_ffff_ffff);
            assert((files@.len() as int) * 0xffff_ffff_ffff_ffff < 0x1_0000_0000_0000
                * 0x1_0000_0000_0000_0000) by (nonlinear_arith)
                requires
                    files@.len() < 0x1_0000_0000_0000,
            ;
        }
        let share: u128 = if total > 0 {
            z * 10000 / total
        } else {
            0
        };
        acc[k].1.share_bp = share;
        k += 1;
    }
    acc
}

/// The index of a type label in the summary being built.
fn find_type(acc: &Vec<(String, TypeStats)>, t: &str) -> (r: Option<usize>)
    ensures
        match r {
            Some(p) => p < acc@.len() && acc@[p as int].0@ == t@,
            None => forall|k: int| 0 <= k < acc@.len() ==> (#[trigger] acc@[k]).0@ != t@,
        },
{
    let mut p: usize = 0;
    while p < acc.len()
        invariant
            p <= acc@.len(),
            forall|k: int| 0 <= k < p ==> (#[trigger] acc@[k]).0@ != t@,
        decreases acc@.len() - p,
    {
        if crate::text::str_eq(acc[p].0.as_str(), t) {
            return Some(p);
        }
        p += 1;
    }
    None
}

/// Appending a file of a type not seen leaves its earlier count at zero.
proof fn lemma_type_count_zero(s: Seq<FileInfo>, t: Seq<char>)
    requires
        forall|m: int| 0 <= m < s.len() ==> (#[trigger] s[m]).file_type@ != t,
    ensures
        spec_type_count(s, t) == 0,
        spec_type_size(s, t) == 0,
    decreases s.len(),
{
    if s.len() == 0 {
    } else {
        assert forall|m: int| 0 <= m < s.drop_last().len() implies (
        #[trigger] s.drop_last()[m]).file_type@ != t by {
            assert(s.drop_last()[m] == s[m]);
        }
        lemma_type_count_zero(s.drop_last(), t);
        assert(s[s.len() - 1].file_type@ != t);
    }
}

/// The distinct sizes above the duplicate threshold, in first-appearance
/// order.
fn large_sizes_of(files: &Vec<FileInfo>) -> (r: Vec<u64>)
    ensures
        r@ == spec_large_sizes(files@),
        r@.len() <= files@.len(),
{
    let mut sizes: Vec<u64> = Vec::new();
    let mut i: usize = 0;
    while i < files.len()
        invariant
            i <= files@.len(),
            sizes@.len() <= i,
            sizes@ == spec_large_sizes(files@.subrange(0, i as int)),
        decreases files@.len() - i,
    {
        let ghost prefix = files@.subrange(0, i as int);
        let z = files[i].size;
        if z > DUP_MIN_SIZE && !contains_u64(&sizes, z) {
            sizes.push(z);
        }
        proof {
            let next = files@.subrange(0, i as int + 1);
            assert(next.drop_last() =~= prefix);
            assert(next.last() == files@[i as int]);
        }
        i += 1;
    }
    proof {
        assert(files@.subrange(0, files@.len() as int) =~= files@);
    }
    sizes
}

/// True when the list holds the value.
fn contains_u64(v: &Vec<u64>, x: u64) -> (r: bool)
    ensures
        r == v@.contains(x),
{
    let mut i: usize = 0;
    while i < v.len()
        invariant
            i <= v@.len(),
            forall|k: int| 0 <= k < i ==> v@[k] != x,
        decreases v@.len() - i,
    {
        if v[i] == x {
            assert(v@[i as int] == x);
            return true;
        }
        i += 1;
    }
    false
}

/// The paths of the files with exactly the given size, in recorded order.
fn paths_with_size(files: &Vec<FileInfo>, z: u64) -> (r: Vec<String>)
    ensures
        r@.map_values(|p: String| p@) == spec_paths_with_size(files@, z),
        r@.len() <= files@.len(),
{
    let mut out: Vec<String> = Vec::new();
    let mut i: usize = 0;
    while i < files.len()
        invariant
            i <= files@.len(),
            out@.len() <= i,
            out@.map_values(|p: String| p@) == spec_paths_with_size(
                files@.subrange(0, i as int),
                z,
            ),
        decreases files@.len() - i,
    {
        let ghost prefix = files@.subrange(0, i as int);
        if files[i].size == z {
            out.push(files[i].path.clone());
        }
        proof {
            let next = files@.subrange(0, i as int + 1);
            assert(next.drop_last() =~= prefix);
            assert(next.last() == files@[i as int]);
            assert(out@.map_values(|p: String| p@) =~= spec_paths_with_size(next, z));
        }
        i += 1;
    }
    proof {
        assert(files@.subrange(0, files@.len() as int) =~= files@);
    }
    out
}

/// The duplicate groups of the recorded files: one group per size, above
/// the threshold, that at least two files share.
fn dup_groups_of(files: &Vec<FileInfo>) -> (r: Vec<DuplicateGroup>)
    ensures
        r@.len() == spec_dup_groups(files@).len(),
        r@.len() <= files@.len(),
        forall|k: int| 0 <= k < r@.len() ==> (#[trigger] r@[k]).files@.len() <= files@.len()
            && (#[trigger] r@[k]).files@.len() >= 2,
        forall|k: int|
            0 <= k < r@.len() ==> ({
                let g = #[trigger] r@[k];
                g.size == spec_dup_groups(files@)[k].0 && g.files@.map_values(|p: String| p@)
                    == spec_dup_groups(files@)[k].1
            }),
{
    let sizes = large_sizes_of(files);
    let ghost sizesv = sizes@;
    let ghost target = spec_dup_groups_from(files@, sizesv);
    let mut out: Vec<DuplicateGroup> = Vec::new();
    let mut k: usize = 0;
    proof {
        assert(sizesv.skip(0) =~= sizesv);
    }
    while k < sizes.len()
        invariant
            k <= sizes@.len(),
            sizes@ == sizesv,
            sizesv.len() <= files@.len(),
            out@.len() <= k,
            forall|m: int| 0 <= m < out@.len() ==> (#[trigger] out@[m]).files@.len()
                <= files@.len() && (#[trigger] out@[m]).files@.len() >= 2,
            target == spec_dup_groups(files@),
            ({
                let done = target.len() - spec_dup_groups_from(files@, sizesv.skip(k as int)).len();
                &&& out@.len() == done
                &&& forall|m: int|
                    0 <= m < out@.len() ==> ({
                        let g = #[trigger] out@[m];
                        g.size == target[m].0 && g.files@.map_values(|p: String| p@)
                            == target[m].1
                    })
                &&& target.skip(out@.len() as int) == spec_dup_groups_from(
                    files@,
                    sizesv.skip(k as int),
                )
            }),
        decreases sizes@.len() - k,
    {
        let ghost suffix = sizesv.skip(k as int);
        let z = sizes[k];
        let paths = paths_with_size(files, z);
        proof {
            assert(suffix.drop_first() =~= sizesv.skip(k as int + 1));
            assert(suffix.first() == sizesv[k as int]);
        }
        if paths.len() >= 2 {
            out.push(DuplicateGroup { size: z, files: paths });
            proof {
                let rest = spec_dup_groups_from(files@, sizesv.skip(k as int + 1));
                assert(spec_dup_groups_from(files@, suffix) == seq![
                    (z, spec_paths_with_size(files@, z)),
                ] + rest);
                assert(target.skip(out@.len() - 1) == seq![
                    (z, spec_paths_with_size(files@, z)),
                ] + rest);
                assert(target[out@.len() - 1] == (z, spec_paths_with_size(files@, z))) by {
                    assert(target.skip(out@.len() - 1)[0] == target[out@.len() - 1]);
                }
                assert(target.skip(out@.len() - 1).drop_first() =~= target.skip(
                    out@.len() as int,
                ));
                assert((seq![(z, spec_paths_with_size(files@, z))] + rest).drop_first() =~= rest);
                assert(target.skip(out@.len() as int) =~= rest);
            }
        } else {
            proof {
                assert(spec_dup_groups_from(files@, suffix) == spec_dup_groups_from(
                    files@,
                    sizesv.skip(k as int + 1),
                ));
            }
        }
        k += 1;
    }
    proof {
        assert(sizesv.skip(sizesv.len() as int) =~= Seq::<u64>::empty());
        assert(target.skip(out@.len() as int) =~= Seq::<(u64, Seq<Seq<char>>)>::empty());
    }
    out
}

/// The bytes deduplication would save, summed over the groups.
fn dup_saving_of(groups: &Vec<DuplicateGroup>) -> (r: u128)
    requires
        forall|k: int| 0 <= k < groups@.len() ==> (#[trigger] groups@[k]).files@.len() >= 1,
        groups@.len() < 0x8000_0000,
        forall|k: int| 0 <= k < groups@.len() ==> (#[trigger] groups@[k]).files@.len()
            < 0x8000_0000,
    ensures
        r == spec_dup_saving(
            groups@.map_values(
                |g: DuplicateGroup| (g.size, g.files@.map_values(|p: String| p@)),
            ),
        ),
{
    let ghost gv = groups@.map_values(
        |g: DuplicateGroup| (g.size, g.files@.map_values(|p: String| p@)),
    );
    let mut sum: u128 = 0;
    let mut i: usize = 0;
    while i < groups.len()
        invariant
            i <= groups@.len(),
            gv == groups@.map_values(
                |g: DuplicateGroup| (g.size, g.files@.map_values(|p: String| p@)),
            ),
            groups@.len() < 0x8000_0000,
            forall|k: int| 0 <= k < groups@.len() ==> (#[trigger] groups@[k]).files@.len() >= 1,
            forall|k: int| 0 <= k < groups@.len() ==> (#[trigger] groups@[k]).files@.len()
                < 0x8000_0000,
            sum == spec_dup_saving(gv.subrange(0, i as int)),
            sum <= (i as int) * 0x8000_0000_0000_0000_0000_0000,
        decreases groups@.len() - i,
    {
        let ghost prefix = gv.subrange(0, i as int);
        let g = &groups[i];
        proof {
            assert(groups@[i as int].files@.len() >= 1);
            assert(groups@[i as int].files@.len() < 0x8000_0000);
        }
        let n = g.files.len();
        proof {
            assert(g.size * ((n as int) - 1) <= 0x8000_0000_0000_0000_0000_0000) by (nonlinear_arith)
                requires
                    g.size <= 0xffff_ffff_ffff_ffff,
                    1 <= n < 0x8000_0000,
            ;
        }
        let add: u128 = g.size as u128 * (n as u128 - 1);
        proof {
            let next = gv.subrange(0, i as int + 1);
            assert(next.drop_last() =~= prefix);
            assert(next.last() == gv[i as int]);
            assert(gv[i as int].0 == g.size);
            assert(gv[i as int].1 =~= g.files@.map_values(|p: String| p@));
        }
        sum = sum + add;
        i += 1;
    }
    proof {
        assert(gv.subrange(0, gv.len() as int) =~= gv);
    }
    sum
}

/// The old large files, in recorded order, at most twenty.
fn old_files_of(files: &Vec<FileInfo>, cutoff: &str) -> (r: Vec<FileInfo>)
    ensures
        ({
            let all = spec_old_files(files@, cutoff@);
            r@ == if all.len() <= 20 {
                all
            } else {
                all.subrange(0, 20)
            }
        }),
{
    let cutoff_chars = str_to_chars(cutoff);
    let mut out: Vec<FileInfo> = Vec::new();
    let mut i: usize = 0;
    while i < files.len()
        invariant
            i <= files@.len(),
            cutoff_chars@ == cutoff@,
            ({
                let all = spec_old_files(files@.subrange(0, i as int), cutoff@);
                out@ == if all.len() <= 20 {
                    all
                } else {
                    all.subrange(0, 20)
                }
            }),
        decreases files@.len() - i,
    {
        let ghost prefix = files@.subrange(0, i as int);
        let f = &files[i];
        let mc = str_to_chars(f.modified.as_str());
        let is_old = lex_lt(mc.as_slice(), cutoff_chars.as_slice()) && f.size > OLD_MIN_SIZE;
        proof {
            assert(is_old == spec_is_old(files@[i as int], cutoff@));
        }
        if is_old && out.len() < 20 {
            out.push(f.clone());
        }
        proof {
            let next = files@.subrange(0, i as int + 1);
            assert(next.drop_last() =~= prefix);
            assert(next.last() == files@[i as int]);
            let all_next = spec_old_files(next, cutoff@);
            let all_prev = spec_old_files(prefix, cutoff@);
            if is_old {
                assert(all_next == all_prev.push(files@[i as int]));
                if all_prev.len() < 20 {
                    assert(out@ =~= if all_next.len() <= 20 {
                        all_next
                    } else {
                        all_next.subrange(0, 20)
                    });
                } else {
                    assert(out@ =~= all_next.subrange(0, 20));
                }
            } else {
                assert(all_next == all_prev);
            }
        }
        i += 1;
    }
    proof {
        assert(files@.subrange(0, files@.len() as int) =~= files@);
    }
    out
}

/// The recorded video files, in recorded order.
fn videos_of(files: &Vec<FileInfo>) -> (r: Vec<FileInfo>)
    ensures
        r@ == spec_videos(files@),
{
    let mut out: Vec<FileInfo> = Vec::new();
    let mut i: usize = 0;
    while i < files.len()
        invariant
            i <= files@.len(),
            out@ == spec_videos(files@.subrange(0, i as int)),
        decreases files@.len() - i,
    {
        let ghost prefix = files@.subrange(0, i as int);
        let f = &files[i];
        if crate::text::str_eq(f.file_type.as_str(), "🎬 동영상") {
            out.push(f.clone());
        }
        proof {
            let next = files@.subrange(0, i as int + 1);
            assert(next.drop_last() =~= prefix);
            assert(next.last() == files@[i as int]);
        }
        i += 1;
    }
    proof {
        assert(files@.subrange(0, files@.len() as int) =~= files@);
    }
    out
}

/// How many of the files are very large.
fn count_very_large(files: &Vec<FileInfo>) -> (r: usize)
    ensures
        r == spec_very_large_count(files@),
        r <= files@.len(),
{
    let mut c: usize = 0;
    let mut i: usize = 0;
    while i < files.len()
        invariant
            i <= files@.len(),
            c <= i,
            c == spec_very_large_count(files@.subrange(0, i as int)),
        decreases files@.len() - i,
    {
        let ghost prefix = files@.subrange(0, i as int);
        if files[i].size > VERY_LARGE_SIZE {
            c += 1;
        }
        proof {
            let next = files@.subrange(0, i as int + 1);
            assert(next.drop_last() =~= prefix);
            assert(next.last() == files@[i as int]);
        }
        i += 1;
    }
    proof {
        assert(files@.subrange(0, files@.len() as int) =~= files@);
    }
    c
}

/// How many files are above the very-large threshold.
pub open spec fn spec_very_large_count(s: Seq<FileInfo>) -> int
    decreases s.len(),
{
    if s.len() == 0 {
        0
    } else {
        spec_very_large_count(s.drop_last()) + if s.last().size > VERY_LARGE_SIZE {
            1int
        } else {
            0int
        }
    }
}

impl ScanState {
    /// Closes the scan and reports everything it found: exact totals,
    /// per-type statistics, duplicate groups, the twenty largest files, up
    /// to twenty old large files (older than the cutoff date), up to fifty
    /// videos largest first, and the advice figures. A cancelled scan
    /// reports the partial recording the same way, marked cancelled.
    pub fn finish(self, cutoff_date: &str) -> (r: FileConsultingResult)
        requires
            self.files@.len() < 0x8000_0000,
        ensures
            r.total_scanned == self.files@.len(),
            r.total_size == spec_total_size(self.files@),
            r.total_folders == self.folder_count,
            r.cancelled == self.cancelled,
            r.folders@.len() == 0,
            r.suspicious_files@.len() == 0,
            r.type_summary@.len() == spec_distinct_types(self.files@).len(),
            forall|k: int|
                0 <= k < r.type_summary@.len() ==> ({
                    let e = #[trigger] r.type_summary@[k];
                    let t = spec_distinct_types(self.files@)[k];
                    e.0@ == t && e.1.count == spec_type_count(self.files@, t) && e.1.total_size
                        == spec_type_size(self.files@, t) && e.1.share_bp == spec_share_bp(
                        spec_type_size(self.files@, t),
                        spec_total_size(self.files@),
                    )
                }),
            r.duplicates@.len() == spec_dup_groups(self.files@).len(),
            forall|k: int|
                0 <= k < r.duplicates@.len() ==> ({
                    let g = #[trigger] r.duplicates@[k];
                    g.size == spec_dup_groups(self.files@)[k].0 && g.files@.map_values(
                        |p: String| p@,
                    ) == spec_dup_groups(self.files@)[k].1
                }),
            exists|sorted: Seq<FileInfo>|
                sorted.to_multiset() == self.files@.to_multiset() && spec_sorted_desc(sorted)
                    && r.large_files@ == if sorted.len() <= 20 {
                    sorted
                } else {
                    sorted.subrange(0, 20)
                },
            ({
                let all = spec_old_files(self.files@, cutoff_date@);
                r.old_files@ == if all.len() <= 20 {
                    all
                } else {
                    all.subrange(0, 20)
                }
            }),
            exists|sv: Seq<FileInfo>|
                sv.to_multiset() == spec_videos(self.files@).to_multiset() && spec_sorted_desc(sv)
                    && r.videos@ == if sv.len() <= 50 {
                    sv
                } else {
                    sv.subrange(0, 50)
                },
            r.advice.duplicate_groups == r.duplicates@.len(),
            r.advice.very_large_count == spec_very_large_count(r.large_files@),
            r.advice.old_count == r.old_files@.len(),
            r.advice.old_total == spec_total_size(r.old_files@),
            r.advice.video_share_bp == spec_share_bp(
                spec_type_size(self.files@, "🎬 동영상"@),
                spec_total_size(self.files@),
            ),
            r.advice.archive_count == spec_type_count(self.files@, "📦 압축파일"@),
            r.advice.archive_size == spec_type_size(self.files@, "📦 압축파일"@),
            r.advice.executable_count == spec_type_count(self.files@, "⚙️ 실행파일"@),
            r.advice.executable_size == spec_type_size(self.files@, "⚙️ 실행파일"@),
    {
        let total_scanned = self.files.len() as u64;
        let total_size = total_size_of(&self.files);
        let type_summary = type_summary_of(&self.files, total_size);
        let duplicates = dup_groups_of(&self.files);
        let duplicate_saving = dup_saving_of(&duplicates);

        let files_copy = self.files.clone();
        proof {
            assert(files_copy@ =~= self.files@);
        }
        let sorted_all = sort_desc(files_copy);
        let ghost sorted_view = sorted_all@;
        let mut large_files = sorted_all;
        if large_files.len() > 20 {
            large_files.truncate(20);
        }
        proof {
            assert(large_files@ =~= if sorted_view.len() <= 20 {
                sorted_view
            } else {
                sorted_view.subrange(0, 20)
            });
            assert(sorted_view.to_multiset() == self.files@.to_multiset() && spec_sorted_desc(
                sorted_view,
            ) && large_files@ == (if sorted_view.len() <= 20 {
                sorted_view
            } else {
                sorted_view.subrange(0, 20)
            }));
        }
        let very_large_count = count_very_large(&large_files);

        let old_files = old_files_of(&self.files, cutoff_date);
        proof {
            lemma_old_files_len(self.files@, cutoff_date@);
        }
        let old_total = total_size_of(&old_files);

        let vids = videos_of(&self.files);
        proof {
            lemma_videos_len(self.files@);
        }
        let sorted_vids = sort_desc(vids);
        let ghost sv_view = sorted_vids@;
        let mut videos = sorted_vids;
        if videos.len() > 50 {
            videos.truncate(50);
        }
        proof {
            assert(videos@ =~= if sv_view.len() <= 50 {
                sv_view
            } else {
                sv_view.subrange(0, 50)
            });
            assert(sv_view.to_multiset() == spec_videos(self.files@).to_multiset()
                && spec_sorted_desc(sv_view) && videos@ == (if sv_view.len() <= 50 {
                sv_view
            } else {
                sv_view.subrange(0, 50)
            }));
        }

        let video_share_bp = share_of(&type_summary, "🎬 동영상", total_size, Ghost(self.files@));
        let (archive_count, archive_size) = stats_of(&type_summary, "📦 압축파일", Ghost(self.files@));
        let (executable_count, executable_size) = stats_of(
            &type_summary,
            "⚙️ 실행파일",
            Ghost(self.files@),
        );

        let advice = ScanAdvice {
            duplicate_groups: duplicates.len(),
            duplicate_saving,
            very_large_count,
            old_count: old_files.len(),
            old_total,
            video_share_bp,
            archive_count,
            archive_size,
            executable_count,
            executable_size,
        };
        FileConsultingResult {
            total_scanned,
            total_size,
            total_folders: self.folder_count,
            cancelled: self.cancelled,
            folders: Vec::new(),
            advice,
            duplicates,
            large_files,
            old_files,
            type_summary,
            videos,
            suspicious_files: Vec::new(),
        }
    }
}

/// At most as many old files as files.
proof fn lemma_old_files_len(s: Seq<FileInfo>, cutoff: Seq<char>)
    ensures
        spec_old_files(s, cutoff).len() <= s.len(),
    decreases s.len(),
{
    if s.len() > 0 {
        lemma_old_files_len(s.drop_last(), cutoff);
    }
}

/// At most as many videos as files.
proof fn lemma_videos_len(s: Seq<FileInfo>)
    ensures
        spec_videos(s).len() <= s.len(),
    decreases s.len(),
{
    if s.len() > 0 {
        lemma_videos_len(s.drop_last());
    }
}

/// The share recorded for a type label, or zero when the label is absent.
fn share_of(
    summary: &Vec<(String, TypeStats)>,
    label: &str,
    total: u128,
    files: Ghost<Seq<FileInfo>>,
) -> (r: u128)
    requires
        summary@.len() == spec_distinct_types(files@).len(),
        forall|k: int|
            0 <= k < summary@.len() ==> ({
                let e = #[trigger] summary@[k];
                let t = spec_distinct_types(files@)[k];
                e.0@ == t && e.1.count == spec_type_count(files@, t) && e.1.total_size
                    == spec_type_size(files@, t) && e.1.share_bp == spec_share_bp(
                    spec_type_size(files@, t),
                    spec_total_size(files@),
                )
            }),
    ensures
        r == spec_share_bp(spec_type_size(files@, label@), spec_total_size(files@)),
{
    let (_, _, share) = lookup_type(summary, label, files);
    share
}

/// The count and bytes recorded for a type label, or zeros when absent.
fn stats_of(summary: &Vec<(String, TypeStats)>, label: &str, files: Ghost<Seq<FileInfo>>) -> (r:
    (u64, u128))
    requires
        summary@.len() == spec_distinct_types(files@).len(),
        forall|k: int|
            0 <= k < summary@.len() ==> ({
                let e = #[trigger] summary@[k];
                let t = spec_distinct_types(files@)[k];
                e.0@ == t && e.1.count == spec_type_count(files@, t) && e.1.total_size
                    == spec_type_size(files@, t) && e.1.share_bp == spec_share_bp(
                    spec_type_size(files@, t),
                    spec_total_size(files@),
                )
            }),
    ensures
        r.0 == spec_type_count(files@, label@),
        r.1 == spec_type_size(files@, label@),
{
    let (count, size, _) = lookup_type(summary, label, files);
    (count, size)
}

/// The recorded statistics of a type label; an absent label has zero of
/// everything.
fn lookup_type(summary: &Vec<(String, TypeStats)>, label: &str, files: Ghost<Seq<FileInfo>>) -> (r:
    (u64, u128, u128))
    requires
        summary@.len() == spec_distinct_types(files@).len(),
        forall|k: int|
            0 <= k < summary@.len() ==> ({
                let e = #[trigger] summary@[k];
                let t = spec_distinct_types(files@)[k];
                e.0@ == t && e.1.count == spec_type_count(files@, t) && e.1.total_size
                    == spec_type_size(files@, t) && e.1.share_bp == spec_share_bp(
                    spec_type_size(files@, t),
                    spec_total_size(files@),
                )
            }),
    ensures
        r.0 == spec_type_count(files@, label@),
        r.1 == spec_type_size(files@, label@),
        r.2 == spec_share_bp(spec_type_size(files@, label@), spec_total_size(files@)),
{
    match find_type(summary, label) {
        Some(p) => {
            proof {
                assert(spec_distinct_types(files@)[p as int] == label@);
            }
            (summary[p].1.count, summary[p].1.total_size, summary[p].1.share_bp)
        },
        None => {
            proof {
                lemma_distinct_types_unique(files@);
                assert(!spec_distinct_types(files@).contains(label@)) by {
                    if spec_distinct_types(files@).contains(label@) {
                        let k = choose|k: int|
                            0 <= k < spec_distinct_types(files@).len() && spec_distinct_types(
                                files@,
                            )[k] == label@;
                        assert(summary@[k].0@ == label@);
                    }
                }
                assert forall|m: int| 0 <= m < files@.len() implies (
                #[trigger] files@[m]).file_type@ != label@ by {
                    if files@[m].file_type@ == label@ {
                        assert(spec_distinct_types(files@).contains(label@));
                    }
                }
                lemma_type_count_zero(files@, label@);
            }
            (0, 0, 0)
        },
    }
}

/// One node of the folder tree the consulting screen draws.
#[derive(Debug)]
pub struct TreeNode {
    pub name: String,
    pub path: String,
    pub is_folder: bool,
    pub children: Vec<TreeNode>,
    pub file_count: u64,
    pub size: u64,
    pub status: String,
}

impl Weighted for TreeNode {
    open spec fn weight(&self) -> u64 {
        self.size
    }

    fn weight_val(&self) -> u64 {
        self.size
    }
}

/// One folder the scan driver tracked: where it hangs, and its running
/// figures.
#[derive(Debug, Clone)]
pub struct FolderRecord {
    pub path: String,
    pub name: String,
    pub parent: Option<String>,
    pub file_count: u64,
    pub size: u64,
    pub status: String,
}

/// True when a tree node carries the fields of one of the records whose
/// parent is `parent_path`.
pub open spec fn spec_node_from(n: TreeNode, records: Seq<FolderRecord>, parent_path: Seq<char>) -> bool {
    exists|m: int|
        0 <= m < records.len() && ({
            let rec = #[trigger] records[m];
            &&& rec.parent is Some
            &&& rec.parent.unwrap()@ == parent_path
            &&& n.name == rec.name
            &&& n.path == rec.path
            &&& n.is_folder
            &&& n.file_count == rec.file_count
            &&& n.size == rec.size
            &&& n.status == rec.status
        })
}

/// Builds the folder tree under one parent: up to eight child folders,
/// largest first, each with its own children built the same way down to
/// `max_depth` levels.
pub fn build_folder_tree(
    records: &Vec<FolderRecord>,
    parent_path: &str,
    depth: u64,
    max_depth: u64,
) -> (r: Vec<TreeNode>)
    ensures
        r@.len() <= 8,
        depth >= max_depth ==> r@.len() == 0,
        forall|i: int, j: int|
            0 <= i < j < r@.len() ==> (#[trigger] r@[i]).size >= (#[trigger] r@[j]).size,
        forall|i: int| 0 <= i < r@.len() ==> spec_node_from(#[trigger] r@[i], records@, parent_path@),
    decreases max_depth - depth,
{
    let mut kids: Vec<TreeNode> = Vec::new();
    if depth >= max_depth {
        return kids;
    }
    let mut i: usize = 0;
    while i < records.len()
        invariant
            depth < max_depth,
            i <= records@.len(),
            kids@.len() <= 8,
            forall|m: int|
                0 <= m < kids@.len() ==> spec_node_from(#[trigger] kids@[m], records@, parent_path@),
        decreases records@.len() - i,
    {
        if kids.len() >= 8 {
            break;
        }
        let rec = &records[i];
        let matches = match &rec.parent {
            Some(p) => crate::text::str_eq(p.as_str(), parent_path),
            None => false,
        };
        if matches {
            let children = build_folder_tree(records, rec.path.as_str(), depth + 1, max_depth);
            let node = TreeNode {
                name: rec.name.clone(),
                path: rec.path.clone(),
                is_folder: true,
                children,
                file_count: rec.file_count,
                size: rec.size,
                status: rec.status.clone(),
            };
            proof {
                assert(records@[i as int].parent is Some && records@[i as int].parent.unwrap()@
                    == parent_path@);
            }
            kids.push(node);
            proof {
                assert(spec_node_from(kids@.last(), records@, parent_path@)) by {
                    assert(records@[i as int] == records@[i as int]);
                }
            }
        }
        i += 1;
    }
    let sorted = sort_desc(kids);
    proof {
        broadcast use vstd::seq_lib::group_to_multiset_ensures;

        assert forall|m: int| 0 <= m < sorted@.len() implies spec_node_from(
            #[trigger] sorted@[m],
            records@,
            parent_path@,
        ) by {
            assert(sorted@.to_multiset().count(sorted@[m]) > 0);
            assert(sorted@.contains(sorted@[m])) by {
                sorted@.to_multiset_ensures();
            }
        }
    }
    sorted
}

} // verus!
