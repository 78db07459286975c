//! Typed records for the toolset's reports and the parsers that produce
//! them from captured report text.
//!
//! Report text is a sequence of lines; each line holds fields separated by
//! a comma, a character that never occurs in names, UUIDs or device paths.
//! Fields are trimmed of surrounding whitespace before interpretation.
//! Byte-count fields carry exactly one trailing unit character.

use vstd::prelude::*;

use crate::errors::LvmError;
use crate::errors::ReportField;
use crate::text::all_digits;
use crate::text::all_space;
use crate::text::lemma_lines_space;
use crate::text::lemma_trim_space;
use crate::text::digits_value;
use crate::text::find_char;
use crate::text::first_index_of;
use crate::text::lemma_first_index_of;
use crate::text::lines_of;
use crate::text::parse_u64_digits;
use crate::text::spec_lines;
use crate::text::spec_split;
use crate::text::spec_trim;
use crate::text::split_char;
use crate::text::str_views;
use crate::text::trim_str;

verus! {

/// One volume group, as reported by the detail query.
#[derive(Clone, Debug, PartialEq, Eq)]
pub struct LvmVgData {
    pub name: String,
    /// Unallocated capacity in bytes.
    pub free: u64,
    /// Total capacity in bytes.
    pub size: u64,
    pub pv_count: u64,
    /// Opaque attribute flags token.
    pub attr: String,
    pub uuid: String,
}

/// Mathematical model of a volume-group record.
#[verifier::ext_equal]
pub struct VgDataView {
    pub name: Seq<char>,
    pub free: int,
    pub size: int,
    pub pv_count: int,
    pub attr: Seq<char>,
    pub uuid: Seq<char>,
}

impl View for LvmVgData {
    type V = VgDataView;

    open spec fn view(&self) -> VgDataView {
        VgDataView {
            name: self.name@,
            free: self.free as int,
            size: self.size as int,
            pv_count: self.pv_count as int,
            attr: self.attr@,
            uuid: self.uuid@,
        }
    }
}

/// One physical volume: its device path and the volume group it belongs
/// to, empty when the device is unassigned.
#[derive(Clone, Debug, PartialEq, Eq)]
pub struct LvmPVData {
    pub pv_name: String,
    pub vg_name: String,
}

/// Mathematical model of a physical-volume record.
#[verifier::ext_equal]
pub struct PvDataView {
    pub pv_name: Seq<char>,
    pub vg_name: Seq<char>,
}

impl View for LvmPVData {
    type V = PvDataView;

    open spec fn view(&self) -> PvDataView {
        PvDataView { pv_name: self.pv_name@, vg_name: self.vg_name@ }
    }
}

/// A well-formed byte-count token: at least one digit followed by exactly
/// one trailing unit character, with a value that fits in 64 bits.
pub open spec fn u64_token_ok(t: Seq<char>) -> bool {
    t.len() >= 2 && all_digits(t.drop_last()) && digits_value(t.drop_last()) <= u64::MAX
}

/// The integer value carried by a byte-count token.
pub open spec fn u64_token_val(t: Seq<char>) -> int {
    digits_value(t.drop_last())
}

/// A bare digit run whose value fits in 64 bits.
pub open spec fn u64_digits_ok(t: Seq<char>) -> bool {
    t.len() >= 1 && all_digits(t) && digits_value(t) <= u64::MAX
}

/// A bare digit run whose value fits in 16 bits.
pub open spec fn u16_token_ok(t: Seq<char>) -> bool {
    t.len() >= 1 && all_digits(t) && digits_value(t) <= u16::MAX
}

/// Parse a byte-count token such as `120028397568B`: the trailing unit
/// character is stripped and the remainder read as an unsigned 64-bit
/// integer.
pub fn parseu64_ds(s: &str) -> (r: Result<u64, LvmError>)
    ensures
        u64_token_ok(s@) ==> (r matches Ok(v) && v == u64_token_val(s@)),
        !u64_token_ok(s@) ==> r == Err::<u64, LvmError>(LvmError::MalformedNumber),
{
    let len = s.unicode_len();
    if len == 0 {
        return Err(LvmError::MalformedNumber);
    }
    let body = s.substring_char(0, len - 1);
    proof {
        assert(body@ =~= s@.drop_last());
    }
    match parse_u64_digits(body) {
        Some(v) => Ok(v),
        None => Err(LvmError::MalformedNumber),
    }
}

/// Parse a small unsigned count such as a stripe count: a bare digit run
/// read as an unsigned 16-bit integer.
pub fn parseu16(s: &str) -> (r: Result<u16, LvmError>)
    ensures
        u16_token_ok(s@) ==> (r matches Ok(v) && v == digits_value(s@)),
        !u16_token_ok(s@) ==> r == Err::<u16, LvmError>(LvmError::MalformedNumber),
{
    match parse_u64_digits(s) {
        Some(v) => {
            if v <= 65535 {
                Ok(v as u16)
            } else {
                Err(LvmError::MalformedNumber)
            }
        },
        None => Err(LvmError::MalformedNumber),
    }
}

/// The volume-group detail field that position `i` of a detail line holds.
pub open spec fn vg_field_at(i: int) -> ReportField {
    if i == 0 {
        ReportField::VgName
    } else if i == 1 {
        ReportField::VgSize
    } else if i == 2 {
        ReportField::VgFree
    } else if i == 3 {
        ReportField::PvCount
    } else if i == 4 {
        ReportField::VgAttr
    } else {
        ReportField::VgUuid
    }
}

fn vg_field_at_exec(i: usize) -> (r: ReportField)
    ensures
        r == vg_field_at(i as int),
{
    if i == 0 {
        ReportField::VgName
    } else if i == 1 {
        ReportField::VgSize
    } else if i == 2 {
        ReportField::VgFree
    } else if i == 3 {
        ReportField::PvCount
    } else if i == 4 {
        ReportField::VgAttr
    } else {
        ReportField::VgUuid
    }
}

/// What parsing a volume-group detail report yields: the six leading
/// fields interpreted in order, extras ignored.  Fewer than six fields is
/// an error naming the first missing field; a corrupt numeric field —
/// the size or free byte-count token, or the physical-volume count — is
/// an error.
pub open spec fn spec_parse_vgdo(s: Seq<char>) -> Result<VgDataView, LvmError> {
    let f = spec_split(s, ',');
    if f.len() < 6 {
        Err(LvmError::TooFewFields(vg_field_at(f.len() as int)))
    } else if !u64_token_ok(spec_trim(f[1])) {
        Err(LvmError::MalformedNumber)
    } else if !u64_token_ok(spec_trim(f[2])) {
        Err(LvmError::MalformedNumber)
    } else if !u64_digits_ok(spec_trim(f[3])) {
        Err(LvmError::MalformedNumber)
    } else {
        Ok(
            VgDataView {
                name: spec_trim(f[0]),
                size: u64_token_val(spec_trim(f[1])),
                free: u64_token_val(spec_trim(f[2])),
                pv_count: digits_value(spec_trim(f[3])),
                attr: spec_trim(f[4]),
                uuid: spec_trim(f[5]),
            },
        )
    }
}

/// Lift an executable detail-parse result to its mathematical model.
pub open spec fn result_vg_view(r: Result<LvmVgData, LvmError>) -> Result<VgDataView, LvmError> {
    match r {
        Ok(v) => Ok(v@),
        Err(e) => Err(e),
    }
}

/// Parse the single line emitted by the volume-group detail query.
pub fn parse_vgdo(s: &str) -> (r: Result<LvmVgData, LvmError>)
    ensures
        result_vg_view(r) == spec_parse_vgdo(s@),
{
    let f = split_char(s, ',');
    if f.len() < 6 {
        return Err(LvmError::TooFewFields(vg_field_at_exec(f.len())));
    }
    let size = match parseu64_ds(trim_str(f[1].as_str())) {
        Ok(v) => v,
        Err(e) => {
            return Err(e);
        },
    };
    let free = match parseu64_ds(trim_str(f[2].as_str())) {
        Ok(v) => v,
        Err(e) => {
            return Err(e);
        },
    };
    let pv_count = match parse_u64_digits(trim_str(f[3].as_str())) {
        Some(v) => v,
        None => {
            return Err(LvmError::MalformedNumber);
        },
    };
    Ok(
        LvmVgData {
            name: String::from_str(trim_str(f[0].as_str())),
            size,
            free,
            pv_count,
            attr: String::from_str(trim_str(f[4].as_str())),
            uuid: String::from_str(trim_str(f[5].as_str())),
        },
    )
}

/// The trimmed, non-blank lines of a report, in order.
pub open spec fn trimmed_nonblank(lines: Seq<Seq<char>>) -> Seq<Seq<char>>
    decreases lines.len(),
{
    if lines.len() == 0 {
        Seq::empty()
    } else {
        let rest = trimmed_nonblank(lines.drop_last());
        if spec_trim(lines.last()).len() > 0 {
            rest.push(spec_trim(lines.last()))
        } else {
            rest
        }
    }
}

/// What parsing a volume-group list report yields: each non-blank line,
/// trimmed, is one volume-group name.  Blank input yields the empty
/// sequence, not an error.
pub open spec fn spec_parse_vgso(s: Seq<char>) -> Seq<Seq<char>> {
    trimmed_nonblank(spec_lines(s))
}

/// Parse the volume-group list report into the names it holds.
pub fn parse_vgso(s: &str) -> (r: Result<Vec<String>, LvmError>)
    ensures
        r matches Ok(v) && str_views(v@) == spec_parse_vgso(s@),
{
    let lines = lines_of(s);
    let ghost lv = str_views(lines@);
    let mut out: Vec<String> = Vec::new();
    let mut i: usize = 0;
    let n = lines.len();
    proof {
        assert(lv.take(0) =~= Seq::<Seq<char>>::empty());
    }
    while i < n
        invariant
            i <= n,
            n == lines@.len(),
            lv == str_views(lines@),
            str_views(out@) == trimmed_nonblank(lv.take(i as int)),
        decreases n - i,
    {
        proof {
            assert(lv.take(i as int + 1).drop_last() =~= lv.take(i as int));
        }
        let ghost old_out = out@;
        let t = trim_str(lines[i].as_str());
        if t.unicode_len() > 0 {
            out.push(String::from_str(t));
            proof {
                assert(str_views(out@) =~= str_views(old_out).push(t@));
            }
        }
        i += 1;
    }
    proof {
        assert(lv.take(n as int) =~= lv);
    }
    Ok(out)
}

/// What one non-blank physical-volume line yields: the device path, and
/// the owning volume group or the empty name when the second field is
/// absent or empty.
pub open spec fn spec_parse_pv_line(l: Seq<char>) -> PvDataView {
    let f = spec_split(spec_trim(l), ',');
    PvDataView {
        pv_name: spec_trim(f[0]),
        vg_name: if f.len() >= 2 {
            spec_trim(f[1])
        } else {
            Seq::empty()
        },
    }
}

/// The views of a vector of physical-volume records.
pub open spec fn pv_views(v: Seq<LvmPVData>) -> Seq<PvDataView> {
    v.map_values(|x: LvmPVData| x@)
}

pub open spec fn pv_records_of(lines: Seq<Seq<char>>) -> Seq<PvDataView>
    decreases lines.len(),
{
    if lines.len() == 0 {
        Seq::empty()
    } else {
        let rest = pv_records_of(lines.drop_last());
        if spec_trim(lines.last()).len() > 0 {
            rest.push(spec_parse_pv_line(lines.last()))
        } else {
            rest
        }
    }
}

/// What parsing a physical-volume list report yields: one record per
/// non-blank line; blank lines are skipped, and a missing owning volume
/// group is the valid unassigned state, not an error.
pub open spec fn spec_parse_pvso(s: Seq<char>) -> Seq<PvDataView> {
    pv_records_of(spec_lines(s))
}

/// Parse the physical-volume list report.
pub fn parse_pvso(s: &str) -> (r: Result<Vec<LvmPVData>, LvmError>)
    ensures
        r matches Ok(v) && pv_views(v@) == spec_parse_pvso(s@),
{
    let lines = lines_of(s);
    let ghost lv = str_views(lines@);
    let mut out: Vec<LvmPVData> = Vec::new();
    let mut i: usize = 0;
    let n = lines.len();
    proof {
        assert(lv.take(0) =~= Seq::<Seq<char>>::empty());
    }
    while i < n
        invariant
            i <= n,
            n == lines@.len(),
            lv == str_views(lines@),
            pv_views(out@) == pv_records_of(lv.take(i as int)),
        decreases n - i,
    {
        proof {
            assert(lv.take(i as int + 1).drop_last() =~= lv.take(i as int));
        }
        let ghost old_out = out@;
        let t = trim_str(lines[i].as_str());
        if t.unicode_len() > 0 {
            let f = split_char(t, ',');
            let pv_name = String::from_str(trim_str(f[0].as_str()));
            let vg_name = if f.len() >= 2 {
                String::from_str(trim_str(f[1].as_str()))
            } else {
                String::new()
            };
            out.push(LvmPVData { pv_name, vg_name });
            proof {
                assert(pv_views(out@) =~= pv_views(old_out).push(out@.last()@));
                assert(out@.last()@ == spec_parse_pv_line(lv[i as int]));
            }
        }
        i += 1;
    }
    proof {
        assert(lv.take(n as int) =~= lv);
    }
    Ok(out)
}

/// A detail line from the real toolset never reports more free capacity
/// than total capacity; under that premise on the line's two byte-count
/// tokens, the parsed record satisfies the data-model invariant
/// `free <= size`.
pub proof fn lemma_vg_detail_free_le_size(s: Seq<char>)
    requires
        spec_parse_vgdo(s) is Ok,
        u64_token_val(spec_trim(spec_split(s, ',')[2])) <= u64_token_val(
            spec_trim(spec_split(s, ',')[1]),
        ),
    ensures
        spec_parse_vgdo(s)->Ok_0.free <= spec_parse_vgdo(s)->Ok_0.size,
{
}

/// A volume-group detail line with five or fewer fields never parses, and
/// the error names the first missing field; a line with six fields but a
/// corrupt numeric field — the size or free byte-count token, or the
/// physical-volume count — never parses either.
pub proof fn lemma_vg_detail_rejects(s: Seq<char>)
    ensures
        spec_split(s, ',').len() < 6 ==> spec_parse_vgdo(s) == Err::<VgDataView, LvmError>(
            LvmError::TooFewFields(vg_field_at(spec_split(s, ',').len() as int)),
        ),
        spec_split(s, ',').len() >= 6 && !u64_token_ok(spec_trim(spec_split(s, ',')[1]))
            ==> spec_parse_vgdo(s) == Err::<VgDataView, LvmError>(LvmError::MalformedNumber),
        spec_split(s, ',').len() >= 6 && !u64_token_ok(spec_trim(spec_split(s, ',')[2]))
            ==> spec_parse_vgdo(s) == Err::<VgDataView, LvmError>(LvmError::MalformedNumber),
        spec_split(s, ',').len() >= 6 && !u64_digits_ok(spec_trim(spec_split(s, ',')[3]))
            ==> spec_parse_vgdo(s) == Err::<VgDataView, LvmError>(LvmError::MalformedNumber),
{
}

/// One extent segment: a backing device token (a real device path, or
/// another logical volume's bracketed name in a RAID tree) and the extent
/// range reported for it.
#[derive(Clone, Debug, PartialEq, Eq)]
pub struct LvmlvSegData {
    pub pvdev: String,
    pub pv_start_pe: u64,
    pub size_pe: u64,
}

/// Mathematical model of a segment record.
#[verifier::ext_equal]
pub struct SegDataView {
    pub pvdev: Seq<char>,
    pub pv_start_pe: int,
    pub size_pe: int,
}

impl View for LvmlvSegData {
    type V = SegDataView;

    open spec fn view(&self) -> SegDataView {
        SegDataView {
            pvdev: self.pvdev@,
            pv_start_pe: self.pv_start_pe as int,
            size_pe: self.size_pe as int,
        }
    }
}

/// The views of a vector of segment records.
pub open spec fn seg_views(v: Seq<LvmlvSegData>) -> Seq<SegDataView> {
    v.map_values(|x: LvmlvSegData| x@)
}

/// What one extent-range piece such as `/dev/sda1:7424-9983` yields: the
/// device token before the first colon, and the extent pair after it.  A
/// missing or garbled numeric range degrades to `(0, 0)` rather than
/// failing; a piece with no colon at all fails, because then no device
/// token can be taken from it.
pub open spec fn spec_parse_seg_piece(p: Seq<char>) -> Result<SegDataView, LvmError> {
    let cpos = first_index_of(p, ':');
    if cpos < 0 {
        Err(LvmError::DeviceTokenMissing)
    } else {
        let pvdev = p.take(cpos);
        let rem = p.skip(cpos + 1);
        let hpos = first_index_of(rem, '-');
        if hpos < 0 {
            Ok(SegDataView { pvdev, pv_start_pe: 0, size_pe: 0 })
        } else {
            let a = rem.take(hpos);
            let b = rem.skip(hpos + 1);
            if u64_digits_ok(a) && u64_digits_ok(b) {
                Ok(SegDataView { pvdev, pv_start_pe: digits_value(a), size_pe: digits_value(b) })
            } else {
                Ok(SegDataView { pvdev, pv_start_pe: 0, size_pe: 0 })
            }
        }
    }
}

/// Lift an executable piece-parse result to its mathematical model.
pub open spec fn result_seg_view(r: Result<LvmlvSegData, LvmError>) -> Result<
    SegDataView,
    LvmError,
> {
    match r {
        Ok(v) => Ok(v@),
        Err(e) => Err(e),
    }
}

/// Parse one extent-range piece.
pub fn parse_seg_piece(p: &str) -> (r: Result<LvmlvSegData, LvmError>)
    ensures
        result_seg_view(r) == spec_parse_seg_piece(p@),
{
    let len = p.unicode_len();
    let cpos = match find_char(p, ':') {
        Some(i) => i,
        None => {
            return Err(LvmError::DeviceTokenMissing);
        },
    };
    proof {
        lemma_first_index_of(p@, ':');
    }
    let pvdev = String::from_str(p.substring_char(0, cpos));
    let rem = p.substring_char(cpos + 1, len);
    proof {
        assert(pvdev@ =~= p@.take(cpos as int));
        assert(rem@ =~= p@.skip(cpos as int + 1));
    }
    let rlen = rem.unicode_len();
    match find_char(rem, '-') {
        None => Ok(LvmlvSegData { pvdev, pv_start_pe: 0, size_pe: 0 }),
        Some(hpos) => {
            proof {
                lemma_first_index_of(rem@, '-');
            }
            let a = rem.substring_char(0, hpos);
            let b = rem.substring_char(hpos + 1, rlen);
            proof {
                assert(a@ =~= rem@.take(hpos as int));
                assert(b@ =~= rem@.skip(hpos as int + 1));
            }
            match (parse_u64_digits(a), parse_u64_digits(b)) {
                (Some(start), Some(end)) => Ok(
                    LvmlvSegData { pvdev, pv_start_pe: start, size_pe: end },
                ),
                _ => Ok(LvmlvSegData { pvdev, pv_start_pe: 0, size_pe: 0 }),
            }
        },
    }
}

/// Index of the first segment in `acc` whose device token equals `dev`,
/// or -1 when none does.
pub open spec fn find_seg(acc: Seq<SegDataView>, dev: Seq<char>) -> int
    decreases acc.len(),
{
    if acc.len() == 0 {
        -1
    } else if acc[0].pvdev == dev {
        0
    } else {
        let r = find_seg(acc.drop_first(), dev);
        if r < 0 {
            -1
        } else {
            r + 1
        }
    }
}

pub proof fn lemma_find_seg(acc: Seq<SegDataView>, dev: Seq<char>)
    ensures
        find_seg(acc, dev) == -1 ==> (forall|i: int| 0 <= i < acc.len() ==> acc[i].pvdev != dev),
        find_seg(acc, dev) >= 0 ==> {
            let r = find_seg(acc, dev);
            &&& r < acc.len()
            &&& acc[r].pvdev == dev
            &&& forall|i: int| 0 <= i < r ==> acc[i].pvdev != dev
        },
    decreases acc.len(),
{
    if acc.len() > 0 && acc[0].pvdev != dev {
        lemma_find_seg(acc.drop_first(), dev);
        let r1 = find_seg(acc.drop_first(), dev);
        if r1 >= 0 {
            assert(acc.drop_first()[r1] == acc[r1 + 1]);
            assert forall|i: int| 0 <= i < r1 + 1 implies acc[i].pvdev != dev by {
                if i > 0 {
                    assert(acc.drop_first()[i - 1] == acc[i]);
                }
            }
        } else {
            assert forall|i: int| 0 <= i < acc.len() implies acc[i].pvdev != dev by {
                if i > 0 {
                    assert(acc.drop_first()[i - 1] == acc[i]);
                }
            }
        }
    }
}

/// Fold one parsed segment into a device-deduplicated accumulator: a new
/// device is appended, a device already present keeps its place and takes
/// the more recent range.
pub open spec fn add_seg(acc: Seq<SegDataView>, sv: SegDataView) -> Seq<SegDataView> {
    let i = find_seg(acc, sv.pvdev);
    if i < 0 {
        acc.push(sv)
    } else {
        acc.update(i, sv)
    }
}

/// No two segments name the same device.
pub open spec fn unique_devs(acc: Seq<SegDataView>) -> bool {
    forall|i: int, j: int| 0 <= i < j < acc.len() ==> acc[i].pvdev != acc[j].pvdev
}

pub proof fn lemma_add_seg_unique(acc: Seq<SegDataView>, sv: SegDataView)
    requires
        unique_devs(acc),
    ensures
        unique_devs(add_seg(acc, sv)),
{
    lemma_find_seg(acc, sv.pvdev);
}

/// Fold the pieces of one resolver line, left to right.
pub open spec fn resolve_pieces(acc: Seq<SegDataView>, pieces: Seq<Seq<char>>) -> Result<
    Seq<SegDataView>,
    LvmError,
>
    decreases pieces.len(),
{
    if pieces.len() == 0 {
        Ok(acc)
    } else {
        match resolve_pieces(acc, pieces.drop_last()) {
            Err(e) => Err(e),
            Ok(a) => match spec_parse_seg_piece(spec_trim(pieces.last())) {
                Err(e) => Err(e),
                Ok(sv) => Ok(add_seg(a, sv)),
            },
        }
    }
}

/// Fold the non-blank lines of a dedicated segment report, left to right.
pub open spec fn resolve_lines(lines: Seq<Seq<char>>) -> Result<Seq<SegDataView>, LvmError>
    decreases lines.len(),
{
    if lines.len() == 0 {
        Ok(Seq::empty())
    } else {
        match resolve_lines(lines.drop_last()) {
            Err(e) => Err(e),
            Ok(a) => {
                if spec_trim(lines.last()).len() == 0 {
                    Ok(a)
                } else {
                    resolve_pieces(a, spec_split(spec_trim(lines.last()), ','))
                }
            },
        }
    }
}

/// What resolving a dedicated segment report yields: every device token
/// across all lines exactly once, each carrying the most recent range seen
/// for it.
pub open spec fn spec_resolve_segments(s: Seq<char>) -> Result<Seq<SegDataView>, LvmError> {
    resolve_lines(spec_lines(s))
}

pub proof fn lemma_resolve_pieces_unique(acc: Seq<SegDataView>, pieces: Seq<Seq<char>>)
    requires
        unique_devs(acc),
        resolve_pieces(acc, pieces) is Ok,
    ensures
        unique_devs(resolve_pieces(acc, pieces)->Ok_0),
    decreases pieces.len(),
{
    if pieces.len() > 0 {
        lemma_resolve_pieces_unique(acc, pieces.drop_last());
        let a = resolve_pieces(acc, pieces.drop_last())->Ok_0;
        match spec_parse_seg_piece(spec_trim(pieces.last())) {
            Err(_) => {},
            Ok(sv) => {
                lemma_add_seg_unique(a, sv);
            },
        }
    }
}

pub proof fn lemma_resolve_lines_unique(lines: Seq<Seq<char>>)
    requires
        resolve_lines(lines) is Ok,
    ensures
        unique_devs(resolve_lines(lines)->Ok_0),
    decreases lines.len(),
{
    if lines.len() > 0 {
        lemma_resolve_lines_unique(lines.drop_last());
        let a = resolve_lines(lines.drop_last())->Ok_0;
        if spec_trim(lines.last()).len() > 0 {
            lemma_resolve_pieces_unique(a, spec_split(spec_trim(lines.last()), ','));
        }
    }
}

/// Lift an executable resolver result to its mathematical model.
pub open spec fn result_segs_view(r: Result<Vec<LvmlvSegData>, LvmError>) -> Result<
    Seq<SegDataView>,
    LvmError,
> {
    match r {
        Ok(v) => Ok(seg_views(v@)),
        Err(e) => Err(e),
    }
}

/// Errors in earlier pieces decide the outcome whatever follows them.
proof fn lemma_resolve_pieces_err(acc: Seq<SegDataView>, pieces: Seq<Seq<char>>, j: int)
    requires
        0 <= j <= pieces.len(),
        resolve_pieces(acc, pieces.take(j)) is Err,
    ensures
        resolve_pieces(acc, pieces) == resolve_pieces(acc, pieces.take(j)),
    decreases pieces.len() - j,
{
    if j < pieces.len() {
        assert(pieces.take(j + 1).drop_last() =~= pieces.take(j));
        lemma_resolve_pieces_err(acc, pieces, j + 1);
    } else {
        assert(pieces.take(j) =~= pieces);
    }
}

/// Errors in earlier lines decide the outcome whatever follows them.
proof fn lemma_resolve_lines_err(lines: Seq<Seq<char>>, j: int)
    requires
        0 <= j <= lines.len(),
        resolve_lines(lines.take(j)) is Err,
    ensures
        resolve_lines(lines) == resolve_lines(lines.take(j)),
    decreases lines.len() - j,
{
    if j < lines.len() {
        assert(lines.take(j + 1).drop_last() =~= lines.take(j));
        lemma_resolve_lines_err(lines, j + 1);
    } else {
        assert(lines.take(j) =~= lines);
    }
}

/// Resolve a dedicated segment report for one logical volume: every
/// device token across all lines appears exactly once in the result,
/// carrying the most recent range seen for it.  Callers must not depend
/// on the order of the result.
pub fn resolve_segments(s: &str) -> (r: Result<Vec<LvmlvSegData>, LvmError>)
    ensures
        result_segs_view(r) == spec_resolve_segments(s@),
        r matches Ok(v) ==> unique_devs(seg_views(v@)),
{
    let lines = lines_of(s);
    let ghost lv = str_views(lines@);
    let mut acc: Vec<LvmlvSegData> = Vec::new();
    let mut i: usize = 0;
    let n = lines.len();
    proof {
        assert(lv.take(0) =~= Seq::<Seq<char>>::empty());
        assert(seg_views(acc@) =~= Seq::<SegDataView>::empty());
    }
    while i < n
        invariant
            i <= n,
            n == lines@.len(),
            n == lv.len(),
            lv == str_views(lines@),
            lv == spec_lines(s@),
            resolve_lines(lv.take(i as int)) == Ok::<Seq<SegDataView>, LvmError>(seg_views(acc@)),
        decreases n - i,
    {
        proof {
            assert(lv.take(i as int + 1).drop_last() =~= lv.take(i as int));
            assert(lv.take(i as int + 1).last() == lv[i as int]);
            assert(lv[i as int] == lines@[i as int]@);
        }
        let t = trim_str(lines[i].as_str());
        if t.unicode_len() > 0 {
            let pieces = split_char(t, ',');
            let ghost pv = str_views(pieces@);
            let ghost acc0 = seg_views(acc@);
            let mut j: usize = 0;
            let np = pieces.len();
            proof {
                assert(pv.take(0) =~= Seq::<Seq<char>>::empty());
                assert(resolve_lines(lv.take(i as int)) == Ok::<Seq<SegDataView>, LvmError>(acc0));
            }
            while j < np
                invariant
                    j <= np,
                    np == pieces@.len(),
                    np == pv.len(),
                    pv == str_views(pieces@),
                    i < n,
                    n == lv.len(),
                    lv == spec_lines(s@),
                    lv.take(i as int + 1).drop_last() == lv.take(i as int),
                    lv.take(i as int + 1).last() == lv[i as int],
                    t@ == spec_trim(lv[i as int]),
                    t@.len() > 0,
                    pv == spec_split(t@, ','),
                    resolve_lines(lv.take(i as int)) == Ok::<Seq<SegDataView>, LvmError>(acc0),
                    resolve_pieces(acc0, pv.take(j as int)) == Ok::<Seq<SegDataView>, LvmError>(
                        seg_views(acc@),
                    ),
                decreases np - j,
            {
                proof {
                    assert(pv.take(j as int + 1).drop_last() =~= pv.take(j as int));
                    assert(pv.take(j as int + 1).last() == pv[j as int]);
                    assert(pv[j as int] == pieces@[j as int]@);
                }
                match parse_seg_piece(trim_str(pieces[j].as_str())) {
                    Err(e) => {
                        proof {
                            assert(resolve_pieces(acc0, pv.take(j as int + 1)) == Err::<
                                Seq<SegDataView>,
                                LvmError,
                            >(e));
                            lemma_resolve_pieces_err(acc0, pv, j as int + 1);
                            assert(resolve_lines(lv.take(i as int + 1)) == Err::<
                                Seq<SegDataView>,
                                LvmError,
                            >(e));
                            lemma_resolve_lines_err(lv, i as int + 1);
                        }
                        return Err(e);
                    },
                    Ok(sd) => {
                        push_seg_dedup(&mut acc, sd);
                    },
                }
                j += 1;
            }
            proof {
                assert(pv.take(np as int) =~= pv);
            }
        }
        i += 1;
    }
    proof {
        assert(lv.take(n as int) =~= lv);
        lemma_resolve_lines_unique(lv);
    }
    Ok(acc)
}

/// Fold one parsed segment into the accumulator, deduplicating by device
/// token.
fn push_seg_dedup(acc: &mut Vec<LvmlvSegData>, sd: LvmlvSegData)
    ensures
        seg_views(final(acc)@) == add_seg(seg_views(old(acc)@), sd@),
{
    let ghost avs = seg_views(acc@);
    let n = acc.len();
    let mut k: usize = 0;
    while k < n
        invariant
            k <= n,
            n == acc@.len(),
            acc@ == old(acc)@,
            avs == seg_views(acc@),
            forall|m: int| 0 <= m < k ==> avs[m].pvdev != sd@.pvdev,
        decreases n - k,
    {
        if acc[k].pvdev == sd.pvdev {
            proof {
                assert(avs[k as int] == acc@[k as int]@);
                assert(avs[k as int].pvdev == sd@.pvdev);
                lemma_find_seg(avs, sd@.pvdev);
                assert(find_seg(avs, sd@.pvdev) == k as int);
            }
            let ghost before = acc@;
            let _ = acc.remove(k);
            acc.insert(k, sd);
            proof {
                assert(acc@ =~= before.update(k as int, sd));
                assert(seg_views(acc@) =~= avs.update(k as int, sd@));
            }
            return ;
        }
        proof {
            assert(avs[k as int] == acc@[k as int]@);
        }
        k += 1;
    }
    proof {
        lemma_find_seg(avs, sd@.pvdev);
        assert(find_seg(avs, sd@.pvdev) == -1);
    }
    let ghost old_acc = acc@;
    acc.push(sd);
    proof {
        assert(seg_views(acc@) =~= seg_views(old_acc).push(sd@));
    }
}

/// One logical volume.  A bracketed name such as `[lvpub_rimage_0]`
/// denotes a RAID-internal sub-volume; a non-empty `parent_lv` marks the
/// record as such a sub-volume.
#[derive(Clone, Debug, PartialEq, Eq)]
pub struct LvmLvData {
    pub lv_name: String,
    pub vg_name: String,
    /// Size in bytes.
    pub size: u64,
    /// Opaque attribute flags token.
    pub attr: String,
    /// Topology kind: `linear`, `striped`, `raid0`, `raid1`, `raid5`,
    /// `raid6` or `raid10`.
    pub segtype: String,
    pub uuid: String,
    pub lv_segs: Vec<LvmlvSegData>,
    pub stripes: u16,
    pub data_stripes: u16,
    /// Owning top-level volume name; empty for a top-level volume.
    pub parent_lv: String,
}

/// Mathematical model of a logical-volume record.
#[verifier::ext_equal]
pub struct LvDataView {
    pub lv_name: Seq<char>,
    pub vg_name: Seq<char>,
    pub size: int,
    pub attr: Seq<char>,
    pub segtype: Seq<char>,
    pub uuid: Seq<char>,
    pub lv_segs: Seq<SegDataView>,
    pub stripes: int,
    pub data_stripes: int,
    pub parent_lv: Seq<char>,
}

impl View for LvmLvData {
    type V = LvDataView;

    open spec fn view(&self) -> LvDataView {
        LvDataView {
            lv_name: self.lv_name@,
            vg_name: self.vg_name@,
            size: self.size as int,
            attr: self.attr@,
            segtype: self.segtype@,
            uuid: self.uuid@,
            lv_segs: seg_views(self.lv_segs@),
            stripes: self.stripes as int,
            data_stripes: self.data_stripes as int,
            parent_lv: self.parent_lv@,
        }
    }
}

/// The views of a vector of logical-volume records.
pub open spec fn lv_views(v: Seq<LvmLvData>) -> Seq<LvDataView> {
    v.map_values(|x: LvmLvData| x@)
}

/// The logical-volume field that position `i` of a report line holds.
pub open spec fn lv_field_at(i: int) -> ReportField {
    if i == 0 {
        ReportField::LvName
    } else if i == 1 {
        ReportField::LvVgName
    } else if i == 2 {
        ReportField::LvSize
    } else if i == 3 {
        ReportField::LvAttr
    } else if i == 4 {
        ReportField::LvSegType
    } else if i == 5 {
        ReportField::LvUuid
    } else if i == 6 {
        ReportField::LvStripes
    } else if i == 7 {
        ReportField::LvDataStripes
    } else {
        ReportField::LvParent
    }
}

fn lv_field_at_exec(i: usize) -> (r: ReportField)
    ensures
        r == lv_field_at(i as int),
{
    if i == 0 {
        ReportField::LvName
    } else if i == 1 {
        ReportField::LvVgName
    } else if i == 2 {
        ReportField::LvSize
    } else if i == 3 {
        ReportField::LvAttr
    } else if i == 4 {
        ReportField::LvSegType
    } else if i == 5 {
        ReportField::LvUuid
    } else if i == 6 {
        ReportField::LvStripes
    } else if i == 7 {
        ReportField::LvDataStripes
    } else {
        ReportField::LvParent
    }
}

/// The extent segments carried by the trailing fields of one line, left
/// to right; the first piece with no device token decides the outcome.
pub open spec fn spec_parse_seg_fields(fs: Seq<Seq<char>>) -> Result<Seq<SegDataView>, LvmError>
    decreases fs.len(),
{
    if fs.len() == 0 {
        Ok(Seq::empty())
    } else {
        match spec_parse_seg_fields(fs.drop_last()) {
            Err(e) => Err(e),
            Ok(rest) => match spec_parse_seg_piece(spec_trim(fs.last())) {
                Err(e) => Err(e),
                Ok(sv) => Ok(rest.push(sv)),
            },
        }
    }
}

proof fn lemma_seg_fields_err(fs: Seq<Seq<char>>, j: int)
    requires
        0 <= j <= fs.len(),
        spec_parse_seg_fields(fs.take(j)) is Err,
    ensures
        spec_parse_seg_fields(fs) == spec_parse_seg_fields(fs.take(j)),
    decreases fs.len() - j,
{
    if j < fs.len() {
        assert(fs.take(j + 1).drop_last() =~= fs.take(j));
        lemma_seg_fields_err(fs, j + 1);
    } else {
        assert(fs.take(j) =~= fs);
    }
}

/// What one non-blank logical-volume line yields: eight fixed leading
/// fields, a parent name, and extent segments from any trailing fields.
pub open spec fn spec_parse_lv_line(l: Seq<char>) -> Result<LvDataView, LvmError> {
    let f = spec_split(spec_trim(l), ',');
    if f.len() < 9 {
        Err(LvmError::TooFewFields(lv_field_at(f.len() as int)))
    } else if !u64_token_ok(spec_trim(f[2])) {
        Err(LvmError::MalformedNumber)
    } else if !u16_token_ok(spec_trim(f[6])) {
        Err(LvmError::MalformedNumber)
    } else if !u16_token_ok(spec_trim(f[7])) {
        Err(LvmError::MalformedNumber)
    } else {
        match spec_parse_seg_fields(f.skip(9)) {
            Err(e) => Err(e),
            Ok(segs) => Ok(
                LvDataView {
                    lv_name: spec_trim(f[0]),
                    vg_name: spec_trim(f[1]),
                    size: u64_token_val(spec_trim(f[2])),
                    attr: spec_trim(f[3]),
                    segtype: spec_trim(f[4]),
                    uuid: spec_trim(f[5]),
                    lv_segs: segs,
                    stripes: digits_value(spec_trim(f[6])),
                    data_stripes: digits_value(spec_trim(f[7])),
                    parent_lv: spec_trim(f[8]),
                },
            ),
        }
    }
}

/// Lift an executable line-parse result to its mathematical model.
pub open spec fn result_lv_view(r: Result<LvmLvData, LvmError>) -> Result<LvDataView, LvmError> {
    match r {
        Ok(v) => Ok(v@),
        Err(e) => Err(e),
    }
}

/// Parse the extent segments in the fields of one report line from
/// position `from` on: each field is one range piece such as
/// `/dev/sda1:7424-9983` or `[lvpub_rimage_0]:0-42666`.
pub fn parse_lvso_segs(fields: &Vec<String>, from: usize) -> (r: Result<Vec<LvmlvSegData>, LvmError>)
    requires
        from <= fields@.len(),
    ensures
        result_segs_view(r) == spec_parse_seg_fields(str_views(fields@).skip(from as int)),
{
    let ghost fv = str_views(fields@);
    let ghost trail = fv.skip(from as int);
    let mut segs: Vec<LvmlvSegData> = Vec::new();
    let mut j: usize = from;
    let nf = fields.len();
    proof {
        assert(trail.take(0) =~= Seq::<Seq<char>>::empty());
        assert(seg_views(segs@) =~= Seq::<SegDataView>::empty());
    }
    while j < nf
        invariant
            from <= j <= nf,
            nf == fields@.len(),
            nf == fv.len(),
            fv == str_views(fields@),
            trail == fv.skip(from as int),
            spec_parse_seg_fields(trail.take(j as int - from)) == Ok::<Seq<SegDataView>, LvmError>(
                seg_views(segs@),
            ),
        decreases nf - j,
    {
        proof {
            assert(trail.take(j as int - from + 1).drop_last() =~= trail.take(j as int - from));
            assert(trail.take(j as int - from + 1).last() == trail[j as int - from]);
            assert(trail[j as int - from] == fv[j as int]);
            assert(fv[j as int] == fields@[j as int]@);
        }
        match parse_seg_piece(trim_str(fields[j].as_str())) {
            Err(e) => {
                proof {
                    assert(spec_parse_seg_fields(trail.take(j as int - from + 1)) == Err::<
                        Seq<SegDataView>,
                        LvmError,
                    >(e));
                    lemma_seg_fields_err(trail, j as int - from + 1);
                }
                return Err(e);
            },
            Ok(sd) => {
                let ghost old_segs = segs@;
                segs.push(sd);
                proof {
                    assert(seg_views(segs@) =~= seg_views(old_segs).push(sd@));
                }
            },
        }
        j += 1;
    }
    proof {
        assert(trail.take(nf as int - from) =~= trail);
    }
    Ok(segs)
}

/// Parse one non-blank logical-volume report line.
pub fn parse_lv_line(l: &str) -> (r: Result<LvmLvData, LvmError>)
    ensures
        result_lv_view(r) == spec_parse_lv_line(l@),
{
    let t = trim_str(l);
    let f = split_char(t, ',');
    let ghost fv = str_views(f@);
    if f.len() < 9 {
        return Err(LvmError::TooFewFields(lv_field_at_exec(f.len())));
    }
    let size = match parseu64_ds(trim_str(f[2].as_str())) {
        Ok(v) => v,
        Err(e) => {
            return Err(e);
        },
    };
    let stripes = match parseu16(trim_str(f[6].as_str())) {
        Ok(v) => v,
        Err(e) => {
            return Err(e);
        },
    };
    let data_stripes = match parseu16(trim_str(f[7].as_str())) {
        Ok(v) => v,
        Err(e) => {
            return Err(e);
        },
    };
    let segs = match parse_lvso_segs(&f, 9) {
        Ok(v) => v,
        Err(e) => {
            return Err(e);
        },
    };
    let rec = LvmLvData {
        lv_name: String::from_str(trim_str(f[0].as_str())),
        vg_name: String::from_str(trim_str(f[1].as_str())),
        size,
        attr: String::from_str(trim_str(f[3].as_str())),
        segtype: String::from_str(trim_str(f[4].as_str())),
        uuid: String::from_str(trim_str(f[5].as_str())),
        lv_segs: segs,
        stripes,
        data_stripes,
        parent_lv: String::from_str(trim_str(f[8].as_str())),
    };
    proof {
        assert(rec@ =~= spec_parse_lv_line(l@)->Ok_0);
    }
    Ok(rec)
}

/// Index of the first record in `acc` named `name`, or -1 when none is.
pub open spec fn find_lv(acc: Seq<LvDataView>, name: Seq<char>) -> int
    decreases acc.len(),
{
    if acc.len() == 0 {
        -1
    } else if acc[0].lv_name == name {
        0
    } else {
        let r = find_lv(acc.drop_first(), name);
        if r < 0 {
            -1
        } else {
            r + 1
        }
    }
}

pub proof fn lemma_find_lv(acc: Seq<LvDataView>, name: Seq<char>)
    ensures
        find_lv(acc, name) == -1 ==> (forall|i: int| 0 <= i < acc.len() ==> acc[i].lv_name != name),
        find_lv(acc, name) >= 0 ==> {
            let r = find_lv(acc, name);
            &&& r < acc.len()
            &&& acc[r].lv_name == name
            &&& forall|i: int| 0 <= i < r ==> acc[i].lv_name != name
        },
    decreases acc.len(),
{
    if acc.len() > 0 && acc[0].lv_name != name {
        lemma_find_lv(acc.drop_first(), name);
        let r1 = find_lv(acc.drop_first(), name);
        if r1 >= 0 {
            assert(acc.drop_first()[r1] == acc[r1 + 1]);
            assert forall|i: int| 0 <= i < r1 + 1 implies acc[i].lv_name != name by {
                if i > 0 {
                    assert(acc.drop_first()[i - 1] == acc[i]);
                }
            }
        } else {
            assert forall|i: int| 0 <= i < acc.len() implies acc[i].lv_name != name by {
                if i > 0 {
                    assert(acc.drop_first()[i - 1] == acc[i]);
                }
            }
        }
    }
}

/// Fold one parsed line into the record set, keying by volume name: the
/// first occurrence of a name wins for the leading fields, and the
/// segments of any later occurrence are merged onto that record.
pub open spec fn merge_lv(acc: Seq<LvDataView>, rec: LvDataView) -> Seq<LvDataView> {
    let i = find_lv(acc, rec.lv_name);
    if i < 0 {
        acc.push(rec)
    } else {
        let ex = acc[i];
        acc.update(i, LvDataView { lv_segs: ex.lv_segs + rec.lv_segs, ..ex })
    }
}

/// Fold the non-blank lines of a logical-volume report, left to right.
pub open spec fn lv_records_of(lines: Seq<Seq<char>>) -> Result<Seq<LvDataView>, LvmError>
    decreases lines.len(),
{
    if lines.len() == 0 {
        Ok(Seq::empty())
    } else {
        match lv_records_of(lines.drop_last()) {
            Err(e) => Err(e),
            Ok(acc) => {
                if spec_trim(lines.last()).len() == 0 {
                    Ok(acc)
                } else {
                    match spec_parse_lv_line(lines.last()) {
                        Err(e) => Err(e),
                        Ok(rec) => Ok(merge_lv(acc, rec)),
                    }
                }
            },
        }
    }
}

/// What parsing a logical-volume list report yields.
pub open spec fn spec_parse_lvso(s: Seq<char>) -> Result<Seq<LvDataView>, LvmError> {
    lv_records_of(spec_lines(s))
}

/// Errors in earlier lines decide the outcome whatever follows them.
proof fn lemma_lv_records_err(lines: Seq<Seq<char>>, j: int)
    requires
        0 <= j <= lines.len(),
        lv_records_of(lines.take(j)) is Err,
    ensures
        lv_records_of(lines) == lv_records_of(lines.take(j)),
    decreases lines.len() - j,
{
    if j < lines.len() {
        assert(lines.take(j + 1).drop_last() =~= lines.take(j));
        lemma_lv_records_err(lines, j + 1);
    } else {
        assert(lines.take(j) =~= lines);
    }
}

/// Lift an executable list-parse result to its mathematical model.
pub open spec fn result_lvs_view(r: Result<Vec<LvmLvData>, LvmError>) -> Result<
    Seq<LvDataView>,
    LvmError,
> {
    match r {
        Ok(v) => Ok(lv_views(v@)),
        Err(e) => Err(e),
    }
}

fn clone_seg(x: &LvmlvSegData) -> (r: LvmlvSegData)
    ensures
        r@ == x@,
{
    LvmlvSegData { pvdev: x.pvdev.clone(), pv_start_pe: x.pv_start_pe, size_pe: x.size_pe }
}

/// Fold one parsed record into the accumulator, keying by volume name.
fn push_lv_merge(acc: &mut Vec<LvmLvData>, rec: LvmLvData)
    ensures
        lv_views(final(acc)@) == merge_lv(lv_views(old(acc)@), rec@),
{
    let ghost avs = lv_views(acc@);
    let n = acc.len();
    let mut k: usize = 0;
    while k < n
        invariant
            k <= n,
            n == acc@.len(),
            acc@ == old(acc)@,
            avs == lv_views(acc@),
            forall|m: int| 0 <= m < k ==> avs[m].lv_name != rec@.lv_name,
        decreases n - k,
    {
        if acc[k].lv_name == rec.lv_name {
            proof {
                assert(avs[k as int] == acc@[k as int]@);
                assert(avs[k as int].lv_name == rec@.lv_name);
                lemma_find_lv(avs, rec@.lv_name);
                assert(find_lv(avs, rec@.lv_name) == k as int);
            }
            let ghost before = acc@;
            let mut ex = acc.remove(k);
            let ghost exv = ex@;
            let mut m: usize = 0;
            let nm = rec.lv_segs.len();
            proof {
                assert(rec.lv_segs@.take(0) =~= Seq::<LvmlvSegData>::empty());
                assert(seg_views(ex.lv_segs@) =~= exv.lv_segs + seg_views(rec.lv_segs@.take(0)));
            }
            while m < nm
                invariant
                    m <= nm,
                    nm == rec.lv_segs@.len(),
                    ex.lv_name@ == exv.lv_name,
                    ex.vg_name@ == exv.vg_name,
                    ex.size == exv.size,
                    ex.attr@ == exv.attr,
                    ex.segtype@ == exv.segtype,
                    ex.uuid@ == exv.uuid,
                    ex.stripes == exv.stripes,
                    ex.data_stripes == exv.data_stripes,
                    ex.parent_lv@ == exv.parent_lv,
                    seg_views(ex.lv_segs@) == exv.lv_segs + seg_views(rec.lv_segs@.take(m as int)),
                decreases nm - m,
            {
                let ghost old_segs = ex.lv_segs@;
                ex.lv_segs.push(clone_seg(&rec.lv_segs[m]));
                proof {
                    assert(seg_views(ex.lv_segs@) =~= seg_views(old_segs).push(
                        rec.lv_segs@[m as int]@,
                    ));
                    assert(rec.lv_segs@.take(m as int + 1).drop_last() =~= rec.lv_segs@.take(
                        m as int,
                    ));
                    assert(seg_views(rec.lv_segs@.take(m as int + 1)) =~= seg_views(
                        rec.lv_segs@.take(m as int),
                    ).push(rec.lv_segs@[m as int]@));
                    assert(seg_views(ex.lv_segs@) =~= exv.lv_segs + seg_views(
                        rec.lv_segs@.take(m as int + 1),
                    ));
                }
                m += 1;
            }
            proof {
                assert(rec.lv_segs@.take(nm as int) =~= rec.lv_segs@);
                assert(ex@ =~= LvDataView { lv_segs: exv.lv_segs + rec@.lv_segs, ..exv });
            }
            acc.insert(k, ex);
            proof {
                assert(acc@ =~= before.update(k as int, ex));
                assert(lv_views(acc@) =~= avs.update(
                    k as int,
                    LvDataView { lv_segs: avs[k as int].lv_segs + rec@.lv_segs, ..avs[k as int] },
                ));
            }
            return ;
        }
        proof {
            assert(avs[k as int] == acc@[k as int]@);
        }
        k += 1;
    }
    proof {
        lemma_find_lv(avs, rec@.lv_name);
        assert(find_lv(avs, rec@.lv_name) == -1);
    }
    let ghost old_acc = acc@;
    acc.push(rec);
    proof {
        assert(lv_views(acc@) =~= lv_views(old_acc).push(acc@.last()@));
    }
}

/// Parse the logical-volume list report.  Records are keyed by volume
/// name: the first line for a name decides its fields, and trailing range
/// fields from later lines for the same name extend its segment list.
pub fn parse_lvso(s: &str) -> (r: Result<Vec<LvmLvData>, LvmError>)
    ensures
        result_lvs_view(r) == spec_parse_lvso(s@),
{
    let lines = lines_of(s);
    let ghost lv = str_views(lines@);
    let mut acc: Vec<LvmLvData> = Vec::new();
    let mut i: usize = 0;
    let n = lines.len();
    proof {
        assert(lv.take(0) =~= Seq::<Seq<char>>::empty());
        assert(lv_views(acc@) =~= Seq::<LvDataView>::empty());
    }
    while i < n
        invariant
            i <= n,
            n == lines@.len(),
            n == lv.len(),
            lv == str_views(lines@),
            lv == spec_lines(s@),
            lv_records_of(lv.take(i as int)) == Ok::<Seq<LvDataView>, LvmError>(lv_views(acc@)),
        decreases n - i,
    {
        proof {
            assert(lv.take(i as int + 1).drop_last() =~= lv.take(i as int));
            assert(lv.take(i as int + 1).last() == lv[i as int]);
            assert(lv[i as int] == lines@[i as int]@);
        }
        let t = trim_str(lines[i].as_str());
        if t.unicode_len() > 0 {
            match parse_lv_line(lines[i].as_str()) {
                Err(e) => {
                    proof {
                        assert(lv_records_of(lv.take(i as int + 1)) == Err::<
                            Seq<LvDataView>,
                            LvmError,
                        >(e));
                        lemma_lv_records_err(lv, i as int + 1);
                    }
                    return Err(e);
                },
                Ok(rec) => {
                    push_lv_merge(&mut acc, rec);
                },
            }
        }
        i += 1;
    }
    proof {
        assert(lv.take(n as int) =~= lv);
    }
    Ok(acc)
}

/// Blank or whitespace-only report text is an empty report, not an
/// error: the list parsers yield the empty sequence for it.
pub proof fn lemma_blank_input_is_empty_report(s: Seq<char>)
    requires
        all_space(s),
    ensures
        spec_parse_vgso(s) == Seq::<Seq<char>>::empty(),
        spec_parse_pvso(s) == Seq::<PvDataView>::empty(),
        spec_parse_lvso(s) == Ok::<Seq<LvDataView>, LvmError>(Seq::empty()),
        spec_resolve_segments(s) == Ok::<Seq<SegDataView>, LvmError>(Seq::empty()),
{
    lemma_lines_space(s);
    lemma_blank_lines_fold(spec_lines(s));
}

proof fn lemma_blank_lines_fold(lines: Seq<Seq<char>>)
    requires
        forall|i: int| 0 <= i < lines.len() ==> all_space(#[trigger] lines[i]),
    ensures
        trimmed_nonblank(lines) == Seq::<Seq<char>>::empty(),
        pv_records_of(lines) == Seq::<PvDataView>::empty(),
        lv_records_of(lines) == Ok::<Seq<LvDataView>, LvmError>(Seq::empty()),
        resolve_lines(lines) == Ok::<Seq<SegDataView>, LvmError>(Seq::empty()),
    decreases lines.len(),
{
    if lines.len() > 0 {
        assert(forall|i: int|
            0 <= i < lines.drop_last().len() ==> all_space(#[trigger] lines.drop_last()[i]));
        lemma_blank_lines_fold(lines.drop_last());
        lemma_trim_space(lines.last());
    }
}

/// Parsing is a function of the report text alone: two results that both
/// satisfy the volume-group detail parser's contract for the same text
/// are structurally equal.
pub proof fn lemma_vgdo_parse_deterministic(
    s: Seq<char>,
    a: Result<VgDataView, LvmError>,
    b: Result<VgDataView, LvmError>,
)
    requires
        a == spec_parse_vgdo(s),
        b == spec_parse_vgdo(s),
    ensures
        a == b,
{
}

/// Two results of parsing the same volume-group list are equal.
pub proof fn lemma_vgso_parse_deterministic(s: Seq<char>, a: Seq<Seq<char>>, b: Seq<Seq<char>>)
    requires
        a == spec_parse_vgso(s),
        b == spec_parse_vgso(s),
    ensures
        a == b,
{
}

/// Two results of parsing the same physical-volume report are equal.
pub proof fn lemma_pvso_parse_deterministic(s: Seq<char>, a: Seq<PvDataView>, b: Seq<PvDataView>)
    requires
        a == spec_parse_pvso(s),
        b == spec_parse_pvso(s),
    ensures
        a == b,
{
}

/// Two results of parsing the same logical-volume report are equal.
pub proof fn lemma_lvso_parse_deterministic(
    s: Seq<char>,
    a: Result<Seq<LvDataView>, LvmError>,
    b: Result<Seq<LvDataView>, LvmError>,
)
    requires
        a == spec_parse_lvso(s),
        b == spec_parse_lvso(s),
    ensures
        a == b,
{
}

} // verus!
