//! The inventory: the typed records of one refresh, held together, with
//! the membership queries the presentation layer reads.  Membership is a
//! name-equality relation resolved by query — the report text carries no
//! relational keys beyond name strings.

use vstd::prelude::*;

use crate::errors::LvmError;
use crate::report::parse_lvso;
use crate::report::parse_pvso;
use crate::report::parse_vgdo;
use crate::report::pv_views;
use crate::report::lv_views;
use crate::report::seg_views;
use crate::report::spec_parse_lvso;
use crate::report::spec_parse_pvso;
use crate::report::spec_parse_vgdo;
use crate::report::LvDataView;
use crate::report::LvmLvData;
use crate::report::LvmPVData;
use crate::report::LvmVgData;
use crate::report::LvmlvSegData;
use crate::report::PvDataView;
use crate::report::VgDataView;
use crate::text::str_views;

verus! {

/// Device paths of the physical volumes whose owning group is `vg`, in
/// report order.
pub open spec fn pvs_in(pvs: Seq<PvDataView>, vg: Seq<char>) -> Seq<Seq<char>>
    decreases pvs.len(),
{
    if pvs.len() == 0 {
        Seq::empty()
    } else {
        let rest = pvs_in(pvs.drop_last(), vg);
        if pvs.last().vg_name == vg {
            rest.push(pvs.last().pv_name)
        } else {
            rest
        }
    }
}

/// Names of the logical volumes whose owning group is `vg`, in report
/// order.
pub open spec fn lvs_in(lvs: Seq<LvDataView>, vg: Seq<char>) -> Seq<Seq<char>>
    decreases lvs.len(),
{
    if lvs.len() == 0 {
        Seq::empty()
    } else {
        let rest = lvs_in(lvs.drop_last(), vg);
        if lvs.last().vg_name == vg {
            rest.push(lvs.last().lv_name)
        } else {
            rest
        }
    }
}

/// The full records of the logical volumes whose owning group is `vg`,
/// in report order.
pub open spec fn lv_recs_in(lvs: Seq<LvDataView>, vg: Seq<char>) -> Seq<LvDataView>
    decreases lvs.len(),
{
    if lvs.len() == 0 {
        Seq::empty()
    } else {
        let rest = lv_recs_in(lvs.drop_last(), vg);
        if lvs.last().vg_name == vg {
            rest.push(lvs.last())
        } else {
            rest
        }
    }
}

/// Device paths of the physical volumes that belong to the named volume
/// group, in the order the source list holds them.
pub fn find_pvs_by_vg(vg_name: &String, pv_list: &Vec<LvmPVData>) -> (r: Vec<String>)
    ensures
        str_views(r@) == pvs_in(pv_views(pv_list@), vg_name@),
{
    let ghost vs = pv_views(pv_list@);
    let mut out: Vec<String> = Vec::new();
    let mut i: usize = 0;
    let n = pv_list.len();
    proof {
        assert(vs.take(0) =~= Seq::<PvDataView>::empty());
        assert(str_views(out@) =~= Seq::<Seq<char>>::empty());
    }
    while i < n
        invariant
            i <= n,
            n == pv_list@.len(),
            vs == pv_views(pv_list@),
            str_views(out@) == pvs_in(vs.take(i as int), vg_name@),
        decreases n - i,
    {
        proof {
            assert(vs.take(i as int + 1).drop_last() =~= vs.take(i as int));
            assert(vs.take(i as int + 1).last() == vs[i as int]);
            assert(vs[i as int] == pv_list@[i as int]@);
        }
        let ghost old_out = out@;
        if *vg_name == pv_list[i].vg_name {
            out.push(pv_list[i].pv_name.clone());
            proof {
                assert(str_views(out@) =~= str_views(old_out).push(out@.last()@));
            }
        }
        i += 1;
    }
    proof {
        assert(vs.take(n as int) =~= vs);
    }
    out
}

/// Names of the logical volumes that belong to the named volume group, in
/// the order the source list holds them.
pub fn find_lvs_by_vg(vg_name: &String, lv_list: &Vec<LvmLvData>) -> (r: Vec<String>)
    ensures
        str_views(r@) == lvs_in(lv_views(lv_list@), vg_name@),
{
    let ghost vs = lv_views(lv_list@);
    let mut out: Vec<String> = Vec::new();
    let mut i: usize = 0;
    let n = lv_list.len();
    proof {
        assert(vs.take(0) =~= Seq::<LvDataView>::empty());
        assert(str_views(out@) =~= Seq::<Seq<char>>::empty());
    }
    while i < n
        invariant
            i <= n,
            n == lv_list@.len(),
            vs == lv_views(lv_list@),
            str_views(out@) == lvs_in(vs.take(i as int), vg_name@),
        decreases n - i,
    {
        proof {
            assert(vs.take(i as int + 1).drop_last() =~= vs.take(i as int));
            assert(vs.take(i as int + 1).last() == vs[i as int]);
            assert(vs[i as int] == lv_list@[i as int]@);
        }
        let ghost old_out = out@;
        if *vg_name == lv_list[i].vg_name {
            out.push(lv_list[i].lv_name.clone());
            proof {
                assert(str_views(out@) =~= str_views(old_out).push(out@.last()@));
            }
        }
        i += 1;
    }
    proof {
        assert(vs.take(n as int) =~= vs);
    }
    out
}

fn clone_segs(v: &Vec<LvmlvSegData>) -> (r: Vec<LvmlvSegData>)
    ensures
        seg_views(r@) == seg_views(v@),
{
    let mut out: Vec<LvmlvSegData> = Vec::new();
    let mut i: usize = 0;
    let n = v.len();
    proof {
        assert(v@.take(0) =~= Seq::<LvmlvSegData>::empty());
        assert(seg_views(out@) =~= seg_views(v@.take(0)));
    }
    while i < n
        invariant
            i <= n,
            n == v@.len(),
            seg_views(out@) == seg_views(v@.take(i as int)),
        decreases n - i,
    {
        let ghost old_out = out@;
        out.push(
            LvmlvSegData {
                pvdev: v[i].pvdev.clone(),
                pv_start_pe: v[i].pv_start_pe,
                size_pe: v[i].size_pe,
            },
        );
        proof {
            assert(v@.take(i as int + 1).drop_last() =~= v@.take(i as int));
            assert(seg_views(v@.take(i as int + 1)) =~= seg_views(v@.take(i as int)).push(
                v@[i as int]@,
            ));
            assert(seg_views(out@) =~= seg_views(old_out).push(out@.last()@));
        }
        i += 1;
    }
    proof {
        assert(v@.take(n as int) =~= v@);
    }
    out
}

fn clone_lv(x: &LvmLvData) -> (r: LvmLvData)
    ensures
        r@ == x@,
{
    let r = LvmLvData {
        lv_name: x.lv_name.clone(),
        vg_name: x.vg_name.clone(),
        size: x.size,
        attr: x.attr.clone(),
        segtype: x.segtype.clone(),
        uuid: x.uuid.clone(),
        lv_segs: clone_segs(&x.lv_segs),
        stripes: x.stripes,
        data_stripes: x.data_stripes,
        parent_lv: x.parent_lv.clone(),
    };
    proof {
        assert(r@ =~= x@);
    }
    r
}

/// The full records of the logical volumes that belong to the named
/// volume group, in the order the source list holds them.
pub fn get_lvinfo_by_vg(vg_name: &String, lv_list: &Vec<LvmLvData>) -> (r: Vec<LvmLvData>)
    ensures
        lv_views(r@) == lv_recs_in(lv_views(lv_list@), vg_name@),
{
    let ghost vs = lv_views(lv_list@);
    let mut out: Vec<LvmLvData> = Vec::new();
    let mut i: usize = 0;
    let n = lv_list.len();
    proof {
        assert(vs.take(0) =~= Seq::<LvDataView>::empty());
        assert(lv_views(out@) =~= Seq::<LvDataView>::empty());
    }
    while i < n
        invariant
            i <= n,
            n == lv_list@.len(),
            vs == lv_views(lv_list@),
            lv_views(out@) == lv_recs_in(vs.take(i as int), vg_name@),
        decreases n - i,
    {
        proof {
            assert(vs.take(i as int + 1).drop_last() =~= vs.take(i as int));
            assert(vs.take(i as int + 1).last() == vs[i as int]);
            assert(vs[i as int] == lv_list@[i as int]@);
        }
        let ghost old_out = out@;
        if *vg_name == lv_list[i].vg_name {
            out.push(clone_lv(&lv_list[i]));
            proof {
                assert(lv_views(out@) =~= lv_views(old_out).push(out@.last()@));
            }
        }
        i += 1;
    }
    proof {
        assert(vs.take(n as int) =~= vs);
    }
    out
}

/// The views of a vector of volume-group records.
pub open spec fn vg_views(v: Seq<LvmVgData>) -> Seq<VgDataView> {
    v.map_values(|x: LvmVgData| x@)
}

/// The typed records of one refresh.  The set is built wholesale: a
/// refresh either replaces everything or, on any parse failure, nothing.
pub struct Inventory {
    pub vgs: Vec<LvmVgData>,
    pub pvs: Vec<LvmPVData>,
    pub lvs: Vec<LvmLvData>,
}

impl Inventory {
    /// Device paths of the held physical volumes that belong to the named
    /// volume group, in report order.
    pub fn physical_volumes_in(&self, vg_name: &String) -> (r: Vec<String>)
        ensures
            str_views(r@) == pvs_in(pv_views(self.pvs@), vg_name@),
    {
        find_pvs_by_vg(vg_name, &self.pvs)
    }

    /// Names of the held logical volumes that belong to the named volume
    /// group, in report order.
    pub fn logical_volumes_in(&self, vg_name: &String) -> (r: Vec<String>)
        ensures
            str_views(r@) == lvs_in(lv_views(self.lvs@), vg_name@),
    {
        find_lvs_by_vg(vg_name, &self.lvs)
    }

    /// The full records of the held logical volumes that belong to the
    /// named volume group, in report order.
    pub fn logical_volume_records_in(&self, vg_name: &String) -> (r: Vec<LvmLvData>)
        ensures
            lv_views(r@) == lv_recs_in(lv_views(self.lvs@), vg_name@),
    {
        get_lvinfo_by_vg(vg_name, &self.lvs)
    }

    /// Replace the held records from freshly captured report text, all or
    /// nothing: on any parse failure the previously held inventory is
    /// left untouched, never partially replaced.
    pub fn refresh(&mut self, vg_texts: &Vec<String>, pv_text: &str, lv_text: &str) -> (r: Result<
        (),
        LvmError,
    >)
        ensures
            r is Ok ==> {
                &&& spec_parse_vg_details(str_views(vg_texts@)) == Ok::<Seq<VgDataView>, LvmError>(
                    vg_views(final(self).vgs@),
                )
                &&& spec_parse_pvso(pv_text@) == pv_views(final(self).pvs@)
                &&& spec_parse_lvso(lv_text@) == Ok::<Seq<LvDataView>, LvmError>(
                    lv_views(final(self).lvs@),
                )
            },
            r is Err ==> *final(self) == *old(self),
            spec_parse_vg_details(str_views(vg_texts@)) is Ok && spec_parse_lvso(lv_text@) is Ok
                ==> r is Ok,
    {
        match refresh_from_reports(vg_texts, pv_text, lv_text) {
            Ok(inv) => {
                *self = inv;
                Ok(())
            },
            Err(e) => Err(e),
        }
    }
}

/// The volume-group records of a refresh: one detail report per group,
/// each parsed in turn; the first failure decides the outcome.
pub open spec fn spec_parse_vg_details(texts: Seq<Seq<char>>) -> Result<Seq<VgDataView>, LvmError>
    decreases texts.len(),
{
    if texts.len() == 0 {
        Ok(Seq::empty())
    } else {
        match spec_parse_vg_details(texts.drop_last()) {
            Err(e) => Err(e),
            Ok(rest) => match spec_parse_vgdo(texts.last()) {
                Err(e) => Err(e),
                Ok(v) => Ok(rest.push(v)),
            },
        }
    }
}

proof fn lemma_vg_details_err(texts: Seq<Seq<char>>, j: int)
    requires
        0 <= j <= texts.len(),
        spec_parse_vg_details(texts.take(j)) is Err,
    ensures
        spec_parse_vg_details(texts) == spec_parse_vg_details(texts.take(j)),
    decreases texts.len() - j,
{
    if j < texts.len() {
        assert(texts.take(j + 1).drop_last() =~= texts.take(j));
        lemma_vg_details_err(texts, j + 1);
    } else {
        assert(texts.take(j) =~= texts);
    }
}

/// Build a fresh inventory from captured report text: one volume-group
/// detail report per group, the physical-volume report, and the
/// logical-volume report.  All-or-nothing: if any report fails to parse,
/// the whole refresh fails with that report's error and no inventory is
/// produced.
pub fn refresh_from_reports(vg_texts: &Vec<String>, pv_text: &str, lv_text: &str) -> (r: Result<
    Inventory,
    LvmError,
>)
    ensures
        r matches Ok(inv) ==> {
            &&& spec_parse_vg_details(str_views(vg_texts@)) == Ok::<Seq<VgDataView>, LvmError>(
                vg_views(inv.vgs@),
            )
            &&& spec_parse_pvso(pv_text@) == pv_views(inv.pvs@)
            &&& spec_parse_lvso(lv_text@) == Ok::<Seq<LvDataView>, LvmError>(lv_views(inv.lvs@))
        },
        r matches Err(e) ==> {
            ||| spec_parse_vg_details(str_views(vg_texts@)) == Err::<Seq<VgDataView>, LvmError>(e)
            ||| (spec_parse_vg_details(str_views(vg_texts@)) is Ok && spec_parse_lvso(lv_text@)
                == Err::<Seq<LvDataView>, LvmError>(e))
        },
        spec_parse_vg_details(str_views(vg_texts@)) is Ok && spec_parse_lvso(lv_text@) is Ok
            ==> r is Ok,
{
    let ghost ts = str_views(vg_texts@);
    let mut vgs: Vec<LvmVgData> = Vec::new();
    let mut i: usize = 0;
    let n = vg_texts.len();
    proof {
        assert(ts.take(0) =~= Seq::<Seq<char>>::empty());
        assert(vg_views(vgs@) =~= Seq::<VgDataView>::empty());
    }
    while i < n
        invariant
            i <= n,
            n == vg_texts@.len(),
            n == ts.len(),
            ts == str_views(vg_texts@),
            spec_parse_vg_details(ts.take(i as int)) == Ok::<Seq<VgDataView>, LvmError>(
                vg_views(vgs@),
            ),
        decreases n - i,
    {
        proof {
            assert(ts.take(i as int + 1).drop_last() =~= ts.take(i as int));
            assert(ts.take(i as int + 1).last() == ts[i as int]);
            assert(ts[i as int] == vg_texts@[i as int]@);
        }
        let ghost old_vgs = vgs@;
        match parse_vgdo(vg_texts[i].as_str()) {
            Err(e) => {
                proof {
                    assert(spec_parse_vg_details(ts.take(i as int + 1)) == Err::<
                        Seq<VgDataView>,
                        LvmError,
                    >(e));
                    lemma_vg_details_err(ts, i as int + 1);
                }
                return Err(e);
            },
            Ok(vg) => {
                vgs.push(vg);
                proof {
                    assert(vg_views(vgs@) =~= vg_views(old_vgs).push(vgs@.last()@));
                }
            },
        }
        i += 1;
    }
    proof {
        assert(ts.take(n as int) =~= ts);
    }
    let pvs = match parse_pvso(pv_text) {
        Ok(v) => v,
        Err(e) => {
            return Err(e);
        },
    };
    let lvs = match parse_lvso(lv_text) {
        Ok(v) => v,
        Err(e) => {
            return Err(e);
        },
    };
    Ok(Inventory { vgs, pvs, lvs })
}

/// One row of the volume-group overview table: a volume group's name
/// beside one of its physical volumes and one of its logical volumes,
/// with empty cells where a group has more of one kind than the other.
pub struct VgTableData {
    vg_name: String,
    pv_name: String,
    lv_name: String,
}

/// Mathematical model of an overview-table row.
#[verifier::ext_equal]
pub struct RowView {
    pub vg_name: Seq<char>,
    pub pv_name: Seq<char>,
    pub lv_name: Seq<char>,
}

impl View for VgTableData {
    type V = RowView;

    closed spec fn view(&self) -> RowView {
        RowView { vg_name: self.vg_name@, pv_name: self.pv_name@, lv_name: self.lv_name@ }
    }
}

impl VgTableData {
    /// The three cells of the row, in column order.
    pub fn ref_array(&self) -> (r: [&String; 3])
        ensures
            r[0]@ == self@.vg_name,
            r[1]@ == self@.pv_name,
            r[2]@ == self@.lv_name,
    {
        [&self.vg_name, &self.pv_name, &self.lv_name]
    }

    pub fn vg_name(&self) -> (r: &str)
        ensures
            r@ == self@.vg_name,
    {
        self.vg_name.as_str()
    }

    pub fn pv_name(&self) -> (r: &str)
        ensures
            r@ == self@.pv_name,
    {
        self.pv_name.as_str()
    }
}

/// The views of a vector of table rows.
pub open spec fn row_views(v: Seq<VgTableData>) -> Seq<RowView> {
    v.map_values(|x: VgTableData| x@)
}

pub open spec fn mk_row(vg: Seq<char>, pv: Seq<char>, lv: Seq<char>) -> RowView {
    RowView { vg_name: vg, pv_name: pv, lv_name: lv }
}

/// One row per physical volume of a group, logical-volume cell empty.
pub open spec fn pv_rows(vg: Seq<char>, pvs: Seq<Seq<char>>) -> Seq<RowView>
    decreases pvs.len(),
{
    if pvs.len() == 0 {
        Seq::empty()
    } else {
        pv_rows(vg, pvs.drop_last()).push(mk_row(vg, pvs.last(), Seq::empty()))
    }
}

/// Index of the first row with an empty logical-volume cell, or -1.
pub open spec fn first_blank_lv(rows: Seq<RowView>) -> int
    decreases rows.len(),
{
    if rows.len() == 0 {
        -1
    } else if rows[0].lv_name.len() == 0 {
        0
    } else {
        let r = first_blank_lv(rows.drop_first());
        if r < 0 {
            -1
        } else {
            r + 1
        }
    }
}

pub proof fn lemma_first_blank_lv(rows: Seq<RowView>)
    ensures
        first_blank_lv(rows) == -1 ==> (forall|i: int|
            0 <= i < rows.len() ==> rows[i].lv_name.len() != 0),
        first_blank_lv(rows) >= 0 ==> {
            let r = first_blank_lv(rows);
            &&& r < rows.len()
            &&& rows[r].lv_name.len() == 0
            &&& forall|i: int| 0 <= i < r ==> rows[i].lv_name.len() != 0
        },
    decreases rows.len(),
{
    if rows.len() > 0 && rows[0].lv_name.len() != 0 {
        lemma_first_blank_lv(rows.drop_first());
        let r1 = first_blank_lv(rows.drop_first());
        if r1 >= 0 {
            assert(rows.drop_first()[r1] == rows[r1 + 1]);
            assert forall|i: int| 0 <= i < r1 + 1 implies rows[i].lv_name.len() != 0 by {
                if i > 0 {
                    assert(rows.drop_first()[i - 1] == rows[i]);
                }
            }
        } else {
            assert forall|i: int| 0 <= i < rows.len() implies rows[i].lv_name.len() != 0 by {
                if i > 0 {
                    assert(rows.drop_first()[i - 1] == rows[i]);
                }
            }
        }
    }
}

/// Place one logical-volume name: into the first row with an empty
/// logical-volume cell while the table's last row has one, otherwise as
/// a new row of its own.
pub open spec fn fill_or_append(rows: Seq<RowView>, vg: Seq<char>, lv: Seq<char>) -> Seq<RowView> {
    if rows.len() == 0 || rows.last().lv_name.len() != 0 {
        rows.push(mk_row(vg, Seq::empty(), lv))
    } else {
        let i = first_blank_lv(rows);
        rows.update(i, RowView { lv_name: lv, ..rows[i] })
    }
}

/// Place a group's logical-volume names in order.
pub open spec fn apply_lvs(rows: Seq<RowView>, vg: Seq<char>, lvs: Seq<Seq<char>>) -> Seq<RowView>
    decreases lvs.len(),
{
    if lvs.len() == 0 {
        rows
    } else {
        fill_or_append(apply_lvs(rows, vg, lvs.drop_last()), vg, lvs.last())
    }
}

/// The overview rows of one volume group: its physical volumes paired
/// with its logical volumes in order, or a single bare row when the
/// group has neither.
pub open spec fn vg_block(vg: Seq<char>, pvs: Seq<PvDataView>, lvs: Seq<LvDataView>) -> Seq<
    RowView,
> {
    let rows = apply_lvs(pv_rows(vg, pvs_in(pvs, vg)), vg, lvs_in(lvs, vg));
    if rows.len() == 0 {
        seq![mk_row(vg, Seq::empty(), Seq::empty())]
    } else {
        rows
    }
}

/// The whole overview table, one block per volume group in order.
pub open spec fn vg_table(vgs: Seq<Seq<char>>, pvs: Seq<PvDataView>, lvs: Seq<LvDataView>) -> Seq<
    RowView,
>
    decreases vgs.len(),
{
    if vgs.len() == 0 {
        Seq::empty()
    } else {
        vg_table(vgs.drop_last(), pvs, lvs) + vg_block(vgs.last(), pvs, lvs)
    }
}

/// Put `lv_name` into the first row whose logical-volume cell is empty.
fn fill_first_blank(rows: &mut Vec<VgTableData>, lv_name: &String)
    requires
        old(rows)@.len() > 0,
        row_views(old(rows)@).last().lv_name.len() == 0,
    ensures
        ({
            let rv = row_views(old(rows)@);
            let idx = first_blank_lv(rv);
            row_views(final(rows)@) == rv.update(idx, RowView { lv_name: lv_name@, ..rv[idx] })
        }),
{
    let ghost rv = row_views(rows@);
    let n = rows.len();
    let mut k: usize = 0;
    while k < n
        invariant
            k <= n,
            n == rows@.len(),
            rows@ == old(rows)@,
            rv == row_views(rows@),
            rv.last().lv_name.len() == 0,
            forall|m: int| 0 <= m < k ==> rv[m].lv_name.len() != 0,
        decreases n - k,
    {
        if rows[k].lv_name.as_str().unicode_len() == 0 {
            proof {
                assert(rv[k as int] == rows@[k as int]@);
                lemma_first_blank_lv(rv);
                assert(first_blank_lv(rv) == k as int);
            }
            let ghost before = rows@;
            let mut ex = rows.remove(k);
            ex.lv_name = lv_name.clone();
            rows.insert(k, ex);
            proof {
                assert(rows@ =~= before.update(k as int, ex));
                assert(row_views(rows@) =~= rv.update(
                    k as int,
                    RowView { lv_name: lv_name@, ..rv[k as int] },
                ));
            }
            return ;
        }
        proof {
            assert(rv[k as int] == rows@[k as int]@);
        }
        k += 1;
    }
    proof {
        assert(rv.last() == rv[n - 1]);
        assert(false);
    }
}

/// Build the overview-table rows for every volume group and append them
/// to `vgs`: a group's physical volumes and logical volumes share rows in
/// order, a group with more volumes of one kind gets extra rows with the
/// other cell empty, and a group with neither gets one bare row.
pub fn fetch_data(
    vgs: &mut Vec<VgTableData>,
    vg_list: &Vec<String>,
    pv_list: &Vec<LvmPVData>,
    lv_list: &Vec<LvmLvData>,
)
    ensures
        row_views(final(vgs)@) == row_views(old(vgs)@) + vg_table(
            str_views(vg_list@),
            pv_views(pv_list@),
            lv_views(lv_list@),
        ),
{
    let ghost gvs = str_views(vg_list@);
    let ghost pvs0 = pv_views(pv_list@);
    let ghost lvs0 = lv_views(lv_list@);
    let ghost base = row_views(vgs@);
    let mut i: usize = 0;
    let n = vg_list.len();
    proof {
        assert(gvs.take(0) =~= Seq::<Seq<char>>::empty());
        assert(row_views(vgs@) =~= base + vg_table(gvs.take(0), pvs0, lvs0));
    }
    while i < n
        invariant
            i <= n,
            n == vg_list@.len(),
            n == gvs.len(),
            gvs == str_views(vg_list@),
            pvs0 == pv_views(pv_list@),
            lvs0 == lv_views(lv_list@),
            base == row_views(old(vgs)@),
            row_views(vgs@) == base + vg_table(gvs.take(i as int), pvs0, lvs0),
        decreases n - i,
    {
        proof {
            assert(gvs.take(i as int + 1).drop_last() =~= gvs.take(i as int));
            assert(gvs.take(i as int + 1).last() == gvs[i as int]);
            assert(gvs[i as int] == vg_list@[i as int]@);
        }
        let vg = &vg_list[i];
        let pvs_in_vg = find_pvs_by_vg(vg, pv_list);
        let ghost pnames = str_views(pvs_in_vg@);
        let mut rows: Vec<VgTableData> = Vec::new();
        let mut j: usize = 0;
        let np = pvs_in_vg.len();
        proof {
            assert(pnames.take(0) =~= Seq::<Seq<char>>::empty());
            assert(row_views(rows@) =~= pv_rows(vg@, pnames.take(0)));
        }
        while j < np
            invariant
                j <= np,
                np == pvs_in_vg@.len(),
                np == pnames.len(),
                pnames == str_views(pvs_in_vg@),
                row_views(rows@) == pv_rows(vg@, pnames.take(j as int)),
            decreases np - j,
        {
            proof {
                assert(pnames.take(j as int + 1).drop_last() =~= pnames.take(j as int));
                assert(pnames.take(j as int + 1).last() == pnames[j as int]);
                assert(pnames[j as int] == pvs_in_vg@[j as int]@);
            }
            let ghost before = row_views(rows@);
            rows.push(
                VgTableData {
                    vg_name: vg.clone(),
                    pv_name: pvs_in_vg[j].clone(),
                    lv_name: String::new(),
                },
            );
            proof {
                assert(row_views(rows@) =~= before.push(rows@.last()@));
                assert(rows@.last()@ =~= mk_row(vg@, pnames[j as int], Seq::empty()));
            }
            j += 1;
        }
        proof {
            assert(pnames.take(np as int) =~= pnames);
        }
        let lvs_in_vg = find_lvs_by_vg(vg, lv_list);
        let ghost lnames = str_views(lvs_in_vg@);
        let ghost rows0 = row_views(rows@);
        let mut j2: usize = 0;
        let nl = lvs_in_vg.len();
        proof {
            assert(lnames.take(0) =~= Seq::<Seq<char>>::empty());
        }
        while j2 < nl
            invariant
                j2 <= nl,
                nl == lvs_in_vg@.len(),
                nl == lnames.len(),
                lnames == str_views(lvs_in_vg@),
                row_views(rows@) == apply_lvs(rows0, vg@, lnames.take(j2 as int)),
            decreases nl - j2,
        {
            proof {
                assert(lnames.take(j2 as int + 1).drop_last() =~= lnames.take(j2 as int));
                assert(lnames.take(j2 as int + 1).last() == lnames[j2 as int]);
                assert(lnames[j2 as int] == lvs_in_vg@[j2 as int]@);
            }
            let lvn = &lvs_in_vg[j2];
            let rl = rows.len();
            let ghost before = row_views(rows@);
            if rl == 0 || rows[rl - 1].lv_name.as_str().unicode_len() != 0 {
                proof {
                    if rl > 0 {
                        assert(before.last() == rows@[rl - 1]@);
                    }
                }
                rows.push(
                    VgTableData { vg_name: vg.clone(), pv_name: String::new(), lv_name: lvn.clone() },
                );
                proof {
                    assert(row_views(rows@) =~= before.push(rows@.last()@));
                    assert(rows@.last()@ =~= mk_row(vg@, Seq::empty(), lnames[j2 as int]));
                }
            } else {
                proof {
                    assert(before.last() == rows@[rl - 1]@);
                }
                fill_first_blank(&mut rows, lvn);
            }
            j2 += 1;
        }
        proof {
            assert(lnames.take(nl as int) =~= lnames);
        }
        let ghost block = vg_block(gvs[i as int], pvs0, lvs0);
        let ghost table_before = row_views(vgs@);
        if rows.len() == 0 {
            vgs.push(
                VgTableData { vg_name: vg.clone(), pv_name: String::new(), lv_name: String::new() },
            );
            proof {
                assert(row_views(vgs@) =~= table_before.push(vgs@.last()@));
                assert(vgs@.last()@ =~= mk_row(vg@, Seq::empty(), Seq::empty()));
                assert(block =~= seq![mk_row(vg@, Seq::empty(), Seq::empty())]);
                assert(row_views(vgs@) =~= base + vg_table(gvs.take(i as int + 1), pvs0, lvs0));
            }
        } else {
            let ghost moved = rows@;
            vgs.append(&mut rows);
            proof {
                assert(row_views(vgs@) =~= table_before + row_views(moved));
                assert(row_views(vgs@) =~= base + vg_table(gvs.take(i as int + 1), pvs0, lvs0));
            }
        }
        i += 1;
    }
    proof {
        assert(gvs.take(n as int) =~= gvs);
    }
}

} // verus!
