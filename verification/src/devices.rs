//! The AJ200 series: which product ids are supported, and which model, sensor and flywheel
//! each stands for.
//!
//! Recognition goes by this list alone: an AJAZZ device takes part in the search for audio and
//! command channels only where its product id is on it.

use crate::text;
use std::collections::HashSet;
use vstd::prelude::*;

verus! {

broadcast use vstd::std_specs::hash::group_hash_axioms;

/// One model that answers to a product id.
#[derive(Debug, Clone, Copy)]
pub struct DeviceInfo {
    pub pid: u16,
    pub model: &'static str,
    pub sensor: &'static str,
    /// Whether the wheel is a flywheel.
    pub flywheel: bool,
    /// What tells the model from another one with the same product id.
    pub note: &'static str,
}

/// A record of the list.
pub open spec fn record(
    pid: u16,
    model: &'static str,
    sensor: &'static str,
    flywheel: bool,
    note: &'static str,
) -> DeviceInfo {
    DeviceInfo { pid, model, sensor, flywheel, note }
}

/// A record of the list.
pub fn d(
    pid: u16,
    model: &'static str,
    sensor: &'static str,
    flywheel: bool,
    note: &'static str,
) -> (r: DeviceInfo)
    ensures
        r == record(pid, model, sensor, flywheel, note),
{
    DeviceInfo { pid, model, sensor, flywheel, note }
}

/// All supported models.
pub open spec fn device_table() -> Seq<DeviceInfo> {
    seq![
        record(0xED03, "AJ200 NL AI MC", "PAW3311", false, ""),
        record(0xED00, "AJ200 NL AI MC", "PAW3311", false, ""),
        record(0xED05, "AJ200P NL AI MC", "PAW3311", false, ""),
        record(0xED06, "AJ200P NL AI MC", "PAW3311", false, ""),
        record(0xED07, "AJ200 NL AI PRO+", "PAW3395", false, ""),
        record(0xED08, "AJ200 NL AI PRO+", "PAW3395", false, ""),
        record(0xFC08, "AJ200 NL AI PRO+", "PAW3395", false, ""),
        record(0xED09, "AJ200P NL AI ULTRA", "PAW3950", false, ""),
        record(0xED0A, "AJ200P NL AI ULTRA", "PAW3950", false, ""),
        record(0xFC0A, "AJ200P NL AI ULTRA", "PAW3950", false, ""),
        record(0xED1E, "AJ200P NL AI ULTRA", "PAW3955", false, ""),
        record(0xFC0C, "AJ200P NL AI ULTRA+", "PAW3950", true, ""),
        record(0xED0B, "AJ200P NL AI ULTRA+", "PAW3950", true, ""),
        record(0xED0C, "AJ200P NL AI ULTRA+", "PAW3950", true, ""),
        record(0xFC0C, "AJ200P NL AI ULTRA-3955", "PAW3950*", true, "与 ULTRA+ 同 PID"),
        record(0xED1D, "AJ200P NL AI ULTRA-3955", "PAW3955", true, ""),
        record(0xFC1E, "AJ200P AI MASTER", "PAW3955", true, ""),
        record(0xED1B, "AJ200P AI MASTER", "PAW3955", true, ""),
        record(0xED1C, "AJ200P AI MASTER", "PAW3955", true, ""),
        record(0xFC1C, "AJ200P NL AI S ULTRA", "PAW3955", true, ""),
        record(0xED25, "AJ200P NL AI S ULTRA", "PAW3955", true, ""),
        record(0xED26, "AJ200P NL AI S ULTRA", "PAW3955", true, ""),
    ]
}

/// All supported models.
pub fn supported_devices() -> (out: Vec<DeviceInfo>)
    ensures
        out@ == device_table(),
{
    let out = vec![
        d(0xED03, "AJ200 NL AI MC", "PAW3311", false, ""),
        d(0xED00, "AJ200 NL AI MC", "PAW3311", false, ""),
        d(0xED05, "AJ200P NL AI MC", "PAW3311", false, ""),
        d(0xED06, "AJ200P NL AI MC", "PAW3311", false, ""),
        d(0xED07, "AJ200 NL AI PRO+", "PAW3395", false, ""),
        d(0xED08, "AJ200 NL AI PRO+", "PAW3395", false, ""),
        d(0xFC08, "AJ200 NL AI PRO+", "PAW3395", false, ""),
        d(0xED09, "AJ200P NL AI ULTRA", "PAW3950", false, ""),
        d(0xED0A, "AJ200P NL AI ULTRA", "PAW3950", false, ""),
        d(0xFC0A, "AJ200P NL AI ULTRA", "PAW3950", false, ""),
        d(0xED1E, "AJ200P NL AI ULTRA", "PAW3955", false, ""),
        d(0xFC0C, "AJ200P NL AI ULTRA+", "PAW3950", true, ""),
        d(0xED0B, "AJ200P NL AI ULTRA+", "PAW3950", true, ""),
        d(0xED0C, "AJ200P NL AI ULTRA+", "PAW3950", true, ""),
        d(0xFC0C, "AJ200P NL AI ULTRA-3955", "PAW3950*", true, "与 ULTRA+ 同 PID"),
        d(0xED1D, "AJ200P NL AI ULTRA-3955", "PAW3955", true, ""),
        d(0xFC1E, "AJ200P AI MASTER", "PAW3955", true, ""),
        d(0xED1B, "AJ200P AI MASTER", "PAW3955", true, ""),
        d(0xED1C, "AJ200P AI MASTER", "PAW3955", true, ""),
        d(0xFC1C, "AJ200P NL AI S ULTRA", "PAW3955", true, ""),
        d(0xED25, "AJ200P NL AI S ULTRA", "PAW3955", true, ""),
        d(0xED26, "AJ200P NL AI S ULTRA", "PAW3955", true, ""),
    ];
    assert(out@ =~= device_table());
    out
}

/// The product id stands in the list.
pub open spec fn supported(pid: u16) -> bool {
    exists|i: int| 0 <= i < device_table().len() && (#[trigger] device_table()[i]).pid == pid
}

/// The records with this product id, in the order of the list.
pub open spec fn records_of(pid: u16) -> Seq<DeviceInfo> {
    device_table().filter(|r: DeviceInfo| r.pid == pid)
}

/// The set of all supported product ids.
pub fn supported_pids() -> (out: HashSet<u16>)
    ensures
        forall|pid: u16| #[trigger] out@.contains(pid) == supported(pid),
{
    let table = supported_devices();
    let mut out: HashSet<u16> = HashSet::new();
    let mut i: usize = 0;
    while i < table.len()
        invariant
            i <= table@.len(),
            table@ == device_table(),
            forall|pid: u16| #[trigger]
                out@.contains(pid) == exists|j: int|
                    0 <= j < i && (#[trigger] device_table()[j]).pid == pid,
        decreases table@.len() - i,
    {
        let ghost before = out@;
        out.insert(table[i].pid);
        assert forall|pid: u16| #[trigger]
            out@.contains(pid) == exists|j: int|
                0 <= j < i + 1 && (#[trigger] device_table()[j]).pid == pid by {
            if out@.contains(pid) {
                if pid == device_table()[i as int].pid {
                } else {
                    assert(before.contains(pid));
                }
            }
            if exists|j: int| 0 <= j < i + 1 && (#[trigger] device_table()[j]).pid == pid {
                let j = choose|j: int|
                    0 <= j < i + 1 && (#[trigger] device_table()[j]).pid == pid;
                if j < i {
                    assert(before.contains(pid));
                }
            }
        }
        i += 1;
    }
    out
}

/// Whether a product id is supported.
pub fn is_supported(pid: u16) -> (r: bool)
    ensures
        r == supported(pid),
{
    let table = supported_devices();
    let mut i: usize = 0;
    while i < table.len()
        invariant
            i <= table@.len(),
            table@ == device_table(),
            forall|j: int| 0 <= j < i ==> (#[trigger] device_table()[j]).pid != pid,
        decreases table@.len() - i,
    {
        if table[i].pid == pid {
            assert(device_table()[i as int].pid == pid);
            return true;
        }
        i += 1;
    }
    false
}

/// The records with a product id.
pub fn lookup(pid: u16) -> (out: Vec<DeviceInfo>)
    ensures
        out@ == records_of(pid),
{
    let table = supported_devices();
    let mut out: Vec<DeviceInfo> = Vec::new();
    let ghost p = |r: DeviceInfo| r.pid == pid;
    let mut i: usize = 0;
    assert(table@.take(0).filter(p) == Seq::<DeviceInfo>::empty()) by {
        reveal(Seq::filter);
    }
    while i < table.len()
        invariant
            i <= table@.len(),
            p == (|r: DeviceInfo| r.pid == pid),
            out@ == table@.take(i as int).filter(p),
        decreases table@.len() - i,
    {
        assert(table@.take(i + 1).drop_last() == table@.take(i as int));
        reveal(Seq::filter);
        if table[i].pid == pid {
            out.push(table[i]);
        }
        i += 1;
    }
    assert(table@.take(i as int) == table@);
    out
}

/// A model with its note, if it has one, in brackets.
pub open spec fn model_label(r: DeviceInfo) -> Seq<char> {
    if r.note@.len() == 0 {
        r.model@
    } else {
        r.model@ + " ("@ + r.note@ + ")"@
    }
}

/// The label of each record.
pub open spec fn model_labels(recs: Seq<DeviceInfo>) -> Seq<Seq<char>> {
    Seq::new(recs.len(), |i: int| model_label(recs[i]))
}

/// The text that describes a nonempty list of records: the one model, or the labels of all,
/// then sensor and flywheel of the first.
pub open spec fn description(recs: Seq<DeviceInfo>) -> Seq<char> {
    let models = if recs.len() == 1 {
        recs[0].model@
    } else {
        text::joined(model_labels(recs), " / "@)
    };
    models + " ("@ + recs[0].sensor@ + (if recs[0].flywheel {
        ", 飞轮"@
    } else {
        ""@
    }) + ")"@
}

fn label(r: &DeviceInfo) -> (out: String)
    ensures
        out@ == model_label(*r),
{
    let mut out = text::owned(r.model);
    if !r.note.is_empty() {
        out.append(" (");
        out.append(r.note);
        out.append(")");
    }
    out
}

/// Describes the models with a product id, such as `AJ200P NL AI ULTRA+ (PAW3950, 飞轮)`.
/// Where several models share the id, all are named.
pub fn describe_pid(pid: u16) -> (r: Option<String>)
    ensures
        r is Some == (records_of(pid).len() > 0),
        r matches Some(s) ==> s@ == description(records_of(pid)),
{
    let recs = lookup(pid);
    if recs.len() == 0 {
        return None;
    }
    let mut out = if recs.len() == 1 {
        text::owned(recs[0].model)
    } else {
        let mut labels: Vec<String> = Vec::new();
        let mut i: usize = 0;
        while i < recs.len()
            invariant
                i <= recs@.len(),
                text::texts(labels@) == model_labels(recs@).take(i as int),
            decreases recs@.len() - i,
        {
            let ghost before = text::texts(labels@);
            labels.push(label(&recs[i]));
            i += 1;
            assert(text::texts(labels@) =~= before.push(model_label(recs@[i - 1])));
            assert(text::texts(labels@) =~= model_labels(recs@).take(i as int));
        }
        assert(model_labels(recs@).take(i as int) == model_labels(recs@));
        text::join(&labels, " / ")
    };
    out.append(" (");
    out.append(recs[0].sensor);
    out.append(
        if recs[0].flywheel {
            ", 飞轮"
        } else {
            ""
        },
    );
    out.append(")");
    Some(out)
}

/// A product id is described exactly where it is supported.
pub proof fn law_described_iff_supported(pid: u16)
    ensures
        records_of(pid).len() > 0 <==> supported(pid),
{
    let table = device_table();
    let p = |r: DeviceInfo| r.pid == pid;
    if supported(pid) {
        let i = choose|i: int| 0 <= i < table.len() && (#[trigger] table[i]).pid == pid;
        table.lemma_filter_contains(p, i);
        assert(records_of(pid).contains(table[i]));
    }
    if records_of(pid).len() > 0 {
        let r = records_of(pid)[0];
        table.lemma_filter_pred(p, 0);
        table.lemma_filter_contains_rev(p, r);
        let i = choose|i: int| 0 <= i < table.len() && table[i] == r;
        assert(table[i].pid == pid);
    }
}

/// The list holds 22 records with 21 different product ids.
pub proof fn law_unique_pids(pids: Set<u16>)
    requires
        forall|pid: u16| #[trigger] pids.contains(pid) == supported(pid),
    ensures
        device_table().len() == 22,
        pids.finite(),
        pids.len() == 21,
{
    let table = device_table();
    let all: Set<u16> = set![
        0xED03, 0xED00, 0xED05, 0xED06, 0xED07, 0xED08, 0xFC08,
        0xED09, 0xED0A, 0xFC0A, 0xED1E, 0xFC0C, 0xED0B, 0xED0C,
        0xED1D, 0xFC1E, 0xED1B, 0xED1C, 0xFC1C, 0xED25, 0xED26,
    ];
    assert forall|pid: u16| #[trigger] all.contains(pid) == pids.contains(pid) by {
        if all.contains(pid) {
            assert(table[0].pid == 0xED03);
            assert(table[1].pid == 0xED00);
            assert(table[2].pid == 0xED05);
            assert(table[3].pid == 0xED06);
            assert(table[4].pid == 0xED07);
            assert(table[5].pid == 0xED08);
            assert(table[6].pid == 0xFC08);
            assert(table[7].pid == 0xED09);
            assert(table[8].pid == 0xED0A);
            assert(table[9].pid == 0xFC0A);
            assert(table[10].pid == 0xED1E);
            assert(table[11].pid == 0xFC0C);
            assert(table[12].pid == 0xED0B);
            assert(table[13].pid == 0xED0C);
            assert(table[15].pid == 0xED1D);
            assert(table[16].pid == 0xFC1E);
            assert(table[17].pid == 0xED1B);
            assert(table[18].pid == 0xED1C);
            assert(table[19].pid == 0xFC1C);
            assert(table[20].pid == 0xED25);
            assert(table[21].pid == 0xED26);
        }
        if supported(pid) {
            let i = choose|i: int| 0 <= i < table.len() && (#[trigger] table[i]).pid == pid;
            assert(all.contains(table[i].pid));
        }
    }
    assert(all =~= pids);
}

/// Only one product id is shared, and by two models.
pub proof fn law_shared_pid(pid: u16)
    requires
        supported(pid),
    ensures
        records_of(pid).len() == (if pid == 0xFC0C {
            2int
        } else {
            1
        }),
{
    reveal(Seq::filter);
    reveal_with_fuel(Seq::filter, 23);
    let i = choose|i: int| 0 <= i < device_table().len() && (#[trigger] device_table()[i]).pid == pid;
}

/// The model, sensor and wheel that each product id stands for, in whatever place of the list.
pub proof fn law_models(i: int)
    requires
        0 <= i < device_table().len(),
    ensures
        ({
            let r = device_table()[i];
            let p = r.pid;
            &&& p == 0xED03 || p == 0xED00 ==> r.model@ == "AJ200 NL AI MC"@
            &&& p == 0xED05 || p == 0xED06 ==> r.model@ == "AJ200P NL AI MC"@
            &&& p == 0xED07 || p == 0xED08 || p == 0xFC08 ==> r.model@ == "AJ200 NL AI PRO+"@
            &&& p == 0xED09 || p == 0xED0A || p == 0xFC0A || p == 0xED1E ==> r.model@
                == "AJ200P NL AI ULTRA"@
            &&& p == 0xED0B || p == 0xED0C ==> r.model@ == "AJ200P NL AI ULTRA+"@
            &&& p == 0xFC0C ==> (r.model@ == "AJ200P NL AI ULTRA+"@ && r.sensor@ == "PAW3950"@ && r.note@ == ""@) || (r.model@
                == "AJ200P NL AI ULTRA-3955"@ && r.sensor@ == "PAW3950*"@ && r.note@
                == "与 ULTRA+ 同 PID"@)
            &&& p == 0xED1D ==> r.model@ == "AJ200P NL AI ULTRA-3955"@
            &&& p == 0xFC1E || p == 0xED1B || p == 0xED1C ==> r.model@ == "AJ200P AI MASTER"@
            &&& p == 0xFC1C || p == 0xED25 || p == 0xED26 ==> r.model@ == "AJ200P NL AI S ULTRA"@
            &&& p == 0xED03 || p == 0xED00 || p == 0xED05 || p == 0xED06 ==> r.sensor@ == "PAW3311"@
            &&& p == 0xED07 || p == 0xED08 || p == 0xFC08 ==> r.sensor@ == "PAW3395"@
            &&& p == 0xED09 || p == 0xED0A || p == 0xFC0A || p == 0xED0B || p == 0xED0C
                ==> r.sensor@ == "PAW3950"@
            &&& p == 0xED1E || p == 0xED1D || p == 0xFC1E || p == 0xED1B || p == 0xED1C || p
                == 0xFC1C || p == 0xED25 || p == 0xED26 ==> r.sensor@ == "PAW3955"@
            &&& r.flywheel <==> p == 0xFC0C || p == 0xED0B || p == 0xED0C || p == 0xED1D || p
                == 0xFC1E || p == 0xED1B || p == 0xED1C || p == 0xFC1C || p == 0xED25 || p
                == 0xED26
            &&& p != 0xFC0C ==> r.note@ == ""@
        }),
{
}

/// The supported product ids, one by one.
pub proof fn law_supported_pids(p: u16)
    ensures
        supported(p) <==> p == 0xED03 || p == 0xED00 || p == 0xED05 || p == 0xED06 || p == 0xED07
            || p == 0xED08 || p == 0xFC08 || p == 0xED09 || p == 0xED0A || p == 0xFC0A || p
            == 0xED1E || p == 0xFC0C || p == 0xED0B || p == 0xED0C || p == 0xED1D || p == 0xFC1E
            || p == 0xED1B || p == 0xED1C || p == 0xFC1C || p == 0xED25 || p == 0xED26,
{
    let table = device_table();
    assert(table[0].pid == 0xED03 && table[1].pid == 0xED00 && table[2].pid == 0xED05);
    assert(table[3].pid == 0xED06 && table[4].pid == 0xED07 && table[5].pid == 0xED08);
    assert(table[6].pid == 0xFC08 && table[7].pid == 0xED09 && table[8].pid == 0xED0A);
    assert(table[9].pid == 0xFC0A && table[10].pid == 0xED1E && table[11].pid == 0xFC0C);
    assert(table[12].pid == 0xED0B && table[13].pid == 0xED0C && table[15].pid == 0xED1D);
    assert(table[16].pid == 0xFC1E && table[17].pid == 0xED1B && table[18].pid == 0xED1C);
    assert(table[19].pid == 0xFC1C && table[20].pid == 0xED25 && table[21].pid == 0xED26);
}

/// A lookup gives records of the list with the wanted product id, and every one of them.
pub proof fn law_lookup(pid: u16, i: int)
    requires
        0 <= i < device_table().len(),
    ensures
        records_of(pid).contains(device_table()[i]) <==> device_table()[i].pid == pid,
        forall|k: int| 0 <= k < records_of(pid).len() ==> (#[trigger] records_of(pid)[k]).pid == pid,
{
    let table = device_table();
    let p = |r: DeviceInfo| r.pid == pid;
    if table[i].pid == pid {
        table.lemma_filter_contains(p, i);
    }
    assert forall|k: int| 0 <= k < records_of(pid).len() implies (#[trigger] records_of(
        pid,
    )[k]).pid == pid by {
        table.lemma_filter_pred(p, k);
    }
}

/// Of the two models that share a product id, the one without a note comes first.
pub proof fn law_shared_order()
    ensures
        records_of(0xFC0C).len() == 2,
        records_of(0xFC0C)[0].model@ == "AJ200P NL AI ULTRA+"@,
        records_of(0xFC0C)[1].model@ == "AJ200P NL AI ULTRA-3955"@,
{
    reveal(Seq::filter);
    reveal_with_fuel(Seq::filter, 23);
}

/// One record is described by its model, and in brackets its sensor and whether it has a flywheel.
/// Its note is not told.
pub proof fn law_one_description(r: DeviceInfo)
    ensures
        r.flywheel ==> description(seq![r]) == r.model@ + " ("@ + r.sensor@ + ", 飞轮"@ + ")"@,
        !r.flywheel ==> description(seq![r]) == r.model@ + " ("@ + r.sensor@ + ")"@,
{
    reveal_strlit("");
    assert(r.model@ + " ("@ + r.sensor@ + ""@ + ")"@ =~= r.model@ + " ("@ + r.sensor@ + ")"@);
}

/// Two records are both named, the second after a stroke, each with its note in brackets; sensor
/// and flywheel are those of the first.
pub proof fn law_two_described(a: DeviceInfo, b: DeviceInfo)
    requires
        a.note@.len() == 0,
        b.note@.len() > 0,
        a.flywheel,
    ensures
        description(seq![a, b]) == a.model@ + " / "@ + (b.model@ + " ("@ + b.note@ + ")"@) + " ("@
            + a.sensor@ + ", 飞轮"@ + ")"@,
{
    let l = model_labels(seq![a, b]);
    assert(l =~= seq![a.model@].push(b.model@ + " ("@ + b.note@ + ")"@));
    text::law_joined_one(a.model@, " / "@);
    text::law_joined_next(seq![a.model@], b.model@ + " ("@ + b.note@ + ")"@, " / "@);
}

} // verus!
