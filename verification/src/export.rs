//! The CSV report of the statistics: its records, and writing them with the
//! crate `csv`.
use vstd::prelude::*;
use crate::models::texts;
use crate::stats::{StatsReport, ReportDay, NodeReportRow, ResourceReportRow, node_row_views, resource_row_views, NodeRowView, ResourceRowView};
use crate::text::{decimal, decimal_text, owned};
use crate::clock::{date_of, date_text, representable};

verus! {

/// A CSV writer of the crate `csv` over a byte buffer. Verus cannot take
/// the writer's type itself (its parameter is bound by `std::io::Write`), so
/// the writer is held here, out of Verus's sight.
#[verifier::external_body]
pub struct CsvSink {
    w: csv::Writer<Vec<u8>>,
}

/// The records a CSV writer has taken, each as its fields.
pub uninterp spec fn csv_records(w: CsvSink) -> Seq<Seq<Seq<char>>>;

/// The bytes a CSV writer hands back once it has taken `rows`.
pub uninterp spec fn csv_encoded(rows: Seq<Seq<Seq<char>>>) -> Seq<u8>;

/// `csv::Writer::from_writer(Vec::new())`: a writer that has taken no record.
#[verifier::external_body]
fn csv_writer_new() -> (w: CsvSink)
    ensures
        csv_records(w).len() == 0,
{
    CsvSink { w: csv::Writer::from_writer(Vec::new()) }
}

/// `Writer::write_record`: the writer is not flexible, so a record is taken
/// when it is the first or has as many fields as the first, and is refused
/// with `UnequalLengths` otherwise. Writing into a byte buffer cannot fail in
/// any other way. A refused writer is dropped.
#[verifier::external_body]
fn csv_write_record(w: CsvSink, rec: &Vec<String>) -> (r: Option<CsvSink>)
    requires
        rec@.len() > 0,
    ensures
        r is Some <==> (csv_records(w).len() == 0 || csv_records(w)[0].len() == rec@.len()),
        r matches Some(w2) ==> csv_records(w2) == csv_records(w).push(texts(rec@)),
{
    let mut sink = w;
    match sink.w.write_record(rec) {
        Ok(()) => Some(sink),
        Err(_) => None,
    }
}

/// `Writer::into_inner`: flushes the writer and hands back its bytes, the
/// encoding of the records it took. Flushing writes the buffered bytes into
/// the `Vec<u8>` and flushes the `Vec`, neither of which can fail, so the
/// answer is always `Some`.
#[verifier::external_body]
fn csv_finish(w: CsvSink) -> (r: Option<Vec<u8>>)
    ensures
        r is Some,
        r matches Some(b) ==> b@ == csv_encoded(csv_records(w)),
{
    match w.w.into_inner() {
        Ok(b) => Some(b),
        Err(_) => None,
    }
}

/// Why writing a CSV document failed.
#[derive(Clone, Copy, Debug, PartialEq, Eq, Structural)]
pub enum CsvFailure {
    /// The record at this position has another number of fields than the first.
    UnequalLengths { row: usize },
}

/// `k` is the first position after the first whose record has another
/// number of fields than the first record.
pub open spec fn first_unequal_at(rows: Seq<Seq<Seq<char>>>, k: int) -> bool {
    &&& 0 < k < rows.len()
    &&& rows[k].len() != rows[0].len()
    &&& forall|j: int| 0 < j < k ==> #[trigger] rows[j].len() == rows[0].len()
}

/// Every record has as many fields as the first.
pub open spec fn uniform(rows: Seq<Seq<Seq<char>>>) -> bool {
    forall|j: int| 0 <= j < rows.len() ==> #[trigger] rows[j].len() == rows[0].len()
}

/// The views of a list of records.
pub open spec fn record_texts(rows: Seq<Vec<String>>) -> Seq<Seq<Seq<char>>> {
    rows.map_values(|r: Vec<String>| texts(r@))
}

/// Writes the records in order with a CSV writer. Where a record has another
/// number of fields than the first, the writer refuses it and the document
/// fails there; otherwise the document is the encoding of all the records.
pub fn write_csv(rows: &Vec<Vec<String>>) -> (r: Result<Vec<u8>, CsvFailure>)
    requires
        forall|j: int| 0 <= j < rows@.len() ==> #[trigger] rows@[j]@.len() > 0,
    ensures
        uniform(record_texts(rows@)) ==> (r matches Ok(b) && b@ == csv_encoded(record_texts(rows@))),
        forall|k: int| #[trigger] first_unequal_at(record_texts(rows@), k)
            ==> r == Err::<Vec<u8>, CsvFailure>(CsvFailure::UnequalLengths { row: k as usize }),
{
    let ghost rt = record_texts(rows@);
    let mut w = csv_writer_new();
    let mut i: usize = 0;
    while i < rows.len()
        invariant
            rt == record_texts(rows@),
            forall|j: int| 0 <= j < rows@.len() ==> #[trigger] rows@[j]@.len() > 0,
            0 <= i <= rows@.len(),
            csv_records(w) == rt.take(i as int),
            forall|j: int| 0 < j < i ==> #[trigger] rt[j].len() == rt[0].len(),
        decreases rows@.len() - i,
    {
        let ghost before = csv_records(w);
        match csv_write_record(w, &rows[i]) {
            Some(w2) => {
                w = w2;
                proof {
                    assert(rt[i as int] == texts(rows@[i as int]@));
                    assert(csv_records(w) =~= rt.take(i + 1));
                    if i > 0 {
                        assert(before[0] == rt[0]);
                    }
                }
            },
            None => {
                proof {
                    assert(i > 0);
                    assert(before[0] == rt[0]);
                    assert(rt[i as int].len() == rows@[i as int]@.len());
                    assert(first_unequal_at(rt, i as int));
                    assert forall|k: int| #[trigger] first_unequal_at(rt, k) implies k == i by {
                        if k < i {
                            assert(rt[k].len() == rt[0].len());
                        } else if k > i {
                            assert(rt[i as int].len() == rt[0].len());
                        }
                    }
                }
                return Err(CsvFailure::UnequalLengths { row: i });
            },
        }
        i += 1;
    }
    assert(rt.take(rows@.len() as int) =~= rt);
    Ok(csv_finish(w).unwrap())
}

/// The header of the daily section.
pub open spec fn day_header() -> Seq<Seq<char>> {
    seq!["Date"@, "Requests"@, "Hits"@, "Misses"@, "Hit Rate (%)"@]
}

/// The header of the node section.
pub open spec fn node_header() -> Seq<Seq<char>> {
    seq!["Node"@, "Region"@, "Requests"@, "Hits"@, "Misses"@, "Hit Rate (%)"@]
}

/// The header of the resource section.
pub open spec fn resource_header() -> Seq<Seq<char>> {
    seq!["Resource"@, "Business Line"@, "MIME Type"@, "Requests"@, "Hits"@, "Hit Rate (%)"@]
}

/// The record of a day, with its hit rate already written as `rate`.
pub open spec fn day_record(d: ReportDay, rate: Seq<char>) -> Seq<Seq<char>> {
    seq![date_of(d.day_start as int), decimal(d.requests as nat), decimal(d.hits as nat), decimal(d.misses as nat), rate]
}

/// The record of a node, with its hit rate already written as `rate`.
pub open spec fn node_record(r: NodeRowView, rate: Seq<char>) -> Seq<Seq<char>> {
    seq![r.name, r.region, decimal((r.hits + r.misses) as nat), decimal(r.hits as nat), decimal(r.misses as nat), rate]
}

/// The record of a resource, with its hit rate already written as `rate`.
pub open spec fn resource_record(r: ResourceRowView, rate: Seq<char>) -> Seq<Seq<char>> {
    seq![r.name, r.business_line, r.mime_type, decimal((r.hits + r.misses) as nat), decimal(r.hits as nat), rate]
}

/// The records of the report: the daily section, a blank record, the node
/// section under its title, a blank record, and the resource section under
/// its title. The hit rates are given already written.
pub open spec fn report_records(
    days: Seq<ReportDay>,
    day_rates: Seq<Seq<char>>,
    nodes: Seq<NodeRowView>,
    node_rates: Seq<Seq<char>>,
    res: Seq<ResourceRowView>,
    res_rates: Seq<Seq<char>>,
) -> Seq<Seq<Seq<char>>> {
    seq![day_header()]
        + Seq::new(days.len(), |k: int| day_record(days[k], day_rates[k]))
        + seq![seq![Seq::<char>::empty()], seq!["Per-Node Hit Rate"@], node_header()]
        + Seq::new(nodes.len(), |k: int| node_record(nodes[k], node_rates[k]))
        + seq![seq![Seq::<char>::empty()], seq!["Top 20 Resources by Requests"@], resource_header()]
        + Seq::new(res.len(), |k: int| resource_record(res[k], res_rates[k]))
}

/// A record made of the given texts.
fn record_of(fields: Vec<&str>) -> (r: Vec<String>)
    ensures
        texts(r@) == fields@.map_values(|f: &str| f@),
        r@.len() == fields@.len(),
{
    let mut r: Vec<String> = Vec::new();
    let mut i: usize = 0;
    while i < fields.len()
        invariant
            0 <= i <= fields@.len(),
            texts(r@) == fields@.take(i as int).map_values(|f: &str| f@),
        decreases fields@.len() - i,
    {
        let ghost before = r@;
        r.push(owned(fields[i]));
        assert(texts(r@) =~= texts(before).push(fields@[i as int]@));
        assert(fields@.take(i + 1).map_values(|f: &str| f@) =~= fields@.take(i as int).map_values(|f: &str| f@).push(fields@[i as int]@));
        i += 1;
    }
    assert(fields@.take(fields@.len() as int) =~= fields@);
    r
}

/// The records of a report (see `report_records`). The record after the days
/// is the blank one, with one field where the first record has five, so a
/// CSV writer that is not flexible refuses it.
pub fn build_report_records(
    report: &StatsReport,
    day_rates: &Vec<String>,
    node_rates: &Vec<String>,
    res_rates: &Vec<String>,
) -> (r: Vec<Vec<String>>)
    requires
        day_rates@.len() == report.days@.len(),
        node_rates@.len() == report.nodes@.len(),
        res_rates@.len() == report.resources@.len(),
        forall|k: int| 0 <= k < report.days@.len() ==> representable(#[trigger] report.days@[k].day_start as int),
        forall|k: int| 0 <= k < report.nodes@.len() ==> #[trigger] report.nodes@[k].hits + report.nodes@[k].misses <= u64::MAX,
        forall|k: int| 0 <= k < report.resources@.len() ==> #[trigger] report.resources@[k].hits + report.resources@[k].misses <= u64::MAX,
    ensures
        record_texts(r@) == report_records(
            report.days@,
            texts(day_rates@),
            node_row_views(report.nodes@),
            texts(node_rates@),
            resource_row_views(report.resources@),
            texts(res_rates@),
        ),
        first_unequal_at(record_texts(r@), report.days@.len() as int + 1),
        forall|j: int| 0 <= j < r@.len() ==> #[trigger] r@[j]@.len() > 0,
{
    let ghost target = report_records(
        report.days@,
        texts(day_rates@),
        node_row_views(report.nodes@),
        texts(node_rates@),
        resource_row_views(report.resources@),
        texts(res_rates@),
    );
    let mut r: Vec<Vec<String>> = Vec::new();
    let header = record_of(vec!["Date", "Requests", "Hits", "Misses", "Hit Rate (%)"]);
    assert(texts(header@) =~= day_header());
    r.push(header);
    assert(record_texts(r@) =~= seq![day_header()]);
    assert(seq![day_header()] + Seq::new(0 as nat, |j: int| day_record(report.days@[j], texts(day_rates@)[j])) =~= seq![day_header()]);
    let mut k: usize = 0;
    while k < report.days.len()
        invariant
            0 <= k <= report.days@.len(),
            day_rates@.len() == report.days@.len(),
            forall|j: int| 0 <= j < report.days@.len() ==> representable(#[trigger] report.days@[j].day_start as int),
            record_texts(r@) == seq![day_header()] + Seq::new(k as nat, |j: int| day_record(report.days@[j], texts(day_rates@)[j])),
            forall|j: int| 0 <= j < r@.len() ==> #[trigger] r@[j]@.len() > 0,
        decreases report.days@.len() - k,
    {
        let d = report.days[k];
        let date = date_text(d.day_start);
        let a = decimal_text(d.requests);
        let b = decimal_text(d.hits);
        let c = decimal_text(d.misses);
        let ghost before = record_texts(r@);
        let rec = vec![date, a, b, c, day_rates[k].clone()];
        assert(texts(rec@) =~= day_record(d, texts(day_rates@)[k as int]));
        let ghost rv = texts(rec@);
        r.push(rec);
        assert(record_texts(r@) =~= before.push(rv));
        assert(record_texts(r@) =~= seq![day_header()] + Seq::new((k + 1) as nat, |j: int| day_record(report.days@[j], texts(day_rates@)[j])));
        k += 1;
    }
    let blank = record_of(vec![""]);
    let title = record_of(vec!["Per-Node Hit Rate"]);
    let head = record_of(vec!["Node", "Region", "Requests", "Hits", "Misses", "Hit Rate (%)"]);
    assert(blank@.len() > 0 && title@.len() > 0 && head@.len() > 0);
    proof {
        reveal_strlit("");
        assert(""@ =~= Seq::<char>::empty());
        assert(texts(blank@)[0] == ""@);
    }
    assert(texts(blank@) =~= seq![Seq::<char>::empty()]);
    assert(texts(title@) =~= seq!["Per-Node Hit Rate"@]);
    assert(texts(head@) =~= node_header());
    let ghost days_part = record_texts(r@);
    r.push(blank);
    r.push(title);
    r.push(head);
    let ghost mid = record_texts(r@);
    assert(mid =~= days_part + seq![seq![Seq::<char>::empty()], seq!["Per-Node Hit Rate"@], node_header()]);
    let mut k: usize = 0;
    while k < report.nodes.len()
        invariant
            0 <= k <= report.nodes@.len(),
            node_rates@.len() == report.nodes@.len(),
            forall|j: int| 0 <= j < report.nodes@.len() ==> #[trigger] report.nodes@[j].hits + report.nodes@[j].misses <= u64::MAX,
            record_texts(r@) == mid + Seq::new(k as nat, |j: int| node_record(node_row_views(report.nodes@)[j], texts(node_rates@)[j])),
            forall|j: int| 0 <= j < r@.len() ==> #[trigger] r@[j]@.len() > 0,
        decreases report.nodes@.len() - k,
    {
        let n = &report.nodes[k];
        let total = decimal_text(n.hits + n.misses);
        let h = decimal_text(n.hits);
        let m = decimal_text(n.misses);
        let rec = vec![n.name.clone(), n.region.clone(), total, h, m, node_rates[k].clone()];
        assert(texts(rec@) =~= node_record(node_row_views(report.nodes@)[k as int], texts(node_rates@)[k as int]));
        let ghost before = record_texts(r@);
        let ghost rv = texts(rec@);
        r.push(rec);
        assert(record_texts(r@) =~= before.push(rv));
        assert(record_texts(r@) =~= mid + Seq::new((k + 1) as nat, |j: int| node_record(node_row_views(report.nodes@)[j], texts(node_rates@)[j])));
        k += 1;
    }
    let blank = record_of(vec![""]);
    let title = record_of(vec!["Top 20 Resources by Requests"]);
    let head = record_of(vec!["Resource", "Business Line", "MIME Type", "Requests", "Hits", "Hit Rate (%)"]);
    assert(blank@.len() > 0 && title@.len() > 0 && head@.len() > 0);
    proof {
        reveal_strlit("");
        assert(""@ =~= Seq::<char>::empty());
        assert(texts(blank@)[0] == ""@);
    }
    assert(texts(blank@) =~= seq![Seq::<char>::empty()]);
    assert(texts(title@) =~= seq!["Top 20 Resources by Requests"@]);
    assert(texts(head@) =~= resource_header());
    let ghost nodes_part = record_texts(r@);
    r.push(blank);
    r.push(title);
    r.push(head);
    let ghost mid2 = record_texts(r@);
    assert(mid2 =~= nodes_part + seq![seq![Seq::<char>::empty()], seq!["Top 20 Resources by Requests"@], resource_header()]);
    let mut k: usize = 0;
    while k < report.resources.len()
        invariant
            0 <= k <= report.resources@.len(),
            res_rates@.len() == report.resources@.len(),
            forall|j: int| 0 <= j < report.resources@.len() ==> #[trigger] report.resources@[j].hits + report.resources@[j].misses <= u64::MAX,
            record_texts(r@) == mid2 + Seq::new(k as nat, |j: int| resource_record(resource_row_views(report.resources@)[j], texts(res_rates@)[j])),
            forall|j: int| 0 <= j < r@.len() ==> #[trigger] r@[j]@.len() > 0,
        decreases report.resources@.len() - k,
    {
        let x = &report.resources[k];
        let total = decimal_text(x.hits + x.misses);
        let h = decimal_text(x.hits);
        let rec = vec![x.name.clone(), x.business_line.clone(), x.mime_type.clone(), total, h, res_rates[k].clone()];
        assert(texts(rec@) =~= resource_record(resource_row_views(report.resources@)[k as int], texts(res_rates@)[k as int]));
        let ghost before = record_texts(r@);
        let ghost rv = texts(rec@);
        r.push(rec);
        assert(record_texts(r@) =~= before.push(rv));
        assert(record_texts(r@) =~= mid2 + Seq::new((k + 1) as nat, |j: int| resource_record(resource_row_views(report.resources@)[j], texts(res_rates@)[j])));
        k += 1;
    }
    assert(record_texts(r@) =~= target);
    proof {
        reveal_strlit("");
        let rt = record_texts(r@);
        let nd = report.days@.len() as int;
        assert(rt[0] == day_header());
        assert(rt[nd + 1] == seq![Seq::<char>::empty()]);
        assert forall|j: int| 0 < j < nd + 1 implies #[trigger] rt[j].len() == rt[0].len() by {
            assert(rt[j] == day_record(report.days@[j - 1], texts(day_rates@)[j - 1]));
        }
    }
    r
}

/// Whatever the figures, the records of a report break the width of the
/// first record right after the days: the blank record has one field where
/// the header has five. A writer that is not flexible refuses it there.
pub proof fn report_breaks_after_days(
    days: Seq<ReportDay>,
    day_rates: Seq<Seq<char>>,
    nodes: Seq<NodeRowView>,
    node_rates: Seq<Seq<char>>,
    res: Seq<ResourceRowView>,
    res_rates: Seq<Seq<char>>,
)
    ensures
        first_unequal_at(report_records(days, day_rates, nodes, node_rates, res, res_rates), days.len() as int + 1),
        !uniform(report_records(days, day_rates, nodes, node_rates, res, res_rates)),
{
    let rt = report_records(days, day_rates, nodes, node_rates, res, res_rates);
    let nd = days.len() as int;
    assert(rt[0] == day_header());
    assert(rt[nd + 1] == seq![Seq::<char>::empty()]);
    assert forall|j: int| 0 < j < nd + 1 implies #[trigger] rt[j].len() == rt[0].len() by {
        assert(rt[j] == day_record(days[j - 1], day_rates[j - 1]));
    }
    assert(rt[nd + 1].len() != rt[0].len());
}

} // verus!
