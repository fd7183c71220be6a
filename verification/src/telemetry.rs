//! Operational telemetry of the equivalence checker.
//!
//! Every finished job is distilled into a [`VerificationRecord`] and kept in
//! a [`TelemetrySink`], which gives a traffic-light view of the checker's
//! health and an export as lines of JSON.

use crate::engine::Verdict;
use crate::text::{decimal, is_digit, lemma_decimal, push_decimal};
use vstd::prelude::*;
use vstd::std_specs::convert::FromSpecImpl;

verus! {

/// Traffic-light classification of a verdict.
///
/// Yellow is a legitimate outcome, not an error.
#[derive(Debug, Clone, Copy, PartialEq, Eq, Structural)]
pub enum VerdictKind {
    /// The equivalence was proved.
    Green,
    /// The run ended without a proof.
    Yellow,
}

/// The colour of a verdict.
pub open spec fn kind_of(verdict: Verdict) -> VerdictKind {
    match verdict {
        Verdict::Equivalent { .. } => VerdictKind::Green,
        Verdict::Unproven { .. } => VerdictKind::Yellow,
    }
}

impl From<&Verdict> for VerdictKind {
    fn from(verdict: &Verdict) -> (res: Self) {
        match verdict {
            Verdict::Equivalent { .. } => VerdictKind::Green,
            Verdict::Unproven { .. } => VerdictKind::Yellow,
        }
    }
}

impl FromSpecImpl<&Verdict> for VerdictKind {
    open spec fn obeys_from_spec() -> bool {
        true
    }

    open spec fn from_spec(verdict: &Verdict) -> Self {
        kind_of(*verdict)
    }
}

/// One finished job.
///
/// A yellow verdict carries no metrics: its iterations and nodes are zero.
#[derive(Debug, Clone, PartialEq)]
pub struct VerificationRecord {
    job_id: u64,
    verdict_kind: VerdictKind,
    iterations: usize,
    nodes: usize,
    elapsed_ms: u128,
}

/// What a record holds.
pub ghost struct Record {
    pub job_id: u64,
    pub verdict_kind: VerdictKind,
    pub iterations: usize,
    pub nodes: usize,
    pub elapsed_ms: u128,
}

/// The record of a job that ended with the given verdict.
pub open spec fn record_of(job_id: u64, verdict: Verdict, elapsed_ms: u128) -> Record {
    let (iterations, nodes) = match verdict {
        Verdict::Equivalent { iterations, nodes } => (iterations, nodes),
        Verdict::Unproven { .. } => (0, 0),
    };
    Record { job_id, verdict_kind: kind_of(verdict), iterations, nodes, elapsed_ms }
}

impl View for VerificationRecord {
    type V = Record;

    closed spec fn view(&self) -> Record {
        Record {
            job_id: self.job_id,
            verdict_kind: self.verdict_kind,
            iterations: self.iterations,
            nodes: self.nodes,
            elapsed_ms: self.elapsed_ms,
        }
    }
}

impl VerificationRecord {
    /// The record of a finished job, whose time the caller has measured.
    pub fn new(job_id: u64, verdict: &Verdict, elapsed_ms: u128) -> (res: Self)
        ensures
            res@ == record_of(job_id, *verdict, elapsed_ms),
    {
        let verdict_kind = VerdictKind::from(verdict);
        let (iterations, nodes): (usize, usize) = match verdict {
            Verdict::Equivalent { iterations, nodes } => (*iterations, *nodes),
            Verdict::Unproven { .. } => (0, 0),
        };
        VerificationRecord { job_id, verdict_kind, iterations, nodes, elapsed_ms }
    }

    /// A record that was kept elsewhere, made of its fields.
    pub fn restore(
        job_id: u64,
        verdict_kind: VerdictKind,
        iterations: usize,
        nodes: usize,
        elapsed_ms: u128,
    ) -> (res: Self)
        ensures
            res@ == (Record { job_id, verdict_kind, iterations, nodes, elapsed_ms }),
    {
        VerificationRecord { job_id, verdict_kind, iterations, nodes, elapsed_ms }
    }

    pub fn job_id(&self) -> (res: u64)
        ensures
            res == self@.job_id,
    {
        self.job_id
    }

    pub fn verdict_kind(&self) -> (res: VerdictKind)
        ensures
            res == self@.verdict_kind,
    {
        self.verdict_kind
    }

    pub fn iterations(&self) -> (res: usize)
        ensures
            res == self@.iterations,
    {
        self.iterations
    }

    pub fn nodes(&self) -> (res: usize)
        ensures
            res == self@.nodes,
    {
        self.nodes
    }

    pub fn elapsed_ms(&self) -> (res: u128)
        ensures
            res == self@.elapsed_ms,
    {
        self.elapsed_ms
    }

    /// Append the record as a JSON object.
    fn push_json(&self, out: &mut String)
        ensures
            final(out)@ == old(out)@ + record_json(self@),
    {
        out.append("{\"job_id\":");
        push_decimal(out, self.job_id as u128);
        match self.verdict_kind {
            VerdictKind::Green => {
                out.append(",\"verdict_kind\":\"Green\",\"iterations\":");
            },
            VerdictKind::Yellow => {
                out.append(",\"verdict_kind\":\"Yellow\",\"iterations\":");
            },
        }
        push_decimal(out, self.iterations as u128);
        out.append(",\"nodes\":");
        push_decimal(out, self.nodes as u128);
        out.append(",\"elapsed_ms\":");
        push_decimal(out, self.elapsed_ms);
        out.append("}");
        assert(out@ =~= old(out)@ + record_json(self@));
    }
}

/// The JSON object of a record: its fields in order, without spaces.
pub open spec fn record_json(r: Record) -> Seq<char> {
    "{\"job_id\":"@ + decimal(r.job_id as nat) + match r.verdict_kind {
        VerdictKind::Green => ",\"verdict_kind\":\"Green\",\"iterations\":"@,
        VerdictKind::Yellow => ",\"verdict_kind\":\"Yellow\",\"iterations\":"@,
    } + decimal(r.iterations as nat) + ",\"nodes\":"@ + decimal(r.nodes as nat)
        + ",\"elapsed_ms\":"@ + decimal(r.elapsed_ms as nat) + "}"@
}

/// One JSON object per line, each line closed by a newline.
pub open spec fn json_lines(records: Seq<VerificationRecord>) -> Seq<char>
    decreases records.len(),
{
    if records.len() == 0 {
        Seq::empty()
    } else {
        json_lines(records.drop_last()) + record_json(records.last()@) + seq!['\n']
    }
}

/// How many records are green.
pub open spec fn greens(records: Seq<VerificationRecord>) -> nat
    decreases records.len(),
{
    if records.len() == 0 {
        0
    } else {
        greens(records.drop_last()) + if records.last()@.verdict_kind is Green {
            1nat
        } else {
            0nat
        }
    }
}

/// The share of green records as an exact fraction.
#[derive(Debug, Clone, Copy, PartialEq, Eq, Structural)]
pub struct GreenShare {
    pub greens: usize,
    pub total: usize,
}

/// Records in the order of their arrival.
#[derive(Debug, Clone)]
pub struct TelemetrySink {
    records: Vec<VerificationRecord>,
}

impl View for TelemetrySink {
    type V = Seq<VerificationRecord>;

    closed spec fn view(&self) -> Seq<VerificationRecord> {
        self.records@
    }
}

impl Default for TelemetrySink {
    fn default() -> (res: Self)
        ensures
            res@ == Seq::<VerificationRecord>::empty(),
    {
        TelemetrySink { records: Vec::new() }
    }
}

impl TelemetrySink {
    pub fn new() -> (res: Self)
        ensures
            res@ == Seq::<VerificationRecord>::empty(),
    {
        TelemetrySink { records: Vec::new() }
    }

    /// Append the record of a finished job.
    pub fn record(&mut self, record: VerificationRecord)
        ensures
            final(self)@ == old(self)@.push(record),
    {
        self.records.push(record);
    }

    /// Number of records.
    pub fn len(&self) -> (res: usize)
        ensures
            res == self@.len(),
    {
        self.records.len()
    }

    pub fn is_empty(&self) -> (res: bool)
        ensures
            res == (self@.len() == 0),
    {
        self.records.len() == 0
    }

    /// The records in the order of their arrival.
    pub fn records(&self) -> (res: &[VerificationRecord])
        ensures
            res@ == self@,
    {
        self.records.as_slice()
    }

    /// The share of green records; none if there is no record.
    pub fn green_yellow_ratio(&self) -> (res: Option<GreenShare>)
        ensures
            res == if self@.len() == 0 {
                None
            } else {
                Some(GreenShare { greens: greens(self@) as usize, total: self@.len() as usize })
            },
            res matches Some(share) ==> share.greens == greens(self@) && share.total == self@.len(),
    {
        if self.is_empty() {
            return None;
        }
        let total: usize = self.records.len();
        let mut count: usize = 0;
        let mut i: usize = 0;
        assert(self.records@.take(0) =~= Seq::<VerificationRecord>::empty());
        while i < total
            invariant
                i <= total,
                total == self.records@.len(),
                count <= i,
                count == greens(self.records@.take(i as int)),
            decreases total - i,
        {
            assert(self.records@.take(i + 1).drop_last() =~= self.records@.take(i as int));
            if let VerdictKind::Green = self.records[i].verdict_kind {
                count += 1;
            }
            i += 1;
        }
        assert(self.records@.take(i as int) =~= self.records@);
        Some(GreenShare { greens: count, total })
    }

    /// The records as lines of JSON: one object per line, each line closed by
    /// a newline.
    pub fn to_json_lines(&self) -> (res: String)
        ensures
            res@ == json_lines(self@),
    {
        let mut out = String::new();
        let mut i: usize = 0;
        assert(self.records@.take(0) =~= Seq::<VerificationRecord>::empty());
        assert(out@ =~= Seq::<char>::empty());
        proof {
            reveal_strlit("\n");
        }
        while i < self.records.len()
            invariant
                i <= self.records@.len(),
                out@ == json_lines(self.records@.take(i as int)),
                "\n"@ == seq!['\n'],
            decreases self.records@.len() - i,
        {
            assert(self.records@.take(i + 1).drop_last() =~= self.records@.take(i as int));
            self.records[i].push_json(&mut out);
            out.append("\n");
            i += 1;
        }
        assert(self.records@.take(i as int) =~= self.records@);
        out
    }
}

/// Green records are counted among all: none of them for yellow records
/// alone, all of them for green records alone.
pub proof fn law_greens_are_a_share(records: Seq<VerificationRecord>)
    ensures
        greens(records) <= records.len(),
        (forall|i: int| 0 <= i < records.len() ==> (#[trigger] records[i])@.verdict_kind is Green)
            ==> greens(records) == records.len(),
        (forall|i: int| 0 <= i < records.len() ==> (#[trigger] records[i])@.verdict_kind is Yellow)
            ==> greens(records) == 0,
    decreases records.len(),
{
    if records.len() > 0 {
        let rest = records.drop_last();
        law_greens_are_a_share(rest);
        assert(records.last() == records[records.len() - 1]);
        assert(forall|i: int| 0 <= i < rest.len() ==> rest[i] == records[i]);
    }
}

/// How many lines a text has, each closed by a newline.
pub open spec fn newlines(s: Seq<char>) -> nat
    decreases s.len(),
{
    if s.len() == 0 {
        0
    } else {
        newlines(s.drop_last()) + if s.last() == '\n' {
            1nat
        } else {
            0nat
        }
    }
}

/// The export has exactly one line for each record.
pub proof fn law_one_line_per_record(records: Seq<VerificationRecord>)
    ensures
        newlines(json_lines(records)) == records.len(),
        records.len() > 0 ==> json_lines(records).last() == '\n',
    decreases records.len(),
{
    if records.len() > 0 {
        let earlier = json_lines(records.drop_last());
        let object = record_json(records.last()@);
        law_one_line_per_record(records.drop_last());
        lemma_json_is_one_line(records.last()@);
        lemma_newlines(earlier, object);
        let lines = earlier + object + seq!['\n'];
        assert(lines.drop_last() =~= earlier + object);
    }
}

proof fn lemma_newlines(a: Seq<char>, b: Seq<char>)
    requires
        forall|i: int| 0 <= i < b.len() ==> #[trigger] b[i] != '\n',
    ensures
        newlines(a + b) == newlines(a),
    decreases b.len(),
{
    if b.len() == 0 {
        assert(a + b =~= a);
    } else {
        assert((a + b).drop_last() =~= a + b.drop_last());
        assert((a + b).last() == b[b.len() - 1]);
        assert forall|i: int| 0 <= i < b.drop_last().len() implies #[trigger] b.drop_last()[i]
            != '\n' by {
            assert(b.drop_last()[i] == b[i]);
        }
        lemma_newlines(a, b.drop_last());
    }
}

/// No newline stands in the object of a record.
proof fn lemma_json_is_one_line(r: Record)
    ensures
        forall|i: int| 0 <= i < record_json(r).len() ==> #[trigger] record_json(r)[i] != '\n',
{
    reveal_strlit("{\"job_id\":");
    reveal_strlit(",\"verdict_kind\":\"Green\",\"iterations\":");
    reveal_strlit(",\"verdict_kind\":\"Yellow\",\"iterations\":");
    reveal_strlit(",\"nodes\":");
    reveal_strlit(",\"elapsed_ms\":");
    reveal_strlit("}");
    lemma_decimal(r.job_id as nat);
    lemma_decimal(r.iterations as nat);
    lemma_decimal(r.nodes as nat);
    lemma_decimal(r.elapsed_ms as nat);
}

/// The closed lines of a text, without their newlines, and what stands behind
/// the last newline.
pub open spec fn split_lines(s: Seq<char>) -> (Seq<Seq<char>>, Seq<char>)
    decreases s.len(),
{
    if s.len() == 0 {
        (Seq::empty(), Seq::empty())
    } else {
        let (closed, rest) = split_lines(s.drop_last());
        if s.last() == '\n' {
            (closed.push(rest), Seq::empty())
        } else {
            (closed, rest.push(s.last()))
        }
    }
}

/// The lines of the export are the objects of the records, in order, each
/// closed by a newline; the export is empty exactly if there is no record.
pub proof fn law_lines_are_the_records(records: Seq<VerificationRecord>)
    ensures
        split_lines(json_lines(records)).0 == Seq::new(
            records.len(),
            |k: int| record_json(records[k]@),
        ),
        split_lines(json_lines(records)).1 == Seq::<char>::empty(),
        json_lines(records).len() == 0 <==> records.len() == 0,
    decreases records.len(),
{
    if records.len() > 0 {
        let rest = records.drop_last();
        let earlier = json_lines(rest);
        let object = record_json(records.last()@);
        law_lines_are_the_records(rest);
        lemma_json_is_one_line(records.last()@);
        lemma_split_open(earlier, object);
        let lines = earlier + object + seq!['\n'];
        assert(lines.drop_last() =~= earlier + object);
        assert(split_lines(earlier).1 + object =~= object);
        assert(forall|k: int| 0 <= k < rest.len() ==> rest[k] == records[k]);
        assert(split_lines(lines).0 =~= Seq::new(
            records.len(),
            |k: int| record_json(records[k]@),
        ));
    }
}

/// A text without newlines continues the line that is open.
proof fn lemma_split_open(a: Seq<char>, b: Seq<char>)
    requires
        forall|i: int| 0 <= i < b.len() ==> #[trigger] b[i] != '\n',
    ensures
        split_lines(a + b) == (split_lines(a).0, split_lines(a).1 + b),
    decreases b.len(),
{
    if b.len() == 0 {
        assert(a + b =~= a);
        assert(split_lines(a).1 + b =~= split_lines(a).1);
    } else {
        let c = b.drop_last();
        assert((a + b).drop_last() =~= a + c);
        assert((a + b).last() == b[b.len() - 1]);
        assert forall|i: int| 0 <= i < c.len() implies #[trigger] c[i] != '\n' by {
            assert(c[i] == b[i]);
        }
        lemma_split_open(a, c);
        assert((split_lines(a).1 + c).push(b.last()) =~= split_lines(a).1 + b);
    }
}

/// What follows a numeral starts where the digits end.
proof fn lemma_after_numeral(m: nat, a: Seq<char>, n: nat, b: Seq<char>)
    requires
        decimal(m) + a == decimal(n) + b,
        a.len() > 0,
        b.len() > 0,
        !is_digit(a[0]),
        !is_digit(b[0]),
    ensures
        m == n,
        a == b,
{
    lemma_decimal(m);
    lemma_decimal(n);
    let dm = decimal(m);
    let dn = decimal(n);
    let x = dm + a;
    let y = dn + b;
    if dm.len() < dn.len() {
        assert(x[dm.len() as int] == a[0]);
        assert(y[dm.len() as int] == dn[dm.len() as int]);
    } else if dn.len() < dm.len() {
        assert(y[dn.len() as int] == b[0]);
        assert(x[dn.len() as int] == dm[dn.len() as int]);
    }
    assert(x.take(dm.len() as int) =~= dm);
    assert(y.take(dn.len() as int) =~= dn);
    assert(x.skip(dm.len() as int) =~= a);
    assert(y.skip(dn.len() as int) =~= b);
}

/// The object of a record from the time on.
spec fn json_time(r: Record) -> Seq<char> {
    ",\"elapsed_ms\":"@ + (decimal(r.elapsed_ms as nat) + "}"@)
}

/// The object of a record from the nodes on.
spec fn json_nodes(r: Record) -> Seq<char> {
    ",\"nodes\":"@ + (decimal(r.nodes as nat) + json_time(r))
}

/// The name of a record's verdict, up to the iterations.
spec fn json_kind(r: Record) -> Seq<char> {
    match r.verdict_kind {
        VerdictKind::Green => ",\"verdict_kind\":\"Green\",\"iterations\":"@,
        VerdictKind::Yellow => ",\"verdict_kind\":\"Yellow\",\"iterations\":"@,
    }
}

/// The object of a record from the verdict on.
spec fn json_verdict(r: Record) -> Seq<char> {
    json_kind(r) + (decimal(r.iterations as nat) + json_nodes(r))
}

/// The object of a record, part by part.
proof fn lemma_json_parts(r: Record)
    ensures
        record_json(r) == "{\"job_id\":"@ + (decimal(r.job_id as nat) + json_verdict(r)),
{
    let (job, rounds) = (decimal(r.job_id as nat), decimal(r.iterations as nat));
    let (size, time) = (decimal(r.nodes as nat), decimal(r.elapsed_ms as nat));
    let to_job = "{\"job_id\":"@ + job;
    let to_rounds = to_job + json_kind(r) + rounds;
    let to_size = to_rounds + ",\"nodes\":"@ + size;
    let to_time = to_size + ",\"elapsed_ms\":"@ + time;
    assert(record_json(r) == to_time + "}"@);
    lemma_regroup(to_size + ",\"elapsed_ms\":"@, time, "}"@);
    lemma_regroup(to_size, ",\"elapsed_ms\":"@, time + "}"@);
    lemma_regroup(to_rounds + ",\"nodes\":"@, size, json_time(r));
    lemma_regroup(to_rounds, ",\"nodes\":"@, size + json_time(r));
    lemma_regroup(to_job + json_kind(r), rounds, json_nodes(r));
    lemma_regroup(to_job, json_kind(r), rounds + json_nodes(r));
    lemma_regroup("{\"job_id\":"@, job, json_verdict(r));
}

/// Texts can be joined in any grouping.
proof fn lemma_regroup(a: Seq<char>, b: Seq<char>, c: Seq<char>)
    ensures
        (a + b) + c == a + (b + c),
{
    assert((a + b) + c =~= a + (b + c));
}

/// Texts with the same beginning are equal only if their ends are.
proof fn lemma_same_beginning(p: Seq<char>, a: Seq<char>, b: Seq<char>)
    requires
        p + a == p + b,
    ensures
        a == b,
{
    assert((p + a).skip(p.len() as int) =~= a);
    assert((p + b).skip(p.len() as int) =~= b);
}

/// The JSON object tells records apart: what was written can be read back.
pub proof fn law_json_tells_records_apart(r: Record, q: Record)
    requires
        record_json(r) == record_json(q),
    ensures
        r == q,
{
    reveal_strlit(",\"verdict_kind\":\"Green\",\"iterations\":");
    reveal_strlit(",\"verdict_kind\":\"Yellow\",\"iterations\":");
    reveal_strlit(",\"nodes\":");
    reveal_strlit(",\"elapsed_ms\":");
    reveal_strlit("}");
    lemma_json_parts(r);
    lemma_json_parts(q);
    lemma_same_beginning(
        "{\"job_id\":"@,
        decimal(r.job_id as nat) + json_verdict(r),
        decimal(q.job_id as nat) + json_verdict(q),
    );
    assert(json_verdict(r)[0] == ',' && json_verdict(q)[0] == ',');
    lemma_after_numeral(
        r.job_id as nat,
        json_verdict(r),
        q.job_id as nat,
        json_verdict(q),
    );
    assert(json_verdict(r)[17] == json_kind(r)[17]);
    assert(json_verdict(q)[17] == json_kind(q)[17]);
    assert(r.verdict_kind == q.verdict_kind);
    lemma_same_beginning(
        json_kind(r),
        decimal(r.iterations as nat) + json_nodes(r),
        decimal(q.iterations as nat) + json_nodes(q),
    );
    assert(json_nodes(r)[0] == ',' && json_nodes(q)[0] == ',');
    lemma_after_numeral(r.iterations as nat, json_nodes(r), q.iterations as nat, json_nodes(q));
    lemma_same_beginning(
        ",\"nodes\":"@,
        decimal(r.nodes as nat) + json_time(r),
        decimal(q.nodes as nat) + json_time(q),
    );
    assert(json_time(r)[0] == ',' && json_time(q)[0] == ',');
    lemma_after_numeral(r.nodes as nat, json_time(r), q.nodes as nat, json_time(q));
    lemma_same_beginning(
        ",\"elapsed_ms\":"@,
        decimal(r.elapsed_ms as nat) + "}"@,
        decimal(q.elapsed_ms as nat) + "}"@,
    );
    lemma_after_numeral(r.elapsed_ms as nat, "}"@, q.elapsed_ms as nat, "}"@);
}

/// The export tells lists of records apart.
pub proof fn law_export_tells_records_apart(
    a: Seq<VerificationRecord>,
    b: Seq<VerificationRecord>,
)
    requires
        json_lines(a) == json_lines(b),
    ensures
        a == b,
{
    law_lines_are_the_records(a);
    law_lines_are_the_records(b);
    let lines = split_lines(json_lines(a)).0;
    assert(lines.len() == a.len() && lines.len() == b.len());
    assert forall|k: int| 0 <= k < a.len() implies a[k] == b[k] by {
        assert(lines[k] == record_json(a[k]@));
        assert(lines[k] == record_json(b[k]@));
        law_json_tells_records_apart(a[k]@, b[k]@);
    }
    assert(a =~= b);
}

/// The green records are counted one by one: their number is that of the
/// records that are green, wherever they stand.
pub proof fn law_greens_are_the_green_records(records: Seq<VerificationRecord>)
    ensures
        greens(records) == records.filter(
            |r: VerificationRecord| r@.verdict_kind is Green,
        ).len(),
    decreases records.len(),
{
    reveal(Seq::filter);
    if records.len() > 0 {
        law_greens_are_the_green_records(records.drop_last());
    }
}

/// One more record counts if it is green, and not if it is yellow.
pub proof fn law_records_are_counted_one_by_one(
    records: Seq<VerificationRecord>,
    record: VerificationRecord,
)
    ensures
        greens(Seq::<VerificationRecord>::empty()) == 0,
        record@.verdict_kind is Green ==> greens(records.push(record)) == greens(records) + 1,
        record@.verdict_kind is Yellow ==> greens(records.push(record)) == greens(records),
{
    assert(records.push(record).drop_last() =~= records);
}

/// The record of a job carries the job's number and time. It is green exactly
/// if the job ended with an equivalence, and then has its metrics; otherwise
/// the metrics are zero.
pub proof fn law_records_carry_the_verdict(job_id: u64, verdict: Verdict, elapsed_ms: u128)
    ensures
        ({
            let r = record_of(job_id, verdict, elapsed_ms);
            &&& r.job_id == job_id
            &&& r.elapsed_ms == elapsed_ms
            &&& r.verdict_kind is Green <==> verdict is Equivalent
            &&& verdict matches Verdict::Equivalent { iterations, nodes } ==> r.iterations
                == iterations && r.nodes == nodes
            &&& verdict is Unproven ==> r.iterations == 0 && r.nodes == 0
        }),
{
}

/// The part stands somewhere in the text.
pub open spec fn stands_in(text: Seq<char>, part: Seq<char>) -> bool {
    exists|i: int, j: int|
        0 <= i <= j <= text.len() && #[trigger] text.subrange(i, j) == part
}

proof fn lemma_stands_in(a: Seq<char>, part: Seq<char>, b: Seq<char>)
    ensures
        stands_in(a + (part + b), part),
{
    let text = a + (part + b);
    assert(text.subrange(a.len() as int, (a.len() + part.len()) as int) =~= part);
}

/// Every field of a record stands in its JSON object behind its name.
pub proof fn law_fields_stand_behind_their_names(r: Record)
    ensures
        stands_in(record_json(r), "{\"job_id\":"@ + decimal(r.job_id as nat) + seq![',']),
        r.verdict_kind is Green ==> stands_in(
            record_json(r),
            ",\"verdict_kind\":\"Green\",\"iterations\":"@ + decimal(r.iterations as nat) + seq![
                ',',
            ],
        ),
        r.verdict_kind is Yellow ==> stands_in(
            record_json(r),
            ",\"verdict_kind\":\"Yellow\",\"iterations\":"@ + decimal(r.iterations as nat) + seq![
                ',',
            ],
        ),
        stands_in(record_json(r), ",\"nodes\":"@ + decimal(r.nodes as nat) + seq![',']),
        stands_in(record_json(r), ",\"elapsed_ms\":"@ + decimal(r.elapsed_ms as nat) + "}"@),
{
    reveal_strlit(",\"verdict_kind\":\"Green\",\"iterations\":");
    reveal_strlit(",\"verdict_kind\":\"Yellow\",\"iterations\":");
    reveal_strlit(",\"nodes\":");
    reveal_strlit(",\"elapsed_ms\":");
    lemma_json_parts(r);
    let (job, rounds) = (decimal(r.job_id as nat), decimal(r.iterations as nat));
    let (size, time) = (decimal(r.nodes as nat), decimal(r.elapsed_ms as nat));
    let none = Seq::<char>::empty();
    let to_verdict = "{\"job_id\":"@ + job;
    let to_nodes = to_verdict + (json_kind(r) + rounds);
    let to_time = to_nodes + (",\"nodes\":"@ + size);
    lemma_regroup("{\"job_id\":"@, job, json_verdict(r));
    assert(record_json(r) == to_verdict + json_verdict(r));
    lemma_regroup(json_kind(r), rounds, json_nodes(r));
    lemma_regroup(to_verdict, json_kind(r) + rounds, json_nodes(r));
    assert(record_json(r) == to_nodes + json_nodes(r));
    lemma_regroup(",\"nodes\":"@, size, json_time(r));
    lemma_regroup(to_nodes, ",\"nodes\":"@ + size, json_time(r));
    assert(record_json(r) == to_time + json_time(r));
    lemma_field(none, to_verdict, json_verdict(r));
    assert(none + (to_verdict + json_verdict(r)) =~= to_verdict + json_verdict(r));
    lemma_field(to_verdict, json_kind(r) + rounds, json_nodes(r));
    lemma_field(to_nodes, ",\"nodes\":"@ + size, json_time(r));
    lemma_regroup(",\"elapsed_ms\":"@, time, "}"@);
    lemma_stands_in(to_time, json_time(r), none);
    assert(to_time + (json_time(r) + none) =~= to_time + json_time(r));
}

/// A field, with the comma behind it, stands in a text.
proof fn lemma_field(a: Seq<char>, field: Seq<char>, b: Seq<char>)
    requires
        b.len() > 0,
        b[0] == ',',
    ensures
        stands_in(a + (field + b), field + seq![',']),
{
    assert(field + b =~= (field + seq![',']) + b.skip(1));
    lemma_stands_in(a, field + seq![','], b.skip(1));
}

/// The ratio is taken over all records: its numerator is the number of those
/// that are green, its denominator the number of all, and there is none
/// exactly if there is no record.
pub proof fn law_the_ratio_counts_green_records(sink: &TelemetrySink, res: Option<GreenShare>)
    requires
        call_ensures(TelemetrySink::green_yellow_ratio, (sink,), res),
    ensures
        res is None <==> sink@.len() == 0,
        res matches Some(share) ==> {
            &&& share.total == sink@.len()
            &&& share.greens == sink@.filter(
                |r: VerificationRecord| r@.verdict_kind is Green,
            ).len()
        },
{
    law_greens_are_the_green_records(sink@);
}

/// The export of a sink has one line for each record, in order, which is the
/// object of that record and of no other.
pub proof fn law_exports_hold_the_records(sink: &TelemetrySink, text: String, k: int)
    requires
        call_ensures(TelemetrySink::to_json_lines, (sink,), text),
        0 <= k < sink@.len(),
    ensures
        split_lines(text@).0.len() == sink@.len(),
        split_lines(text@).0[k] == record_json(sink@[k]@),
        split_lines(text@).1.len() == 0,
{
    law_lines_are_the_records(sink@);
}

/// A sink keeps what is recorded, in the order of arrival.
pub proof fn law_sinks_keep_their_records(
    sink: &mut TelemetrySink,
    record: VerificationRecord,
    new: TelemetrySink,
    kept: &TelemetrySink,
    n: usize,
    empty: bool,
    all: &[VerificationRecord],
)
    requires
        call_ensures(TelemetrySink::record, (sink, record), ()),
        call_ensures(TelemetrySink::new, (), new),
        call_ensures(TelemetrySink::len, (kept,), n),
        call_ensures(TelemetrySink::is_empty, (kept,), empty),
        call_ensures(TelemetrySink::records, (kept,), all),
    ensures
        final(sink)@ == old(sink)@ + seq![record],
        new@.len() == 0,
        n == kept@.len(),
        empty <==> kept@.len() == 0,
        all@ == kept@,
{
    assert(old(sink)@.push(record) =~= old(sink)@ + seq![record]);
}

/// A record tells what it was made of.
pub proof fn law_records_tell_their_fields(
    job_id: u64,
    verdict: &Verdict,
    elapsed_ms: u128,
    r: VerificationRecord,
    kind: VerdictKind,
    iterations: usize,
    nodes: usize,
    ms: u128,
    id: u64,
)
    requires
        call_ensures(VerificationRecord::new, (job_id, verdict, elapsed_ms), r),
        call_ensures(VerificationRecord::job_id, (&r,), id),
        call_ensures(VerificationRecord::verdict_kind, (&r,), kind),
        call_ensures(VerificationRecord::iterations, (&r,), iterations),
        call_ensures(VerificationRecord::nodes, (&r,), nodes),
        call_ensures(VerificationRecord::elapsed_ms, (&r,), ms),
    ensures
        id == job_id,
        ms == elapsed_ms,
        kind is Green <==> *verdict is Equivalent,
        *verdict matches Verdict::Equivalent { iterations: i, nodes: n } ==> iterations == i
            && nodes == n,
        *verdict is Unproven ==> iterations == 0 && nodes == 0,
{
}

} // verus!
