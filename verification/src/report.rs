//! The report of a search: what each line says.
//!
//! A line names a dataset by its accession and gives its containment. The accession is
//! cut out of the dataset's identity, which is a path: it is the last component of the
//! path, up to its first dot. The containment is a fraction, the merged intersection
//! size over the size of the query, and is kept here as its two terms: writing it as a
//! decimal number is left to the caller, who hands the text back for the line.

use vstd::prelude::*;
use vstd::std_specs::iter::IteratorSpec;
use vstd::string::StringExecFns;
use crate::dataset::MatchRecord;

verus! {

/// The positions `start..end` of `path` hold its accession: `start` is where the last
/// component begins, and `end` is where the first dot of that component stands, or the
/// end of the path if it has none.
pub open spec fn is_label_span(path: Seq<char>, start: int, end: int) -> bool {
    &&& 0 <= start <= end <= path.len()
    &&& start == 0 || path[start - 1] == '/'
    &&& forall|i: int| start <= i < path.len() ==> path[i] != '/'
    &&& end == path.len() || path[end] == '.'
    &&& forall|i: int| start <= i < end ==> path[i] != '.'
}

/// `label` is the accession of the dataset with identity `path`.
pub open spec fn is_label_of(label: Seq<char>, path: Seq<char>) -> bool {
    exists|start: int, end: int|
        #![trigger is_label_span(path, start, end)]
        is_label_span(path, start, end) && label == path.subrange(start, end)
}

/// An identity has one accession only.
pub proof fn law_label_unique(path: Seq<char>, a: Seq<char>, b: Seq<char>)
    requires
        is_label_of(a, path),
        is_label_of(b, path),
    ensures
        a == b,
{
    let (s1, e1) = choose|start: int, end: int|
        #![trigger is_label_span(path, start, end)]
        is_label_span(path, start, end) && a == path.subrange(start, end);
    let (s2, e2) = choose|start: int, end: int|
        #![trigger is_label_span(path, start, end)]
        is_label_span(path, start, end) && b == path.subrange(start, end);
    if s1 < s2 {
        assert(path[s2 - 1] == '/');
    } else if s2 < s1 {
        assert(path[s1 - 1] == '/');
    }
    if e1 < e2 {
        assert(path[e1] == '.');
    } else if e2 < e1 {
        assert(path[e2] == '.');
    }
}

/// An identity without slash or dot is its own accession.
pub proof fn law_plain_label(path: Seq<char>)
    requires
        forall|i: int| 0 <= i < path.len() ==> path[i] != '/' && path[i] != '.',
    ensures
        is_label_of(path, path),
{
    assert(is_label_span(path, 0, path.len() as int));
    assert(path.subrange(0, path.len() as int) =~= path);
}

/// The accession of a dataset, cut out of its identity.
pub fn accession_label(path: &str) -> (label: String)
    ensures
        is_label_of(label@, path@),
{
    let n = path.unicode_len();
    let mut start: usize = 0;
    let mut end: usize = n;
    let mut dotted = false;
    let mut i: usize = 0;
    let mut rest = path.chars();
    while i < n
        invariant
            n == path@.len(),
            i <= n,
            rest.remaining() == path@.subrange(i as int, n as int),
            start <= i,
            start == 0 || path@[start - 1] == '/',
            forall|k: int| start <= k < i ==> path@[k] != '/',
            dotted ==> start <= end < i && path@[end as int] == '.',
            dotted ==> forall|k: int| start <= k < end ==> path@[k] != '.',
            !dotted ==> end == n,
            !dotted ==> forall|k: int| start <= k < i ==> path@[k] != '.',
        decreases n - i,
    {
        match rest.next() {
            Some(c) => {
                if c == '/' {
                    start = i + 1;
                    end = n;
                    dotted = false;
                } else if c == '.' && !dotted {
                    end = i;
                    dotted = true;
                }
            },
            None => {},
        }
        i = i + 1;
    }
    let label = path.substring_char(start, end).to_owned();
    proof {
        assert(is_label_span(path@, start as int, end as int));
    }
    label
}

/// A fraction of the query: `shared` of its `total` sketch elements.
#[derive(Debug, Clone, Copy, PartialEq, Eq, Structural)]
pub struct Containment {
    pub shared: usize,
    pub total: usize,
}

/// One line of a report.
#[derive(Debug, Clone, PartialEq, Eq)]
pub struct ReportLine {
    pub accession: String,
    pub containment: Containment,
}

/// What a search found: the merged records in the order of the report, and the size of
/// the query that they are measured against.
#[derive(Debug, Clone, PartialEq, Eq)]
pub struct AggregateReport {
    pub ranking: Vec<MatchRecord>,
    pub query_size: usize,
}

/// `line` is the line for `record` in a report on a query of size `query_size`.
pub open spec fn is_line_of(line: ReportLine, record: MatchRecord, query_size: usize) -> bool {
    &&& is_label_of(line.accession@, record.dataset_id@)
    &&& line.containment.shared == record.intersection_size
    &&& line.containment.total == query_size
}

impl AggregateReport {
    /// The lines of the report, one for each record of the ranking, in its order.
    pub fn lines(&self) -> (lines: Vec<ReportLine>)
        ensures
            lines@.len() == self.ranking@.len(),
            forall|i: int|
                0 <= i < lines@.len() ==> is_line_of(
                    #[trigger] lines@[i],
                    self.ranking@[i],
                    self.query_size,
                ),
    {
        let mut lines: Vec<ReportLine> = Vec::new();
        let mut i: usize = 0;
        while i < self.ranking.len()
            invariant
                i <= self.ranking@.len(),
                lines@.len() == i,
                forall|k: int|
                    0 <= k < i ==> is_line_of(
                        #[trigger] lines@[k],
                        self.ranking@[k],
                        self.query_size,
                    ),
            decreases self.ranking@.len() - i,
        {
            let record = &self.ranking[i];
            lines.push(
                ReportLine {
                    accession: accession_label(record.dataset_id.as_str()),
                    containment: Containment {
                        shared: record.intersection_size,
                        total: self.query_size,
                    },
                },
            );
            i = i + 1;
        }
        lines
    }
}

/// The first line of every report, which names its two columns.
pub open spec fn header_text() -> Seq<char> {
    "SRA accession,containment"@
}

/// The first line of every report.
pub fn header() -> (line: String)
    ensures
        line@ == header_text(),
{
    "SRA accession,containment".to_owned()
}

/// The text of one line: the accession, a comma, and the containment as it is to be
/// read.
pub open spec fn row_text_of(accession: Seq<char>, containment: Seq<char>) -> Seq<char> {
    accession + ","@ + containment
}

/// Writes one line of a report. The containment comes as text: how a fraction is
/// written as a decimal number is for the caller to say.
pub fn row_text(accession: &str, containment: &str) -> (line: String)
    ensures
        line@ == row_text_of(accession@, containment@),
{
    accession.to_owned().concat(",").concat(containment)
}

/// The lines, each but the last followed by a line feed.
pub open spec fn joined(lines: Seq<Seq<char>>) -> Seq<char>
    decreases lines.len(),
{
    if lines.len() == 0 {
        Seq::empty()
    } else if lines.len() == 1 {
        lines[0]
    } else {
        joined(lines.drop_last()) + "\n"@ + lines.last()
    }
}

/// The texts of the rows.
pub open spec fn texts_of(rows: Seq<String>) -> Seq<Seq<char>> {
    rows.map_values(|row: String| row@)
}

/// Writes a report: the header, then the rows in their order, one to a line.
pub fn table_text(rows: &Vec<String>) -> (text: String)
    ensures
        text@ == joined(seq![header_text()] + texts_of(rows@)),
{
    let mut text = header();
    let mut i: usize = 0;
    let ghost all = seq![header_text()] + texts_of(rows@);
    proof {
        assert(all.take(1) =~= seq![header_text()]);
    }
    while i < rows.len()
        invariant
            i <= rows@.len(),
            all == seq![header_text()] + texts_of(rows@),
            text@ == joined(all.take(i + 1)),
        decreases rows@.len() - i,
    {
        proof {
            assert(all.take(i + 2).drop_last() =~= all.take(i + 1));
            assert(all.take(i + 2).last() == rows@[i as int]@);
        }
        text.append("\n");
        text.append(rows[i].as_str());
        i = i + 1;
    }
    proof {
        assert(all.take(i + 1) =~= all);
    }
    text
}

} // verus!
