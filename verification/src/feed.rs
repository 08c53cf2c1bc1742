//! The order in which an MGRS-to-coordinate run over CSV records processes
//! them, and the column it reads the MGRS values from.
//!
//! Where the column is given, every record is processed as it comes. Where it is
//! to be detected, the first records (up to 100) are held back, the column is
//! detected among them, and then they are processed, followed by the rest.
use vstd::prelude::*;
use crate::detect::{column_score, detect_mgrs_column, is_detected_column, sample_len, score};
use crate::stream::{is_first_index, resolve_mgrs_column, ColumnSpec, StreamError};

verus! {

/// The column detected among `rs`, where there is one.
pub open spec fn detected(rs: Seq<Seq<Seq<char>>>) -> Option<int> {
    if exists|c: int| is_detected_column(rs, c) {
        Some(choose|c: int| is_detected_column(rs, c))
    } else {
        None
    }
}

/// At most one column is the detected one.
proof fn lemma_detected_unique(rs: Seq<Seq<Seq<char>>>, a: int, b: int)
    requires
        is_detected_column(rs, a),
        is_detected_column(rs, b),
    ensures
        a == b,
{
}

/// `detected(rs)` is the column `c` exactly when `c` is detected among `rs`.
proof fn lemma_detected_is(rs: Seq<Seq<Seq<char>>>, c: int)
    requires
        is_detected_column(rs, c),
    ensures
        detected(rs) == Some(c),
{
    let d = choose|x: int| is_detected_column(rs, x);
    lemma_detected_unique(rs, c, d);
}

/// Scores over the first `n` records do not look past them.
proof fn lemma_column_score_prefix(rs: Seq<Seq<Seq<char>>>, k: int, col: int, n: int)
    requires
        0 <= n <= k <= rs.len(),
    ensures
        column_score(rs.take(k), col, n) == column_score(rs, col, n),
    decreases n,
{
    if n > 0 {
        lemma_column_score_prefix(rs, k, col, n - 1);
        assert(rs.take(k)[n - 1] == rs[n - 1]);
    }
}

/// Detection looks at the first 100 records only.
proof fn lemma_detected_first_hundred(rs: Seq<Seq<Seq<char>>>)
    requires
        rs.len() >= 100,
    ensures
        detected(rs.take(100)) == detected(rs),
{
    let t = rs.take(100);
    assert(sample_len(t) == 100 && sample_len(rs) == 100);
    assert(t[0] == rs[0]);
    assert forall|j: int| score(t, j) == score(rs, j) by {
        lemma_column_score_prefix(rs, 100, j, 100);
    }
    if exists|c: int| is_detected_column(rs, c) {
        let c = choose|c: int| is_detected_column(rs, c);
        assert(is_detected_column(t, c));
        lemma_detected_is(t, c);
        lemma_detected_is(rs, c);
    } else if exists|c: int| is_detected_column(t, c) {
        let c = choose|c: int| is_detected_column(t, c);
        assert(is_detected_column(rs, c));
    }
}

/// Where a feed stands: the column chosen (if any yet), and the records held back.
pub type FeedState = (Option<int>, Seq<Seq<Seq<char>>>);

/// One record coming in: the new state, and the records to process now.
pub open spec fn offer_step(s: FeedState, rec: Seq<Seq<char>>) -> Result<
    (FeedState, Seq<Seq<Seq<char>>>),
    StreamError,
> {
    match s.0 {
        Some(c) => Ok(((Some(c), s.1), seq![rec])),
        None => {
            let h = s.1.push(rec);
            if h.len() < 100 {
                Ok(((None, h), seq![]))
            } else {
                match detected(h) {
                    Some(c) => Ok(((Some(c), seq![]), h)),
                    None => Err(StreamError::NoMgrsColumn),
                }
            }
        },
    }
}

/// The end of the input: the column, and the records still to process.
pub open spec fn finish_step(s: FeedState) -> Result<(int, Seq<Seq<Seq<char>>>), StreamError> {
    match s.0 {
        Some(c) => Ok((c, seq![])),
        None => match detected(s.1) {
            Some(c) => Ok((c, s.1)),
            None => Err(StreamError::NoMgrsColumn),
        },
    }
}

/// The records `rs` coming in one after another from state `s`: the state they
/// leave, and the records processed on the way, in order.
pub open spec fn run_records(s: FeedState, rs: Seq<Seq<Seq<char>>>) -> Result<
    (FeedState, Seq<Seq<Seq<char>>>),
    StreamError,
>
    decreases rs.len(),
{
    if rs.len() == 0 {
        Ok((s, seq![]))
    } else {
        match run_records(s, rs.drop_last()) {
            Ok((s1, out)) => match offer_step(s1, rs.last()) {
                Ok((s2, b)) => Ok((s2, out + b)),
                Err(e) => Err(e),
            },
            Err(e) => Err(e),
        }
    }
}

/// A whole run over the records `rs` from state `s`: the column the records are
/// processed with, and every record processed, in order.
pub open spec fn feed_outcome(s: FeedState, rs: Seq<Seq<Seq<char>>>) -> Result<
    (int, Seq<Seq<Seq<char>>>),
    StreamError,
> {
    match run_records(s, rs) {
        Ok((s1, out)) => match finish_step(s1) {
            Ok((c, b)) => Ok((c, out + b)),
            Err(e) => Err(e),
        },
        Err(e) => Err(e),
    }
}

/// From a given column, every record is processed as it comes.
proof fn lemma_run_given(c: int, rs: Seq<Seq<Seq<char>>>)
    ensures
        run_records((Some(c), seq![]), rs) == Ok::<(FeedState, Seq<Seq<Seq<char>>>), StreamError>(
            ((Some(c), seq![]), rs),
        ),
    decreases rs.len(),
{
    if rs.len() > 0 {
        lemma_run_given(c, rs.drop_last());
        assert(rs.drop_last() + seq![rs.last()] =~= rs);
    } else {
        assert(rs =~= Seq::<Seq<Seq<char>>>::empty());
    }
}

/// While the column is detected, records are held back; after, all records so
/// far are processed.
proof fn lemma_run_detecting(rs: Seq<Seq<Seq<char>>>)
    ensures
        run_records((None, seq![]), rs) == if rs.len() < 100 {
            Ok::<(FeedState, Seq<Seq<Seq<char>>>), StreamError>(((None, rs), seq![]))
        } else {
            match detected(rs.take(100)) {
                Some(c) => Ok(((Some(c), seq![]), rs)),
                None => Err(StreamError::NoMgrsColumn),
            }
        },
    decreases rs.len(),
{
    if rs.len() > 0 {
        let p = rs.drop_last();
        let x = rs.last();
        lemma_run_detecting(p);
        assert(p.push(x) =~= rs);
        if p.len() < 99 {
            assert(Seq::<Seq<Seq<char>>>::empty() + Seq::<Seq<Seq<char>>>::empty()
                =~= Seq::<Seq<Seq<char>>>::empty());
        } else if p.len() == 99 {
            assert(rs.take(100) =~= rs);
            assert(Seq::<Seq<Seq<char>>>::empty() + rs =~= rs);
        } else {
            assert(p.take(100) =~= rs.take(100));
            assert(p + seq![x] =~= rs);
        }
    } else {
        assert(rs =~= Seq::<Seq<Seq<char>>>::empty());
    }
}

/// Detecting the MGRS column runs as naming the detected column does: where
/// detection among the records picks column `c`, a run that detects it and a run
/// given `c` both process every record, in order, with column `c`.
pub proof fn lemma_detected_column_as_given(rs: Seq<Seq<Seq<char>>>, c: int)
    requires
        detected(rs) == Some(c),
    ensures
        feed_outcome((None, seq![]), rs) == Ok::<(int, Seq<Seq<Seq<char>>>), StreamError>((c, rs)),
        feed_outcome((Some(c), seq![]), rs) == Ok::<(int, Seq<Seq<Seq<char>>>), StreamError>(
            (c, rs),
        ),
{
    lemma_run_given(c, rs);
    assert(rs + Seq::<Seq<Seq<char>>>::empty() =~= rs);
    lemma_run_detecting(rs);
    if rs.len() < 100 {
        assert(Seq::<Seq<Seq<char>>>::empty() + rs =~= rs);
    } else {
        lemma_detected_first_hundred(rs);
    }
}

/// `o` as an integer option.
pub open spec fn column_view(o: Option<usize>) -> Option<int> {
    match o {
        Some(c) => Some(c as int),
        None => None,
    }
}

/// The detected column among `sample`, where there is one.
fn detect_sample(sample: &Vec<Vec<String>>) -> (r: Option<usize>)
    ensures
        column_view(r) == detected(sample.deep_view()),
{
    let r = detect_mgrs_column(sample);
    proof {
        match r {
            Some(c) => lemma_detected_is(sample.deep_view(), c as int),
            None => {
                if exists|c: int| is_detected_column(sample.deep_view(), c) {
                    let c = choose|c: int| is_detected_column(sample.deep_view(), c);
                    assert(score(sample.deep_view(), c) > 0);
                }
            },
        }
    }
    r
}

/// The records of an MGRS-to-coordinate run, handed out in the order they are
/// to be processed, and the column to read.
pub struct ColumnFeed {
    column: Option<usize>,
    held: Vec<Vec<String>>,
}

impl View for ColumnFeed {
    type V = FeedState;

    closed spec fn view(&self) -> FeedState {
        (column_view(self.column), self.held.deep_view())
    }
}

impl ColumnFeed {
    /// A feed for the configured column: given by name (found among `headers`)
    /// or by index, or, without one, to be detected.
    pub fn new(headers: &Vec<String>, column: &Option<ColumnSpec>) -> (r: Result<Self, StreamError>)
        ensures
            match column {
                Some(ColumnSpec::Name(name)) => match r {
                    Ok(f) => f@.1 == Seq::<Seq<Seq<char>>>::empty() && (f@.0 matches Some(i)
                        && is_first_index(headers.deep_view(), name@, i)),
                    Err(e) => (e matches StreamError::ColumnNotFound(n) && n@ == name@) && forall|
                        j: int,
                    | 0 <= j < headers@.len() ==> headers.deep_view()[j] != name@,
                },
                Some(ColumnSpec::Index(idx)) => r matches Ok(f) && f@ == (
                    Some(idx as int),
                    Seq::<Seq<Seq<char>>>::empty(),
                ),
                None => r matches Ok(f) && f@ == (None::<int>, Seq::<Seq<Seq<char>>>::empty()),
            },
    {
        let held: Vec<Vec<String>> = Vec::new();
        assert(held.deep_view() =~= Seq::<Seq<Seq<char>>>::empty());
        match resolve_mgrs_column(headers, column) {
            Ok(c) => Ok(ColumnFeed { column: c, held }),
            Err(e) => Err(e),
        }
    }

    /// The column chosen so far.
    pub fn column(&self) -> (r: Option<usize>)
        ensures
            column_view(r) == self@.0,
    {
        self.column
    }

    /// Takes the next record; gives the records to process now, with `column()`.
    pub fn offer(&mut self, record: Vec<String>) -> (r: Result<Vec<Vec<String>>, StreamError>)
        ensures
            match offer_step(old(self)@, record.deep_view()) {
                Ok((s, b)) => r matches Ok(v) && v.deep_view() == b && final(self)@ == s,
                Err(e) => r matches Err(x) && x == e,
            },
    {
        match self.column {
            Some(c) => {
                let ghost rv = record.deep_view();
                let out = vec![record];
                assert(out.deep_view() =~= seq![rv]);
                Ok(out)
            },
            None => {
                let ghost h0 = self.held.deep_view();
                let ghost rv = record.deep_view();
                self.held.push(record);
                assert(self.held.deep_view() =~= h0.push(rv));
                if self.held.len() < 100 {
                    let out: Vec<Vec<String>> = Vec::new();
                    assert(out.deep_view() =~= Seq::<Seq<Seq<char>>>::empty());
                    Ok(out)
                } else {
                    match detect_sample(&self.held) {
                        Some(c) => {
                            let mut out: Vec<Vec<String>> = Vec::new();
                            std::mem::swap(&mut out, &mut self.held);
                            assert(self.held.deep_view() =~= Seq::<Seq<Seq<char>>>::empty());
                            self.column = Some(c);
                            Ok(out)
                        },
                        None => Err(StreamError::NoMgrsColumn),
                    }
                }
            },
        }
    }

    /// The end of the input: the column, and the records still to process with it.
    pub fn finish(&mut self) -> (r: Result<(usize, Vec<Vec<String>>), StreamError>)
        ensures
            match finish_step(old(self)@) {
                Ok((c, b)) => r matches Ok((c2, v)) && c2 == c && v.deep_view() == b,
                Err(e) => r matches Err(x) && x == e,
            },
    {
        match self.column {
            Some(c) => {
                let out: Vec<Vec<String>> = Vec::new();
                assert(out.deep_view() =~= Seq::<Seq<Seq<char>>>::empty());
                Ok((c, out))
            },
            None => match detect_sample(&self.held) {
                Some(c) => {
                    let mut out: Vec<Vec<String>> = Vec::new();
                    std::mem::swap(&mut out, &mut self.held);
                    self.column = Some(c);
                    Ok((c, out))
                },
                None => Err(StreamError::NoMgrsColumn),
            },
        }
    }
}

} // verus!
