//! Assembly of whole input files from their lines.
//!
//! The front end reads a file and hands its lines over; these readers walk
//! them with one-based line numbers, skip what carries no record, stop at
//! the first bad record with that line's error, and otherwise collect every
//! record in file order. `spec_meta_file` and `spec_window_file` define that
//! outcome line by line, and the readers are proved to produce exactly it.

use vstd::prelude::*;

use crate::errors::WhamError;
use crate::parse::{
    parse_metadata_line, parse_window_line, spec_meta_cols_ok, spec_meta_fc_ok,
    spec_meta_pos_ok, spec_meta_skip, spec_tokens, spec_window_cols_ok, spec_window_skip,
    spec_window_vals_ok, MetaLine, WindowLine,
};

verus! {

/// One window's metadata record: the time-series path and the per-dimension
/// bias positions and force constants, still as their column text.
#[derive(Debug)]
pub struct MetaRecord {
    pub path: String,
    pub bias_pos: Vec<String>,
    pub bias_fc: Vec<String>,
}

/// The mathematical content of a metadata record: path, positions, force
/// constants.
pub type MetaRecordView = (Seq<char>, Seq<Seq<char>>, Seq<Seq<char>>);

impl View for MetaRecord {
    type V = MetaRecordView;

    open spec fn view(&self) -> MetaRecordView {
        (self.path@, self.bias_pos.deep_view(), self.bias_fc.deep_view())
    }
}

/// The record carried by one valid metadata line.
pub open spec fn spec_meta_record(s: Seq<char>, dimens: nat) -> MetaRecordView {
    let toks = spec_tokens(s);
    (
        toks[0],
        toks.subrange(1, 1 + dimens as int),
        toks.subrange(1 + dimens as int, 1 + 2 * dimens as int),
    )
}

/// The outcome of reading a metadata file whose remaining lines are
/// `lines`, the first of them numbered `first_line`: all records in order,
/// or the error of the first bad line.
pub open spec fn spec_meta_file(lines: Seq<Seq<char>>, dimens: nat, first_line: nat) -> Result<
    Seq<MetaRecordView>,
    WhamError,
>
    decreases lines.len(),
{
    if lines.len() == 0 {
        Ok(Seq::empty())
    } else {
        let s = lines[0];
        if spec_meta_skip(s) {
            spec_meta_file(lines.drop_first(), dimens, first_line + 1)
        } else if !spec_meta_cols_ok(s, dimens) {
            Err(WhamError::MetaColumns { line: first_line as usize })
        } else if !spec_meta_pos_ok(s, dimens) {
            Err(WhamError::MetaBiasPos { line: first_line as usize })
        } else if !spec_meta_fc_ok(s, dimens) {
            Err(WhamError::MetaBiasFc { line: first_line as usize })
        } else {
            match spec_meta_file(lines.drop_first(), dimens, first_line + 1) {
                Ok(rs) => Ok(seq![spec_meta_record(s, dimens)] + rs),
                Err(e) => Err(e),
            }
        }
    }
}

/// The records of a sequence of `MetaRecord`s.
pub open spec fn spec_meta_records_view(rs: Seq<MetaRecord>) -> Seq<MetaRecordView> {
    Seq::new(rs.len(), |i: int| rs[i]@)
}

/// Reads a whole metadata file, given as its lines: every record in file
/// order, or the error of the first bad line, with one-based line numbers.
#[verifier::loop_isolation(false)]
pub fn read_metadata(lines: &Vec<String>, dimens: usize) -> (r: Result<Vec<MetaRecord>, WhamError>)
    requires
        1 + 2 * dimens <= usize::MAX,
    ensures
        ({
            let outcome = spec_meta_file(lines.deep_view(), dimens as nat, 1);
            &&& (r matches Ok(records) ==> outcome == Ok::<Seq<MetaRecordView>, WhamError>(
                spec_meta_records_view(records@),
            ))
            &&& (r matches Err(e) ==> outcome == Err::<Seq<MetaRecordView>, WhamError>(e))
        }),
{
    let ghost dv = lines.deep_view();
    let n = lines.len();
    let mut records: Vec<MetaRecord> = Vec::new();
    let mut i: usize = 0;
    proof {
        assert(dv.skip(0) =~= dv);
        let outcome = spec_meta_file(dv, dimens as nat, 1);
        if outcome is Ok {
            assert(spec_meta_records_view(records@) + outcome->Ok_0 =~= outcome->Ok_0);
        }
    }
    while i < n
        invariant
            i <= n,
            spec_meta_file(dv, dimens as nat, 1) == (match spec_meta_file(
                dv.skip(i as int),
                dimens as nat,
                (i + 1) as nat,
            ) {
                Ok(rs) => Ok::<Seq<MetaRecordView>, WhamError>(
                    spec_meta_records_view(records@) + rs,
                ),
                Err(e) => Err::<Seq<MetaRecordView>, WhamError>(e),
            }),
        decreases n - i,
    {
        proof {
            assert(dv.skip(i as int)[0] == dv[i as int]);
            assert(dv.skip(i as int).drop_first() =~= dv.skip(i as int + 1));
            assert(dv[i as int] == lines@[i as int]@);
        }
        let ghost inner = spec_meta_file(dv.skip(i as int), dimens as nat, (i + 1) as nat);
        let ghost inner_next = spec_meta_file(
            dv.skip(i as int + 1),
            dimens as nat,
            (i + 2) as nat,
        );
        match parse_metadata_line(lines[i].as_str(), dimens, i + 1) {
            Err(e) => {
                proof {
                    assert(inner == Err::<Seq<MetaRecordView>, WhamError>(e));
                }
                return Err(e);
            },
            Ok(MetaLine::Skip) => {
                proof {
                    assert(inner == inner_next);
                }
            },
            Ok(MetaLine::Record { path, bias_pos, bias_fc }) => {
                let ghost pre = records@;
                let rec = MetaRecord { path, bias_pos, bias_fc };
                proof {
                    assert(rec@ == spec_meta_record(dv[i as int], dimens as nat));
                    assert(inner == (match inner_next {
                        Ok(rs) => Ok::<Seq<MetaRecordView>, WhamError>(
                            seq![spec_meta_record(dv[i as int], dimens as nat)] + rs,
                        ),
                        Err(e) => Err::<Seq<MetaRecordView>, WhamError>(e),
                    }));
                }
                records.push(rec);
                proof {
                    assert(spec_meta_records_view(records@) =~= spec_meta_records_view(pre)
                        + seq![spec_meta_record(dv[i as int], dimens as nat)]);
                    if inner_next is Ok {
                        let rs = inner_next->Ok_0;
                        assert(spec_meta_records_view(pre) + (seq![
                            spec_meta_record(dv[i as int], dimens as nat),
                        ] + rs) =~= spec_meta_records_view(records@) + rs);
                    }
                }
            },
        }
        i = i + 1;
    }
    proof {
        assert(dv.skip(n as int) =~= Seq::<Seq<char>>::empty());
        assert(spec_meta_records_view(records@) + Seq::<MetaRecordView>::empty()
            =~= spec_meta_records_view(records@));
    }
    Ok(records)
}

/// What went wrong in a window file, without the file's name (the caller
/// knows which file it handed over).
pub enum WindowIssue {
    /// Too few columns on this one-based line.
    Columns { line: nat },
    /// A non-numeric column on this one-based line.
    Value { line: nat },
}

/// The outcome of reading a window file whose remaining lines are `lines`,
/// the first of them numbered `first_line`: per sample line its first
/// `1 + dimens` columns, in file order, or the issue of the first bad line.
pub open spec fn spec_window_file(lines: Seq<Seq<char>>, dimens: nat, first_line: nat) -> Result<
    Seq<Seq<Seq<char>>>,
    WindowIssue,
>
    decreases lines.len(),
{
    if lines.len() == 0 {
        Ok(Seq::empty())
    } else {
        let s = lines[0];
        if spec_window_skip(s) {
            spec_window_file(lines.drop_first(), dimens, first_line + 1)
        } else if !spec_window_cols_ok(s, dimens) {
            Err(WindowIssue::Columns { line: first_line })
        } else if !spec_window_vals_ok(s, dimens) {
            Err(WindowIssue::Value { line: first_line })
        } else {
            match spec_window_file(lines.drop_first(), dimens, first_line + 1) {
                Ok(rows) => Ok(seq![spec_tokens(s).subrange(0, 1 + dimens as int)] + rows),
                Err(e) => Err(e),
            }
        }
    }
}

/// Reads a whole window file, given as its lines: per sample line its time
/// and coordinate columns, in file order, or the error of the first bad
/// line, carrying that line's one-based number and the file's name.
#[verifier::loop_isolation(false)]
pub fn read_window_records(lines: &Vec<String>, dimens: usize, file: &str) -> (r: Result<
    Vec<Vec<String>>,
    WhamError,
>)
    requires
        1 + dimens <= usize::MAX,
    ensures
        ({
            let outcome = spec_window_file(lines.deep_view(), dimens as nat, 1);
            &&& (r matches Ok(rows) ==> outcome == Ok::<Seq<Seq<Seq<char>>>, WindowIssue>(
                rows.deep_view(),
            ))
            &&& (r is Err ==> outcome is Err)
            &&& (outcome matches Err(WindowIssue::Columns { line }) ==> (r matches Err(
                WhamError::WindowColumns { line: le, file: f },
            ) && le == line && f@ == file@))
            &&& (outcome matches Err(WindowIssue::Value { line }) ==> (r matches Err(
                WhamError::WindowValue { line: le, file: f },
            ) && le == line && f@ == file@))
        }),
{
    let ghost dv = lines.deep_view();
    let n = lines.len();
    let mut rows: Vec<Vec<String>> = Vec::new();
    let mut i: usize = 0;
    proof {
        assert(dv.skip(0) =~= dv);
        let outcome = spec_window_file(dv, dimens as nat, 1);
        if outcome is Ok {
            assert(rows.deep_view() + outcome->Ok_0 =~= outcome->Ok_0);
        }
    }
    while i < n
        invariant
            i <= n,
            spec_window_file(dv, dimens as nat, 1) == (match spec_window_file(
                dv.skip(i as int),
                dimens as nat,
                (i + 1) as nat,
            ) {
                Ok(rs) => Ok::<Seq<Seq<Seq<char>>>, WindowIssue>(rows.deep_view() + rs),
                Err(e) => Err::<Seq<Seq<Seq<char>>>, WindowIssue>(e),
            }),
        decreases n - i,
    {
        proof {
            assert(dv.skip(i as int)[0] == dv[i as int]);
            assert(dv.skip(i as int).drop_first() =~= dv.skip(i as int + 1));
            assert(dv[i as int] == lines@[i as int]@);
        }
        let ghost inner = spec_window_file(dv.skip(i as int), dimens as nat, (i + 1) as nat);
        let ghost inner_next = spec_window_file(
            dv.skip(i as int + 1),
            dimens as nat,
            (i + 2) as nat,
        );
        match parse_window_line(lines[i].as_str(), dimens, i + 1, file) {
            Err(e) => {
                proof {
                    assert(inner is Err);
                    assert(spec_window_file(dv, dimens as nat, 1) == Err::<
                        Seq<Seq<Seq<char>>>,
                        WindowIssue,
                    >(inner->Err_0));
                }
                return Err(e);
            },
            Ok(WindowLine::Skip) => {
                proof {
                    assert(inner == inner_next);
                }
            },
            Ok(WindowLine::Values(values)) => {
                let ghost pre = rows.deep_view();
                let ghost row = spec_tokens(dv[i as int]).subrange(0, 1 + dimens as int);
                proof {
                    assert(values.deep_view() =~= row);
                    assert(inner == (match inner_next {
                        Ok(rs) => Ok::<Seq<Seq<Seq<char>>>, WindowIssue>(seq![row] + rs),
                        Err(e) => Err::<Seq<Seq<Seq<char>>>, WindowIssue>(e),
                    }));
                }
                rows.push(values);
                proof {
                    assert(rows.deep_view() =~~= pre.push(row));
                    assert(pre.push(row) =~= pre + seq![row]);
                    if inner_next is Ok {
                        let rs = inner_next->Ok_0;
                        assert(pre + (seq![row] + rs) =~= rows.deep_view() + rs);
                    }
                }
            },
        }
        i = i + 1;
    }
    proof {
        assert(dv.skip(n as int) =~= Seq::<Seq<char>>::empty());
        assert(rows.deep_view() + Seq::<Seq<Seq<char>>>::empty() =~= rows.deep_view());
    }
    Ok(rows)
}

} // verus!
