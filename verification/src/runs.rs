//! Data runs: the extents of a non-resident attribute, as the record
//! encodes them and as clusters on the volume.

use crate::bytes::{field, le_signed, le_value, ByteBuffer};
use crate::error::NtfsError;
use vstd::prelude::*;

verus! {

/// One extent as the record states it: a count of clusters and the
/// distance from the cluster at which the last extent before it that has
/// clusters on the volume began. The first such extent counts from cluster
/// 0. A sparse extent has no clusters on the volume.
#[derive(Clone, Copy, Debug, PartialEq, Eq, Structural)]
pub struct DataRun {
    pub cluster_count: u64,
    pub lcn_delta: i64,
    pub sparse: bool,
}

/// One extent as it lies on the volume: `clusters` clusters from cluster
/// `lcn` on, or a hole of that many clusters, for which `lcn` is 0.
#[derive(Clone, Copy, Debug, PartialEq, Eq, Structural)]
pub struct Extent {
    pub lcn: u64,
    pub clusters: u64,
    pub sparse: bool,
}

/// `rest` with `head` put in front, where there is a `rest`.
pub open spec fn glue<T>(head: Seq<T>, rest: Result<Seq<T>, NtfsError>) -> Result<
    Seq<T>,
    NtfsError,
> {
    match rest {
        Ok(tail) => Ok(head + tail),
        Err(e) => Err(e),
    }
}

/// The number of bytes in which the run whose header byte is `header`
/// states its cluster count.
pub open spec fn count_width(header: u8) -> int {
    header as int % 16
}

/// The number of bytes in which the run whose header byte is `header`
/// states its distance; none for a sparse run.
pub open spec fn delta_width(header: u8) -> int {
    header as int / 16
}

/// Whether a run with header byte at `pos` lies inside `s` with fields
/// that 64 bits can hold: a count of one to eight bytes, a distance of
/// at most eight.
pub open spec fn run_fits(s: Seq<u8>, pos: int) -> bool {
    &&& 0 <= pos < s.len()
    &&& 1 <= count_width(s[pos]) <= 8
    &&& delta_width(s[pos]) <= 8
    &&& pos + 1 + count_width(s[pos]) + delta_width(s[pos]) <= s.len()
}

/// The run whose header byte is at `pos`.
pub open spec fn run_at(s: Seq<u8>, pos: int) -> DataRun {
    let cw = count_width(s[pos]);
    let dw = delta_width(s[pos]);
    DataRun {
        cluster_count: le_value(field(s, pos + 1, cw)) as u64,
        lcn_delta: le_signed(field(s, pos + 1 + cw, dw)) as i64,
        sparse: dw == 0,
    }
}

/// The runs encoded in `s` from `pos` up to the first header byte that is
/// zero. A list that runs into the end of `s`, or holds a field wider than
/// eight bytes or a count without bytes, is malformed.
pub open spec fn decode_runs(s: Seq<u8>, pos: int) -> Result<Seq<DataRun>, NtfsError>
    decreases s.len() - pos,
{
    if pos < 0 || pos >= s.len() {
        Err(NtfsError::MalformedRecord)
    } else if s[pos] == 0 {
        Ok(Seq::empty())
    } else if !run_fits(s, pos) {
        Err(NtfsError::MalformedRecord)
    } else {
        glue(
            seq![run_at(s, pos)],
            decode_runs(s, pos + 1 + count_width(s[pos]) + delta_width(s[pos])),
        )
    }
}

/// The extents of `runs` from index `from` on, where the last extent with
/// clusters on the volume began at cluster `base`. A run that would begin
/// below cluster 0 or above what 64 bits hold is malformed.
pub open spec fn resolve_runs_from(runs: Seq<DataRun>, from: int, base: int) -> Result<
    Seq<Extent>,
    NtfsError,
>
    decreases runs.len() - from,
{
    if from < 0 || from >= runs.len() {
        Ok(Seq::empty())
    } else if runs[from].sparse {
        glue(
            seq![Extent { lcn: 0, clusters: runs[from].cluster_count, sparse: true }],
            resolve_runs_from(runs, from + 1, base),
        )
    } else {
        let lcn = base + runs[from].lcn_delta;
        if lcn < 0 || lcn > u64::MAX {
            Err(NtfsError::MalformedRecord)
        } else {
            glue(
                seq![Extent { lcn: lcn as u64, clusters: runs[from].cluster_count, sparse: false }],
                resolve_runs_from(runs, from + 1, lcn),
            )
        }
    }
}

/// The extents on the volume that `runs` stands for.
pub open spec fn resolve_runs(runs: Seq<DataRun>) -> Result<Seq<Extent>, NtfsError> {
    resolve_runs_from(runs, 0, 0)
}

/// Resolving keeps the number of runs, their cluster counts and which of
/// them are sparse.
pub proof fn lemma_resolve_shape(runs: Seq<DataRun>, from: int, base: int)
    requires
        0 <= from <= runs.len(),
        resolve_runs_from(runs, from, base) is Ok,
    ensures
        resolve_runs_from(runs, from, base).unwrap().len() == runs.len() - from,
        forall|i: int|
            0 <= i < runs.len() - from ==> {
                &&& (#[trigger] resolve_runs_from(runs, from, base).unwrap()[i]).clusters
                    == runs[from + i].cluster_count
                &&& resolve_runs_from(runs, from, base).unwrap()[i].sparse == runs[from + i].sparse
            },
    decreases runs.len() - from,
{
    if from < runs.len() {
        let next_base = if runs[from].sparse {
            base
        } else {
            base + runs[from].lcn_delta
        };
        lemma_resolve_shape(runs, from + 1, next_base);
        let rest = resolve_runs_from(runs, from + 1, next_base).unwrap();
        let all = resolve_runs_from(runs, from, base).unwrap();
        assert forall|i: int| 0 <= i < runs.len() - from implies {
            &&& (#[trigger] all[i]).clusters == runs[from + i].cluster_count
            &&& all[i].sparse == runs[from + i].sparse
        } by {
            if i > 0 {
                assert(all[i] == rest[i - 1]);
            }
        }
    }
}

/// Decodes the run list that begins at `offset` in `bytes`, the bytes of
/// one attribute.
pub fn decode_run_list(bytes: &ByteBuffer, offset: usize) -> (r: Result<Vec<DataRun>, NtfsError>)
    ensures
        match r {
            Ok(runs) => decode_runs(bytes@, offset as int) == Ok::<Seq<DataRun>, NtfsError>(
                runs@,
            ),
            Err(e) => decode_runs(bytes@, offset as int) == Err::<Seq<DataRun>, NtfsError>(e),
        },
{
    let mut runs: Vec<DataRun> = Vec::new();
    let mut pos: usize = offset;
    let n: usize = bytes.len();
    loop
        invariant
            n == bytes@.len(),
            offset <= pos,
            decode_runs(bytes@, offset as int) == glue(runs@, decode_runs(bytes@, pos as int)),
        decreases n - pos,
    {
        if pos >= n {
            return Err(NtfsError::MalformedRecord);
        }
        let header: u8 = bytes.as_slice()[pos];
        if header == 0 {
            assert(runs@ + Seq::<DataRun>::empty() =~= runs@);
            return Ok(runs);
        }
        let cw: usize = (header % 16) as usize;
        let dw: usize = (header / 16) as usize;
        if cw == 0 || cw > 8 || dw > 8 || cw + dw > n - pos - 1 {
            return Err(NtfsError::MalformedRecord);
        }
        let cluster_count: u64 = match bytes.read_le(pos + 1, cw) {
            Some(v) => v,
            None => { return Err(NtfsError::MalformedRecord); },
        };
        let lcn_delta: i64 = match bytes.read_le_signed(pos + 1 + cw, dw) {
            Some(v) => v,
            None => { return Err(NtfsError::MalformedRecord); },
        };
        let run = DataRun { cluster_count, lcn_delta, sparse: dw == 0 };
        assert(run == run_at(bytes@, pos as int));
        proof {
            let next = decode_runs(bytes@, pos + 1 + cw + dw);
            if next is Ok {
                assert(runs@ + (seq![run] + next.unwrap()) =~= runs@.push(run) + next.unwrap());
            }
        }
        runs.push(run);
        pos = pos + 1 + cw + dw;
    }
}

/// Turns `runs` into extents on the volume, adding up the distances.
pub fn resolve_run_list(runs: &Vec<DataRun>) -> (r: Result<Vec<Extent>, NtfsError>)
    ensures
        match r {
            Ok(extents) => resolve_runs(runs@) == Ok::<Seq<Extent>, NtfsError>(extents@),
            Err(e) => resolve_runs(runs@) == Err::<Seq<Extent>, NtfsError>(e),
        },
{
    let mut extents: Vec<Extent> = Vec::new();
    let mut base: u64 = 0;
    let mut i: usize = 0;
    while i < runs.len()
        invariant
            i <= runs.len(),
            resolve_runs(runs@) == glue(extents@, resolve_runs_from(runs@, i as int, base as int)),
        decreases runs.len() - i,
    {
        let run = runs[i];
        let extent = if run.sparse {
            Extent { lcn: 0, clusters: run.cluster_count, sparse: true }
        } else {
            let lcn: u64 = if run.lcn_delta >= 0 {
                match base.checked_add(run.lcn_delta as u64) {
                    Some(v) => v,
                    None => { return Err(NtfsError::MalformedRecord); },
                }
            } else {
                let back: u64 = if run.lcn_delta == i64::MIN {
                    0x8000_0000_0000_0000u64
                } else {
                    (-run.lcn_delta) as u64
                };
                if back > base {
                    return Err(NtfsError::MalformedRecord);
                }
                base - back
            };
            base = lcn;
            Extent { lcn, clusters: run.cluster_count, sparse: false }
        };
        proof {
            let next = resolve_runs_from(runs@, i + 1, base as int);
            if next is Ok {
                assert(extents@ + (seq![extent] + next.unwrap()) =~= extents@.push(extent)
                    + next.unwrap());
            }
        }
        extents.push(extent);
        i = i + 1;
    }
    assert(extents@ + Seq::<Extent>::empty() =~= extents@);
    Ok(extents)
}

} // verus!
