//! The columnar chunk buffer and the running session summary: rows
//! accumulate column-wise until a chunk is cut, while the collector
//! folds each row into count, timestamp bounds and distinct-value sets.

use crate::models::{ConvertedMessage, RowV, SessionMeta};
use vstd::prelude::*;

verus! {

/// In-memory columnar buffer holding up to one chunk of rows, one
/// vector per column of the fixed ten-column schema.
#[derive(Debug)]
pub struct ArrowBuilder {
    pub ts_ns: Vec<i64>,
    pub dir: Vec<i8>,
    pub s: Vec<u8>,
    pub f: Vec<u8>,
    pub wbit: Vec<u8>,
    pub sysbytes: Vec<u32>,
    pub ceid: Vec<u32>,
    pub vid: Vec<u32>,
    pub rptid: Vec<u32>,
    pub row_id: Vec<u32>,
}

impl ArrowBuilder {
    /// Every column holds one value per row.
    pub open spec fn wf(&self) -> bool {
        &&& self.dir@.len() == self.ts_ns@.len()
        &&& self.s@.len() == self.ts_ns@.len()
        &&& self.f@.len() == self.ts_ns@.len()
        &&& self.wbit@.len() == self.ts_ns@.len()
        &&& self.sysbytes@.len() == self.ts_ns@.len()
        &&& self.ceid@.len() == self.ts_ns@.len()
        &&& self.vid@.len() == self.ts_ns@.len()
        &&& self.rptid@.len() == self.ts_ns@.len()
        &&& self.row_id@.len() == self.ts_ns@.len()
    }

    /// The buffered rows, assembled across the columns.
    pub open spec fn rows(&self) -> Seq<RowV> {
        Seq::new(
            self.ts_ns@.len(),
            |i: int|
                RowV {
                    ts_ns: self.ts_ns@[i],
                    dir: self.dir@[i],
                    s: self.s@[i],
                    f: self.f@[i],
                    wbit: self.wbit@[i],
                    sysbytes: self.sysbytes@[i],
                    ceid: self.ceid@[i],
                    vid: self.vid@[i],
                    rptid: self.rptid@[i],
                    row_id: self.row_id@[i],
                },
        )
    }

    /// An empty buffer.
    pub fn new() -> (r: Self)
        ensures
            r.wf(),
            r.rows() == Seq::<RowV>::empty(),
    {
        let r = ArrowBuilder {
            ts_ns: Vec::new(),
            dir: Vec::new(),
            s: Vec::new(),
            f: Vec::new(),
            wbit: Vec::new(),
            sysbytes: Vec::new(),
            ceid: Vec::new(),
            vid: Vec::new(),
            rptid: Vec::new(),
            row_id: Vec::new(),
        };
        proof {
            assert(r.rows() =~= Seq::<RowV>::empty());
        }
        r
    }

    /// Appends one row's scalar columns; the body is not stored here.
    pub fn push(&mut self, msg: &ConvertedMessage)
        requires
            old(self).wf(),
        ensures
            final(self).wf(),
            final(self).rows() == old(self).rows().push(msg@.row()),
    {
        self.ts_ns.push(msg.ts_ns);
        self.dir.push(msg.dir);
        self.s.push(msg.s);
        self.f.push(msg.f);
        self.wbit.push(msg.wbit);
        self.sysbytes.push(msg.sysbytes);
        self.ceid.push(msg.ceid);
        self.vid.push(msg.vid);
        self.rptid.push(msg.rptid);
        self.row_id.push(msg.row_id);
        proof {
            assert(self.rows() =~= old(self).rows().push(msg@.row()));
        }
    }

    /// Number of buffered rows.
    pub fn len(&self) -> (r: usize)
        ensures
            r == self.rows().len(),
    {
        self.ts_ns.len()
    }

    /// Whether no rows are buffered.
    pub fn is_empty(&self) -> (r: bool)
        ensures
            r == (self.rows().len() == 0),
    {
        self.ts_ns.is_empty()
    }

    /// Empties every column.
    pub fn clear(&mut self)
        ensures
            final(self).wf(),
            final(self).rows() == Seq::<RowV>::empty(),
    {
        self.ts_ns.clear();
        self.dir.clear();
        self.s.clear();
        self.f.clear();
        self.wbit.clear();
        self.sysbytes.clear();
        self.ceid.clear();
        self.vid.clear();
        self.rptid.clear();
        self.row_id.clear();
        proof {
            assert(self.rows() =~= Seq::<RowV>::empty());
        }
    }

    /// Reads one buffered row back out.
    pub fn row_at(&self, i: usize) -> (r: ConvertedMessage)
        requires
            self.wf(),
            i < self.rows().len(),
        ensures
            r@.row() == self.rows()[i as int],
            r@.body_json == Seq::<char>::empty(),
    {
        ConvertedMessage {
            ts_ns: self.ts_ns[i],
            dir: self.dir[i],
            s: self.s[i],
            f: self.f[i],
            wbit: self.wbit[i],
            sysbytes: self.sysbytes[i],
            ceid: self.ceid[i],
            vid: self.vid[i],
            rptid: self.rptid[i],
            row_id: self.row_id[i],
            body_json: String::new(),
        }
    }
}

/// Strictly ascending byte values.
pub open spec fn sorted_unique_u8(v: Seq<u8>) -> bool {
    forall|i: int, j: int| 0 <= i < j < v.len() ==> v[i] < v[j]
}

/// Strictly ascending 32-bit values.
pub open spec fn sorted_unique_u32(v: Seq<u32>) -> bool {
    forall|i: int, j: int| 0 <= i < j < v.len() ==> v[i] < v[j]
}

/// Inserts `x` into a strictly sorted vector, keeping it sorted; a
/// value already present is left alone.
fn insert_sorted_u8(v: &mut Vec<u8>, x: u8)
    requires
        sorted_unique_u8(old(v)@),
    ensures
        sorted_unique_u8(final(v)@),
        forall|e: u8| final(v)@.contains(e) <==> old(v)@.contains(e) || e == x,
{
    let n = v.len();
    let mut i: usize = 0;
    while i < n && v[i] < x
        invariant
            0 <= i <= n == v@.len(),
            forall|k: int| 0 <= k < i ==> v@[k] < x,
        decreases n - i,
    {
        i = i + 1;
    }
    if i < n && v[i] == x {
        return ;
    }
    v.insert(i, x);
    proof {
        assert(forall|e: u8| final(v)@.contains(e) ==> old(v)@.contains(e) || e == x) by {
            assert(forall|k: int|
                0 <= k < final(v)@.len() && k != i ==> final(v)@[k] == old(v)@[
                    if k < i {
                        k
                    } else {
                        k - 1
                    }
                ]);
        }
        assert(forall|e: u8| old(v)@.contains(e) ==> final(v)@.contains(e)) by {
            assert(forall|k: int|
                0 <= k < old(v)@.len() ==> old(v)@[k] == final(v)@[
                    if k < i {
                        k
                    } else {
                        k + 1
                    }
                ]);
        }
        assert(final(v)@.contains(x)) by {
            assert(final(v)@[i as int] == x);
        }
    }
}

/// Same, for 32-bit values.
fn insert_sorted_u32(v: &mut Vec<u32>, x: u32)
    requires
        sorted_unique_u32(old(v)@),
    ensures
        sorted_unique_u32(final(v)@),
        forall|e: u32| final(v)@.contains(e) <==> old(v)@.contains(e) || e == x,
{
    let n = v.len();
    let mut i: usize = 0;
    while i < n && v[i] < x
        invariant
            0 <= i <= n == v@.len(),
            forall|k: int| 0 <= k < i ==> v@[k] < x,
        decreases n - i,
    {
        i = i + 1;
    }
    if i < n && v[i] == x {
        return ;
    }
    v.insert(i, x);
    proof {
        assert(forall|e: u32| final(v)@.contains(e) ==> old(v)@.contains(e) || e == x) by {
            assert(forall|k: int|
                0 <= k < final(v)@.len() && k != i ==> final(v)@[k] == old(v)@[
                    if k < i {
                        k
                    } else {
                        k - 1
                    }
                ]);
        }
        assert(forall|e: u32| old(v)@.contains(e) ==> final(v)@.contains(e)) by {
            assert(forall|k: int|
                0 <= k < old(v)@.len() ==> old(v)@[k] == final(v)@[
                    if k < i {
                        k
                    } else {
                        k + 1
                    }
                ]);
        }
        assert(final(v)@.contains(x)) by {
            assert(final(v)@[i as int] == x);
        }
    }
}

/// Running session summary: row count, timestamp bounds seeded with
/// the extreme sentinels, and the distinct-value sets kept strictly
/// sorted, zero-valued tags excluded.
#[derive(Debug)]
pub struct MetaCollector {
    pub row_count: usize,
    pub t_min_ns: i64,
    pub t_max_ns: i64,
    pub distinct_s: Vec<u8>,
    pub distinct_f: Vec<u8>,
    pub distinct_ceid: Vec<u32>,
    pub distinct_vid: Vec<u32>,
    pub distinct_rptid: Vec<u32>,
}

impl MetaCollector {
    /// Sorted sets, no zero among the optional tags.
    pub open spec fn wf(&self) -> bool {
        &&& sorted_unique_u8(self.distinct_s@)
        &&& sorted_unique_u8(self.distinct_f@)
        &&& sorted_unique_u32(self.distinct_ceid@)
        &&& sorted_unique_u32(self.distinct_vid@)
        &&& sorted_unique_u32(self.distinct_rptid@)
        &&& !self.distinct_ceid@.contains(0)
        &&& !self.distinct_vid@.contains(0)
        &&& !self.distinct_rptid@.contains(0)
    }

    /// An empty summary, bounds seeded with the sentinel extremes.
    pub fn new() -> (r: Self)
        ensures
            r.wf(),
            r.row_count == 0,
            r.t_min_ns == i64::MAX,
            r.t_max_ns == i64::MIN,
            r.distinct_s@.len() == 0,
            r.distinct_f@.len() == 0,
            r.distinct_ceid@.len() == 0,
            r.distinct_vid@.len() == 0,
            r.distinct_rptid@.len() == 0,
    {
        MetaCollector {
            row_count: 0,
            t_min_ns: i64::MAX,
            t_max_ns: i64::MIN,
            distinct_s: Vec::new(),
            distinct_f: Vec::new(),
            distinct_ceid: Vec::new(),
            distinct_vid: Vec::new(),
            distinct_rptid: Vec::new(),
        }
    }

    /// Folds one row in: count up, bounds widened, stream and function
    /// codes recorded unconditionally, tags only when non-zero.
    pub fn update(&mut self, msg: &ConvertedMessage)
        requires
            old(self).wf(),
            old(self).row_count < usize::MAX,
        ensures
            final(self).wf(),
            final(self).row_count == old(self).row_count + 1,
            final(self).t_min_ns == if msg.ts_ns < old(self).t_min_ns {
                msg.ts_ns
            } else {
                old(self).t_min_ns
            },
            final(self).t_max_ns == if msg.ts_ns > old(self).t_max_ns {
                msg.ts_ns
            } else {
                old(self).t_max_ns
            },
            forall|e: u8|
                final(self).distinct_s@.contains(e) <==> old(self).distinct_s@.contains(e) || e
                    == msg.s,
            forall|e: u8|
                final(self).distinct_f@.contains(e) <==> old(self).distinct_f@.contains(e) || e
                    == msg.f,
            forall|e: u32|
                final(self).distinct_ceid@.contains(e) <==> old(self).distinct_ceid@.contains(e)
                    || (e == msg.ceid && msg.ceid > 0),
            forall|e: u32|
                final(self).distinct_vid@.contains(e) <==> old(self).distinct_vid@.contains(e) || (
                e == msg.vid && msg.vid > 0),
            forall|e: u32|
                final(self).distinct_rptid@.contains(e) <==> old(self).distinct_rptid@.contains(e)
                    || (e == msg.rptid && msg.rptid > 0),
    {
        self.row_count = self.row_count + 1;
        if msg.ts_ns < self.t_min_ns {
            self.t_min_ns = msg.ts_ns;
        }
        if msg.ts_ns > self.t_max_ns {
            self.t_max_ns = msg.ts_ns;
        }
        insert_sorted_u8(&mut self.distinct_s, msg.s);
        insert_sorted_u8(&mut self.distinct_f, msg.f);
        if msg.ceid > 0 {
            insert_sorted_u32(&mut self.distinct_ceid, msg.ceid);
        }
        if msg.vid > 0 {
            insert_sorted_u32(&mut self.distinct_vid, msg.vid);
        }
        if msg.rptid > 0 {
            insert_sorted_u32(&mut self.distinct_rptid, msg.rptid);
        }
    }

    /// Closes the summary: on an empty session the timestamp bounds
    /// are reported as `0,0` rather than the accumulation sentinels.
    /// The distinct sets come out sorted ascending, and the tag sets
    /// never contain `0`, whatever rows were folded in.
    pub fn into_meta(self) -> (r: SessionMeta)
        requires
            self.wf(),
        ensures
            r.row_count == self.row_count,
            r.t_min_ns == if self.row_count > 0 {
                self.t_min_ns
            } else {
                0
            },
            r.t_max_ns == if self.row_count > 0 {
                self.t_max_ns
            } else {
                0
            },
            r.distinct_s == self.distinct_s,
            r.distinct_f == self.distinct_f,
            r.distinct_ceid == self.distinct_ceid,
            r.distinct_vid == self.distinct_vid,
            r.distinct_rptid == self.distinct_rptid,
            sorted_unique_u8(r.distinct_s@),
            sorted_unique_u8(r.distinct_f@),
            sorted_unique_u32(r.distinct_ceid@),
            sorted_unique_u32(r.distinct_vid@),
            sorted_unique_u32(r.distinct_rptid@),
            !r.distinct_ceid@.contains(0),
            !r.distinct_vid@.contains(0),
            !r.distinct_rptid@.contains(0),
    {
        SessionMeta {
            row_count: self.row_count,
            t_min_ns: if self.row_count > 0 {
                self.t_min_ns
            } else {
                0
            },
            t_max_ns: if self.row_count > 0 {
                self.t_max_ns
            } else {
                0
            },
            distinct_s: self.distinct_s,
            distinct_f: self.distinct_f,
            distinct_ceid: self.distinct_ceid,
            distinct_vid: self.distinct_vid,
            distinct_rptid: self.distinct_rptid,
        }
    }
}

} // verus!
