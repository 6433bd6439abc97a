//! Mix planning: a track sequence becomes an ordered list of slices and
//! cross-fades, and a run of that list renders only what is missing.
use vstd::prelude::*;
use crate::cross_fade::{cross_fade_id, planned_cross_fade, CrossFadeCommand};
use crate::error::MixError;
use crate::ffmpeg::{join, join_strings, texts};
use crate::records::Catalog;
use crate::slice::{planned_slice, slice_id, SliceCommand};
use crate::text::{digits, int_text, lemma_int_text_prefix};

verus! {

/// One row of a mix: a track played from hot cue `begin_hotcue` to hot cue
/// `end_hotcue`, with an optional starting tempo `bpm` (required on the
/// first row), an optional tempo `to_bpm` to ramp to over the row, and the
/// length in beats of the cross-fade into the next row (zero: a hard cut).
/// Tempi are in thousandths of a beat per minute.
#[derive(Debug)]
pub struct MixTrack {
    pub position: u64,
    pub id: i32,
    pub title: String,
    pub begin_hotcue: u8,
    pub begin_offset: i32,
    pub end_hotcue: u8,
    pub bpm: Option<u32>,
    pub to_bpm: Option<u32>,
    pub crossfade: u32,
}

impl MixTrack {
    pub fn new(
        position: u64,
        id: i32,
        title: String,
        begin_hotcue: u8,
        begin_offset: i32,
        end_hotcue: u8,
        bpm: Option<u32>,
        to_bpm: Option<u32>,
        crossfade: u32,
    ) -> (r: Self)
        ensures
            r == (MixTrack {
                position,
                id,
                title,
                begin_hotcue,
                begin_offset,
                end_hotcue,
                bpm,
                to_bpm,
                crossfade,
            }),
    {
        MixTrack {
            position,
            id,
            title,
            begin_hotcue,
            begin_offset,
            end_hotcue,
            bpm,
            to_bpm,
            crossfade,
        }
    }
}

/// One operation of a mix plan.
#[derive(Debug)]
pub enum MixOp {
    Slice(SliceCommand),
    CrossFade(CrossFadeCommand),
}

/// An ordered mix plan.
#[derive(Debug)]
pub struct MixList {
    pub ops: Vec<MixOp>,
}

/// The operations of pair `i` (tracks `i` and `i + 1`) when the mix runs at
/// `current` before it, and the tempo after it: a slice of track `i` (from
/// its entry cue, past the previous cross-fade, to its exit cue), then,
/// unless the pair is a hard cut, a cross-fade into track `i + 1`, and after
/// the last pair's cross-fade a slice of the rest of the last track (from
/// its entry cue, past that cross-fade, to its exit cue).
pub open spec fn pair_ops(catalog: Catalog, tracks: Seq<MixTrack>, i: int, current: u32) -> Result<
    (Seq<MixOp>, u32),
    MixError,
> {
    let a = tracks[i];
    let b = tracks[i + 1];
    let off: int = if i == 0 {
        0
    } else {
        tracks[i - 1].crossfade as int
    };
    if off > i32::MAX {
        Err(MixError::InvalidParameter)
    } else {
        match planned_slice(
            catalog,
            a.id,
            a.begin_hotcue,
            off as i32,
            a.end_hotcue,
            0,
            current,
            a.to_bpm,
        ) {
            Err(e) => Err(e),
            Ok(s) => {
                let next = match a.to_bpm {
                    Some(t) => t,
                    None => current,
                };
                if a.crossfade == 0 {
                    Ok((seq![MixOp::Slice(s)], next))
                } else {
                    match planned_cross_fade(
                        catalog,
                        a.id,
                        a.end_hotcue,
                        b.id,
                        b.begin_hotcue,
                        a.crossfade,
                        next,
                    ) {
                        Err(e) => Err(e),
                        Ok(c) => if i == tracks.len() - 2 {
                            if a.crossfade > i32::MAX {
                                Err(MixError::InvalidParameter)
                            } else {
                                match planned_slice(
                                    catalog,
                                    b.id,
                                    b.begin_hotcue,
                                    a.crossfade as i32,
                                    b.end_hotcue,
                                    0,
                                    next,
                                    None,
                                ) {
                                    Err(e) => Err(e),
                                    Ok(t) => Ok(
                                        (
                                            seq![MixOp::Slice(s), MixOp::CrossFade(c), MixOp::Slice(t)],
                                            next,
                                        ),
                                    ),
                                }
                            }
                        } else {
                            Ok((seq![MixOp::Slice(s), MixOp::CrossFade(c)], next))
                        },
                    }
                }
            },
        }
    }
}

/// The operations of the first `n` pairs, and the tempo after them, or the
/// first failure.
pub open spec fn plan_prefix(catalog: Catalog, tracks: Seq<MixTrack>, n: int, first_bpm: u32) -> Result<
    (Seq<MixOp>, u32),
    MixError,
>
    decreases n,
{
    if n <= 0 {
        Ok((Seq::empty(), first_bpm))
    } else {
        match plan_prefix(catalog, tracks, n - 1, first_bpm) {
            Err(e) => Err(e),
            Ok((ops, current)) => match pair_ops(catalog, tracks, n - 1, current) {
                Err(e) => Err(e),
                Ok((more, next)) => Ok((ops + more, next)),
            },
        }
    }
}

/// The plan of a track sequence: the operations of all adjacent pairs,
/// starting at the first row's tempo, which must be given.
pub open spec fn plan(catalog: Catalog, tracks: Seq<MixTrack>) -> Result<Seq<MixOp>, MixError> {
    match tracks[0].bpm {
        None => Err(MixError::InvalidParameter),
        Some(b) => match plan_prefix(catalog, tracks, tracks.len() - 1, b) {
            Err(e) => Err(e),
            Ok((ops, _)) => Ok(ops),
        },
    }
}

/// The file an operation renders into.
pub open spec fn op_file(op: MixOp) -> Seq<char> {
    match op {
        MixOp::Slice(s) => slice_id(s.a.id, s.from.0.hotcue, s.to.0.hotcue) + ".mp3"@,
        MixOp::CrossFade(c) => cross_fade_id(c.a.id, c.a_cue.hotcue, c.b.id, c.b_cue.hotcue)
            + ".mp3"@,
    }
}

/// The files of a plan, in plan order.
pub open spec fn op_files(ops: Seq<MixOp>) -> Seq<Seq<char>> {
    ops.map_values(|op: MixOp| op_file(op))
}

/// Operation `i` must be rendered: its file was not there before the run
/// and no earlier operation renders into the same file.
pub open spec fn needs_render(files: Seq<Seq<char>>, present: Seq<bool>, i: int) -> bool {
    !present[i] && forall|j: int| 0 <= j < i ==> files[j] != files[i]
}

/// The operations among the first `n` that a run renders, in order.
pub open spec fn renders(files: Seq<Seq<char>>, present: Seq<bool>, n: int) -> Seq<int>
    decreases n,
{
    if n <= 0 {
        Seq::empty()
    } else if needs_render(files, present, n - 1) {
        renders(files, present, n - 1).push(n - 1)
    } else {
        renders(files, present, n - 1)
    }
}

/// The file of operation `i` is there after a run: some operation with
/// that file had it before the run, or the run rendered one.
pub open spec fn present_after(files: Seq<Seq<char>>, present: Seq<bool>, i: int) -> bool {
    (exists|j: int| 0 <= j < files.len() && present[j] && files[j] == files[i]) || (exists|k: int|
        renders(files, present, files.len() as int).contains(k) && files[k] == files[i])
}

proof fn lemma_renders_members(files: Seq<Seq<char>>, present: Seq<bool>, n: int)
    requires
        0 <= n <= files.len(),
        files.len() == present.len(),
    ensures
        forall|k: int|
            #[trigger] renders(files, present, n).contains(k) <==> 0 <= k < n && needs_render(
                files,
                present,
                k,
            ),
    decreases n,
{
    if n > 0 {
        lemma_renders_members(files, present, n - 1);
    }
    assert forall|k: int|
        #[trigger] renders(files, present, n).contains(k) <==> 0 <= k < n && needs_render(
            files,
            present,
            k,
        ) by {
        if n <= 0 {
            assert(renders(files, present, n) == Seq::<int>::empty());
            if renders(files, present, n).contains(k) {
                let w = choose|w: int|
                    0 <= w < renders(files, present, n).len() && #[trigger] renders(
                        files,
                        present,
                        n,
                    )[w] == k;
            }
        } else {
            let prev = renders(files, present, n - 1);
            assert(prev.contains(k) <==> 0 <= k < n - 1 && needs_render(files, present, k));
            if needs_render(files, present, n - 1) {
                let q = prev.push(n - 1);
                assert(renders(files, present, n) == q);
                if q.contains(k) {
                    let w = choose|w: int| 0 <= w < q.len() && #[trigger] q[w] == k;
                    if w < prev.len() {
                        assert(prev[w] == k);
                    }
                }
                if k == n - 1 {
                    assert(q[prev.len() as int] == k);
                }
                if prev.contains(k) {
                    let w = choose|w: int| 0 <= w < prev.len() && #[trigger] prev[w] == k;
                    assert(q[w] == k);
                }
            } else {
                assert(renders(files, present, n) == prev);
            }
        }
    }
}

proof fn lemma_nothing_missing(files: Seq<Seq<char>>, present: Seq<bool>, n: int)
    requires
        0 <= n <= files.len(),
        files.len() == present.len(),
        forall|i: int| 0 <= i < present.len() ==> present[i],
    ensures
        renders(files, present, n) == Seq::<int>::empty(),
    decreases n,
{
    if n > 0 {
        lemma_nothing_missing(files, present, n - 1);
    }
}

proof fn lemma_first_occurrence(files: Seq<Seq<char>>, i: int, k: int) -> (j: int)
    requires
        0 <= k <= i < files.len(),
        forall|m: int| 0 <= m < k ==> files[m] != files[i],
    ensures
        0 <= j <= i,
        files[j] == files[i],
        forall|m: int| 0 <= m < j ==> files[m] != files[i],
    decreases i - k,
{
    if files[k] == files[i] {
        k
    } else {
        lemma_first_occurrence(files, i, k + 1)
    }
}

/// Running a plan a second time, after a first run has left every segment
/// file in place, renders nothing: after one run the file of every
/// operation is there, and a run over all-present files renders no
/// operation.
pub proof fn lemma_rerun_renders_nothing(files: Seq<Seq<char>>, present: Seq<bool>)
    requires
        files.len() == present.len(),
    ensures
        forall|i: int| 0 <= i < files.len() ==> present_after(files, present, i),
        renders(
            files,
            Seq::new(files.len(), |i: int| present_after(files, present, i)),
            files.len() as int,
        ) == Seq::<int>::empty(),
{
    let n = files.len() as int;
    lemma_renders_members(files, present, n);
    assert forall|i: int| 0 <= i < n implies present_after(files, present, i) by {
        let j = lemma_first_occurrence(files, i, 0);
        if present[j] {
            assert(0 <= j < files.len() && present[j] && files[j] == files[i]);
        } else {
            assert(needs_render(files, present, j));
            assert(renders(files, present, n).contains(j));
        }
    }
    let after = Seq::new(files.len(), |i: int| present_after(files, present, i));
    lemma_nothing_missing(files, after, n);
}

/// What the file of an operation tells apart: its kind and its (first)
/// track.
pub open spec fn op_sig(op: MixOp) -> (bool, i32) {
    match op {
        MixOp::Slice(s) => (true, s.a.id),
        MixOp::CrossFade(c) => (false, c.a.id),
    }
}

#[verifier::spinoff_prover]
#[verifier::rlimit(60)]
proof fn lemma_slice_files(s: SliceCommand, t: SliceCommand)
    requires
        op_file(MixOp::Slice(s)) == op_file(MixOp::Slice(t)),
    ensures
        s.a.id == t.a.id,
{
    reveal_strlit("slice_");
    reveal_strlit("_");
    let fx = op_file(MixOp::Slice(s));
    let fy = op_file(MixOp::Slice(t));
    let rx = digits(s.from.0.hotcue as nat) + "-"@ + digits(s.to.0.hotcue as nat) + ".mp3"@;
    let ry = digits(t.from.0.hotcue as nat) + "-"@ + digits(t.to.0.hotcue as nat) + ".mp3"@;
    let ux = int_text(s.a.id as int) + seq!['_'] + rx;
    let uy = int_text(t.a.id as int) + seq!['_'] + ry;
    assert(fx =~= "slice_"@ + ux);
    assert(fy =~= "slice_"@ + uy);
    assert(ux =~= fx.subrange(6, fx.len() as int));
    assert(uy =~= fy.subrange(6, fy.len() as int));
    lemma_int_text_prefix(s.a.id as int, t.a.id as int, '_', rx, ry);
}

#[verifier::spinoff_prover]
#[verifier::rlimit(60)]
proof fn lemma_cross_fade_files(c: CrossFadeCommand, d: CrossFadeCommand)
    requires
        op_file(MixOp::CrossFade(c)) == op_file(MixOp::CrossFade(d)),
    ensures
        c.a.id == d.a.id,
{
    reveal_strlit("crossfade_");
    reveal_strlit("-");
    let fx = op_file(MixOp::CrossFade(c));
    let fy = op_file(MixOp::CrossFade(d));
    let rx = digits(c.a_cue.hotcue as nat) + "_"@ + int_text(c.b.id as int) + "-"@ + digits(
        c.b_cue.hotcue as nat,
    ) + ".mp3"@;
    let ry = digits(d.a_cue.hotcue as nat) + "_"@ + int_text(d.b.id as int) + "-"@ + digits(
        d.b_cue.hotcue as nat,
    ) + ".mp3"@;
    let ux = int_text(c.a.id as int) + seq!['-'] + rx;
    let uy = int_text(d.a.id as int) + seq!['-'] + ry;
    assert(fx =~= "crossfade_"@ + ux);
    assert(fy =~= "crossfade_"@ + uy);
    assert(ux =~= fx.subrange(10, fx.len() as int));
    assert(uy =~= fy.subrange(10, fy.len() as int));
    lemma_int_text_prefix(c.a.id as int, d.a.id as int, '-', rx, ry);
}

proof fn lemma_kinds_differ(s: SliceCommand, c: CrossFadeCommand)
    ensures
        op_file(MixOp::Slice(s)) != op_file(MixOp::CrossFade(c)),
{
    reveal_strlit("slice_");
    reveal_strlit("crossfade_");
    let fx = op_file(MixOp::Slice(s));
    let fy = op_file(MixOp::CrossFade(c));
    assert(fx[0] == 's');
    assert(fy[0] == 'c');
}

proof fn lemma_op_file_determines_sig(x: MixOp, y: MixOp)
    requires
        op_file(x) == op_file(y),
    ensures
        op_sig(x) == op_sig(y),
{
    match x {
        MixOp::Slice(s) => match y {
            MixOp::Slice(t) => lemma_slice_files(s, t),
            MixOp::CrossFade(c) => lemma_kinds_differ(s, c),
        },
        MixOp::CrossFade(c) => match y {
            MixOp::Slice(s) => lemma_kinds_differ(s, c),
            MixOp::CrossFade(d) => lemma_cross_fade_files(c, d),
        },
    }
}

proof fn lemma_pair_sigs(catalog: Catalog, tracks: Seq<MixTrack>, i: int, current: u32)
    requires
        tracks.len() >= 2,
        0 <= i < tracks.len() - 1,
        pair_ops(catalog, tracks, i, current) is Ok,
    ensures
        ({
            let more = pair_ops(catalog, tracks, i, current)->Ok_0.0;
            &&& 1 <= more.len() <= 3
            &&& op_sig(more[0]) == (true, tracks[i].id)
            &&& more.len() >= 2 ==> op_sig(more[1]) == (false, tracks[i].id)
            &&& more.len() == 3 ==> i == tracks.len() - 2 && op_sig(more[2]) == (
                true,
                tracks[i + 1].id,
            )
        }),
{
}

/// Operation kinds and tracks of the first `n` pairs: no two operations
/// share both, each belongs to a track before `n`, except the slice of the
/// last track after the last pair.
proof fn lemma_prefix_sigs(catalog: Catalog, tracks: Seq<MixTrack>, n: int, first: u32)
    requires
        tracks.len() >= 2,
        0 <= n <= tracks.len() - 1,
        forall|i: int, j: int| 0 <= i < j < tracks.len() ==> tracks[i].id != tracks[j].id,
        plan_prefix(catalog, tracks, n, first) is Ok,
    ensures
        ({
            let ops = plan_prefix(catalog, tracks, n, first)->Ok_0.0;
            &&& forall|i: int, j: int| 0 <= i < j < ops.len() ==> op_sig(ops[i]) != op_sig(ops[j])
            &&& forall|i: int|
                0 <= i < ops.len() ==> (exists|k: int|
                    0 <= k < n && #[trigger] tracks[k].id == op_sig(ops[i]).1) || (n == tracks.len()
                    - 1 && op_sig(ops[i]) == (true, tracks[tracks.len() - 1].id))
        }),
    decreases n,
{
    if n > 0 {
        lemma_prefix_sigs(catalog, tracks, n - 1, first);
        let (old_ops, current) = plan_prefix(catalog, tracks, n - 1, first)->Ok_0;
        lemma_pair_sigs(catalog, tracks, n - 1, current);
        let more = pair_ops(catalog, tracks, n - 1, current)->Ok_0.0;
        let ops = plan_prefix(catalog, tracks, n, first)->Ok_0.0;
        assert(ops == old_ops + more);
        let last = tracks.len() - 1;
        assert forall|i: int| 0 <= i < old_ops.len() implies op_sig(old_ops[i]).1 != tracks[n - 1].id
            && op_sig(old_ops[i]).1 != tracks[last].id by {
            let k = choose|k: int| 0 <= k < n - 1 && #[trigger] tracks[k].id == op_sig(old_ops[i]).1;
        }
        assert forall|i: int, j: int| 0 <= i < j < ops.len() implies op_sig(ops[i]) != op_sig(ops[j]) by {
            if j >= old_ops.len() {
                if i < old_ops.len() {
                    assert(ops[i] == old_ops[i]);
                }
            } else {
                assert(ops[i] == old_ops[i]);
                assert(ops[j] == old_ops[j]);
            }
        }
        assert forall|i: int|
            0 <= i < ops.len() implies (exists|k: int|
                0 <= k < n && #[trigger] tracks[k].id == op_sig(ops[i]).1) || (n == tracks.len() - 1
                && op_sig(ops[i]) == (true, tracks[tracks.len() - 1].id)) by {
            if i < old_ops.len() {
                assert(ops[i] == old_ops[i]);
                let k = choose|k: int| 0 <= k < n - 1 && #[trigger] tracks[k].id == op_sig(old_ops[i]).1;
                assert(0 <= k < n && tracks[k].id == op_sig(ops[i]).1);
            } else if i - old_ops.len() < 2 {
                assert(tracks[n - 1].id == op_sig(ops[i]).1);
            }
        }
    }
}

/// A plan of tracks with distinct ids renders every operation into a file
/// of its own: the concatenation list names no file twice.
pub proof fn lemma_plan_files_distinct(catalog: Catalog, tracks: Seq<MixTrack>)
    requires
        tracks.len() >= 2,
        forall|i: int, j: int| 0 <= i < j < tracks.len() ==> tracks[i].id != tracks[j].id,
        plan(catalog, tracks) is Ok,
    ensures
        ({
            let files = op_files(plan(catalog, tracks)->Ok_0);
            forall|i: int, j: int| 0 <= i < j < files.len() ==> files[i] != files[j]
        }),
{
    let first = tracks[0].bpm->Some_0;
    lemma_prefix_sigs(catalog, tracks, tracks.len() - 1, first);
    let ops = plan(catalog, tracks)->Ok_0;
    assert forall|i: int, j: int| 0 <= i < j < ops.len() implies op_files(ops)[i] != op_files(ops)[j] by {
        if op_files(ops)[i] == op_files(ops)[j] {
            lemma_op_file_determines_sig(ops[i], ops[j]);
        }
    }
}

/// The line of the concatenation list for one file.
pub open spec fn manifest_line(file: Seq<char>) -> Seq<char> {
    "file '"@ + file + "'"@
}

/// The concatenation list: one line per file, in order.
pub open spec fn manifest(files: Seq<Seq<char>>) -> Seq<char> {
    join(files.map_values(|f: Seq<char>| manifest_line(f)), "\n"@)
}

/// What one run of a plan does: render the listed operations in order,
/// write the concatenation list, and join the segments into the final file
/// unless that is already there.
#[derive(Debug)]
pub struct MixRun {
    pub render: Vec<usize>,
    pub file_list: String,
    pub concat: bool,
}

impl MixOp {
    /// The file this operation renders into: its identity followed by
    /// `.mp3`.
    pub fn output_file(&self) -> (r: String)
        ensures
            r@ == op_file(*self),
    {
        let mut r = match self {
            MixOp::Slice(s) => s.id(),
            MixOp::CrossFade(c) => c.id(),
        };
        r.append(".mp3");
        r
    }
}

proof fn lemma_failure_persists(
    catalog: Catalog,
    tracks: Seq<MixTrack>,
    k: int,
    m: int,
    first: u32,
)
    requires
        0 <= k <= m,
        plan_prefix(catalog, tracks, k, first) is Err,
    ensures
        plan_prefix(catalog, tracks, m, first) == plan_prefix(catalog, tracks, k, first),
    decreases m - k,
{
    if m > k {
        lemma_failure_persists(catalog, tracks, k, m - 1, first);
    }
}

/// The operations of pair `i`, as `pair_ops` states them.
fn pair(catalog: &Catalog, tracks: &[MixTrack], i: usize, current: u32) -> (r: Result<
    (Vec<MixOp>, u32),
    MixError,
>)
    requires
        tracks@.len() >= 2,
        i < tracks@.len() - 1,
    ensures
        match pair_ops(*catalog, tracks@, i as int, current) {
            Ok((ops, next)) => r matches Ok((v, n)) && v@ == ops && n == next,
            Err(e) => r == Err::<(Vec<MixOp>, u32), MixError>(e),
        },
{
    let n = tracks.len();
    let a = &tracks[i];
    let b = &tracks[i + 1];
    let prev: u32 = if i == 0 {
        0
    } else {
        tracks[i - 1].crossfade
    };
    if prev > i32::MAX as u32 {
        return Err(MixError::InvalidParameter);
    }
    let a_slice = match SliceCommand::new(
        catalog,
        a.id,
        a.begin_hotcue,
        prev as i32,
        a.end_hotcue,
        0,
        current,
        a.to_bpm,
    ) {
        Ok(s) => s,
        Err(e) => return Err(e),
    };
    let next = match a.to_bpm {
        Some(t) => t,
        None => current,
    };
    let mut ops: Vec<MixOp> = Vec::new();
    ops.push(MixOp::Slice(a_slice));
    if a.crossfade != 0 {
        let cross_fade = match CrossFadeCommand::new(
            catalog,
            a.id,
            a.end_hotcue,
            b.id,
            b.begin_hotcue,
            a.crossfade,
            next,
        ) {
            Ok(c) => c,
            Err(e) => return Err(e),
        };
        ops.push(MixOp::CrossFade(cross_fade));
        if i == n - 2 {
            if a.crossfade > i32::MAX as u32 {
                return Err(MixError::InvalidParameter);
            }
            let b_slice = match SliceCommand::new(
                catalog,
                b.id,
                b.begin_hotcue,
                a.crossfade as i32,
                b.end_hotcue,
                0,
                next,
                None,
            ) {
                Ok(s) => s,
                Err(e) => return Err(e),
            };
            ops.push(MixOp::Slice(b_slice));
        }
    }
    proof {
        if let Ok((want, _)) = pair_ops(*catalog, tracks@, i as int, current) {
            assert(ops@ =~= want);
        }
    }
    Ok((ops, next))
}

impl MixList {
    /// Plans a mix of `tracks` (at least two rows): for each adjacent pair
    /// a slice of the first row and, unless the pair is a hard cut, a
    /// cross-fade into the second, threading the tempo from the first row's
    /// `bpm` through each row's `to_bpm`.
    pub fn from_tracks(catalog: &Catalog, tracks: &[MixTrack]) -> (r: Result<Self, MixError>)
        requires
            tracks@.len() >= 2,
        ensures
            match plan(*catalog, tracks@) {
                Ok(ops) => r matches Ok(l) && l.ops@ == ops,
                Err(e) => r == Err::<MixList, MixError>(e),
            },
    {
        let mut current = match tracks[0].bpm {
            Some(b) => b,
            None => return Err(MixError::InvalidParameter),
        };
        let ghost first = current;
        let n = tracks.len();
        let mut ops: Vec<MixOp> = Vec::new();
        let mut i: usize = 0;
        while i < n - 1
            invariant
                n == tracks@.len(),
                n >= 2,
                0 <= i <= n - 1,
                tracks@[0].bpm == Some(first),
                plan_prefix(*catalog, tracks@, i as int, first) == Ok::<(Seq<MixOp>, u32), MixError>(
                    (ops@, current),
                ),
            decreases n - 1 - i,
        {
            match pair(catalog, tracks, i, current) {
                Ok((more, next)) => {
                    let mut more = more;
                    ops.append(&mut more);
                    current = next;
                },
                Err(e) => {
                    proof {
                        lemma_failure_persists(*catalog, tracks@, i + 1, n - 1, first);
                    }
                    return Err(e);
                },
            }
            i += 1;
        }
        Ok(MixList { ops })
    }

    /// The file of each operation, in plan order.
    pub fn output_files(&self) -> (r: Vec<String>)
        ensures
            texts(r@) == op_files(self.ops@),
    {
        let mut r: Vec<String> = Vec::new();
        let mut i: usize = 0;
        while i < self.ops.len()
            invariant
                0 <= i <= self.ops@.len(),
                texts(r@) == op_files(self.ops@.subrange(0, i as int)),
            decreases self.ops@.len() - i,
        {
            let ghost before = texts(r@);
            let f = self.ops[i].output_file();
            r.push(f);
            assert(texts(r@) =~= before.push(f@));
            assert(op_files(self.ops@.subrange(0, i + 1)) =~= op_files(
                self.ops@.subrange(0, i as int),
            ).push(op_file(self.ops@[i as int])));
            i += 1;
        }
        assert(self.ops@.subrange(0, self.ops@.len() as int) =~= self.ops@);
        r
    }

    /// The concatenation list of the plan: `file '<file>'` for each
    /// operation, in plan order, one per line.
    pub fn file_list(&self) -> (r: String)
        ensures
            r@ == manifest(op_files(self.ops@)),
    {
        let files = self.output_files();
        let mut lines: Vec<String> = Vec::new();
        let mut i: usize = 0;
        while i < files.len()
            invariant
                0 <= i <= files@.len(),
                texts(lines@) == texts(files@).subrange(0, i as int).map_values(
                    |f: Seq<char>| manifest_line(f),
                ),
            decreases files@.len() - i,
        {
            let mut line = String::from_str("file '");
            line.append(files[i].as_str());
            line.append("'");
            let ghost before = texts(lines@);
            lines.push(line);
            assert(texts(lines@) =~= before.push(manifest_line(files@[i as int]@)));
            assert(texts(lines@) =~= texts(files@).subrange(0, i + 1).map_values(
                |f: Seq<char>| manifest_line(f),
            ));
            i += 1;
        }
        assert(texts(files@).subrange(0, files@.len() as int) =~= texts(files@));
        join_strings(&lines, "\n")
    }

    /// One run of the plan. `present[i]` tells whether the file of
    /// operation `i` was there before the run, `out_present` whether the
    /// final file was. The run renders, in order, each operation whose file
    /// was missing and is not rendered earlier in the same run, writes the
    /// concatenation list, and joins the segments unless the final file was
    /// there.
    pub fn execute(&self, present: &Vec<bool>, out_present: bool) -> (r: MixRun)
        requires
            present@.len() == self.ops@.len(),
        ensures
            r.render@.map_values(|i: usize| i as int) == renders(
                op_files(self.ops@),
                present@,
                self.ops@.len() as int,
            ),
            r.file_list@ == manifest(op_files(self.ops@)),
            r.concat == !out_present,
    {
        let files = self.output_files();
        let ghost names = op_files(self.ops@);
        let mut render: Vec<usize> = Vec::new();
        let mut i: usize = 0;
        while i < files.len()
            invariant
                texts(files@) == names,
                names.len() == present@.len(),
                0 <= i <= files@.len(),
                render@.map_values(|k: usize| k as int) == renders(names, present@, i as int),
            decreases files@.len() - i,
        {
            let mut needed = !present[i];
            let mut j: usize = 0;
            while j < i && needed
                invariant
                    texts(files@) == names,
                    names.len() == present@.len(),
                    0 <= j <= i < files@.len(),
                    needed == (!present@[i as int] && forall|k: int|
                        0 <= k < j ==> names[k] != names[i as int]),
                decreases i - j,
            {
                assert(names[j as int] == files@[j as int]@ && names[i as int] == files@[i as int]@);
                if files[j] == files[i] {
                    needed = false;
                }
                j += 1;
            }
            assert(needed == needs_render(names, present@, i as int));
            if needed {
                render.push(i);
            }
            assert(render@.map_values(|k: usize| k as int) =~= renders(names, present@, i + 1));
            i += 1;
        }
        MixRun { render, file_list: self.file_list(), concat: !out_present }
    }
}

} // verus!
